//! Command dispatch: decodes one message buffer into a command and argument
//! tokens, executes it against the Bloom filter, and produces a reply buffer.
//!
//! A message holds a three-byte command code, one separator byte, and a
//! whitespace-delimited argument region, optionally NUL-padded. Every message
//! yields exactly one reply; malformed messages yield an error reply.

use vstd::prelude::*;
use vstd::slice::slice_subrange;
use vstd::slice::slice_to_vec;
use vstd::string::StringSliceAdditionalSpecFns;
use crate::bits::serialized;
use crate::bloom_filter::BloomFilter;
use crate::bloom_filter::apply_add_all;
use crate::bloom_filter::apply_remove;
use crate::bloom_filter::apply_remove_all;
use crate::bloom_filter::model_has;
use crate::bloom_filter::spec_count;
use crate::tokenize::is_ws;
use crate::tokenize::split_whitespace;
use crate::tokenize::tokens;

verus! {

/// The reasons a message can fail to dispatch; each carries the textual
/// explanation that goes into the error reply.
#[derive(Clone, Copy, PartialEq, Eq, Structural, Debug)]
pub enum ParseError {
    /// The buffer is too short to hold a three-byte command code.
    NoCommand,
    /// The buffer ends before the argument region can start.
    NoArgument,
    /// An element-taking command came with no argument tokens.
    NoElements,
    /// A token-taking query came with no argument tokens.
    NoToken,
}

impl ParseError {
    /// The explanation text of this error, as reply bytes.
    pub open spec fn spec_message(&self) -> Seq<u8> {
        match self {
            ParseError::NoCommand => "Could not get command.".spec_bytes(),
            ParseError::NoArgument => "Could not get argument.".spec_bytes(),
            ParseError::NoElements => "Specify at least one element.".spec_bytes(),
            ParseError::NoToken => "Could not get token".spec_bytes(),
        }
    }

    /// Returns the explanation text of this error.
    pub fn message_bytes(&self) -> (r: Vec<u8>)
        ensures
            r@ == self.spec_message(),
    {
        match self {
            ParseError::NoCommand => str_bytes("Could not get command."),
            ParseError::NoArgument => str_bytes("Could not get argument."),
            ParseError::NoElements => str_bytes("Specify at least one element."),
            ParseError::NoToken => str_bytes("Could not get token"),
        }
    }
}

/// Copies the bytes of a string slice.
fn str_bytes(s: &str) -> (r: Vec<u8>)
    ensures
        r@ == s.spec_bytes(),
{
    slice_to_vec(s.as_bytes())
}

/// A lower-case ASCII letter folded to upper case; any other byte unchanged.
pub open spec fn up(b: u8) -> u8 {
    if 0x61 <= b <= 0x7a {
        (b - 0x20) as u8
    } else {
        b
    }
}

/// The message's three-byte command code, folded to upper case.
pub open spec fn cmd_code(m: Seq<u8>) -> Seq<u8>
    recommends
        m.len() >= 3,
{
    seq![up(m[0]), up(m[1]), up(m[2])]
}

/// The code of the command that adds elements (`ADD` in ASCII).
pub open spec fn add_code() -> Seq<u8> {
    seq![0x41u8, 0x44u8, 0x44u8]
}

/// The code of the command that removes elements (`RMV` in ASCII).
pub open spec fn rmv_code() -> Seq<u8> {
    seq![0x52u8, 0x4du8, 0x56u8]
}

/// The code of the membership query (`HAS` in ASCII).
pub open spec fn has_code() -> Seq<u8> {
    seq![0x48u8, 0x41u8, 0x53u8]
}

/// The code of the occurrence-count query (`CNT` in ASCII).
pub open spec fn cnt_code() -> Seq<u8> {
    seq![0x43u8, 0x4eu8, 0x54u8]
}

/// The code of the export command (`BIN` in ASCII).
pub open spec fn bin_code() -> Seq<u8> {
    seq![0x42u8, 0x49u8, 0x4eu8]
}

/// The decimal digits of `n`, most significant first, as ASCII bytes.
pub open spec fn dec_rep(n: int) -> Seq<u8>
    recommends
        n >= 0,
    decreases n,
{
    if n < 10 {
        seq![(0x30 + n) as u8]
    } else {
        dec_rep(n / 10).push((0x30 + n % 10) as u8)
    }
}

/// `s` with every trailing whitespace byte removed.
pub open spec fn trim_end_ws(s: Seq<u8>) -> Seq<u8>
    decreases s.len(),
{
    if s.len() == 0 {
        s
    } else if is_ws(s.last()) {
        trim_end_ws(s.drop_last())
    } else {
        s
    }
}

/// The reply that acknowledges a mutation.
pub open spec fn ok_reply() -> Seq<u8> {
    "OK.\n".spec_bytes()
}

/// The reply to a membership query that found the element.
pub open spec fn yes_reply() -> Seq<u8> {
    "Yes.\n".spec_bytes()
}

/// The reply to a membership query that did not find the element.
pub open spec fn no_reply() -> Seq<u8> {
    "No.\n".spec_bytes()
}

/// The reply to an occurrence-count query: the count in decimal, a period,
/// a newline.
pub open spec fn cnt_reply(c: u32) -> Seq<u8> {
    dec_rep(c as int) + ".\n".spec_bytes()
}

/// The reply to an unknown command code: an error line naming the code, its
/// trailing whitespace trimmed.
pub open spec fn invalid_reply(cmd: Seq<u8>) -> Seq<u8> {
    "ERROR. Invalid command ".spec_bytes() + trim_end_ws(cmd) + ".\n".spec_bytes()
}

/// The reply that surfaces a dispatch error to the client.
pub open spec fn error_reply(e: ParseError) -> Seq<u8> {
    "ERROR. ".spec_bytes() + e.spec_message() + "\n".spec_bytes()
}

/// The membership bits that correspond to the counters `cs`.
pub open spec fn bits_view(cs: Seq<u32>) -> Seq<bool> {
    Seq::new(cs.len(), |i: int| cs[i] > 0)
}

/// The argument tokens of message `m`: its bytes after the command code and
/// separator, split on whitespace.
pub open spec fn msg_tokens(m: Seq<u8>) -> Seq<Seq<u8>> {
    tokens(m.skip(4))
}

/// What dispatching message `m` against counters `cs` replies: the reply
/// bytes, or the dispatch error.
pub open spec fn spec_outcome(cs: Seq<u32>, m: Seq<u8>) -> Result<Seq<u8>, ParseError> {
    if m.len() < 3 {
        Err(ParseError::NoCommand)
    } else if m.len() < 4 {
        Err(ParseError::NoArgument)
    } else {
        let c = cmd_code(m);
        let toks = msg_tokens(m);
        if c == add_code() {
            if toks.len() == 0 {
                Err(ParseError::NoElements)
            } else {
                Ok(ok_reply())
            }
        } else if c == rmv_code() {
            if toks.len() == 0 {
                Err(ParseError::NoElements)
            } else {
                Ok(ok_reply())
            }
        } else if c == has_code() {
            if toks.len() == 0 {
                Err(ParseError::NoToken)
            } else {
                Ok(
                    if model_has(cs, toks[0]) {
                        yes_reply()
                    } else {
                        no_reply()
                    },
                )
            }
        } else if c == cnt_code() {
            if toks.len() == 0 {
                Err(ParseError::NoToken)
            } else {
                Ok(cnt_reply(spec_count(cs, toks[0])))
            }
        } else if c == bin_code() {
            Ok(serialized(bits_view(cs)))
        } else {
            Ok(invalid_reply(m.subrange(0, 3)))
        }
    }
}

/// What dispatching message `m` does to the counters `cs`: additions and
/// removals mutate, everything else leaves the filter alone.
pub open spec fn spec_step(cs: Seq<u32>, m: Seq<u8>) -> Seq<u32> {
    if m.len() < 4 {
        cs
    } else {
        let c = cmd_code(m);
        let toks = msg_tokens(m);
        if c == add_code() && toks.len() > 0 {
            apply_add_all(cs, toks)
        } else if c == rmv_code() && toks.len() > 0 {
            apply_remove_all(cs, toks)
        } else {
            cs
        }
    }
}

/// The reply the dispatcher sends for message `m` against counters `cs`:
/// the command's reply, or an error line.
pub open spec fn spec_server_reply(cs: Seq<u32>, m: Seq<u8>) -> Seq<u8> {
    match spec_outcome(cs, m) {
        Ok(b) => b,
        Err(e) => error_reply(e),
    }
}

/// Folds a lower-case ASCII letter to upper case; leaves other bytes alone.
fn upper(b: u8) -> (r: u8)
    ensures
        r == up(b),
{
    if 0x61 <= b && b <= 0x7a {
        b - 0x20
    } else {
        b
    }
}

/// Appends the decimal digits of `n`, most significant first.
fn push_dec(n: u32, out: &mut Vec<u8>)
    ensures
        final(out)@ == old(out)@ + dec_rep(n as int),
    decreases n,
{
    if n < 10 {
        out.push(0x30 + (n as u8));
        proof {
            assert(final(out)@ =~= old(out)@ + dec_rep(n as int));
        }
    } else {
        push_dec(n / 10, out);
        out.push(0x30 + ((n % 10) as u8));
        proof {
            assert(final(out)@ =~= old(out)@ + dec_rep(n as int));
        }
    }
}

/// The decimal digits of `n`, most significant first, as ASCII bytes.
pub fn u32_to_dec(n: u32) -> (r: Vec<u8>)
    ensures
        r@ == dec_rep(n as int),
{
    let mut r: Vec<u8> = Vec::new();
    push_dec(n, &mut r);
    proof {
        assert(Seq::<u8>::empty() + dec_rep(n as int) =~= dec_rep(n as int));
    }
    r
}

/// Copies `data` with every trailing whitespace byte removed.
fn trim_end_bytes(data: &[u8]) -> (r: Vec<u8>)
    ensures
        r@ == trim_end_ws(data@),
{
    let mut end = data.len();
    proof {
        assert(data@.subrange(0, data@.len() as int) =~= data@);
    }
    while end > 0 && (data[end - 1] == 9 || data[end - 1] == 10 || data[end - 1] == 13 || data[end
        - 1] == 32)
        invariant
            end <= data@.len(),
            trim_end_ws(data@) == trim_end_ws(data@.subrange(0, end as int)),
        decreases end,
    {
        proof {
            assert(data@.subrange(0, end as int).drop_last() =~= data@.subrange(0, end as int - 1));
        }
        end -= 1;
    }
    let r = slice_to_vec(slice_subrange(data, 0, end));
    proof {
        assert(trim_end_ws(data@.subrange(0, end as int)) == data@.subrange(0, end as int));
    }
    r
}

/// Handles one incoming message: parses the command, executes it against the
/// filter, and returns the reply bytes or the dispatch error.
pub fn handle_message(bf: &mut BloomFilter, message: &[u8]) -> (r: Result<Vec<u8>, ParseError>)
    requires
        old(bf).wf(),
    ensures
        final(bf).wf(),
        final(bf).counters() == spec_step(old(bf).counters(), message@),
        r matches Ok(b) ==> spec_outcome(old(bf).counters(), message@) == Ok::<
            Seq<u8>,
            ParseError,
        >(b@),
        r matches Err(e) ==> spec_outcome(old(bf).counters(), message@) == Err::<
            Seq<u8>,
            ParseError,
        >(e),
{
    if message.len() < 3 {
        return Err(ParseError::NoCommand);
    }
    if message.len() < 4 {
        return Err(ParseError::NoArgument);
    }
    let c0 = upper(message[0]);
    let c1 = upper(message[1]);
    let c2 = upper(message[2]);
    proof {
        assert(cmd_code(message@) =~= seq![c0, c1, c2]);
    }
    let rest = slice_subrange(message, 4, message.len());
    let toks = split_whitespace(rest);
    proof {
        assert(rest@ =~= message@.skip(4));
        assert(toks.deep_view() == msg_tokens(message@));
        assert(toks.deep_view().len() == toks@.len());
    }
    if c0 == 0x41 && c1 == 0x44 && c2 == 0x44 {
        // ADD
        proof {
            assert(cmd_code(message@) =~= add_code());
        }
        if toks.len() == 0 {
            return Err(ParseError::NoElements);
        }
        let ghost es = msg_tokens(message@);
        let mut elems: Vec<&[u8]> = Vec::new();
        let mut j: usize = 0;
        while j < toks.len()
            invariant
                j <= toks@.len(),
                elems@.len() == j,
                toks.deep_view() == es,
                forall|i: int| 0 <= i < j ==> elems@[i]@ == es[i],
            decreases toks@.len() - j,
        {
            elems.push(toks[j].as_slice());
            j += 1;
        }
        proof {
            assert(elems.deep_view() =~~= es);
        }
        bf.add(elems);
        Ok(str_bytes("OK.\n"))
    } else if c0 == 0x52 && c1 == 0x4d && c2 == 0x56 {
        // RMV
        proof {
            assert(cmd_code(message@) =~= rmv_code());
            assert(cmd_code(message@) != add_code());
        }
        if toks.len() == 0 {
            return Err(ParseError::NoElements);
        }
        let ghost es = msg_tokens(message@);
        proof {
            assert(es.skip(0) =~= es);
        }
        let mut j: usize = 0;
        while j < toks.len()
            invariant
                old(bf).wf(),
                bf.wf(),
                j <= toks@.len(),
                toks.deep_view() == es,
                toks@.len() == es.len(),
                apply_remove_all(old(bf).counters(), es) == apply_remove_all(
                    bf.counters(),
                    es.skip(j as int),
                ),
            decreases toks@.len() - j,
        {
            let ghost pre = bf.counters();
            bf.remove(toks[j].as_slice());
            proof {
                assert(toks@[j as int]@ == es[j as int]);
                assert(es.skip(j as int)[0] == es[j as int]);
                assert(es.skip(j as int).drop_first() =~= es.skip(j as int + 1));
                assert(apply_remove_all(pre, es.skip(j as int)) == apply_remove_all(
                    apply_remove(pre, es[j as int]),
                    es.skip(j as int + 1),
                ));
            }
            j += 1;
        }
        proof {
            assert(es.skip(es.len() as int) =~= Seq::<Seq<u8>>::empty());
        }
        Ok(str_bytes("OK.\n"))
    } else if c0 == 0x48 && c1 == 0x41 && c2 == 0x53 {
        // HAS
        proof {
            assert(cmd_code(message@) =~= has_code());
            assert(cmd_code(message@) != add_code());
            assert(cmd_code(message@) != rmv_code());
        }
        if toks.len() == 0 {
            return Err(ParseError::NoToken);
        }
        proof {
            assert(toks@[0]@ == msg_tokens(message@)[0]);
        }
        let contained = bf.has(toks[0].as_slice());
        if contained {
            Ok(str_bytes("Yes.\n"))
        } else {
            Ok(str_bytes("No.\n"))
        }
    } else if c0 == 0x43 && c1 == 0x4e && c2 == 0x54 {
        // CNT
        proof {
            assert(cmd_code(message@) =~= cnt_code());
            assert(cmd_code(message@) != add_code());
            assert(cmd_code(message@) != rmv_code());
            assert(cmd_code(message@) != has_code());
        }
        if toks.len() == 0 {
            return Err(ParseError::NoToken);
        }
        proof {
            assert(toks@[0]@ == msg_tokens(message@)[0]);
        }
        let c = bf.count(toks[0].as_slice());
        let mut reply = u32_to_dec(c);
        let mut tail = str_bytes(".\n");
        reply.append(&mut tail);
        Ok(reply)
    } else if c0 == 0x42 && c1 == 0x49 && c2 == 0x4e {
        // BIN
        proof {
            assert(cmd_code(message@) =~= bin_code());
            assert(cmd_code(message@) != add_code());
            assert(cmd_code(message@) != rmv_code());
            assert(cmd_code(message@) != has_code());
            assert(cmd_code(message@) != cnt_code());
        }
        let reply = bf.to_bytes();
        proof {
            assert(bits_view(bf.counters()) =~= bf.bits());
        }
        Ok(reply)
    } else {
        proof {
            assert(cmd_code(message@) != add_code());
            assert(cmd_code(message@) != rmv_code());
            assert(cmd_code(message@) != has_code());
            assert(cmd_code(message@) != cnt_code());
            assert(cmd_code(message@) != bin_code());
        }
        let cmd = slice_subrange(message, 0, 3);
        let mut reply = str_bytes("ERROR. Invalid command ");
        let mut trimmed = trim_end_bytes(cmd);
        reply.append(&mut trimmed);
        let mut tail = str_bytes(".\n");
        reply.append(&mut tail);
        proof {
            assert(cmd@ == message@.subrange(0, 3));
        }
        Ok(reply)
    }
}

/// Handles one message on behalf of the server loop: dispatches it against
/// the filter it owns and returns the single reply buffer owed for it, an
/// error line if the message was malformed.
pub fn handle_server(bf: &mut BloomFilter, message: &[u8]) -> (reply: Vec<u8>)
    requires
        old(bf).wf(),
    ensures
        final(bf).wf(),
        final(bf).counters() == spec_step(old(bf).counters(), message@),
        reply@ == spec_server_reply(old(bf).counters(), message@),
{
    match handle_message(bf, message) {
        Ok(b) => b,
        Err(e) => {
            let mut reply = str_bytes("ERROR. ");
            let mut msg = e.message_bytes();
            reply.append(&mut msg);
            let mut tail = str_bytes("\n");
            reply.append(&mut tail);
            reply
        },
    }
}

} // verus!


