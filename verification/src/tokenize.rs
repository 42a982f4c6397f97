//! Byte tokenizer for the command protocol: splits an argument region on
//! whitespace into non-empty tokens, stopping at the first NUL byte.

use vstd::prelude::*;
use vstd::slice::slice_subrange;
use vstd::slice::slice_to_vec;

verus! {

/// The protocol's whitespace bytes: tab, line feed, carriage return, space.
pub open spec fn is_ws(b: u8) -> bool {
    b == 9 || b == 10 || b == 13 || b == 32
}

/// The longest token prefix of `s`: its leading run of bytes that are
/// neither whitespace nor NUL.
pub open spec fn head_token(s: Seq<u8>) -> Seq<u8>
    decreases s.len(),
{
    if s.len() == 0 || s[0] == 0 || is_ws(s[0]) {
        Seq::empty()
    } else {
        seq![s[0]] + head_token(s.drop_first())
    }
}

/// The token prefix never outruns the input.
pub proof fn lemma_head_token_len(s: Seq<u8>)
    ensures
        head_token(s).len() <= s.len(),
    decreases s.len(),
{
    if s.len() == 0 || s[0] == 0 || is_ws(s[0]) {
    } else {
        lemma_head_token_len(s.drop_first());
    }
}

/// The tokens of `s`, in order: maximal runs of non-whitespace bytes before
/// the first NUL (or the end), with whitespace runs collapsing to nothing.
pub open spec fn tokens(s: Seq<u8>) -> Seq<Seq<u8>>
    decreases s.len(),
    via tokens_decreases
{
    if s.len() == 0 {
        Seq::empty()
    } else if s[0] == 0 {
        Seq::empty()
    } else if is_ws(s[0]) {
        tokens(s.drop_first())
    } else {
        seq![head_token(s)] + tokens(s.skip(head_token(s).len() as int))
    }
}

#[via_fn]
proof fn tokens_decreases(s: Seq<u8>) {
    lemma_head_token_len(s);
}

/// Splits the byte buffer into its tokens: runs of non-whitespace bytes, in
/// order, truncated at the first NUL byte.
pub fn split_whitespace(data: &[u8]) -> (r: Vec<Vec<u8>>)
    ensures
        r.deep_view() == tokens(data@),
{
    let len = data.len();
    let mut r: Vec<Vec<u8>> = Vec::new();
    let mut i: usize = 0;
    proof {
        assert(data@.skip(0) =~= data@);
        assert(r.deep_view() =~= Seq::<Seq<u8>>::empty());
    }
    while i < len
        invariant
            i <= len,
            len == data@.len(),
            tokens(data@) == r.deep_view() + tokens(data@.skip(i as int)),
        decreases len - i,
    {
        let b = data[i];
        if b == 0 {
            proof {
                assert(tokens(data@.skip(i as int)) =~= Seq::<Seq<u8>>::empty());
                assert(r.deep_view() =~= r.deep_view() + Seq::<Seq<u8>>::empty());
            }
            return r;
        } else if b == 9 || b == 10 || b == 13 || b == 32 {
            proof {
                assert(data@.skip(i as int).drop_first() =~= data@.skip(i as int + 1));
            }
            i += 1;
        } else {
            let start = i;
            proof {
                assert(data@.subrange(start as int, i as int) + head_token(
                    data@.skip(i as int),
                ) =~= head_token(data@.skip(start as int)));
            }
            while i < len && data[i] != 0 && !(data[i] == 9 || data[i] == 10 || data[i] == 13
                || data[i] == 32)
                invariant
                    start <= i <= len,
                    len == data@.len(),
                    head_token(data@.skip(start as int)) == data@.subrange(
                        start as int,
                        i as int,
                    ) + head_token(data@.skip(i as int)),
                decreases len - i,
            {
                proof {
                    assert(data@.skip(i as int)[0] == data@[i as int]);
                    assert(data@.skip(i as int).drop_first() =~= data@.skip(i as int + 1));
                    assert(head_token(data@.skip(i as int)) == seq![data@[i as int]] + head_token(
                        data@.skip(i as int + 1),
                    ));
                    assert(data@.subrange(start as int, i as int) + seq![data@[i as int]]
                        =~= data@.subrange(start as int, i as int + 1));
                    assert(data@.subrange(start as int, i as int + 1) + head_token(
                        data@.skip(i as int + 1),
                    ) =~= data@.subrange(start as int, i as int) + (seq![data@[i as int]]
                        + head_token(data@.skip(i as int + 1))));
                }
                i += 1;
            }
            let token = slice_to_vec(slice_subrange(data, start, i));
            proof {
                assert(head_token(data@.skip(i as int)) =~= Seq::<u8>::empty());
                assert(head_token(data@.skip(start as int)) =~= data@.subrange(
                    start as int,
                    i as int,
                ));
                assert(data@.skip(start as int).skip((i - start) as int) =~= data@.skip(i as int));
                assert(tokens(data@.skip(start as int)) == seq![
                    head_token(data@.skip(start as int)),
                ] + tokens(data@.skip(i as int)));
            }
            let ghost pre = r.deep_view();
            r.push(token);
            proof {
                assert(token.deep_view() =~= token@);
                assert(r.deep_view() =~= pre.push(data@.subrange(start as int, i as int)));
                assert(pre + tokens(data@.skip(start as int)) =~= r.deep_view() + tokens(
                    data@.skip(i as int),
                ));
            }
        }
    }
    proof {
        assert(tokens(data@.skip(len as int)) =~= Seq::<Seq<u8>>::empty());
        assert(r.deep_view() =~= r.deep_view() + Seq::<Seq<u8>>::empty());
    }
    r
}

} // verus!
