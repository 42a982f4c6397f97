//! Filter-wide laws, proved over the operation model: a history of additions
//! and removals applied to a fresh filter.

use vstd::prelude::*;
use crate::M;
use crate::bloom_filter::apply_add;
use crate::bloom_filter::apply_remove;
use crate::bloom_filter::idx_count;
use crate::bloom_filter::model_has;
use crate::bloom_filter::spec_count;
use crate::hashing::spec_hash_index;

verus! {

/// One mutation of the filter: one element added or removed once.
pub enum Op {
    Add(Seq<u8>),
    Remove(Seq<u8>),
}

/// The element an operation touches.
pub open spec fn op_elem(op: Op) -> Seq<u8> {
    match op {
        Op::Add(e) => e,
        Op::Remove(e) => e,
    }
}

/// `+1` for an addition, `-1` for a removal.
pub open spec fn op_sign(op: Op) -> int {
    match op {
        Op::Add(_) => 1,
        Op::Remove(_) => -1,
    }
}

/// What an unclamped operation does to the counter at position `i`.
pub open spec fn op_delta(op: Op, i: int) -> int {
    op_sign(op) * idx_count(op_elem(op), i)
}

/// Additions minus removals of element `e` over the history `ops`.
pub open spec fn net(ops: Seq<Op>, e: Seq<u8>) -> int
    decreases ops.len(),
{
    if ops.len() == 0 {
        0
    } else {
        net(ops.drop_last(), e) + if op_elem(ops.last()) == e {
            op_sign(ops.last())
        } else {
            0
        }
    }
}

/// The signed sum of all tuple hits at position `i` over the history `ops`.
pub open spec fn tally(ops: Seq<Op>, i: int) -> int
    decreases ops.len(),
{
    if ops.len() == 0 {
        0
    } else {
        tally(ops.drop_last(), i) + op_delta(ops.last(), i)
    }
}

/// A history is remove-safe when every removal targets an element with at
/// least one net addition at that moment: nothing is removed that is not
/// (net) present.
pub open spec fn remove_safe(ops: Seq<Op>) -> bool {
    forall|n: int|
        (0 <= n < ops.len() && (#[trigger] ops[n]) matches Op::Remove(_)) ==> net(
            ops.take(n),
            op_elem(ops[n]),
        ) >= 1
}

/// The history with every operation on `e` left out, in order.
pub open spec fn others(ops: Seq<Op>, e: Seq<u8>) -> Seq<Op>
    decreases ops.len(),
{
    if ops.len() == 0 {
        ops
    } else if op_elem(ops.last()) == e {
        others(ops.drop_last(), e)
    } else {
        others(ops.drop_last(), e).push(ops.last())
    }
}

/// The counters of a fresh filter: zero at every position.
pub open spec fn zero_counters() -> Seq<u32> {
    Seq::new(M as nat, |i: int| 0u32)
}

/// The counters after one operation of the history.
pub open spec fn apply_op(cs: Seq<u32>, op: Op) -> Seq<u32> {
    match op {
        Op::Add(e) => apply_add(cs, e),
        Op::Remove(e) => apply_remove(cs, e),
    }
}

/// The counters after a whole history, applied in order.
pub open spec fn apply_ops(cs: Seq<u32>, ops: Seq<Op>) -> Seq<u32>
    decreases ops.len(),
{
    if ops.len() == 0 {
        cs
    } else {
        apply_op(apply_ops(cs, ops.drop_last()), ops.last())
    }
}

/// A tuple position is hit at least once by its own element, and at most
/// three times by any element.
proof fn lemma_idx_count_bounds(e: Seq<u8>, i: int)
    ensures
        0 <= idx_count(e, i) <= 3,
        (exists|k: int| 0 <= k < 3 && spec_hash_index(e, k) == i) ==> idx_count(e, i) >= 1,
{
}

/// Leaving out `e`'s operations never lengthens a history.
proof fn lemma_others_len(ops: Seq<Op>, e: Seq<u8>)
    ensures
        others(ops, e).len() <= ops.len(),
    decreases ops.len(),
{
    if ops.len() > 0 {
        lemma_others_len(ops.drop_last(), e);
    }
}

/// A position's tally splits into `e`'s share and everyone else's.
proof fn lemma_tally_split(ops: Seq<Op>, e: Seq<u8>, i: int)
    ensures
        tally(ops, i) == net(ops, e) * idx_count(e, i) + tally(others(ops, e), i),
    decreases ops.len(),
{
    if ops.len() == 0 {
    } else {
        let dl = ops.drop_last();
        let last = ops.last();
        lemma_tally_split(dl, e, i);
        if op_elem(last) == e {
            assert((net(dl, e) + op_sign(last)) * idx_count(e, i) == net(dl, e) * idx_count(e, i)
                + op_sign(last) * idx_count(e, i)) by (nonlinear_arith);
        } else {
            let o = others(dl, e);
            assert(o.push(last).drop_last() =~= o);
            assert(o.push(last).last() == last);
        }
    }
}

/// Leaving out `e`'s operations zeroes `e`'s net and keeps every other net.
proof fn lemma_net_others(ops: Seq<Op>, e: Seq<u8>, f: Seq<u8>)
    ensures
        net(others(ops, e), f) == if f == e {
            0int
        } else {
            net(ops, f)
        },
    decreases ops.len(),
{
    if ops.len() == 0 {
    } else {
        let dl = ops.drop_last();
        let last = ops.last();
        lemma_net_others(dl, e, f);
        if op_elem(last) == e {
        } else {
            let o = others(dl, e);
            assert(o.push(last).drop_last() =~= o);
            assert(o.push(last).last() == last);
        }
    }
}

/// In a remove-safe history no element's net ever drops below zero.
proof fn lemma_net_nonneg(ops: Seq<Op>, f: Seq<u8>)
    requires
        remove_safe(ops),
    ensures
        net(ops, f) >= 0,
    decreases ops.len(),
{
    if ops.len() == 0 {
    } else {
        let dl = ops.drop_last();
        assert(remove_safe(dl)) by {
            assert forall|n: int|
                0 <= n < dl.len() && (#[trigger] dl[n]) matches Op::Remove(_) implies net(
                dl.take(n),
                op_elem(dl[n]),
            ) >= 1 by {
                assert(dl[n] == ops[n]);
                assert(dl.take(n) =~= ops.take(n));
            }
        }
        lemma_net_nonneg(dl, f);
        let last = ops.last();
        if op_elem(last) == f && last matches Op::Remove(_) {
            assert(ops[ops.len() - 1] == last);
            assert(ops.take(ops.len() - 1) =~= dl);
        }
    }
}

/// With every net nonnegative, every position's tally is nonnegative.
proof fn lemma_tally_nonneg(ops: Seq<Op>, i: int)
    requires
        forall|f: Seq<u8>| #[trigger] net(ops, f) >= 0,
    ensures
        tally(ops, i) >= 0,
    decreases ops.len(),
{
    if ops.len() == 0 {
    } else {
        let e0 = op_elem(ops.last());
        let o = others(ops, e0);
        lemma_tally_split(ops, e0, i);
        lemma_idx_count_bounds(e0, i);
        assert(net(ops, e0) * idx_count(e0, i) >= 0) by (nonlinear_arith)
            requires
                net(ops, e0) >= 0,
                idx_count(e0, i) >= 0,
        ;
        assert forall|f: Seq<u8>| #[trigger] net(o, f) >= 0 by {
            lemma_net_others(ops, e0, f);
        }
        lemma_others_len(ops.drop_last(), e0);
        assert(o.len() < ops.len());
        lemma_tally_nonneg(o, i);
    }
}

/// In a remove-safe history, each position holds at least `e`'s own share:
/// its net times its hit count there.
proof fn lemma_tally_lower(ops: Seq<Op>, e: Seq<u8>, i: int)
    requires
        remove_safe(ops),
    ensures
        tally(ops, i) >= net(ops, e) * idx_count(e, i),
{
    lemma_tally_split(ops, e, i);
    let o = others(ops, e);
    assert forall|f: Seq<u8>| #[trigger] net(o, f) >= 0 by {
        lemma_net_others(ops, e, f);
        lemma_net_nonneg(ops, f);
    }
    lemma_tally_nonneg(o, i);
}

/// A position's tally never exceeds three hits per operation.
proof fn lemma_tally_upper(ops: Seq<Op>, i: int)
    ensures
        tally(ops, i) <= 3 * ops.len(),
    decreases ops.len(),
{
    if ops.len() > 0 {
        lemma_tally_upper(ops.drop_last(), i);
        lemma_idx_count_bounds(op_elem(ops.last()), i);
    }
}

/// In a remove-safe history short enough that no counter saturates, the
/// filter state is exact: every counter equals its position's tally.
proof fn lemma_state_is_tally(ops: Seq<Op>)
    requires
        remove_safe(ops),
        3 * ops.len() <= u32::MAX,
    ensures
        apply_ops(zero_counters(), ops).len() == M,
        forall|i: int| 0 <= i < M ==> apply_ops(zero_counters(), ops)[i] == tally(ops, i),
    decreases ops.len(),
{
    if ops.len() == 0 {
    } else {
        let dl = ops.drop_last();
        let last = ops.last();
        assert(remove_safe(dl)) by {
            assert forall|n: int|
                0 <= n < dl.len() && (#[trigger] dl[n]) matches Op::Remove(_) implies net(
                dl.take(n),
                op_elem(dl[n]),
            ) >= 1 by {
                assert(dl[n] == ops[n]);
                assert(dl.take(n) =~= ops.take(n));
            }
        }
        lemma_state_is_tally(dl);
        let s = apply_ops(zero_counters(), dl);
        let e = op_elem(last);
        assert forall|i: int| 0 <= i < M implies s[i] as int == tally(dl, i) by {}
        match last {
            Op::Add(_) => {
                assert forall|i: int| 0 <= i < M implies apply_add(s, e)[i] == tally(ops, i) by {
                    lemma_tally_upper(dl, i);
                    lemma_idx_count_bounds(e, i);
                    lemma_tally_nonneg_of_safe(dl, i);
                }
            },
            Op::Remove(_) => {
                assert(ops[ops.len() - 1] == last);
                assert(ops.take(ops.len() - 1) =~= dl);
                assert(net(dl, e) >= 1);
                assert forall|k: int| 0 <= k < 3 implies s[spec_hash_index(e, k)] >= 1 by {
                    let i = spec_hash_index(e, k);
                    lemma_tally_lower(dl, e, i);
                    lemma_idx_count_bounds(e, i);
                    assert(net(dl, e) * idx_count(e, i) >= 1) by (nonlinear_arith)
                        requires
                            net(dl, e) >= 1,
                            idx_count(e, i) >= 1,
                    ;
                }
                assert(model_has(s, e));
                assert forall|i: int| 0 <= i < M implies apply_remove(s, e)[i] == tally(
                    ops,
                    i,
                ) by {
                    lemma_tally_lower(dl, e, i);
                    lemma_idx_count_bounds(e, i);
                    assert(net(dl, e) * idx_count(e, i) >= idx_count(e, i)) by (nonlinear_arith)
                        requires
                            net(dl, e) >= 1,
                            idx_count(e, i) >= 0,
                    ;
                }
            },
        }
    }
}

/// In a remove-safe history every position's tally is nonnegative.
proof fn lemma_tally_nonneg_of_safe(ops: Seq<Op>, i: int)
    requires
        remove_safe(ops),
    ensures
        tally(ops, i) >= 0,
{
    assert forall|f: Seq<u8>| #[trigger] net(ops, f) >= 0 by {
        lemma_net_nonneg(ops, f);
    }
    lemma_tally_nonneg(ops, i);
}

/// No false negatives: after any remove-safe history (short enough that no
/// counter saturates) in which element `e` was added more often than it was
/// removed, every counter of `e`'s hash tuple is positive, so a membership
/// query on `e` answers yes.
pub proof fn lemma_no_false_negatives(ops: Seq<Op>, e: Seq<u8>)
    requires
        remove_safe(ops),
        3 * ops.len() <= u32::MAX,
        net(ops, e) >= 1,
    ensures
        model_has(apply_ops(zero_counters(), ops), e),
{
    lemma_state_is_tally(ops);
    assert forall|k: int| 0 <= k < 3 implies apply_ops(zero_counters(), ops)[spec_hash_index(
        e,
        k,
    )] >= 1 by {
        let i = spec_hash_index(e, k);
        lemma_tally_lower(ops, e, i);
        lemma_idx_count_bounds(e, i);
        assert(net(ops, e) * idx_count(e, i) >= 1) by (nonlinear_arith)
            requires
                net(ops, e) >= 1,
                idx_count(e, i) >= 1,
        ;
    }
}

/// The count is an upper-bound-safe estimate: after any remove-safe history
/// (short enough that no counter saturates), an element's count is at least
/// its net number of additions — collisions can only inflate it.
pub proof fn lemma_count_never_underestimates(ops: Seq<Op>, e: Seq<u8>)
    requires
        remove_safe(ops),
        3 * ops.len() <= u32::MAX,
        net(ops, e) >= 0,
    ensures
        spec_count(apply_ops(zero_counters(), ops), e) >= net(ops, e),
{
    lemma_state_is_tally(ops);
    assert forall|k: int| 0 <= k < 3 implies apply_ops(zero_counters(), ops)[spec_hash_index(
        e,
        k,
    )] >= net(ops, e) by {
        let i = spec_hash_index(e, k);
        lemma_tally_lower(ops, e, i);
        lemma_idx_count_bounds(e, i);
        assert(net(ops, e) * idx_count(e, i) >= net(ops, e)) by (nonlinear_arith)
            requires
                net(ops, e) >= 0,
                idx_count(e, i) >= 1,
        ;
    }
}

/// Whether the element's three tuple positions are pairwise distinct: it
/// does not collide with itself.
pub open spec fn distinct_tuple(e: Seq<u8>) -> bool {
    &&& spec_hash_index(e, 0) != spec_hash_index(e, 1)
    &&& spec_hash_index(e, 0) != spec_hash_index(e, 2)
    &&& spec_hash_index(e, 1) != spec_hash_index(e, 2)
}

/// The counters after adding `e` `n` times.
pub open spec fn add_n(cs: Seq<u32>, e: Seq<u8>, n: int) -> Seq<u32>
    decreases n,
{
    if n <= 0 {
        cs
    } else {
        apply_add(add_n(cs, e, n - 1), e)
    }
}

/// The counters after removing `e` `n` times.
pub open spec fn remove_n(cs: Seq<u32>, e: Seq<u8>, n: int) -> Seq<u32>
    decreases n,
{
    if n <= 0 {
        cs
    } else {
        apply_remove(remove_n(cs, e, n - 1), e)
    }
}

/// On a fresh filter, `n` additions of a self-collision-free element leave
/// exactly `n` at each of its tuple positions and zero everywhere else.
proof fn lemma_add_n_state(e: Seq<u8>, n: int)
    requires
        distinct_tuple(e),
        0 <= n <= u32::MAX,
    ensures
        add_n(zero_counters(), e, n).len() == M,
        forall|i: int|
            0 <= i < M ==> add_n(zero_counters(), e, n)[i] == (if idx_count(e, i) >= 1 {
                n
            } else {
                0
            }),
    decreases n,
{
    if n > 0 {
        lemma_add_n_state(e, n - 1);
    }
}

/// After `n` additions, each of `j <= n` removals finds the element present
/// and decrements its tuple counters exactly once.
proof fn lemma_remove_j_state(e: Seq<u8>, n: int, j: int)
    requires
        distinct_tuple(e),
        0 <= j <= n <= u32::MAX,
    ensures
        remove_n(add_n(zero_counters(), e, n), e, j).len() == M,
        forall|i: int|
            0 <= i < M ==> remove_n(add_n(zero_counters(), e, n), e, j)[i] == (if idx_count(e, i)
                >= 1 {
                n - j
            } else {
                0
            }),
    decreases j,
{
    if j == 0 {
        lemma_add_n_state(e, n);
    } else {
        lemma_remove_j_state(e, n, j - 1);
    }
}

/// Exact counting without collisions: on a fresh filter, an element whose
/// tuple positions are pairwise distinct counts exactly `n` after `n`
/// additions, and exactly zero after `n` additions and `n` removals.
pub proof fn lemma_count_exact(e: Seq<u8>, n: int)
    requires
        distinct_tuple(e),
        0 <= n <= u32::MAX,
    ensures
        spec_count(add_n(zero_counters(), e, n), e) == n,
        spec_count(remove_n(add_n(zero_counters(), e, n), e, n), e) == 0,
{
    lemma_add_n_state(e, n);
    lemma_remove_j_state(e, n, n);
}

} // verus!
