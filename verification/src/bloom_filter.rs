//! The counting Bloom filter: a fixed array of `M` bits paired with `M`
//! counters, addressed through the `K`-index hash tuple of each element.
//!
//! The core invariant, kept by every operation: a bit is set exactly when its
//! paired counter is positive.

use vstd::prelude::*;
use crate::M;
use crate::bits::bits_of;
use crate::bits::bitvec_get;
use crate::bits::bitvec_new;
use crate::bits::bitvec_set;
use crate::bits::bitvec_to_bytes;
use crate::bits::byte_bit;
use crate::bits::byte_from_bits;
use crate::bits::lemma_pack_byte;
use crate::bits::serialized;
use crate::hashing::hash;
use crate::hashing::spec_hash_index;

verus! {

/// How many positions of `e`'s hash tuple equal `i`.
pub open spec fn idx_count(e: Seq<u8>, i: int) -> int {
    (if spec_hash_index(e, 0) == i {
        1int
    } else {
        0int
    }) + (if spec_hash_index(e, 1) == i {
        1int
    } else {
        0int
    }) + (if spec_hash_index(e, 2) == i {
        1int
    } else {
        0int
    })
}

/// Counter increase by `n`, saturating at `u32::MAX`.
pub open spec fn sat_add(c: u32, n: int) -> u32 {
    if c + n > u32::MAX {
        u32::MAX
    } else {
        (c + n) as u32
    }
}

/// Counter decrease by `n`, stopping at zero.
pub open spec fn clamp_sub(c: u32, n: int) -> u32 {
    if c - n < 0 {
        0u32
    } else {
        (c - n) as u32
    }
}

/// The counters after adding `e` once: each tuple position gains one per
/// occurrence in the tuple.
pub open spec fn apply_add(cs: Seq<u32>, e: Seq<u8>) -> Seq<u32> {
    Seq::new(cs.len(), |i: int| sat_add(cs[i], idx_count(e, i)))
}

/// The counters after adding each element of `es` once, in order.
pub open spec fn apply_add_all(cs: Seq<u32>, es: Seq<Seq<u8>>) -> Seq<u32>
    decreases es.len(),
{
    if es.len() == 0 {
        cs
    } else {
        apply_add_all(apply_add(cs, es[0]), es.drop_first())
    }
}

/// Whether every counter of `e`'s hash tuple is positive.
pub open spec fn model_has(cs: Seq<u32>, e: Seq<u8>) -> bool {
    &&& cs[spec_hash_index(e, 0)] > 0
    &&& cs[spec_hash_index(e, 1)] > 0
    &&& cs[spec_hash_index(e, 2)] > 0
}

/// Whether every bit of `e`'s hash tuple is set.
pub open spec fn spec_has(bits: Seq<bool>, e: Seq<u8>) -> bool {
    &&& bits[spec_hash_index(e, 0)]
    &&& bits[spec_hash_index(e, 1)]
    &&& bits[spec_hash_index(e, 2)]
}

/// The counters after removing `e` once: a no-op unless every tuple counter
/// is positive, else each tuple position loses one per occurrence, stopping
/// at zero.
pub open spec fn apply_remove(cs: Seq<u32>, e: Seq<u8>) -> Seq<u32> {
    if model_has(cs, e) {
        Seq::new(cs.len(), |i: int| clamp_sub(cs[i], idx_count(e, i)))
    } else {
        cs
    }
}

/// The counters after removing each element of `es` once, in order.
pub open spec fn apply_remove_all(cs: Seq<u32>, es: Seq<Seq<u8>>) -> Seq<u32>
    decreases es.len(),
{
    if es.len() == 0 {
        cs
    } else {
        apply_remove_all(apply_remove(cs, es[0]), es.drop_first())
    }
}

/// Whether every counter of `e`'s hash tuple is zero: `e` is provably absent.
pub open spec fn all_zero(cs: Seq<u32>, e: Seq<u8>) -> bool {
    &&& cs[spec_hash_index(e, 0)] == 0
    &&& cs[spec_hash_index(e, 1)] == 0
    &&& cs[spec_hash_index(e, 2)] == 0
}

/// The smaller of two counters.
pub open spec fn min_u32(a: u32, b: u32) -> u32 {
    if a < b {
        a
    } else {
        b
    }
}

/// The least counter over `e`'s hash tuple: the filter's estimate of how many
/// times `e` was net-added.
pub open spec fn spec_count(cs: Seq<u32>, e: Seq<u8>) -> u32 {
    min_u32(
        min_u32(cs[spec_hash_index(e, 0)], cs[spec_hash_index(e, 1)]),
        cs[spec_hash_index(e, 2)],
    )
}

/// A counting Bloom filter over `M` positions with `K` hash indices per
/// element.
pub struct BloomFilter {
    bv: bit_vec::BitVec<u32>,
    cv: Vec<u32>,
}

impl BloomFilter {
    /// The membership bits, in index order.
    pub closed spec fn bits(&self) -> Seq<bool> {
        bits_of(self.bv)
    }

    /// The per-position counters, in index order.
    pub closed spec fn counters(&self) -> Seq<u32> {
        self.cv@
    }

    /// Well-formedness: both arrays span all `M` positions, and a bit is set
    /// exactly when its counter is positive.
    pub open spec fn wf(&self) -> bool {
        &&& self.bits().len() == M
        &&& self.counters().len() == M
        &&& forall|i: int| 0 <= i < M ==> (self.counters()[i] > 0 <==> self.bits()[i])
    }

    /// Creates a new Bloom filter, with every bit clear and every counter
    /// zero.
    pub fn new() -> (r: BloomFilter)
        ensures
            r.wf(),
            forall|i: int| 0 <= i < M ==> r.counters()[i] == 0,
            forall|i: int| 0 <= i < M ==> !r.bits()[i],
    {
        let bv = bitvec_new(M, false);
        let mut cv: Vec<u32> = Vec::new();
        let mut j: usize = 0;
        while j < M
            invariant
                j <= M,
                cv@.len() == j,
                forall|i: int| 0 <= i < j ==> cv@[i] == 0,
            decreases M - j,
        {
            cv.push(0);
            j += 1;
        }
        BloomFilter { bv, cv }
    }

    /// Increments the counter at one position (saturating) and sets its bit.
    fn bump(&mut self, i: usize)
        requires
            old(self).wf(),
            i < M,
        ensures
            final(self).wf(),
            final(self).counters() == old(self).counters().update(
                i as int,
                sat_add(old(self).counters()[i as int], 1),
            ),
    {
        let c = self.cv[i];
        if c < u32::MAX {
            self.cv[i] = c + 1;
        }
        bitvec_set(&mut self.bv, i, true);
        proof {
            assert(final(self).counters() =~= old(self).counters().update(
                i as int,
                sat_add(old(self).counters()[i as int], 1),
            ));
            assert(final(self).bits() =~= old(self).bits().update(i as int, true));
        }
    }

    /// Adds one new element to the Bloom filter.
    pub fn add_one(&mut self, element: &[u8])
        requires
            old(self).wf(),
        ensures
            final(self).wf(),
            final(self).counters() == apply_add(old(self).counters(), element@),
    {
        let hashes = hash(element);
        self.bump(hashes[0]);
        self.bump(hashes[1]);
        self.bump(hashes[2]);
        proof {
            assert(final(self).counters() =~= apply_add(old(self).counters(), element@));
        }
    }

    /// Adds many new elements to the Bloom filter, in order.
    pub fn add(&mut self, elements: Vec<&[u8]>)
        requires
            old(self).wf(),
        ensures
            final(self).wf(),
            final(self).counters() == apply_add_all(old(self).counters(), elements.deep_view()),
    {
        let ghost es = elements.deep_view();
        proof {
            assert(es.skip(0) =~= es);
        }
        let mut j: usize = 0;
        while j < elements.len()
            invariant
                old(self).wf(),
                self.wf(),
                j <= es.len(),
                es.len() == elements@.len(),
                es == elements.deep_view(),
                apply_add_all(old(self).counters(), es) == apply_add_all(
                    self.counters(),
                    es.skip(j as int),
                ),
            decreases elements@.len() - j,
        {
            let ghost pre = self.counters();
            self.add_one(elements[j]);
            proof {
                assert(es[j as int] =~= elements@[j as int]@);
                assert(es.skip(j as int)[0] == es[j as int]);
                assert(es.skip(j as int).drop_first() =~= es.skip(j as int + 1));
                assert(apply_add_all(pre, es.skip(j as int)) == apply_add_all(
                    apply_add(pre, es[j as int]),
                    es.skip(j as int + 1),
                ));
            }
            j += 1;
        }
        proof {
            assert(es.skip(es.len() as int) =~= Seq::<Seq<u8>>::empty());
        }
    }

    /// Decrements the counter at one position, stopping at zero, and clears
    /// the bit when the counter reaches zero.
    fn drop_at(&mut self, i: usize)
        requires
            old(self).wf(),
            i < M,
        ensures
            final(self).wf(),
            final(self).counters() == old(self).counters().update(
                i as int,
                clamp_sub(old(self).counters()[i as int], 1),
            ),
    {
        let c = self.cv[i];
        if c > 0 {
            self.cv[i] = c - 1;
            if c == 1 {
                bitvec_set(&mut self.bv, i, false);
            }
        }
        proof {
            assert(final(self).counters() =~= old(self).counters().update(
                i as int,
                clamp_sub(old(self).counters()[i as int], 1),
            ));
            if old(self).counters()[i as int] == 1 {
                assert(final(self).bits() =~= old(self).bits().update(i as int, false));
            } else {
                assert(final(self).bits() =~= old(self).bits());
            }
        }
    }

    /// Removes an element from the Bloom filter.
    ///
    /// Returns `true` if the element is provably absent afterwards: either it
    /// already tested absent (a no-op success), or every counter of its hash
    /// tuple ended at zero after the decrements.
    pub fn remove(&mut self, element: &[u8]) -> (r: bool)
        requires
            old(self).wf(),
        ensures
            final(self).wf(),
            final(self).counters() == apply_remove(old(self).counters(), element@),
            !model_has(old(self).counters(), element@) ==> r && *final(self) == *old(self),
            model_has(old(self).counters(), element@) ==> r == all_zero(
                final(self).counters(),
                element@,
            ),
    {
        if !self.has(element) {
            return true;
        }
        let hashes = hash(element);
        self.drop_at(hashes[0]);
        self.drop_at(hashes[1]);
        self.drop_at(hashes[2]);
        let r = self.cv[hashes[0]] == 0 && self.cv[hashes[1]] == 0 && self.cv[hashes[2]] == 0;
        proof {
            assert(final(self).counters() =~= apply_remove(old(self).counters(), element@));
        }
        r
    }

    /// Checks whether the given element is contained in the Bloom filter:
    /// true exactly when every bit of its hash tuple is set (equivalently,
    /// every tuple counter is positive).
    pub fn has(&self, element: &[u8]) -> (r: bool)
        requires
            self.wf(),
        ensures
            r == spec_has(self.bits(), element@),
            r == model_has(self.counters(), element@),
    {
        let hashes = hash(element);
        let b0 = bitvec_get(&self.bv, hashes[0]);
        let b1 = bitvec_get(&self.bv, hashes[1]);
        let b2 = bitvec_get(&self.bv, hashes[2]);
        b0 && b1 && b2
    }

    /// Counts the occurrence of an element within the Bloom filter: the least
    /// counter over its hash tuple, an estimate that never undercounts the
    /// element's net additions.
    pub fn count(&self, element: &[u8]) -> (r: u32)
        requires
            self.wf(),
        ensures
            r == spec_count(self.counters(), element@),
    {
        let hashes = hash(element);
        let c0 = self.cv[hashes[0]];
        let c1 = self.cv[hashes[1]];
        let c2 = self.cv[hashes[2]];
        let m01 = if c0 < c1 {
            c0
        } else {
            c1
        };
        if m01 < c2 {
            m01
        } else {
            c2
        }
    }

    /// Returns the bit array packed into bytes, one bit per position in index
    /// order, most significant bit first within each byte.
    pub fn to_bytes(&self) -> (r: Vec<u8>)
        requires
            self.wf(),
        ensures
            r@.len() == (M + 7) / 8,
            forall|i: int|
                0 <= i < M ==> #[trigger] byte_bit(r@[i / 8], i % 8) == self.bits()[i],
            r@ == serialized(self.bits()),
    {
        let r = bitvec_to_bytes(&self.bv);
        proof {
            assert forall|j: int| 0 <= j < M / 8 implies r@[j] == byte_from_bits(
                self.bits(),
                j,
            ) by {
                assert(byte_bit(r@[(8 * j + 0) / 8], (8 * j + 0) % 8) == self.bits()[8 * j + 0]);
                assert(byte_bit(r@[(8 * j + 1) / 8], (8 * j + 1) % 8) == self.bits()[8 * j + 1]);
                assert(byte_bit(r@[(8 * j + 2) / 8], (8 * j + 2) % 8) == self.bits()[8 * j + 2]);
                assert(byte_bit(r@[(8 * j + 3) / 8], (8 * j + 3) % 8) == self.bits()[8 * j + 3]);
                assert(byte_bit(r@[(8 * j + 4) / 8], (8 * j + 4) % 8) == self.bits()[8 * j + 4]);
                assert(byte_bit(r@[(8 * j + 5) / 8], (8 * j + 5) % 8) == self.bits()[8 * j + 5]);
                assert(byte_bit(r@[(8 * j + 6) / 8], (8 * j + 6) % 8) == self.bits()[8 * j + 6]);
                assert(byte_bit(r@[(8 * j + 7) / 8], (8 * j + 7) % 8) == self.bits()[8 * j + 7]);
                lemma_pack_byte(
                    r@[j],
                    self.bits()[8 * j + 0],
                    self.bits()[8 * j + 1],
                    self.bits()[8 * j + 2],
                    self.bits()[8 * j + 3],
                    self.bits()[8 * j + 4],
                    self.bits()[8 * j + 5],
                    self.bits()[8 * j + 6],
                    self.bits()[8 * j + 7],
                );
            }
            assert(r@ =~= serialized(self.bits()));
        }
        r
    }
}

} // verus!
