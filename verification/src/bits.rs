//! Trusted interface to the `bit_vec` crate: a fixed-length bit array used
//! for the filter's membership flags, modelled as a `Seq<bool>`.

use vstd::prelude::*;

verus! {

#[verifier::external_type_specification]
#[verifier::external_body]
#[verifier::reject_recursive_types(B)]
pub struct ExBitVec<B>(bit_vec::BitVec<B>);

/// The bits held by a `bit_vec::BitVec`, in index order.
pub uninterp spec fn bits_of(bv: bit_vec::BitVec<u32>) -> Seq<bool>;

/// Relies on bit_vec::BitVec::from_elem: a vector of `len` copies of `bit`.
#[verifier::external_body]
pub fn bitvec_new(len: usize, bit: bool) -> (r: bit_vec::BitVec<u32>)
    ensures
        bits_of(r).len() == len,
        forall|i: int| 0 <= i < len ==> bits_of(r)[i] == bit,
{
    bit_vec::BitVec::from_elem(len, bit)
}

/// Relies on bit_vec::BitVec::set: writes one bit in place; panics only when
/// the index is out of bounds, which the precondition rules out.
#[verifier::external_body]
pub fn bitvec_set(bv: &mut bit_vec::BitVec<u32>, i: usize, x: bool)
    requires
        i < bits_of(*old(bv)).len(),
    ensures
        bits_of(*final(bv)) == bits_of(*old(bv)).update(i as int, x),
{
    bv.set(i, x);
}

/// Relies on bit_vec::BitVec::get: returns the bit at an in-bounds index.
#[verifier::external_body]
pub fn bitvec_get(bv: &bit_vec::BitVec<u32>, i: usize) -> (r: bool)
    requires
        i < bits_of(*bv).len(),
    ensures
        r == bits_of(*bv)[i as int],
{
    bv.get(i).unwrap_or(false)
}

/// Whether bit `k` of byte `b` is set, counting position 0 as the most
/// significant bit (the order `bit_vec` packs bits into bytes).
pub open spec fn byte_bit(b: u8, k: int) -> bool
    recommends
        0 <= k < 8,
{
    b >> ((7 - k) as u8) & 1u8 == 1u8
}

/// Byte `j` of the packed form of `bs`: bits `8j .. 8j + 8`, most significant
/// bit first.
pub open spec fn byte_from_bits(bs: Seq<bool>, j: int) -> u8
    recommends
        0 <= j,
        8 * j + 8 <= bs.len(),
{
    (if bs[8 * j] {
        0x80u8
    } else {
        0u8
    }) | (if bs[8 * j + 1] {
        0x40u8
    } else {
        0u8
    }) | (if bs[8 * j + 2] {
        0x20u8
    } else {
        0u8
    }) | (if bs[8 * j + 3] {
        0x10u8
    } else {
        0u8
    }) | (if bs[8 * j + 4] {
        0x8u8
    } else {
        0u8
    }) | (if bs[8 * j + 5] {
        0x4u8
    } else {
        0u8
    }) | (if bs[8 * j + 6] {
        0x2u8
    } else {
        0u8
    }) | (if bs[8 * j + 7] {
        0x1u8
    } else {
        0u8
    })
}

/// The bit sequence packed into bytes, one bit per position in index order,
/// most significant bit first within each byte.
pub open spec fn serialized(bs: Seq<bool>) -> Seq<u8>
    recommends
        bs.len() % 8 == 0,
{
    Seq::new(bs.len() / 8, |j: int| byte_from_bits(bs, j))
}

/// A byte is determined by its eight bits, most significant first.
pub proof fn lemma_pack_byte(
    b: u8,
    b0: bool,
    b1: bool,
    b2: bool,
    b3: bool,
    b4: bool,
    b5: bool,
    b6: bool,
    b7: bool,
)
    requires
        b0 == byte_bit(b, 0),
        b1 == byte_bit(b, 1),
        b2 == byte_bit(b, 2),
        b3 == byte_bit(b, 3),
        b4 == byte_bit(b, 4),
        b5 == byte_bit(b, 5),
        b6 == byte_bit(b, 6),
        b7 == byte_bit(b, 7),
    ensures
        b == (if b0 {
            0x80u8
        } else {
            0u8
        }) | (if b1 {
            0x40u8
        } else {
            0u8
        }) | (if b2 {
            0x20u8
        } else {
            0u8
        }) | (if b3 {
            0x10u8
        } else {
            0u8
        }) | (if b4 {
            0x8u8
        } else {
            0u8
        }) | (if b5 {
            0x4u8
        } else {
            0u8
        }) | (if b6 {
            0x2u8
        } else {
            0u8
        }) | (if b7 {
            0x1u8
        } else {
            0u8
        }),
{
    assert(b == (if b0 {
        0x80u8
    } else {
        0u8
    }) | (if b1 {
        0x40u8
    } else {
        0u8
    }) | (if b2 {
        0x20u8
    } else {
        0u8
    }) | (if b3 {
        0x10u8
    } else {
        0u8
    }) | (if b4 {
        0x8u8
    } else {
        0u8
    }) | (if b5 {
        0x4u8
    } else {
        0u8
    }) | (if b6 {
        0x2u8
    } else {
        0u8
    }) | (if b7 {
        0x1u8
    } else {
        0u8
    })) by (bit_vector)
        requires
            b0 == (b >> 7u8 & 1u8 == 1u8),
            b1 == (b >> 6u8 & 1u8 == 1u8),
            b2 == (b >> 5u8 & 1u8 == 1u8),
            b3 == (b >> 4u8 & 1u8 == 1u8),
            b4 == (b >> 3u8 & 1u8 == 1u8),
            b5 == (b >> 2u8 & 1u8 == 1u8),
            b6 == (b >> 1u8 & 1u8 == 1u8),
            b7 == (b >> 0u8 & 1u8 == 1u8),
    ;
}

/// Relies on bit_vec::BitVec::to_bytes: packs the bits into `ceil(len / 8)`
/// bytes, bit `i` going to byte `i / 8` at position `i % 8` from the most
/// significant bit, with zero padding in the final partial byte.
#[verifier::external_body]
pub fn bitvec_to_bytes(bv: &bit_vec::BitVec<u32>) -> (r: Vec<u8>)
    ensures
        r@.len() == (bits_of(*bv).len() + 7) / 8,
        forall|i: int|
            0 <= i < bits_of(*bv).len() ==> #[trigger] byte_bit(r@[i / 8], i % 8) == bits_of(
                *bv,
            )[i],
        forall|i: int|
            bits_of(*bv).len() <= i < 8 * r@.len() ==> #[trigger] byte_bit(r@[i / 8], i % 8)
                == false,
{
    bv.to_bytes()
}

} // verus!
