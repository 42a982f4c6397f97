//! Hash-index derivation: each element is mapped to `K` positions in
//! `[0, M)` by combining two murmur3 digests of its bytes.

use vstd::prelude::*;
use crate::K;
use crate::M;

verus! {

/// The 32-bit murmur3 digest of `data` under `seed`: a pure function of the
/// bytes and the seed alone.
pub uninterp spec fn murmur3_of(data: Seq<u8>, seed: u32) -> u32;

/// Relies on murmur3::murmur3_32: the digest depends on the bytes and the
/// seed alone, and reading from a byte slice never fails.
#[verifier::external_body]
fn murmur3_hash(data: &[u8], seed: u32) -> (r: u32)
    ensures
        r == murmur3_of(data@, seed),
{
    let mut source = data;
    match murmur3::murmur3_32(&mut source, seed) {
        Ok(h) => h,
        Err(_) => 0,
    }
}

/// The first digest of an element (seed 0).
pub open spec fn hash1_of(e: Seq<u8>) -> u32 {
    murmur3_of(e, 0)
}

/// The second digest of an element, seeded by the first.
pub open spec fn hash2_of(e: Seq<u8>) -> u32 {
    murmur3_of(e, hash1_of(e))
}

/// Position `k` of an element's hash tuple: `(h1 + k * h2) mod M`.
pub open spec fn spec_hash_index(e: Seq<u8>, k: int) -> int {
    (hash1_of(e) + k * hash2_of(e)) % (M as int)
}

/// Computes the element's hash tuple: `K` positions in `[0, M)`.
pub fn hash(element: &[u8]) -> (r: [usize; K])
    ensures
        forall|k: int| 0 <= k < K ==> r@[k] == spec_hash_index(element@, k),
        forall|k: int| 0 <= k < K ==> r@[k] < M,
{
    let h1 = murmur3_hash(element, 0);
    let h2 = murmur3_hash(element, h1);
    let h1w = h1 as u64;
    let h2w = h2 as u64;
    let m = M as u64;
    let i0 = (h1w % m) as usize;
    let i1 = ((h1w + h2w) % m) as usize;
    let i2 = ((h1w + 2 * h2w) % m) as usize;
    let r = [i0, i1, i2];
    proof {
        assert(r@ =~= seq![i0, i1, i2]);
        assert(i0 == spec_hash_index(element@, 0));
        assert(i1 == spec_hash_index(element@, 1));
        assert(i2 == spec_hash_index(element@, 2));
    }
    r
}

/// The hash tuple as a growable vector, in tuple order.
pub fn hash_vec(element: &&[u8]) -> (r: Vec<usize>)
    ensures
        r@.len() == K,
        forall|k: int| 0 <= k < K ==> r@[k] == spec_hash_index(element@, k),
        forall|k: int| 0 <= k < K ==> r@[k] < M,
{
    let hashes = hash(element);
    let mut r: Vec<usize> = Vec::new();
    r.push(hashes[0]);
    r.push(hashes[1]);
    r.push(hashes[2]);
    r
}

/// The concatenated hash tuples of many elements, in element order.
pub fn hash_many(elements: Vec<&[u8]>) -> (r: Vec<usize>)
    ensures
        r@.len() == K * elements@.len(),
        forall|j: int, k: int|
            0 <= j < elements@.len() && 0 <= k < K ==> r@[j * K + k] == spec_hash_index(
                elements@[j]@,
                k,
            ),
{
    let mut r: Vec<usize> = Vec::new();
    let mut j: usize = 0;
    while j < elements.len()
        invariant
            j <= elements@.len(),
            r@.len() == K * j,
            forall|j2: int, k: int|
                0 <= j2 < j && 0 <= k < K ==> r@[j2 * K + k] == spec_hash_index(
                    elements@[j2]@,
                    k,
                ),
        decreases elements@.len() - j,
    {
        let hs = hash(elements[j]);
        r.push(hs[0]);
        r.push(hs[1]);
        r.push(hs[2]);
        j += 1;
    }
    r
}

} // verus!
