use counting_bloom::bloom_filter::BloomFilter;
use counting_bloom::hashing::hash;
use counting_bloom::hashing::hash_many;
use counting_bloom::hashing::hash_vec;
use counting_bloom::K;
use counting_bloom::M;

/// The hash tuple matches murmur3 digests combined as `(h1 + k * h2) % M`.
#[test]
fn hash_matches_murmur3() {
    let element: &[u8] = b"felix";
    let mut src1: &[u8] = element;
    let h1 = murmur3::murmur3_32(&mut src1, 0).unwrap() as u64;
    let mut src2: &[u8] = element;
    let h2 = murmur3::murmur3_32(&mut src2, h1 as u32).unwrap() as u64;
    let got = hash(element);
    for k in 0..K {
        let expected = ((h1 + (k as u64) * h2) % (M as u64)) as usize;
        assert_eq!(got[k], expected);
    }
}

#[test]
fn hash_indices_in_range() {
    for e in [&b"felix"[..], b"markus", b"isabel", b"", b"\x00\xff\x01"] {
        let hs = hash(e);
        assert_eq!(hs.len(), K);
        for h in hs {
            assert!(h < M);
        }
    }
}

#[test]
fn hash_is_deterministic_and_discriminates() {
    assert_eq!(hash(b"felix"), hash(b"felix"));
    // A constant hash would make these collide everywhere.
    assert_ne!(hash(b"felix"), hash(b"markus"));
}

#[test]
fn hash_vec_matches_hash() {
    let e: &[u8] = b"isabel";
    assert_eq!(hash_vec(&e), hash(e).to_vec());
}

#[test]
fn hash_many_concatenates() {
    let elems: Vec<&[u8]> = vec![b"felix", b"markus", b"isabel"];
    let all = hash_many(elems.clone());
    assert_eq!(all.len(), K * elems.len());
    for (j, e) in elems.iter().enumerate() {
        assert_eq!(&all[j * K..(j + 1) * K], &hash(e)[..]);
    }
}

#[test]
fn new_filter_is_empty() {
    let bf = BloomFilter::new();
    assert!(!bf.has(b"felix"));
    assert_eq!(bf.count(b"felix"), 0);
    let bytes = bf.to_bytes();
    assert_eq!(bytes.len(), M / 8);
    assert!(bytes.iter().all(|&b| b == 0));
}

#[test]
fn add_then_has_and_count() {
    let mut bf = BloomFilter::new();
    bf.add_one(b"felix");
    assert!(bf.has(b"felix"));
    assert!(bf.count(b"felix") >= 1);
}

/// With no collisions from other elements, `count` is exact: `k` after `k`
/// additions, and zero after as many removals.
#[test]
fn count_exact_without_collisions() {
    let e: &[u8] = b"felix";
    let hs = hash(e);
    // No self-collision for this element.
    assert!(hs[0] != hs[1] && hs[0] != hs[2] && hs[1] != hs[2]);
    let mut bf = BloomFilter::new();
    for _ in 0..5 {
        bf.add_one(e);
    }
    assert_eq!(bf.count(e), 5);
    for _ in 0..5 {
        bf.remove(e);
    }
    assert_eq!(bf.count(e), 0);
    assert!(!bf.has(e));
}

/// Removing an absent element reports success and leaves the state alone.
#[test]
fn remove_absent_is_noop() {
    let mut bf = BloomFilter::new();
    bf.add_one(b"markus");
    let before = bf.to_bytes();
    let count_before = bf.count(b"markus");
    assert!(bf.remove(b"qqqq"));
    assert_eq!(bf.to_bytes(), before);
    assert_eq!(bf.count(b"markus"), count_before);
}

/// A single addition fully removed reports provable absence.
#[test]
fn remove_present_to_zero() {
    let e: &[u8] = b"felix";
    let hs = hash(e);
    assert!(hs[0] != hs[1] && hs[0] != hs[2] && hs[1] != hs[2]);
    let mut bf = BloomFilter::new();
    bf.add_one(e);
    assert!(bf.remove(e));
    assert!(!bf.has(e));
}

/// A shared index held by a survivor keeps `remove` from reporting absence.
#[test]
fn remove_shared_index_reports_survivor() {
    let e: &[u8] = b"felix";
    let mut bf = BloomFilter::new();
    bf.add_one(e);
    bf.add_one(e);
    // Both additions share every index, so one removal leaves all counters
    // at one.
    assert!(!bf.remove(e));
    assert!(bf.has(e));
}

#[test]
fn add_many_equals_repeated_add_one() {
    let elems: Vec<&[u8]> = vec![b"felix", b"markus", b"isabel", b"felix"];
    let mut batched = BloomFilter::new();
    batched.add(elems.clone());
    let mut single = BloomFilter::new();
    for e in &elems {
        single.add_one(e);
    }
    assert_eq!(batched.to_bytes(), single.to_bytes());
    for e in &elems {
        assert_eq!(batched.count(e), single.count(e));
    }
}

/// Serialization is one bit per position in index order, most significant
/// bit of each byte first.
#[test]
fn to_bytes_bit_layout() {
    let e: &[u8] = b"isabel";
    let mut bf = BloomFilter::new();
    bf.add_one(e);
    let bytes = bf.to_bytes();
    assert_eq!(bytes.len(), (M + 7) / 8);
    let hs = hash(e);
    for i in 0..M {
        let expected = hs.contains(&i);
        let got = (bytes[i / 8] >> (7 - (i % 8))) & 1 == 1;
        assert_eq!(got, expected, "bit {} wrong", i);
    }
}

/// Counters, not bits, carry multiplicity: the bit image is idempotent under
/// repeated addition.
#[test]
fn bits_idempotent_under_repeated_add() {
    let mut once = BloomFilter::new();
    once.add_one(b"felix");
    let mut thrice = BloomFilter::new();
    thrice.add_one(b"felix");
    thrice.add_one(b"felix");
    thrice.add_one(b"felix");
    assert_eq!(once.to_bytes(), thrice.to_bytes());
    assert_eq!(thrice.count(b"felix"), 3);
}

/// Many additions of the same element, then one count: nothing is lost.
#[test]
fn repeated_adds_accumulate() {
    let e: &[u8] = b"denis";
    let hs = hash(e);
    assert!(hs[0] != hs[1] && hs[0] != hs[2] && hs[1] != hs[2]);
    let n = 64;
    let mut bf = BloomFilter::new();
    for _ in 0..n {
        bf.add_one(e);
    }
    assert_eq!(bf.count(e), n);
}
