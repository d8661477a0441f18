//! Deterministic expansion of a text seed into active dimension indices.
//!
//! The seed text is hashed with 64-bit FNV-1a (a fixed, documented choice;
//! the design only needs a stable, well-distributed string hash) and the
//! hash is stretched into `activeDimensionCount` indices by the stride-137
//! rule `index_i = (hash + i * 137) mod totalDimensionSpace`.

use vstd::prelude::*;

verus! {

use vstd::string::StringSliceAdditionalSpecFns;

pub const FNV_OFFSET: u64 = 0xcbf29ce484222325;

pub const FNV_PRIME: u64 = 0x100000001b3;

/// One FNV-1a step: xor the byte in, multiply by the FNV prime mod 2^64.
pub open spec fn fnv_update(h: u64, b: u8) -> u64 {
    vstd::wrapping::u64_specs::wrapping_mul(h ^ (b as u64), FNV_PRIME)
}

pub open spec fn fnv1a_rec(bytes: Seq<u8>, acc: u64) -> u64
    decreases bytes.len(),
{
    if bytes.len() == 0 {
        acc
    } else {
        fnv1a_rec(bytes.drop_first(), fnv_update(acc, bytes[0]))
    }
}

/// The 64-bit FNV-1a hash of the seed text's UTF-8 bytes.
pub open spec fn seed_hash(bytes: Seq<u8>) -> u64 {
    fnv1a_rec(bytes, FNV_OFFSET)
}

/// Index derived for position `i`: `(hash + i * 137) mod 2^64 mod total`.
pub open spec fn expand_index(h: u64, i: int, total: u64) -> u64
    recommends
        total > 0,
        0 <= i <= 1_000_000,
{
    vstd::wrapping::u64_specs::wrapping_add(h, (i * 137) as u64) % total
}

pub fn hash_bytes(bytes: &[u8]) -> (r: u64)
    ensures
        r == seed_hash(bytes@),
{
    let n: usize = bytes.len();
    let mut h: u64 = FNV_OFFSET;
    let mut i: usize = 0;
    proof {
        assert(bytes@.skip(0) =~= bytes@);
    }
    while i < n
        invariant
            n == bytes@.len(),
            0 <= i <= n,
            seed_hash(bytes@) == fnv1a_rec(bytes@.skip(i as int), h),
        decreases n - i,
    {
        proof {
            assert(bytes@.skip(i as int).drop_first() =~= bytes@.skip(i + 1));
            assert(bytes@.skip(i as int)[0] == bytes@[i as int]);
        }
        h = (h ^ (bytes[i] as u64)).wrapping_mul(FNV_PRIME);
        i = i + 1;
    }
    proof {
        assert(bytes@.skip(n as int).len() == 0);
    }
    h
}

/// Hashes the seed text; deterministic in the text's bytes alone.
pub fn hash_seed_text(seed: &str) -> (r: u64)
    ensures
        r == seed_hash(seed.spec_bytes()),
{
    hash_bytes(seed.as_bytes())
}

/// Expands a seed text into `active` dimension indices below `total`.
/// The list is a pure function of the seed bytes, `active` and `total`;
/// duplicate indices are possible and allowed.
pub fn expand_seed(seed: &str, active: usize, total: u64) -> (r: Vec<u64>)
    requires
        total >= 1,
        active <= 1_000_000,
    ensures
        r@.len() == active,
        forall|i: int|
            0 <= i < active ==> #[trigger] r@[i] == expand_index(
                seed_hash(seed.spec_bytes()),
                i,
                total,
            ),
        forall|i: int| 0 <= i < active ==> #[trigger] r@[i] < total,
{
    let h: u64 = hash_seed_text(seed);
    let mut r: Vec<u64> = Vec::new();
    let mut i: usize = 0;
    while i < active
        invariant
            total >= 1,
            active <= 1_000_000,
            h == seed_hash(seed.spec_bytes()),
            0 <= i <= active,
            r@.len() == i,
            forall|j: int|
                0 <= j < i ==> #[trigger] r@[j] == expand_index(h, j, total),
            forall|j: int| 0 <= j < i ==> #[trigger] r@[j] < total,
        decreases active - i,
    {
        let offset: u64 = (i as u64) * 137;
        let idx: u64 = h.wrapping_add(offset) % total;
        r.push(idx);
        i = i + 1;
    }
    r
}

/// Expansion is deterministic: two index lists that both satisfy the
/// contract of `expand_seed` for the same seed bytes, count and dimension
/// space are equal.
pub proof fn lemma_expand_deterministic(bytes: Seq<u8>, total: u64, r1: Seq<u64>, r2: Seq<u64>)
    requires
        total > 0,
        r1.len() == r2.len(),
        forall|i: int|
            0 <= i < r1.len() ==> #[trigger] r1[i] == expand_index(seed_hash(bytes), i, total),
        forall|i: int|
            0 <= i < r2.len() ==> #[trigger] r2[i] == expand_index(seed_hash(bytes), i, total),
    ensures
        r1 =~= r2,
{
}

} // verus!
