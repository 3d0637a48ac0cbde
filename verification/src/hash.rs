//! Non-cryptographic digests of byte strings.

use vstd::prelude::*;

verus! {

/// The basis of the 64-bit FNV-1a hash.
pub const FNV_BASIS: u64 = 0xcbf2_9ce4_8422_2325;

/// The prime of the 64-bit FNV-1a hash.
pub const FNV_PRIME: u64 = 0x0000_0100_0000_01b3;

/// The basis of the second half of a 128-bit digest.
pub const SECOND_BASIS: u64 = 0x9e37_79b9_7f4a_7c15;

pub open spec fn fnv_step(hash: u64, byte: u8) -> u64 {
    (hash ^ (byte as u64)).wrapping_mul(FNV_PRIME)
}

/// FNV-1a from a given state.
pub open spec fn fnv(hash: u64, bytes: Seq<u8>) -> u64
    decreases bytes.len(),
{
    if bytes.len() == 0 {
        hash
    } else {
        fnv_step(fnv(hash, bytes.drop_last()), bytes.last())
    }
}

/// Spreads every input bit over the whole word.
pub open spec fn mixed(h: u64) -> u64 {
    let a = (h ^ (h >> 33)).wrapping_mul(0xff51_afd7_ed55_8ccd);
    let b = (a ^ (a >> 33)).wrapping_mul(0xc4ce_b9fe_1a85_ec53);
    b ^ (b >> 33)
}

pub open spec fn spec_hash128(bytes: Seq<u8>) -> (u64, u64) {
    (mixed(fnv(FNV_BASIS, bytes)), mixed(fnv(SECOND_BASIS, bytes)))
}

/// Continues an FNV-1a hash over `bytes`.
pub fn fnv_over(hash: u64, bytes: &[u8]) -> (r: u64)
    ensures
        r == fnv(hash, bytes@),
{
    let mut h: u64 = hash;
    let mut i: usize = 0;
    assert(bytes@.take(0) == Seq::<u8>::empty());
    while i < bytes.len()
        invariant
            i <= bytes@.len(),
            h == fnv(hash, bytes@.take(i as int)),
        decreases bytes@.len() - i,
    {
        h = (h ^ (bytes[i] as u64)).wrapping_mul(FNV_PRIME);
        assert(bytes@.take(i + 1).drop_last() == bytes@.take(i as int));
        i += 1;
    }
    assert(bytes@.take(bytes@.len() as int) == bytes@);
    h
}

fn mix(h: u64) -> (r: u64)
    ensures
        r == mixed(h),
{
    let a: u64 = (h ^ (h >> 33)).wrapping_mul(0xff51_afd7_ed55_8ccd);
    let b: u64 = (a ^ (a >> 33)).wrapping_mul(0xc4ce_b9fe_1a85_ec53);
    b ^ (b >> 33)
}

/// A 128-bit digest, as its low and high half.
pub fn hash128(bytes: &[u8]) -> (r: (u64, u64))
    ensures
        r == spec_hash128(bytes@),
{
    (mix(fnv_over(FNV_BASIS, bytes)), mix(fnv_over(SECOND_BASIS, bytes)))
}

/// The digest's numbers: a byte is folded in by exclusive or and a product with
/// the 64-bit FNV prime, from the FNV basis for one half and from the golden
/// ratio for the other.
pub proof fn law_a_byte_is_folded_in(hash: u64, bytes: Seq<u8>, byte: u8)
    ensures
        fnv(hash, Seq::empty()) == hash,
        fnv(hash, bytes.push(byte)) == (fnv(hash, bytes) ^ (byte as u64)).wrapping_mul(
            1_099_511_628_211,
        ),
        FNV_BASIS == 14_695_981_039_346_656_037,
        spec_hash128(bytes).0 == mixed(fnv(14_695_981_039_346_656_037, bytes)),
        spec_hash128(bytes).1 == mixed(fnv(11_400_714_819_323_198_485, bytes)),
{
    assert(bytes.push(byte).drop_last() =~= bytes);
}

} // verus!
