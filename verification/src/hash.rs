//! The 64-bit FNV-1a hash.

use vstd::prelude::*;

verus! {

/// The hash of no bytes at all.
pub const FNV_OFFSET: u64 = 0xcbf29ce484222325;

/// The factor by which each step multiplies.
pub const FNV_PRIME: u64 = 0x0000_0100_0000_01b3;

/// One step: the byte is mixed in, then the state is multiplied, modulo 2^64.
pub open spec fn fnv_step(h: u64, b: u8) -> u64 {
    (((h ^ (b as u64)) * FNV_PRIME) % 0x1_0000_0000_0000_0000) as u64
}

/// The hash of `bytes`.
pub open spec fn fnv_of(bytes: Seq<u8>) -> u64
    decreases bytes.len(),
{
    if bytes.len() == 0 {
        FNV_OFFSET
    } else {
        fnv_step(fnv_of(bytes.drop_last()), bytes.last())
    }
}

/// The FNV-1a hash of `bytes`.
pub fn fnv1a64(bytes: &[u8]) -> (h: u64)
    ensures
        h == fnv_of(bytes@),
{
    let mut h: u64 = FNV_OFFSET;
    let mut i: usize = 0;
    while i < bytes.len()
        invariant
            i <= bytes@.len(),
            h == fnv_of(bytes@.take(i as int)),
        decreases bytes@.len() - i,
    {
        let x: u64 = h ^ (bytes[i] as u64);
        h = x.wrapping_mul(FNV_PRIME);
        assert(bytes@.take(i + 1).drop_last() =~= bytes@.take(i as int));
        i += 1;
    }
    assert(bytes@.take(bytes@.len() as int) =~= bytes@);
    h
}

} // verus!
