//! 64-bit FNV-1a hashing, the hash behind the weighted and consistent
//! selectors, and the deterministic generator that seeds the random selector.

use vstd::prelude::*;

verus! {

/// FNV-1a offset basis.
pub const FNV_OFFSET: u64 = 0xcbf2_9ce4_8422_2325;

/// FNV-1a prime.
pub const FNV_PRIME: u64 = 0x0000_0100_0000_01b3;

/// One FNV-1a round: fold a byte into the running hash.
pub open spec fn fnv1a64_step(h: u64, b: u8) -> u64 {
    (h ^ (b as u64)).wrapping_mul(FNV_PRIME)
}

/// The FNV-1a hash of a prefix of `bytes` of length `n`.
pub open spec fn fnv1a64_prefix(bytes: Seq<u8>, n: int) -> u64
    decreases n,
{
    if n <= 0 {
        FNV_OFFSET
    } else {
        fnv1a64_step(fnv1a64_prefix(bytes, n - 1), bytes[n - 1])
    }
}

/// The 64-bit FNV-1a hash of a byte sequence.
pub open spec fn fnv1a64_spec(bytes: Seq<u8>) -> u64 {
    fnv1a64_prefix(bytes, bytes.len() as int)
}

/// Computes the 64-bit FNV-1a hash of `bytes`.
pub fn fnv1a64(bytes: &[u8]) -> (h: u64)
    ensures
        h == fnv1a64_spec(bytes@),
{
    let mut h: u64 = FNV_OFFSET;
    let mut i: usize = 0;
    while i < bytes.len()
        invariant
            i <= bytes@.len(),
            h == fnv1a64_prefix(bytes@, i as int),
        decreases bytes@.len() - i,
    {
        h = (h ^ (bytes[i] as u64)).wrapping_mul(FNV_PRIME);
        i = i + 1;
    }
    h
}

/// The little-endian bytes of the low `n` bytes of `x`.
pub open spec fn le_bytes_n(x: int, n: nat) -> Seq<u8>
    decreases n,
{
    if n == 0 {
        Seq::empty()
    } else {
        seq![(x % 256) as u8] + le_bytes_n(x / 256, (n - 1) as nat)
    }
}

/// The eight little-endian bytes of a 64-bit value.
pub open spec fn u64_le_bytes(x: u64) -> Seq<u8> {
    le_bytes_n(x as int, 8)
}

/// Computes the eight little-endian bytes of `x`.
pub fn u64_le_bytes_exec(x: u64) -> (v: Vec<u8>)
    ensures
        v@ == u64_le_bytes(x),
{
    let b0: u8 = (x % 256) as u8;
    let x1: u64 = x / 256;
    let b1: u8 = (x1 % 256) as u8;
    let x2: u64 = x1 / 256;
    let b2: u8 = (x2 % 256) as u8;
    let x3: u64 = x2 / 256;
    let b3: u8 = (x3 % 256) as u8;
    let x4: u64 = x3 / 256;
    let b4: u8 = (x4 % 256) as u8;
    let x5: u64 = x4 / 256;
    let b5: u8 = (x5 % 256) as u8;
    let x6: u64 = x5 / 256;
    let b6: u8 = (x6 % 256) as u8;
    let x7: u64 = x6 / 256;
    let b7: u8 = (x7 % 256) as u8;
    let v: Vec<u8> = vec![b0, b1, b2, b3, b4, b5, b6, b7];
    proof {
        reveal_with_fuel(le_bytes_n, 9);
        assert(v@ =~= u64_le_bytes(x));
    }
    v
}

} // verus!
