use vstd::prelude::*;

use crate::field::u64_be_bytes;
use crate::merkle::{sha3_256, sha3_256_of};

verus! {

/// Leading zero bits of one byte.
pub open spec fn byte_leading_zeros(b: u8) -> nat {
    if b >= 128 {
        0
    } else if b >= 64 {
        1
    } else if b >= 32 {
        2
    } else if b >= 16 {
        3
    } else if b >= 8 {
        4
    } else if b >= 4 {
        5
    } else if b >= 2 {
        6
    } else if b >= 1 {
        7
    } else {
        8
    }
}

/// Leading zero bits of a byte string read most significant bit first.
pub open spec fn leading_zero_bits(d: Seq<u8>) -> nat
    decreases d.len(),
{
    if d.len() == 0 {
        0
    } else if d[0] == 0 {
        8 + leading_zero_bits(d.drop_first())
    } else {
        byte_leading_zeros(d[0])
    }
}

/// The digest that a nonce is judged by: SHA3-256 of the seed followed by the
/// nonce's eight big-endian bytes.
pub open spec fn nonce_digest(seed: Seq<u8>, nonce: u64) -> Seq<u8> {
    sha3_256_of(seed + u64_be_bytes(nonce))
}

/// Whether a nonce meets the grinding factor for a seed.
pub open spec fn nonce_is_valid(seed: Seq<u8>, nonce: u64, grinding_factor: u8) -> bool {
    leading_zero_bits(nonce_digest(seed, nonce)) >= grinding_factor
}

fn byte_leading_zeros_exec(b: u8) -> (r: u32)
    ensures
        r as nat == byte_leading_zeros(b),
{
    if b >= 128 {
        0
    } else if b >= 64 {
        1
    } else if b >= 32 {
        2
    } else if b >= 16 {
        3
    } else if b >= 8 {
        4
    } else if b >= 4 {
        5
    } else if b >= 2 {
        6
    } else if b >= 1 {
        7
    } else {
        8
    }
}

/// Leading zero bits of a digest.
pub fn leading_zeros(d: &[u8; 32]) -> (r: u32)
    ensures
        r as nat == leading_zero_bits(d@),
        r <= 256,
{
    let mut i: usize = 0;
    let mut acc: u32 = 0;
    proof {
        assert(d@.skip(0) =~= d@);
    }
    while i < 32
        invariant
            i <= 32,
            acc == 8 * i,
            forall|k: int| 0 <= k < i ==> d@[k] == 0,
            leading_zero_bits(d@) == acc + leading_zero_bits(d@.skip(i as int)),
        decreases 32 - i,
    {
        proof {
            assert(d@.skip(i as int).drop_first() =~= d@.skip(i as int + 1));
        }
        if d[i] != 0 {
            return acc + byte_leading_zeros_exec(d[i]);
        }
        acc = acc + 8;
        i = i + 1;
    }
    proof {
        assert(d@.skip(32) =~= Seq::<u8>::empty());
    }
    acc
}

/// The digest of `seed ∥ nonce`.
pub fn hash_with_nonce(seed: &[u8; 32], nonce: u64) -> (r: [u8; 32])
    ensures
        r@ == nonce_digest(seed@, nonce),
{
    let mut bytes: Vec<u8> = Vec::new();
    let mut i: usize = 0;
    while i < 32
        invariant
            i <= 32,
            bytes@ == seed@.take(i as int),
        decreases 32 - i,
    {
        bytes.push(seed[i]);
        i = i + 1;
        proof {
            assert(bytes@ =~= seed@.take(i as int));
        }
    }
    let mut k: u64 = 0;
    proof {
        assert(seed@.take(32) =~= seed@);
    }
    while k < 8
        invariant
            k <= 8,
            bytes@ == seed@ + u64_be_bytes(nonce).take(k as int),
        decreases 8 - k,
    {
        bytes.push((nonce >> (56 - 8 * k)) as u8);
        k = k + 1;
        proof {
            assert(bytes@ =~= seed@ + u64_be_bytes(nonce).take(k as int));
        }
    }
    proof {
        assert(u64_be_bytes(nonce).take(8) =~= u64_be_bytes(nonce));
    }
    sha3_256(&bytes)
}

/// Whether `nonce` gives a digest with at least `grinding_factor` leading zero bits.
pub fn is_valid_nonce(seed: &[u8; 32], nonce: u64, grinding_factor: u8) -> (r: bool)
    ensures
        r == nonce_is_valid(seed@, nonce, grinding_factor),
{
    let d = hash_with_nonce(seed, nonce);
    leading_zeros(&d) >= grinding_factor as u32
}

/// The smallest nonce that meets the grinding factor, searched from zero; `None`
/// when no nonce below `u64::MAX` meets it.
pub fn generate_nonce(seed: &[u8; 32], grinding_factor: u8) -> (r: Option<u64>)
    ensures
        r matches Some(n) ==> nonce_is_valid(seed@, n, grinding_factor)
            && forall|m: u64| m < n ==> !nonce_is_valid(seed@, m, grinding_factor),
        r is None ==> forall|m: u64| m < u64::MAX ==> !nonce_is_valid(seed@, m, grinding_factor),
{
    let mut n: u64 = 0;
    while n < u64::MAX
        invariant
            forall|m: u64| m < n ==> !nonce_is_valid(seed@, m, grinding_factor),
        decreases u64::MAX - n,
    {
        if is_valid_nonce(seed, n, grinding_factor) {
            return Some(n);
        }
        n = n + 1;
    }
    None
}

} // verus!
