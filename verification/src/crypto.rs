//! Cryptographic primitives and randomness: double-SHA-256 checksums over
//! wire payloads, hex rendering, and the random draws the address manager
//! and the peer engine need.

use vstd::prelude::*;

use rand::seq::SliceRandom;

verus! {

/// What SHA-256 returns on a byte sequence; a function of the bytes alone.
pub uninterp spec fn sha256_of(data: Seq<u8>) -> Seq<u8>;

/// Relies on openssl::sha::sha256: the 32-byte SHA-256 digest of `data`,
/// a pure function of the input bytes.
#[verifier::external_body]
pub fn sha256(data: &[u8]) -> (r: Vec<u8>)
    ensures
        r@ == sha256_of(data@),
        r@.len() == 32,
{
    openssl::sha::sha256(data).to_vec()
}

/// The double SHA-256 digest of a byte sequence.
pub open spec fn dsha256_of(data: Seq<u8>) -> Seq<u8> {
    sha256_of(sha256_of(data))
}

/// Double SHA-256: the digest of the digest.
pub fn dsha256(data: &[u8]) -> (r: Vec<u8>)
    ensures
        r@ == dsha256_of(data@),
        r@.len() == 32,
{
    let first = sha256(data);
    sha256(first.as_slice())
}

/// The first four bytes of the double SHA-256 digest, read little-endian.
pub open spec fn checksum_of(data: Seq<u8>) -> u32 {
    (dsha256_of(data)[0] as u32) | ((dsha256_of(data)[1] as u32) << 8)
        | ((dsha256_of(data)[2] as u32) << 16) | ((dsha256_of(data)[3] as u32) << 24)
}

/// The first four bytes of the double SHA-256 of `data` as a little-endian u32.
pub fn hash_first_u32(data: &[u8]) -> (r: u32)
    ensures
        r == checksum_of(data@),
{
    let digest = dsha256(data);
    (digest[0] as u32) | ((digest[1] as u32) << 8) | ((digest[2] as u32) << 16) | (
    (digest[3] as u32) << 24)
}

/// The payload checksum carried in every message header.
pub fn checksum(data: &[u8]) -> (r: u32)
    ensures
        r == checksum_of(data@),
{
    hash_first_u32(data)
}

/// The ASCII code of the hex digit for a value below 16.
pub open spec fn hex_digit(v: u8) -> u8 {
    if v < 10 {
        (48 + v) as u8
    } else {
        (87 + v) as u8
    }
}

/// Hex rendering of a 32-byte digest: two lowercase ASCII digits per byte.
pub fn to_hexstr(data: &[u8]) -> (r: Vec<u8>)
    requires
        data@.len() == 32,
    ensures
        r@.len() == 64,
        forall|i: int|
            0 <= i < 32 ==> r@[2 * i] == hex_digit((data@[i] >> 4) as u8) && r@[2 * i + 1]
                == hex_digit((data@[i] & 0xf) as u8),
{
    let mut r: Vec<u8> = Vec::new();
    let mut i: usize = 0;
    while i < 32
        invariant
            data@.len() == 32,
            i <= 32,
            r@.len() == 2 * i,
            forall|j: int|
                0 <= j < i ==> r@[2 * j] == hex_digit((data@[j] >> 4) as u8) && r@[2 * j + 1]
                    == hex_digit((data@[j] & 0xf) as u8),
        decreases 32 - i,
    {
        let b = data[i];
        let hi = b >> 4;
        let lo = b & 0xf;
        assert(b >> 4 < 16 && b & 0xf < 16) by (bit_vector);
        r.push(if hi < 10 { 48 + hi } else { 87 + hi });
        r.push(if lo < 10 { 48 + lo } else { 87 + lo });
        i += 1;
    }
    r
}

/// Relies on rand::fill: 256 bytes drawn from the OS-seeded generator.
/// Nothing holds of the values; only the length is promised.
#[verifier::external_body]
pub fn new_secret() -> (r: Vec<u8>)
    ensures
        r@.len() == 256,
{
    let mut b = vec![0u8; 256];
    rand::fill(&mut b[..]);
    b
}

/// Relies on rand::random: a uniformly random u64; nothing can be promised
/// of the value.
#[verifier::external_body]
pub fn random_u64() -> (r: u64) {
    rand::random::<u64>()
}

/// Relies on rand::random_range: a random value between `low` and `max`,
/// both inclusive; only the bounds hold of every outcome.
#[verifier::external_body]
pub fn rand_interval(low: usize, max: usize) -> (r: usize)
    requires
        low <= max,
    ensures
        low <= r <= max,
{
    rand::random_range(low..=max)
}

/// Relies on rand::seq::SliceRandom::shuffle: permutes the elements in
/// place, so the multiset of elements is unchanged, and in particular
/// exactly the same elements occur.
#[verifier::external_body]
pub fn shuffle<T>(v: &mut Vec<T>)
    ensures
        final(v)@.to_multiset() == old(v)@.to_multiset(),
        final(v)@.len() == old(v)@.len(),
        forall|x: T| final(v)@.contains(x) == old(v)@.contains(x),
{
    v.as_mut_slice().shuffle(&mut rand::rng());
}

} // verus!
