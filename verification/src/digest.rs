//! Hashes, checksums, hex text and random choices, taken from the crates
//! that compute them.

use vstd::prelude::*;
use rand::{Rng, RngCore};
use sha2::{Digest, Sha256};

verus! {

/// The SHA-256 digest of a byte string, as `sha2` computes it.
pub uninterp spec fn sha256(data: Seq<u8>) -> Seq<u8>;

/// The CRC-32 checksum of a byte string, as `crc32fast` computes it.
pub uninterp spec fn crc32(data: Seq<u8>) -> u32;

/// The sixteen lower-case hex digits.
pub open spec fn hex_digits() -> Seq<char> {
    seq!['0', '1', '2', '3', '4', '5', '6', '7', '8', '9', 'a', 'b', 'c', 'd', 'e', 'f']
}

/// Lower-case hex text of a byte string: two digits per byte, the high
/// nibble first.
pub open spec fn hex_string(bytes: Seq<u8>) -> Seq<char> {
    Seq::new(
        2 * bytes.len(),
        |i: int|
            if i % 2 == 0 {
                hex_digits()[(bytes[i / 2] / 16) as int]
            } else {
                hex_digits()[(bytes[i / 2] % 16) as int]
            },
    )
}

/// Calls `sha2::Sha256::digest`. Trusted: the 32 bytes returned are the
/// SHA-256 digest of `data`, a function of `data` alone.
#[verifier::external_body]
pub(crate) fn sha256_digest(data: &[u8]) -> (hash: [u8; 32])
    ensures
        hash@ == sha256(data@),
{
    Sha256::digest(data).into()
}

/// Calls `crc32fast::hash`. Trusted: the value returned is the CRC-32
/// checksum of `data`, a function of `data` alone.
#[verifier::external_body]
pub(crate) fn crc32_checksum(data: &[u8]) -> (sum: u32)
    ensures
        sum == crc32(data@),
{
    crc32fast::hash(data)
}

/// Calls `hex::encode`. Trusted: the text returned holds two lower-case
/// hex digits for each byte of `data`, in order, high nibble first.
#[verifier::external_body]
pub(crate) fn hex_encode(data: &[u8]) -> (text: String)
    ensures
        text@ == hex_string(data@),
{
    hex::encode(data)
}

/// Calls `rand::Rng::gen_range` on the thread's generator with the range
/// `0..bound`. Trusted: the value returned lies in that range; which value
/// it is depends on chance. The empty range, on which the call panics, is
/// left out.
#[verifier::external_body]
pub(crate) fn random_below(bound: usize) -> (pick: usize)
    requires
        bound > 0,
    ensures
        pick < bound,
{
    rand::thread_rng().gen_range(0..bound)
}

/// Calls `rand::RngCore::fill_bytes` on the thread's generator to fill 32
/// bytes. Nothing is promised of the bytes.
#[verifier::external_body]
pub(crate) fn random_bytes32() -> [u8; 32] {
    let mut bytes = [0u8; 32];
    rand::thread_rng().fill_bytes(&mut bytes);
    bytes
}

/// Lower-case hex text of the first `count` bytes of `data`, or of all of
/// it where it is shorter.
pub fn hex_prefix(data: &[u8], count: usize) -> (text: String)
    ensures
        text@ == hex_string(data@.take(if count <= data@.len() { count as int } else { data@.len() as int })),
{
    let n = if count <= data.len() { count } else { data.len() };
    let mut head: Vec<u8> = Vec::new();
    let mut i: usize = 0;
    while i < n
        invariant
            i <= n,
            n <= data@.len(),
            head@ == data@.take(i as int),
        decreases n - i,
    {
        head.push(data[i]);
        proof {
            assert(head@ =~= data@.take(i + 1));
        }
        i += 1;
    }
    hex_encode(head.as_slice())
}

} // verus!
