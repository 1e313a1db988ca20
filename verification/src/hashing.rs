//! The stable 64-bit hash that seeds the initial embedding values.

use std::hash::Hasher;
use vstd::prelude::*;

verus! {

/// Offset basis of the 64-bit FNV-1a hash.
pub const FNV_OFFSET_BASIS: u64 = 0xcbf29ce484222325;

/// Prime of the 64-bit FNV-1a hash.
pub const FNV_PRIME: u64 = 0x100000001b3;

/// One FNV-1a round: xor the byte into the state, then multiply by the prime modulo 2^64.
pub open spec fn fnv_round(state: u64, byte: u8) -> u64 {
    (((state ^ (byte as u64)) as int * FNV_PRIME as int) % 0x1_0000_0000_0000_0000) as u64
}

/// The 64-bit FNV-1a hash of a byte string.
pub open spec fn fnv1a(bytes: Seq<u8>) -> u64
    decreases bytes.len(),
{
    if bytes.len() == 0 {
        FNV_OFFSET_BASIS
    } else {
        fnv_round(fnv1a(bytes.drop_last()), bytes.last())
    }
}

/// The eight bytes of a signed 64-bit integer in two's complement, least significant first.
pub open spec fn le_bytes(num: i64) -> Seq<u8> {
    let word = num as u64;
    seq![
        (word % 256) as u8,
        ((word / 0x100) % 256) as u8,
        ((word / 0x1_0000) % 256) as u8,
        ((word / 0x100_0000) % 256) as u8,
        ((word / 0x1_0000_0000) % 256) as u8,
        ((word / 0x100_0000_0000) % 256) as u8,
        ((word / 0x1_0000_0000_0000) % 256) as u8,
        ((word / 0x100_0000_0000_0000) % 256) as u8,
    ]
}

/// The stable hash of a signed 64-bit integer, as a mathematical function.
pub open spec fn stable_hash(num: i64) -> i64 {
    fnv1a(le_bytes(num)) as i64
}

/// Feeds `bytes` to a fresh `fnv::FnvHasher` (`default`, `write`, `finish`).
/// The hasher starts from the offset basis and applies one FNV-1a round per byte, in order.
#[verifier::external_body]
fn fnv_digest(bytes: &[u8]) -> (digest: u64)
    ensures
        digest == fnv1a(bytes@),
{
    let mut hasher = fnv::FnvHasher::default();
    hasher.write(bytes);
    hasher.finish()
}

/// Hashes `num` with 64-bit FNV-1a over its eight little-endian bytes.
pub fn hash(num: i64) -> (digest: i64)
    ensures
        digest == stable_hash(num),
{
    let word: u64 = #[verifier::truncate] (num as u64);
    let bytes: [u8; 8] = [
        (word % 256) as u8,
        ((word / 0x100) % 256) as u8,
        ((word / 0x1_0000) % 256) as u8,
        ((word / 0x100_0000) % 256) as u8,
        ((word / 0x1_0000_0000) % 256) as u8,
        ((word / 0x100_0000_0000) % 256) as u8,
        ((word / 0x1_0000_0000_0000) % 256) as u8,
        ((word / 0x100_0000_0000_0000) % 256) as u8,
    ];
    proof {
        assert(bytes@ =~= le_bytes(num));
    }
    let digest = fnv_digest(bytes.as_slice());
    #[verifier::truncate] (digest as i64)
}

} // verus!
