use vstd::prelude::*;

use sha3::{Digest, Sha3_256};

use crate::b32::{base32_nopad_of, b32_encode};
use crate::intbytes::push_bytes;
use crate::keys::PubKey;

verus! {

/// The SHA3-256 digest, as the sha3 crate computes it: 32 bytes, a
/// deterministic function of the input alone.
pub uninterp spec fn sha3_256_of(b: Seq<u8>) -> Seq<u8>;

/// Lower-casing as std's str::to_lowercase performs it: a deterministic
/// function of the characters alone.
pub uninterp spec fn ascii_lower_of(s: Seq<char>) -> Seq<char>;

/// Relies on sha3::Sha3_256 (through the Digest trait): the digest has 32
/// bytes and depends on the input alone.
#[verifier::external_body]
fn sha3_256(data: &[u8]) -> (r: Vec<u8>)
    ensures
        r@ == sha3_256_of(data@),
        r@.len() == 32,
{
    let mut h = Sha3_256::new();
    h.update(data);
    h.finalize().to_vec()
}

/// Relies on std's str::to_lowercase: the result depends on the characters
/// alone.
#[verifier::external_body]
fn to_lowercase(s: &str) -> (r: String)
    ensures
        r@ == ascii_lower_of(s@),
{
    s.to_lowercase()
}

/// The bytes whose SHA3-256 digest yields an onion address's checksum:
/// the fixed label ".onion checksum", the public key, and the version byte.
pub open spec fn checksum_input(pk: Seq<u8>) -> Seq<u8> {
    seq![
        0x2eu8,
        0x6fu8,
        0x6eu8,
        0x69u8,
        0x6fu8,
        0x6eu8,
        0x20u8,
        0x63u8,
        0x68u8,
        0x65u8,
        0x63u8,
        0x6bu8,
        0x73u8,
        0x75u8,
        0x6du8,
    ] + pk + seq![3u8]
}

/// The onion v3 hostname for a public key: the lower-cased, unpadded base32
/// encoding of the key, the first two checksum bytes, and the version byte.
pub open spec fn onion_of(pk: Seq<u8>) -> Seq<char> {
    ascii_lower_of(
        base32_nopad_of(pk + sha3_256_of(checksum_input(pk)).take(2) + seq![3u8]),
    )
}

/// Derives the onion v3 hostname that addresses the peer `pk`.
pub fn derive_onion(pk: &PubKey) -> (r: String)
    requires
        pk.wf(),
    ensures
        r@ == onion_of(pk@),
{
    let mut input: Vec<u8> = Vec::new();
    input.push(0x2e);
    input.push(0x6f);
    input.push(0x6e);
    input.push(0x69);
    input.push(0x6f);
    input.push(0x6e);
    input.push(0x20);
    input.push(0x63);
    input.push(0x68);
    input.push(0x65);
    input.push(0x63);
    input.push(0x6b);
    input.push(0x73);
    input.push(0x75);
    input.push(0x6d);
    push_bytes(&mut input, pk.as_bytes());
    input.push(3);
    assert(input@ =~= checksum_input(pk@));
    let digest = sha3_256(input.as_slice());
    let mut addr: Vec<u8> = Vec::new();
    push_bytes(&mut addr, pk.as_bytes());
    addr.push(digest[0]);
    addr.push(digest[1]);
    addr.push(3);
    proof {
        assert(digest@.take(2) =~= seq![digest@[0], digest@[1]]);
        assert(addr@ =~= pk@ + digest@.take(2) + seq![3u8]);
    }
    let upper = b32_encode(addr.as_slice());
    to_lowercase(upper.as_str())
}

} // verus!
