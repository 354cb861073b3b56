use vstd::prelude::*;

verus! {

/// The RFC 4648 base32 encoding, without padding, that the base32 crate
/// produces (upper-case alphabet).
pub uninterp spec fn base32_nopad_of(b: Seq<u8>) -> Seq<char>;

/// What the base32 crate's RFC 4648 decoder yields for a string, `None` where
/// it refuses the input.
pub uninterp spec fn base32_decode_of(s: Seq<char>) -> Option<Seq<u8>>;

/// Relies on base32::encode with the unpadded RFC 4648 alphabet: the result
/// is a deterministic function of the input bytes.
#[verifier::external_body]
pub(crate) fn b32_encode(data: &[u8]) -> (r: String)
    ensures
        r@ == base32_nopad_of(data@),
{
    base32::encode(base32::Alphabet::RFC4648 { padding: false }, data)
}

/// Relies on base32::decode with the unpadded RFC 4648 alphabet: the result
/// is a deterministic function of the input string.
#[verifier::external_body]
pub(crate) fn b32_decode(s: &str) -> (r: Option<Vec<u8>>)
    ensures
        match r {
            Some(v) => base32_decode_of(s@) == Some(v@),
            None => base32_decode_of(s@) is None,
        },
{
    base32::decode(base32::Alphabet::RFC4648 { padding: false }, s)
}

} // verus!
