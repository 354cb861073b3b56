use vstd::prelude::*;

use vstd::slice::{slice_subrange, slice_to_vec};
use vstd::utf8::{decode_utf8, valid_utf8};

use crate::error::Error;
use crate::intbytes::{i64_be_bytes, i64_of_be_bytes, lemma_i64_be_round_trip, push_bytes,
    push_i64_be};
use crate::keys::{pubkey_of, pubkey_valid, sig_verifies, sign_of, PubKey, SecKey};
use crate::message::{NewInboundMessage, NewOutboundMessage};

verus! {

/// The sender's public key inside an envelope.
pub open spec fn envelope_pk(b: Seq<u8>) -> Seq<u8> {
    b.subrange(1, 33)
}

/// The signature inside an envelope.
pub open spec fn envelope_sig(b: Seq<u8>) -> Seq<u8> {
    b.subrange(33, 97)
}

/// The signed payload of an envelope: timestamp and content bytes.
pub open spec fn envelope_payload(b: Seq<u8>) -> Seq<u8> {
    b.skip(97)
}

/// What decoding a byte string yields: the sender's key bytes, the timestamp
/// and the content, or the first of the decoder's errors that applies.
pub open spec fn spec_parse(b: Seq<u8>) -> Result<(Seq<u8>, i64, Seq<char>), Error> {
    if b.len() < 97 {
        Err(Error::TruncatedFrame)
    } else if b[0] != 0u8 {
        Err(Error::UnsupportedVersion)
    } else if !pubkey_valid(envelope_pk(b)) {
        Err(Error::BadKey)
    } else if !sig_verifies(envelope_pk(b), envelope_payload(b), envelope_sig(b)) {
        Err(Error::BadSignature)
    } else if b.len() < 105 {
        Err(Error::TruncatedFrame)
    } else if !valid_utf8(b.skip(105)) {
        Err(Error::BadEncoding)
    } else {
        Ok((envelope_pk(b), i64_of_be_bytes(b.subrange(97, 105)), decode_utf8(b.skip(105))))
    }
}

/// The signed payload an encoder produces for a draft.
pub open spec fn spec_payload(time: i64, content: Seq<char>) -> Seq<u8> {
    i64_be_bytes(time) + vstd::utf8::encode_utf8(content)
}

/// The envelope the local key `sk` produces for a draft: version byte, the
/// local public key, the signature over the payload, then the payload.
pub open spec fn spec_encode(sk: Seq<u8>, time: i64, content: Seq<char>) -> Seq<u8> {
    seq![0u8] + pubkey_of(sk) + sign_of(sk, spec_payload(time, content)) + spec_payload(
        time,
        content,
    )
}

/// Relies on std's String::from_utf8: it accepts exactly valid UTF-8 and
/// decodes it.
#[verifier::external_body]
pub(crate) fn string_from_utf8(v: Vec<u8>) -> (r: Option<String>)
    ensures
        match r {
            Some(s) => valid_utf8(v@) && s@ == decode_utf8(v@),
            None => !valid_utf8(v@),
        },
{
    String::from_utf8(v).ok()
}

/// Decodes and authenticates an envelope, exactly as `spec_parse` says.
pub fn parse(bytes: &[u8]) -> (r: Result<NewInboundMessage, Error>)
    ensures
        match r {
            Ok(m) => spec_parse(bytes@) == Ok::<(Seq<u8>, i64, Seq<char>), Error>(
                (m.from@, m.time, m.content@),
            ) && m.wf(),
            Err(e) => spec_parse(bytes@) == Err::<(Seq<u8>, i64, Seq<char>), Error>(e),
        },
{
    if bytes.len() < 97 {
        return Err(Error::TruncatedFrame);
    }
    if bytes[0] != 0 {
        return Err(Error::UnsupportedVersion);
    }
    let pk_bytes = slice_subrange(bytes, 1, 33);
    let from = match PubKey::from_bytes(slice_to_vec(pk_bytes)) {
        Some(k) => k,
        None => {
            return Err(Error::BadKey);
        },
    };
    let sig = slice_subrange(bytes, 33, 97);
    let payload = slice_subrange(bytes, 97, bytes.len());
    assert(payload@ == envelope_payload(bytes@));
    if !crate::keys::verify_bytes(&from, payload, sig) {
        return Err(Error::BadSignature);
    }
    if bytes.len() < 105 {
        return Err(Error::TruncatedFrame);
    }
    let time = crate::intbytes::i64_from_be_at(bytes, 97);
    let content_bytes = slice_to_vec(slice_subrange(bytes, 105, bytes.len()));
    assert(content_bytes@ == bytes@.skip(105));
    let content = match string_from_utf8(content_bytes) {
        Some(s) => s,
        None => {
            return Err(Error::BadEncoding);
        },
    };
    Ok(NewInboundMessage { from, time, content })
}

/// Builds and signs an envelope for a draft. Decoding what it returns yields
/// the draft's timestamp and content and the local public key back.
pub fn encode(key: &SecKey, message: &NewOutboundMessage) -> (r: Result<Vec<u8>, Error>)
    requires
        key.wf(),
    ensures
        match r {
            Ok(v) => {
                &&& v@ == spec_encode(key@, message.time, message.content@)
                &&& spec_parse(v@) == Ok::<(Seq<u8>, i64, Seq<char>), Error>(
                    (pubkey_of(key@), message.time, message.content@),
                )
            },
            Err(_) => false,
        },
{
    broadcast use vstd::utf8::encode_utf8_valid_utf8, vstd::utf8::encode_utf8_decode_utf8;

    let mut payload: Vec<u8> = Vec::new();
    push_i64_be(&mut payload, message.time);
    push_bytes(&mut payload, message.content.as_str().as_bytes());
    assert(payload@ == spec_payload(message.time, message.content@));
    let pk = key.public();
    let sig = key.sign(payload.as_slice());
    let mut res: Vec<u8> = Vec::new();
    res.push(0);
    push_bytes(&mut res, pk.as_bytes());
    push_bytes(&mut res, sig.as_slice());
    push_bytes(&mut res, payload.as_slice());
    proof {
        assert(res@ =~= spec_encode(key@, message.time, message.content@));
        let b = res@;
        assert(envelope_pk(b) =~= pubkey_of(key@));
        assert(envelope_sig(b) =~= sig@);
        assert(envelope_payload(b) =~= payload@);
        assert(b.skip(105) =~= vstd::utf8::encode_utf8(message.content@));
        assert(b.subrange(97, 105) =~= i64_be_bytes(message.time));
        lemma_i64_be_round_trip(message.time);
    }
    Ok(res)
}

/// Any input shorter than the fixed-size prefix is refused as truncated,
/// whatever its bytes hold.
pub proof fn lemma_short_input_truncated(b: Seq<u8>)
    requires
        b.len() < 97,
    ensures
        spec_parse(b) == Err::<(Seq<u8>, i64, Seq<char>), Error>(Error::TruncatedFrame),
{
}

/// An envelope whose signature the verifier refuses is rejected as
/// `BadSignature`, never decoded. For a tampered payload or signature the
/// refusal itself is the cryptography's promise, not a logical one; this
/// lemma states the decoder's behavior whenever the verifier refuses.
pub proof fn lemma_refused_signature_rejected(b: Seq<u8>)
    requires
        b.len() >= 97,
        b[0] == 0u8,
        pubkey_valid(envelope_pk(b)),
        !sig_verifies(envelope_pk(b), envelope_payload(b), envelope_sig(b)),
    ensures
        spec_parse(b) == Err::<(Seq<u8>, i64, Seq<char>), Error>(Error::BadSignature),
{
}

} // verus!
