use vstd::prelude::*;

use vstd::slice::{slice_subrange, slice_to_vec};
use vstd::utf8::{decode_utf8, valid_utf8};

use crate::error::Error;
use crate::intbytes::{push_bytes, u64_be_bytes, push_u64_be};
use crate::keys::{bytes_eq, pubkey_valid, PubKey};
use crate::message::NewOutboundMessage;
use crate::wire::string_from_utf8;

verus! {

/// What base64::encode (standard alphabet, padded) returns, as bytes: a
/// deterministic function of the input.
pub uninterp spec fn base64_of(b: Seq<u8>) -> Seq<u8>;

/// Relies on base64::encode: the result depends on the input bytes alone.
#[verifier::external_body]
fn b64_encode(data: &[u8]) -> (r: Vec<u8>)
    ensures
        r@ == base64_of(data@),
{
    base64::encode(data).into_bytes()
}

/// The exact Authorization value a privileged request must carry:
/// `Basic ` followed by the base64 encoding of `me:<password>`.
pub open spec fn expected_auth(password: Seq<u8>) -> Seq<u8> {
    seq![0x42u8, 0x61u8, 0x73u8, 0x69u8, 0x63u8, 0x20u8] + base64_of(
        seq![0x6du8, 0x65u8, 0x3au8] + password,
    )
}

/// Whether the Authorization header authenticates the owner.
pub fn check_auth(header: &[u8], password: &[u8]) -> (r: bool)
    ensures
        r == (header@ == expected_auth(password@)),
{
    let mut cred: Vec<u8> = Vec::new();
    cred.push(0x6d);
    cred.push(0x65);
    cred.push(0x3a);
    push_bytes(&mut cred, password);
    proof {
        assert(cred@ =~= seq![0x6du8, 0x65u8, 0x3au8] + password@);
    }
    let encoded = b64_encode(cred.as_slice());
    let mut expected: Vec<u8> = Vec::new();
    expected.push(0x42);
    expected.push(0x61);
    expected.push(0x73);
    expected.push(0x69);
    expected.push(0x63);
    expected.push(0x20);
    push_bytes(&mut expected, encoded.as_slice());
    proof {
        assert(expected@ =~= expected_auth(password@));
    }
    bytes_eq(header, expected.as_slice())
}

/// What an authenticated POST body asks for.
#[derive(Debug)]
pub enum PostAction {
    Send(NewOutboundMessage),
    SaveUser(PubKey, String),
}

/// The error an authenticated POST body is refused with, if any: short or
/// unknown-opcode bodies are malformed, a bad key is `BadKey`, bad UTF-8 is
/// `BadEncoding`.
pub open spec fn post_err(b: Seq<u8>) -> Option<Error> {
    if b.len() < 33 {
        Some(Error::BadEncoding)
    } else if b[0] == 0u8 {
        if b.len() < 49 {
            Some(Error::BadKey)
        } else if !pubkey_valid(b.subrange(17, 49)) {
            Some(Error::BadKey)
        } else if !valid_utf8(b.skip(49)) {
            Some(Error::BadEncoding)
        } else {
            None
        }
    } else if b[0] == 1u8 {
        if !pubkey_valid(b.subrange(1, 33)) {
            Some(Error::BadKey)
        } else if !valid_utf8(b.skip(33)) {
            Some(Error::BadEncoding)
        } else {
            None
        }
    } else {
        Some(Error::BadEncoding)
    }
}

/// Parses an authenticated POST body: opcode 0 is an outbound send (16-byte
/// tracking id, zero meaning absent; 32-byte recipient key; UTF-8 content,
/// timestamped with `now`), opcode 1 an upsert of a user's name.
pub fn parse_post_body(b: &[u8], now: i64) -> (r: Result<PostAction, Error>)
    ensures
        match r {
            Err(e) => post_err(b@) == Some(e),
            Ok(a) => post_err(b@) is None && (match a {
                PostAction::Send(m) => {
                    &&& b@[0] == 0u8
                    &&& m.wf()
                    &&& m.to@ == b@.subrange(17, 49)
                    &&& m.time == now
                    &&& m.content@ == decode_utf8(b@.skip(49))
                    &&& (match m.tracking_id {
                        Some(t) => t@ == b@.subrange(1, 17) && (exists|i: int|
                            1 <= i < 17 && b@[i] != 0u8),
                        None => forall|i: int| 1 <= i < 17 ==> b@[i] == 0u8,
                    })
                },
                PostAction::SaveUser(k, name) => {
                    &&& b@[0] == 1u8
                    &&& k.wf()
                    &&& k@ == b@.subrange(1, 33)
                    &&& name@ == decode_utf8(b@.skip(33))
                },
            }),
        },
{
    if b.len() < 33 {
        return Err(Error::BadEncoding);
    }
    if b[0] == 0 {
        if b.len() < 49 {
            return Err(Error::BadKey);
        }
        let to = match PubKey::from_bytes(slice_to_vec(slice_subrange(b, 17, 49))) {
            Some(k) => k,
            None => {
                return Err(Error::BadKey);
            },
        };
        let content = match string_from_utf8(slice_to_vec(slice_subrange(b, 49, b.len()))) {
            Some(s) => s,
            None => {
                return Err(Error::BadEncoding);
            },
        };
        let tb = slice_subrange(b, 1, 17);
        let mut nil = true;
        for i in 0..16usize
            invariant
                tb@.len() == 16,
                tb@ == b@.subrange(1, 17),
                nil == (forall|j: int| 0 <= j < i ==> tb@[j] == 0u8),
        {
            if tb[i] != 0 {
                nil = false;
            }
        }
        let tracking_id = if nil {
            None
        } else {
            Some(slice_to_vec(tb))
        };
        proof {
            if nil {
                assert forall|i: int| 1 <= i < 17 implies b@[i] == 0u8 by {
                    assert(tb@[i - 1] == b@[i]);
                }
            } else {
                let j = choose|j: int| 0 <= j < 16 && tb@[j] != 0u8;
                assert(b@[j + 1] == tb@[j]);
                assert(exists|i: int| 1 <= i < 17 && b@[i] != 0u8);
            }
        }
        Ok(PostAction::Send(NewOutboundMessage { tracking_id, to, time: now, content }))
    } else if b[0] == 1 {
        let k = match PubKey::from_bytes(slice_to_vec(slice_subrange(b, 1, 33))) {
            Some(k) => k,
            None => {
                return Err(Error::BadKey);
            },
        };
        let name = match string_from_utf8(slice_to_vec(slice_subrange(b, 33, b.len()))) {
            Some(s) => s,
            None => {
                return Err(Error::BadEncoding);
            },
        };
        Ok(PostAction::SaveUser(k, name))
    } else {
        Err(Error::BadEncoding)
    }
}

/// The 24-byte version blob an unauthenticated GET receives: the three
/// version numbers, big-endian.
pub fn version_bytes(major: u64, minor: u64, patch: u64) -> (r: Vec<u8>)
    ensures
        r@ == u64_be_bytes(major) + u64_be_bytes(minor) + u64_be_bytes(patch),
        r@.len() == 24,
{
    let mut out: Vec<u8> = Vec::new();
    push_u64_be(&mut out, major);
    push_u64_be(&mut out, minor);
    push_u64_be(&mut out, patch);
    out
}

} // verus!
