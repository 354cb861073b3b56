use vstd::prelude::*;

use ed25519_dalek::Verifier;

verus! {

/// The compressed public half that ed25519_dalek derives from a 64-byte
/// expanded secret key.
pub uninterp spec fn pubkey_of(sk: Seq<u8>) -> Seq<u8>;

/// The signature that ed25519_dalek produces with the expanded secret key
/// `sk` over the message `msg`; a deterministic function of both.
pub uninterp spec fn sign_of(sk: Seq<u8>, msg: Seq<u8>) -> Seq<u8>;

/// Whether ed25519_dalek accepts `sig` as a signature by `pk` over `msg`.
pub uninterp spec fn sig_verifies(pk: Seq<u8>, msg: Seq<u8>, sig: Seq<u8>) -> bool;

/// Whether 32 bytes decode to a point of the curve, as
/// ed25519_dalek::PublicKey::from_bytes checks.
pub uninterp spec fn pubkey_valid(pk: Seq<u8>) -> bool;

/// A 64-byte expanded secret key whose scalar half carries the standard
/// clamping: low three bits clear, bit 254 set, bit 255 clear. Key expansion
/// produces exactly this shape, and signing relies on it.
pub open spec fn seckey_clamped(s: Seq<u8>) -> bool {
    &&& s.len() == 64
    &&& s[0] & 7u8 == 0u8
    &&& s[31] & 192u8 == 64u8
}

/// Relies on ed25519_dalek::PublicKey::from(&ExpandedSecretKey): from 64 key
/// bytes it derives the 32-byte compressed public key, a point of the curve
/// that PublicKey::from_bytes accepts again.
#[verifier::external_body]
fn dalek_public_key(sk: &[u8]) -> (r: Vec<u8>)
    requires
        sk@.len() == 64,
    ensures
        r@ == pubkey_of(sk@),
        r@.len() == 32,
        pubkey_valid(r@),
{
    let esk = ed25519_dalek::ExpandedSecretKey::from_bytes(sk).expect("64 key bytes");
    ed25519_dalek::PublicKey::from(&esk).as_bytes().to_vec()
}

/// Relies on ed25519_dalek::ExpandedSecretKey::sign: it returns a 64-byte
/// signature, a deterministic function of the key and the message, and for a
/// clamped key that signature verifies under the derived public key.
#[verifier::external_body]
fn dalek_sign(sk: &[u8], msg: &[u8]) -> (r: Vec<u8>)
    requires
        seckey_clamped(sk@),
    ensures
        r@ == sign_of(sk@, msg@),
        r@.len() == 64,
        sig_verifies(pubkey_of(sk@), msg@, r@),
{
    let esk = ed25519_dalek::ExpandedSecretKey::from_bytes(sk).expect("64 key bytes");
    let pk = ed25519_dalek::PublicKey::from(&esk);
    esk.sign(msg, &pk).to_bytes().to_vec()
}

/// Relies on ed25519_dalek::PublicKey::verify (and the byte parsing of
/// PublicKey and Signature before it): acceptance is a deterministic function
/// of key, message and signature bytes, false whenever any of the three fails
/// to parse.
#[verifier::external_body]
fn dalek_verify(pk: &[u8], msg: &[u8], sig: &[u8]) -> (r: bool)
    ensures
        r == sig_verifies(pk@, msg@, sig@),
{
    let pk = match ed25519_dalek::PublicKey::from_bytes(pk) {
        Ok(k) => k,
        Err(_) => return false,
    };
    let sig = match ed25519_dalek::Signature::from_bytes(sig) {
        Ok(s) => s,
        Err(_) => return false,
    };
    pk.verify(msg, &sig).is_ok()
}

/// Relies on ed25519_dalek::PublicKey::from_bytes: it accepts exactly the
/// 32-byte strings that decompress to a curve point.
#[verifier::external_body]
fn dalek_pubkey_check(b: &[u8]) -> (r: bool)
    ensures
        r == (b@.len() == 32 && pubkey_valid(b@)),
{
    ed25519_dalek::PublicKey::from_bytes(b).is_ok()
}

/// An Ed25519 public key: 32 bytes that decode to a curve point. It is a
/// correspondent's identity, and the address outbound messages are sent to.
#[derive(Clone, Debug)]
pub struct PubKey {
    bytes: Vec<u8>,
}

impl View for PubKey {
    type V = Seq<u8>;

    closed spec fn view(&self) -> Seq<u8> {
        self.bytes@
    }
}

impl PubKey {
    pub open spec fn wf(&self) -> bool {
        self@.len() == 32 && pubkey_valid(self@)
    }

    /// Accepts exactly the byte strings that are a valid public key.
    pub fn from_bytes(v: Vec<u8>) -> (r: Option<PubKey>)
        ensures
            match r {
                Some(k) => k@ == v@ && k.wf(),
                None => !(v@.len() == 32 && pubkey_valid(v@)),
            },
    {
        if dalek_pubkey_check(v.as_slice()) {
            Some(PubKey { bytes: v })
        } else {
            None
        }
    }

    pub fn as_bytes(&self) -> (r: &[u8])
        ensures
            r@ == self@,
    {
        self.bytes.as_slice()
    }

    pub fn into_bytes(self) -> (r: Vec<u8>)
        ensures
            r@ == self@,
    {
        self.bytes
    }

}

/// The local identity: a 64-byte expanded Ed25519 secret key with the
/// clamping that key expansion guarantees.
#[derive(Debug)]
pub struct SecKey {
    bytes: Vec<u8>,
}

impl View for SecKey {
    type V = Seq<u8>;

    closed spec fn view(&self) -> Seq<u8> {
        self.bytes@
    }
}

impl SecKey {
    pub open spec fn wf(&self) -> bool {
        seckey_clamped(self@)
    }

    /// Accepts exactly the 64-byte strings with the clamped scalar shape.
    pub fn from_bytes(v: Vec<u8>) -> (r: Option<SecKey>)
        ensures
            match r {
                Some(k) => k@ == v@ && k.wf(),
                None => !seckey_clamped(v@),
            },
    {
        if v.len() == 64 && (v[0] & 7) == 0 && (v[31] & 192) == 64 {
            Some(SecKey { bytes: v })
        } else {
            None
        }
    }

    /// The public half of this key.
    pub fn public(&self) -> (r: PubKey)
        requires
            self.wf(),
        ensures
            r@ == pubkey_of(self@),
            r.wf(),
    {
        let bytes = dalek_public_key(self.bytes.as_slice());
        PubKey { bytes }
    }

    /// Signs `msg`; the signature verifies under this key's public half.
    pub fn sign(&self, msg: &[u8]) -> (r: Vec<u8>)
        requires
            self.wf(),
        ensures
            r@ == sign_of(self@, msg@),
            r@.len() == 64,
            sig_verifies(pubkey_of(self@), msg@, r@),
    {
        dalek_sign(self.bytes.as_slice(), msg)
    }
}

/// Whether `sig` is accepted as a signature by the key `pk` over `msg`.
pub fn verify_bytes(pk: &PubKey, msg: &[u8], sig: &[u8]) -> (r: bool)
    ensures
        r == sig_verifies(pk@, msg@, sig@),
{
    dalek_verify(pk.as_bytes(), msg, sig)
}

/// Byte-string equality.
pub fn bytes_eq(a: &[u8], b: &[u8]) -> (r: bool)
    ensures
        r == (a@ == b@),
{
    if a.len() != b.len() {
        return false;
    }
    let n = a.len();
    for i in 0..n
        invariant
            n == a@.len(),
            a@.len() == b@.len(),
            forall|j: int| 0 <= j < i ==> a@[j] == b@[j],
    {
        if a[i] != b[i] {
            return false;
        }
    }
    proof {
        assert(a@ =~= b@);
    }
    true
}

} // verus!
