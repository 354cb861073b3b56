use vstd::prelude::*;

use crate::b32::{b32_decode, base32_decode_of};
use crate::error::Error;
use crate::keys::{pubkey_valid, PubKey};
use crate::store::{users_except, Store};

verus! {

/// A delete request, as the DELETE query string carries it.
#[derive(Clone, Debug)]
pub enum Query {
    User { pubkey: String },
}

/// Dispatches one delete request: removes the named user row. Messages from
/// that correspondent are retained.
pub fn handle(store: &mut Store, q: Query) -> (r: Result<(), Error>)
    requires
        old(store).wf(),
    ensures
        final(store).wf(),
        match q {
            Query::User { pubkey } => (match base32_decode_of(pubkey@) {
                None => r == Err::<(), Error>(Error::BadEncoding) && final(store)@ == old(store)@,
                Some(kb) => if kb.len() == 32 && pubkey_valid(kb) {
                    &&& r is Ok
                    &&& final(store)@.users == users_except(old(store)@.users, kb)
                    &&& final(store)@.messages == old(store)@.messages
                    &&& final(store)@.next_id == old(store)@.next_id
                } else {
                    r == Err::<(), Error>(Error::BadKey) && final(store)@ == old(store)@
                },
            }),
        },
{
    match q {
        Query::User { pubkey } => {
            let kb = match b32_decode(pubkey.as_str()) {
                Some(kb) => kb,
                None => {
                    return Err(Error::BadEncoding);
                },
            };
            let key = match PubKey::from_bytes(kb) {
                Some(k) => k,
                None => {
                    return Err(Error::BadKey);
                },
            };
            store.del_user(key)
        },
    }
}

} // verus!
