use vstd::prelude::*;

use crate::error::Error;
use crate::keys::{pubkey_of, PubKey, SecKey};
use crate::onion::{derive_onion, onion_of};
use crate::store::{inbound_row, opt_bytes_view, outbound_row, Store};
use crate::wire::{encode, parse, spec_encode, spec_parse};

verus! {

/// A tracking id is a sender-chosen 128-bit correlator; the nil value (all
/// zero bytes) stands for "absent" and never appears inside an `Option`.
pub open spec fn tracking_wf(t: Seq<u8>) -> bool {
    &&& t.len() == 16
    &&& exists|i: int| 0 <= i < 16 && t[i] != 0u8
}

/// A decoded envelope received from a peer.
#[derive(Debug)]
pub struct NewInboundMessage {
    pub from: PubKey,
    pub time: i64,
    pub content: String,
}

impl NewInboundMessage {
    pub open spec fn wf(&self) -> bool {
        self.from.wf()
    }
}

/// A draft the owner asks to send to a peer.
#[derive(Debug)]
pub struct NewOutboundMessage {
    pub tracking_id: Option<Vec<u8>>,
    pub to: PubKey,
    pub time: i64,
    pub content: String,
}

impl NewOutboundMessage {
    pub open spec fn wf(&self) -> bool {
        &&& self.to.wf()
        &&& match self.tracking_id {
            Some(t) => tracking_wf(t@),
            None => true,
        }
    }
}

/// The outbound pipeline's first half: the onion hostname the draft is
/// addressed to, and the signed envelope to post there.
pub fn prepare_send(key: &SecKey, msg: &NewOutboundMessage) -> (r: (String, Vec<u8>))
    requires
        key.wf(),
        msg.wf(),
    ensures
        r.0@ == onion_of(msg.to@),
        r.1@ == spec_encode(key@, msg.time, msg.content@),
        spec_parse(r.1@) == Ok::<(Seq<u8>, i64, Seq<char>), Error>(
            (pubkey_of(key@), msg.time, msg.content@),
        ),
{
    let onion = derive_onion(&msg.to);
    let body = match encode(key, msg) {
        Ok(b) => b,
        Err(_) => {
            proof {
                assert(false);
            }
            unreached()
        },
    };
    (onion, body)
}

/// The outbound pipeline's second half, after the peer answered `status`:
/// a success status persists the draft as an outbound row; anything else
/// fails with `RemoteRejected` and leaves the store untouched.
pub fn complete_send(store: &mut Store, msg: NewOutboundMessage, status: u16) -> (r: Result<
    (),
    Error,
>)
    requires
        old(store).wf(),
        msg.wf(),
        old(store)@.next_id < i64::MAX,
    ensures
        final(store).wf(),
        200 <= status < 300 ==> r is Ok && final(store)@.messages == old(store)@.messages.push(
            outbound_row(
                old(store)@.next_id,
                opt_bytes_view(msg.tracking_id),
                msg.to@,
                msg.time,
                msg.content@,
            ),
        ) && final(store)@.users == old(store)@.users && final(store)@.next_id == old(
            store,
        )@.next_id + 1,
        !(200 <= status < 300) ==> r == Err::<(), Error>(Error::RemoteRejected { status })
            && final(store)@ == old(store)@,
{
    if 200 <= status && status < 300 {
        store.save_out_message(msg)
    } else {
        Err(Error::RemoteRejected { status })
    }
}

/// The inbound pipeline: a raw body that decodes and verifies is persisted
/// as an unread inbound row; any decode or verify failure is returned as it
/// is and leaves the store untouched.
pub fn receive(store: &mut Store, msg: &[u8]) -> (r: Result<(), Error>)
    requires
        old(store).wf(),
        old(store)@.next_id < i64::MAX,
    ensures
        final(store).wf(),
        match spec_parse(msg@) {
            Ok(rec) => r is Ok && final(store)@.messages == old(store)@.messages.push(
                inbound_row(old(store)@.next_id, rec.0, rec.1, rec.2),
            ) && final(store)@.users == old(store)@.users && final(store)@.next_id == old(
                store,
            )@.next_id + 1,
            Err(e) => r == Err::<(), Error>(e) && final(store)@ == old(store)@,
        },
{
    match parse(msg) {
        Ok(inbound) => store.save_in_message(inbound),
        Err(e) => Err(e),
    }
}

} // verus!
