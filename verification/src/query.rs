use vstd::prelude::*;

use vstd::utf8::encode_utf8;

use crate::b32::{b32_decode, base32_decode_of};
use crate::error::Error;
use crate::intbytes::{i64_be_bytes, push_bytes, push_i64_be, push_u64_be, u64_be_bytes};
use crate::keys::{pubkey_valid, PubKey};
use crate::store::{get_new_result, get_result, infos_view, lemma_after_mark_false, msgs_view,
    store_after_get, store_after_get_new, user_info_list, Message, MessageV, Store, UserInfoV};

verus! {

/// The default for `mark_as_read` where a messages query does not set it.
pub fn const_true() -> (r: bool)
    ensures
        r,
{
    true
}

/// An owner query, as the GET query string carries it.
#[derive(Clone, Debug)]
pub enum Query {
    Users { include_recent_messages: u8 },
    Login,
    Messages { pubkey: String, limits: Limits, mark_as_read: bool },
    New { pubkey: String, limit: Option<usize> },
}

/// The pagination window of a messages query.
#[derive(Clone, Copy, Debug)]
pub struct Limits {
    pub limit: Option<usize>,
    pub before_after: Option<BeforeAfter>,
}

/// Whether a window selects ids below or above a given id.
#[derive(Clone, Copy, Debug)]
pub enum BeforeAfter {
    Before(i64),
    After(i64),
}

/// The base32 pubkey parameter, decoded and checked: `None` where the string
/// does not decode or the bytes are no valid public key.
pub open spec fn decoded_key(s: Seq<char>) -> Option<Seq<u8>> {
    match base32_decode_of(s) {
        Some(kb) => if kb.len() == 32 && pubkey_valid(kb) {
            Some(kb)
        } else {
            None
        },
        None => None,
    }
}

/// The binary encoding of one listed message: direction, id, tracking id
/// (zero where absent), timestamp, and the length-prefixed content bytes.
pub open spec fn spec_encode_msg(m: MessageV) -> Seq<u8> {
    seq![
        if m.inbound {
            1u8
        } else {
            0u8
        },
    ] + i64_be_bytes(m.id) + (match m.tracking_id {
        Some(t) => t,
        None => Seq::new(16, |i: int| 0u8),
    }) + i64_be_bytes(m.time) + u64_be_bytes(encode_utf8(m.content).len() as u64) + encode_utf8(
        m.content,
    )
}

/// The binary encoding of a message listing, in listing order.
pub open spec fn spec_encode_msgs(s: Seq<MessageV>) -> Seq<u8>
    decreases s.len(),
{
    if s.len() == 0 {
        Seq::empty()
    } else {
        spec_encode_msgs(s.drop_last()) + spec_encode_msg(s.last())
    }
}

/// The binary encoding of one listed correspondent: the key, the unread
/// count, the length-prefixed name (0 for absent), and, where asked, a count
/// byte and the correspondent's newest messages.
pub open spec fn spec_encode_user(s: crate::store::StoreV, u: UserInfoV, recent: u8) -> Seq<u8> {
    u.pubkey + u64_be_bytes(u.unreads as u64) + (match u.name {
        Some(n) => seq![(encode_utf8(n).len() as u8)] + encode_utf8(n),
        None => seq![0u8],
    }) + if recent > 0 {
        let msgs = get_result(s, u.pubkey, None, Some(recent as usize));
        seq![(msgs.len() as u8)] + spec_encode_msgs(msgs)
    } else {
        Seq::empty()
    }
}

pub open spec fn spec_encode_users(
    s: crate::store::StoreV,
    infos: Seq<UserInfoV>,
    recent: u8,
) -> Seq<u8>
    decreases infos.len(),
{
    if infos.len() == 0 {
        Seq::empty()
    } else {
        spec_encode_users(s, infos.drop_last(), recent) + spec_encode_user(
            s,
            infos.last(),
            recent,
        )
    }
}

/// The whole binary users listing.
pub open spec fn spec_user_info_response(s: crate::store::StoreV, recent: u8) -> Seq<u8> {
    spec_encode_users(s, user_info_list(s.messages, s.users), recent)
}

/// Writes one listed message in its binary form.
fn push_message(out: &mut Vec<u8>, m: &Message)
    ensures
        final(out)@ == old(out)@ + spec_encode_msg(m@),
{
    if m.inbound {
        out.push(1);
    } else {
        out.push(0);
    }
    push_i64_be(out, m.id);
    match &m.tracking_id {
        Some(t) => {
            push_bytes(out, t.as_slice());
        },
        None => {
            let ghost base = out@;
            for j in 0..16usize
                invariant
                    out@ == base + Seq::new(j as nat, |i: int| 0u8),
            {
                out.push(0);
                proof {
                    assert(out@ =~= base + Seq::new(j as nat + 1, |i: int| 0u8));
                }
            }
            proof {
                assert(Seq::new(16, |i: int| 0u8) =~= Seq::new(16nat, |i: int| 0u8));
            }
        },
    }
    push_i64_be(out, m.time);
    let cb = m.content.as_str().as_bytes();
    push_u64_be(out, cb.len() as u64);
    push_bytes(out, cb);
    proof {
        assert(out@ =~= old(out)@ + spec_encode_msg(m@));
    }
}

/// Writes a message listing in its binary form.
fn push_messages(out: &mut Vec<u8>, msgs: &Vec<Message>)
    ensures
        final(out)@ == old(out)@ + spec_encode_msgs(msgs_view(msgs@)),
{
    let ghost w = msgs_view(msgs@);
    let ghost base = out@;
    let n = msgs.len();
    proof {
        assert(w.len() == msgs@.len());
        assert(spec_encode_msgs(w.take(0)) =~= Seq::<u8>::empty());
        assert(out@ =~= base + spec_encode_msgs(w.take(0)));
    }
    for i in 0..n
        invariant
            n == msgs@.len(),
            w == msgs_view(msgs@),
            n == w.len(),
            out@ == base + spec_encode_msgs(w.take(i as int)),
    {
        proof {
            assert(w.take(i + 1).drop_last() =~= w.take(i as int));
            assert(w.take(i + 1).last() == w[i as int]);
            assert(w[i as int] == msgs@[i as int]@);
        }
        push_message(out, &msgs[i]);
        proof {
            assert(out@ =~= base + spec_encode_msgs(w.take(i + 1)));
        }
    }
    proof {
        assert(w.take(n as int) =~= w);
    }
}

/// Lists and encodes a correspondent's messages; also returns how many.
pub fn get_messages(
    store: &mut Store,
    pubkey: &PubKey,
    limits: &Limits,
    mark_as_read: bool,
) -> (r: (usize, Vec<u8>))
    requires
        old(store).wf(),
    ensures
        final(store).wf(),
        final(store)@ == store_after_get(
            old(store)@,
            pubkey@,
            limits.before_after,
            limits.limit,
            mark_as_read,
        ),
        r.0 == get_result(old(store)@, pubkey@, limits.before_after, limits.limit).len(),
        r.1@ == spec_encode_msgs(
            get_result(old(store)@, pubkey@, limits.before_after, limits.limit),
        ),
{
    let msgs = store.get_messages(pubkey, limits, mark_as_read);
    let count = msgs.len();
    let mut res: Vec<u8> = Vec::new();
    push_messages(&mut res, &msgs);
    proof {
        assert(msgs_view(msgs@).len() == msgs@.len());
        assert(store@ == store_after_get(
            old(store)@,
            pubkey@,
            limits.before_after,
            limits.limit,
            mark_as_read,
        ));
    }
    (count, res)
}

/// Lists and encodes a correspondent's unread backlog, marking it read.
pub fn get_new(store: &mut Store, pubkey: &PubKey, limit: Option<usize>) -> (r: Vec<u8>)
    requires
        old(store).wf(),
    ensures
        final(store).wf(),
        final(store)@ == store_after_get_new(old(store)@, pubkey@, limit, true),
        r@ == spec_encode_msgs(get_new_result(old(store)@, pubkey@, limit)),
{
    let msgs = store.get_new_messages(pubkey, limit, true);
    let mut res: Vec<u8> = Vec::new();
    push_messages(&mut res, &msgs);
    proof {
        assert(msgs_view(msgs@).len() == msgs@.len());
        if crate::store::first_unread(old(store)@.messages, pubkey@) is None {
            assert(msgs_view(msgs@) =~= get_new_result(old(store)@, pubkey@, limit));
        }
        assert(res@ == spec_encode_msgs(get_new_result(old(store)@, pubkey@, limit)));
        assert(store@ == store_after_get_new(old(store)@, pubkey@, limit, true));
    }
    res
}

/// Lists and encodes every correspondent, with recent messages where asked.
/// The store is left as it was: nothing is marked.
pub fn get_user_info(store: &mut Store, include_recent_messages: u8) -> (r: Result<Vec<u8>, Error>)
    requires
        old(store).wf(),
    ensures
        final(store).wf(),
        final(store)@ == old(store)@,
        match r {
            Ok(v) => v@ == spec_user_info_response(old(store)@, include_recent_messages),
            Err(_) => false,
        },
{
    let ghost s0 = store@;
    let infos = match store.get_user_info() {
        Ok(v) => v,
        Err(_) => {
            proof {
                assert(false);
            }
            unreached()
        },
    };
    let ghost ilist = user_info_list(s0.messages, s0.users);
    let mut res: Vec<u8> = Vec::new();
    let n = infos.len();
    proof {
        assert(infos_view(infos@) == ilist);
        assert(infos_view(infos@).len() == infos@.len());
        assert(spec_encode_users(s0, ilist.take(0), include_recent_messages) =~= Seq::<u8>::empty());
        assert(res@ =~= spec_encode_users(s0, ilist.take(0), include_recent_messages));
    }
    for j in 0..n
        invariant
            n == infos@.len(),
            store.wf(),
            store@ == s0,
            infos_view(infos@) == ilist,
            n == ilist.len(),
            res@ == spec_encode_users(s0, ilist.take(j as int), include_recent_messages),
    {
        proof {
            assert(ilist.take(j + 1).drop_last() =~= ilist.take(j as int));
            assert(ilist.take(j + 1).last() == ilist[j as int]);
            assert(infos_view(infos@)[j as int] == infos@[j as int]@);
        }
        let ghost res_pre = res@;
        let info = &infos[j];
        push_bytes(&mut res, info.pubkey.as_bytes());
        push_u64_be(&mut res, #[verifier::truncate] (info.unreads as u64));
        match &info.name {
            Some(name) => {
                let nb = name.as_str().as_bytes();
                res.push(#[verifier::truncate] (nb.len() as u8));
                push_bytes(&mut res, nb);
            },
            None => {
                res.push(0);
            },
        }
        if include_recent_messages > 0 {
            let lim = Limits {
                limit: Some(include_recent_messages as usize),
                before_after: None,
            };
            let ghost s_at = store@;
            let pair = get_messages(store, &info.pubkey, &lim, false);
            proof {
                lemma_after_mark_false(
                    s_at.messages,
                    info.pubkey@,
                    crate::store::cond_of(lim.before_after),
                    crate::store::win_lo(
                        s_at.messages,
                        info.pubkey@,
                        crate::store::cond_of(lim.before_after),
                        crate::store::desc_of(lim.before_after),
                        lim.limit,
                    ),
                    crate::store::win_hi(
                        s_at.messages,
                        info.pubkey@,
                        crate::store::cond_of(lim.before_after),
                        crate::store::desc_of(lim.before_after),
                        lim.limit,
                    ),
                );
                assert(store@ == s0);
            }
            let count = pair.0;
            let enc = pair.1;
            res.push(#[verifier::truncate] (count as u8));
            push_bytes(&mut res, enc.as_slice());
        }
        proof {
            assert(res@ =~= spec_encode_users(s0, ilist.take(j + 1), include_recent_messages));
        }
    }
    proof {
        assert(ilist.take(n as int) =~= ilist);
    }
    Ok(res)
}

/// Dispatches one owner query against the store and encodes the answer.
pub fn handle(store: &mut Store, q: Query) -> (r: Result<Vec<u8>, Error>)
    requires
        old(store).wf(),
    ensures
        final(store).wf(),
        match q {
            Query::Users { include_recent_messages } => final(store)@ == old(store)@ && (match r {
                Ok(v) => v@ == spec_user_info_response(old(store)@, include_recent_messages),
                Err(_) => false,
            }),
            Query::Login => final(store)@ == old(store)@ && (match r {
                Ok(v) => v@.len() == 0,
                Err(_) => false,
            }),
            Query::Messages { pubkey, limits, mark_as_read } => (match decoded_key(pubkey@) {
                Some(kb) => final(store)@ == store_after_get(
                    old(store)@,
                    kb,
                    limits.before_after,
                    limits.limit,
                    mark_as_read,
                ) && (match r {
                    Ok(v) => v@ == spec_encode_msgs(
                        get_result(old(store)@, kb, limits.before_after, limits.limit),
                    ),
                    Err(_) => false,
                }),
                None => final(store)@ == old(store)@ && r == Err::<Vec<u8>, Error>(
                    match base32_decode_of(pubkey@) {
                        None => Error::BadEncoding,
                        Some(_) => Error::BadKey,
                    },
                ),
            }),
            Query::New { pubkey, limit } => (match decoded_key(pubkey@) {
                Some(kb) => final(store)@ == store_after_get_new(old(store)@, kb, limit, true) && (
                match r {
                    Ok(v) => v@ == spec_encode_msgs(get_new_result(old(store)@, kb, limit)),
                    Err(_) => false,
                }),
                None => final(store)@ == old(store)@ && r == Err::<Vec<u8>, Error>(
                    match base32_decode_of(pubkey@) {
                        None => Error::BadEncoding,
                        Some(_) => Error::BadKey,
                    },
                ),
            }),
        },
{
    match q {
        Query::Users { include_recent_messages } => get_user_info(store, include_recent_messages),
        Query::Login => Ok(Vec::new()),
        Query::Messages { pubkey, limits, mark_as_read } => {
            let kb = match b32_decode(pubkey.as_str()) {
                Some(kb) => kb,
                None => {
                    return Err(Error::BadEncoding);
                },
            };
            let key = match PubKey::from_bytes(kb) {
                Some(k) => k,
                None => {
                    return Err(Error::BadKey);
                },
            };
            let pair = get_messages(store, &key, &limits, mark_as_read);
            Ok(pair.1)
        },
        Query::New { pubkey, limit } => {
            let kb = match b32_decode(pubkey.as_str()) {
                Some(kb) => kb,
                None => {
                    return Err(Error::BadEncoding);
                },
            };
            let key = match PubKey::from_bytes(kb) {
                Some(k) => k,
                None => {
                    return Err(Error::BadKey);
                },
            };
            Ok(get_new(store, &key, limit))
        },
    }
}

} // verus!
