use vstd::prelude::*;

use vstd::slice::slice_to_vec;

use crate::error::Error;
use crate::keys::{bytes_eq, pubkey_valid, PubKey};
use crate::message::{tracking_wf, NewInboundMessage, NewOutboundMessage};
use crate::query::{BeforeAfter, Limits};

verus! {

/// A persisted message row.
pub struct MessageRow {
    pub id: i64,
    pub tracking_id: Option<Vec<u8>>,
    pub user_id: Vec<u8>,
    pub inbound: bool,
    pub time: i64,
    pub content: String,
    pub read: bool,
}

/// The mathematical value of a message row.
pub struct MessageRowV {
    pub id: i64,
    pub tracking_id: Option<Seq<u8>>,
    pub user_id: Seq<u8>,
    pub inbound: bool,
    pub time: i64,
    pub content: Seq<char>,
    pub read: bool,
}

impl View for MessageRow {
    type V = MessageRowV;

    open spec fn view(&self) -> MessageRowV {
        MessageRowV {
            id: self.id,
            tracking_id: match self.tracking_id {
                Some(t) => Some(t@),
                None => None,
            },
            user_id: self.user_id@,
            inbound: self.inbound,
            time: self.time,
            content: self.content@,
            read: self.read,
        }
    }
}

/// A persisted user (correspondent) row.
pub struct UserRow {
    pub id: Vec<u8>,
    pub name: String,
}

/// The mathematical value of a user row.
pub struct UserRowV {
    pub id: Seq<u8>,
    pub name: Seq<char>,
}

impl View for UserRow {
    type V = UserRowV;

    open spec fn view(&self) -> UserRowV {
        UserRowV { id: self.id@, name: self.name@ }
    }
}

/// The mathematical value of the whole store.
pub struct StoreV {
    pub messages: Seq<MessageRowV>,
    pub users: Seq<UserRowV>,
    pub next_id: i64,
}

/// The message and user tables, with the id counter the next insert uses.
pub struct Store {
    messages: Vec<MessageRow>,
    users: Vec<UserRow>,
    next_id: i64,
}

impl View for Store {
    type V = StoreV;

    closed spec fn view(&self) -> StoreV {
        StoreV {
            messages: self.messages@.map_values(|r: MessageRow| r@),
            users: self.users@.map_values(|u: UserRow| u@),
            next_id: self.next_id,
        }
    }
}

pub open spec fn row_wf(m: MessageRowV) -> bool {
    &&& m.user_id.len() == 32
    &&& pubkey_valid(m.user_id)
    &&& match m.tracking_id {
        Some(t) => tracking_wf(t),
        None => true,
    }
    &&& (!m.inbound ==> m.read)
}

pub open spec fn user_wf(u: UserRowV) -> bool {
    &&& u.id.len() == 32
    &&& pubkey_valid(u.id)
}

/// The store's invariant: rows are well formed, ids are strictly increasing
/// in insertion order and below the counter, outbound rows are read, and user
/// rows have unique keys.
pub open spec fn store_wf(s: StoreV) -> bool {
    &&& 1 <= s.next_id
    &&& forall|i: int| 0 <= i < s.messages.len() ==> row_wf(#[trigger] s.messages[i])
    &&& forall|i: int| 0 <= i < s.messages.len() ==> (#[trigger] s.messages[i]).id >= i + 1
    &&& forall|i: int, j: int|
        0 <= i < j < s.messages.len() ==> (#[trigger] s.messages[i]).id < (
        #[trigger] s.messages[j]).id
    &&& forall|i: int| 0 <= i < s.messages.len() ==> (#[trigger] s.messages[i]).id < s.next_id
    &&& forall|i: int| 0 <= i < s.users.len() ==> user_wf(#[trigger] s.users[i])
    &&& forall|i: int, j: int|
        0 <= i < j < s.users.len() ==> (#[trigger] s.users[i]).id != (#[trigger] s.users[j]).id
}

/// Which ids a pagination window admits.
#[derive(Clone, Copy, Debug)]
pub enum WindowCond {
    All,
    Lt(i64),
    Gt(i64),
    Ge(i64),
}

pub open spec fn in_window(m: MessageRowV, pk: Seq<u8>, c: WindowCond) -> bool {
    &&& m.user_id == pk
    &&& match c {
        WindowCond::All => true,
        WindowCond::Lt(b) => m.id < b,
        WindowCond::Gt(a) => m.id > a,
        WindowCond::Ge(a) => m.id >= a,
    }
}

/// The rows of `msgs` that a window admits, in storage order.
pub open spec fn matching(msgs: Seq<MessageRowV>, pk: Seq<u8>, c: WindowCond) -> Seq<MessageRowV>
    decreases msgs.len(),
{
    if msgs.len() == 0 {
        Seq::empty()
    } else {
        matching(msgs.drop_last(), pk, c) + if in_window(msgs.last(), pk, c) {
            seq![msgs.last()]
        } else {
            Seq::empty()
        }
    }
}

/// How many messages the store holds for the correspondent `pk`.
pub open spec fn count_for(msgs: Seq<MessageRowV>, pk: Seq<u8>) -> int {
    matching(msgs, pk, WindowCond::All).len() as int
}

/// The row an accepted inbound message inserts: unread, no tracking id.
pub open spec fn inbound_row(id: i64, from: Seq<u8>, time: i64, content: Seq<char>) -> MessageRowV {
    MessageRowV {
        id: id,
        tracking_id: None,
        user_id: from,
        inbound: true,
        time: time,
        content: content,
        read: false,
    }
}

/// The value of an optional byte string.
pub open spec fn opt_bytes_view(t: Option<Vec<u8>>) -> Option<Seq<u8>> {
    match t {
        Some(v) => Some(v@),
        None => None,
    }
}

/// The row a delivered outbound message inserts: read, tracking id as given.
pub open spec fn outbound_row(
    id: i64,
    tracking_id: Option<Seq<u8>>,
    to: Seq<u8>,
    time: i64,
    content: Seq<char>,
) -> MessageRowV {
    MessageRowV {
        id: id,
        tracking_id: tracking_id,
        user_id: to,
        inbound: false,
        time: time,
        content: content,
        read: true,
    }
}

/// Two rows that agree on everything but the read flag.
pub open spec fn same_but_read(a: MessageRowV, b: MessageRowV) -> bool {
    b == MessageRowV { read: b.read, ..a }
}

/// How many rows a window admits.
pub open spec fn win_total(msgs: Seq<MessageRowV>, pk: Seq<u8>, c: WindowCond) -> int {
    matching(msgs, pk, c).len() as int
}

/// How many rows a query returns: the window's size, capped by the limit.
pub open spec fn win_k(
    msgs: Seq<MessageRowV>,
    pk: Seq<u8>,
    c: WindowCond,
    limit: Option<usize>,
) -> int {
    match limit {
        Some(l) => if l as int <= win_total(msgs, pk, c) {
            l as int
        } else {
            win_total(msgs, pk, c)
        },
        None => win_total(msgs, pk, c),
    }
}

/// The rank (among admitted rows, in storage order) where the returned
/// window starts: a descending query keeps the newest rows, an ascending one
/// the oldest.
pub open spec fn win_lo(
    msgs: Seq<MessageRowV>,
    pk: Seq<u8>,
    c: WindowCond,
    desc: bool,
    limit: Option<usize>,
) -> int {
    if desc {
        win_total(msgs, pk, c) - win_k(msgs, pk, c, limit)
    } else {
        0
    }
}

/// The rank where the returned window ends.
pub open spec fn win_hi(
    msgs: Seq<MessageRowV>,
    pk: Seq<u8>,
    c: WindowCond,
    desc: bool,
    limit: Option<usize>,
) -> int {
    if desc {
        win_total(msgs, pk, c)
    } else {
        win_k(msgs, pk, c, limit)
    }
}

/// Whether the row at index `i` falls inside the returned (and marked)
/// window: it is admitted, and its rank among admitted rows lies in [lo, hi).
pub open spec fn in_sel(
    msgs: Seq<MessageRowV>,
    pk: Seq<u8>,
    c: WindowCond,
    lo: int,
    hi: int,
    i: int,
) -> bool {
    &&& in_window(msgs[i], pk, c)
    &&& lo <= matching(msgs.take(i), pk, c).len()
    &&& matching(msgs.take(i), pk, c).len() < hi
}

/// The selected rows, in storage order.
pub open spec fn selseq(
    msgs: Seq<MessageRowV>,
    pk: Seq<u8>,
    c: WindowCond,
    lo: int,
    hi: int,
) -> Seq<MessageRowV>
    decreases msgs.len(),
{
    if msgs.len() == 0 {
        Seq::empty()
    } else {
        selseq(msgs.drop_last(), pk, c, lo, hi) + if in_window(msgs.last(), pk, c) && lo <= matching(
            msgs.drop_last(),
            pk,
            c,
        ).len() && matching(msgs.drop_last(), pk, c).len() < hi {
            seq![msgs.last()]
        } else {
            Seq::empty()
        }
    }
}

/// The rows a query returns, in the order it returns them.
pub open spec fn window(
    msgs: Seq<MessageRowV>,
    pk: Seq<u8>,
    c: WindowCond,
    desc: bool,
    limit: Option<usize>,
) -> Seq<MessageRowV> {
    let s = selseq(
        msgs,
        pk,
        c,
        win_lo(msgs, pk, c, desc, limit),
        win_hi(msgs, pk, c, desc, limit),
    );
    if desc {
        s.reverse()
    } else {
        s
    }
}

/// The message table after a query: each selected row's read flag is set if
/// the query marks, everything else is untouched.
pub open spec fn after_mark(
    msgs: Seq<MessageRowV>,
    pk: Seq<u8>,
    c: WindowCond,
    lo: int,
    hi: int,
    mark: bool,
) -> Seq<MessageRowV> {
    Seq::new(
        msgs.len(),
        |i: int|
            MessageRowV {
                read: msgs[i].read || (mark && in_sel(msgs, pk, c, lo, hi, i)),
                ..msgs[i]
            },
    )
}

/// A listed message, as queries return it.
pub struct Message {
    pub id: i64,
    pub tracking_id: Option<Vec<u8>>,
    pub time: i64,
    pub inbound: bool,
    pub content: String,
}

/// The mathematical value of a listed message.
pub struct MessageV {
    pub id: i64,
    pub tracking_id: Option<Seq<u8>>,
    pub time: i64,
    pub inbound: bool,
    pub content: Seq<char>,
}

impl View for Message {
    type V = MessageV;

    open spec fn view(&self) -> MessageV {
        MessageV {
            id: self.id,
            tracking_id: match self.tracking_id {
                Some(t) => Some(t@),
                None => None,
            },
            time: self.time,
            inbound: self.inbound,
            content: self.content@,
        }
    }
}

/// What a listed message shows of a stored row.
pub open spec fn row_to_msg(m: MessageRowV) -> MessageV {
    MessageV {
        id: m.id,
        tracking_id: m.tracking_id,
        time: m.time,
        inbound: m.inbound,
        content: m.content,
    }
}

pub open spec fn msgs_view(s: Seq<Message>) -> Seq<MessageV> {
    s.map_values(|m: Message| m@)
}

/// The window condition and direction that a messages query's limits choose.
pub open spec fn cond_of(ba: Option<crate::query::BeforeAfter>) -> WindowCond {
    match ba {
        None => WindowCond::All,
        Some(crate::query::BeforeAfter::Before(b)) => WindowCond::Lt(b),
        Some(crate::query::BeforeAfter::After(a)) => WindowCond::Gt(a),
    }
}

pub open spec fn desc_of(ba: Option<crate::query::BeforeAfter>) -> bool {
    match ba {
        Some(crate::query::BeforeAfter::After(_)) => false,
        _ => true,
    }
}

/// Whether persisted rows can be loaded back into a store: every row well
/// formed, message ids strictly increasing and starting at 1 or above, the
/// last id below the counter's ceiling, and user keys unique.
pub open spec fn loadable(msgs: Seq<MessageRowV>, users: Seq<UserRowV>) -> bool {
    &&& forall|i: int| 0 <= i < msgs.len() ==> row_wf(#[trigger] msgs[i])
    &&& forall|i: int, j: int|
        0 <= i < j < msgs.len() ==> (#[trigger] msgs[i]).id < (#[trigger] msgs[j]).id
    &&& (msgs.len() > 0 ==> msgs[0].id >= 1 && msgs[msgs.len() - 1].id < i64::MAX)
    &&& forall|i: int| 0 <= i < users.len() ==> user_wf(#[trigger] users[i])
    &&& forall|i: int, j: int|
        0 <= i < j < users.len() ==> (#[trigger] users[i]).id != (#[trigger] users[j]).id
}

/// Strictly increasing ids that start at 1 or above are position-bounded.
proof fn lemma_sorted_ids_bound(msgs: Seq<MessageRowV>, i: int)
    requires
        forall|a: int, b: int|
            0 <= a < b < msgs.len() ==> (#[trigger] msgs[a]).id < (#[trigger] msgs[b]).id,
        msgs.len() > 0 ==> msgs[0].id >= 1,
        0 <= i < msgs.len(),
    ensures
        msgs[i].id >= i + 1,
    decreases i,
{
    if i > 0 {
        lemma_sorted_ids_bound(msgs, i - 1);
        assert(msgs[i - 1].id < msgs[i].id);
    }
}

/// The store after a messages query with these limits.
pub open spec fn store_after_get(
    s: StoreV,
    pk: Seq<u8>,
    ba: Option<crate::query::BeforeAfter>,
    limit: Option<usize>,
    mark: bool,
) -> StoreV {
    StoreV {
        messages: after_mark(
            s.messages,
            pk,
            cond_of(ba),
            win_lo(s.messages, pk, cond_of(ba), desc_of(ba), limit),
            win_hi(s.messages, pk, cond_of(ba), desc_of(ba), limit),
            mark,
        ),
        ..s
    }
}

/// What a messages query with these limits returns.
pub open spec fn get_result(
    s: StoreV,
    pk: Seq<u8>,
    ba: Option<crate::query::BeforeAfter>,
    limit: Option<usize>,
) -> Seq<MessageV> {
    window(s.messages, pk, cond_of(ba), desc_of(ba), limit).map_values(
        |m: MessageRowV| row_to_msg(m),
    )
}

/// The store after an unread-backlog query.
pub open spec fn store_after_get_new(
    s: StoreV,
    pk: Seq<u8>,
    limit: Option<usize>,
    mark: bool,
) -> StoreV {
    match first_unread(s.messages, pk) {
        None => s,
        Some(u) => StoreV {
            messages: after_mark(
                s.messages,
                pk,
                WindowCond::Ge(u),
                win_lo(s.messages, pk, WindowCond::Ge(u), false, limit),
                win_hi(s.messages, pk, WindowCond::Ge(u), false, limit),
                mark,
            ),
            ..s
        },
    }
}

/// What an unread-backlog query returns.
pub open spec fn get_new_result(s: StoreV, pk: Seq<u8>, limit: Option<usize>) -> Seq<MessageV> {
    match first_unread(s.messages, pk) {
        None => Seq::empty(),
        Some(u) => window(s.messages, pk, WindowCond::Ge(u), false, limit).map_values(
            |m: MessageRowV| row_to_msg(m),
        ),
    }
}

/// The id of the oldest unread message for a correspondent.
pub open spec fn first_unread(msgs: Seq<MessageRowV>, pk: Seq<u8>) -> Option<i64>
    decreases msgs.len(),
{
    if msgs.len() == 0 {
        None
    } else if msgs[0].user_id == pk && !msgs[0].read {
        Some(msgs[0].id)
    } else {
        first_unread(msgs.drop_first(), pk)
    }
}

/// The distinct correspondent keys among the stored messages, in order of
/// first appearance.
pub open spec fn senders(msgs: Seq<MessageRowV>) -> Seq<Seq<u8>>
    decreases msgs.len(),
{
    if msgs.len() == 0 {
        Seq::empty()
    } else {
        let d = senders(msgs.drop_last());
        if d.contains(msgs.last().user_id) {
            d
        } else {
            d.push(msgs.last().user_id)
        }
    }
}

/// How many unread messages the store holds for a correspondent.
pub open spec fn unread_count(msgs: Seq<MessageRowV>, pk: Seq<u8>) -> int
    decreases msgs.len(),
{
    if msgs.len() == 0 {
        0
    } else {
        unread_count(msgs.drop_last(), pk) + if msgs.last().user_id == pk && !msgs.last().read {
            1int
        } else {
            0int
        }
    }
}

/// The display name stored for a key, if any.
pub open spec fn name_of(users: Seq<UserRowV>, pk: Seq<u8>) -> Option<Seq<char>>
    decreases users.len(),
{
    if users.len() == 0 {
        None
    } else if users[0].id == pk {
        Some(users[0].name)
    } else {
        name_of(users.drop_first(), pk)
    }
}

/// The user rows whose key sent or received no message.
pub open spec fn users_without_messages(
    users: Seq<UserRowV>,
    msgs: Seq<MessageRowV>,
) -> Seq<UserRowV>
    decreases users.len(),
{
    if users.len() == 0 {
        Seq::empty()
    } else {
        users_without_messages(users.drop_last(), msgs) + if senders(msgs).contains(
            users.last().id,
        ) {
            Seq::empty()
        } else {
            seq![users.last()]
        }
    }
}

/// A correspondent with its unread count, as the users listing returns it.
pub struct UserInfo {
    pub pubkey: PubKey,
    pub name: Option<String>,
    pub unreads: i64,
}

/// The mathematical value of a listed correspondent.
pub struct UserInfoV {
    pub pubkey: Seq<u8>,
    pub name: Option<Seq<char>>,
    pub unreads: int,
}

impl View for UserInfo {
    type V = UserInfoV;

    open spec fn view(&self) -> UserInfoV {
        UserInfoV {
            pubkey: self.pubkey@,
            name: match self.name {
                Some(n) => Some(n@),
                None => None,
            },
            unreads: self.unreads as int,
        }
    }
}

pub open spec fn infos_view(s: Seq<UserInfo>) -> Seq<UserInfoV> {
    s.map_values(|u: UserInfo| u@)
}

/// What the users listing returns: each correspondent with a message, in
/// order of first appearance, with its name and unread count; then each user
/// row without messages, in table order, with unread count zero.
pub open spec fn user_info_list(msgs: Seq<MessageRowV>, users: Seq<UserRowV>) -> Seq<UserInfoV> {
    senders(msgs).map_values(
        |pk: Seq<u8>|
            UserInfoV { pubkey: pk, name: name_of(users, pk), unreads: unread_count(msgs, pk) },
    ) + users_without_messages(users, msgs).map_values(
        |u: UserRowV| UserInfoV { pubkey: u.id, name: Some(u.name), unreads: 0 },
    )
}

/// The user rows that remain when the key `pk` is removed.
pub open spec fn users_except(users: Seq<UserRowV>, pk: Seq<u8>) -> Seq<UserRowV>
    decreases users.len(),
{
    if users.len() == 0 {
        Seq::empty()
    } else {
        users_except(users.drop_last(), pk) + if users.last().id == pk {
            Seq::empty()
        } else {
            seq![users.last()]
        }
    }
}

proof fn lemma_users_except_props(users: Seq<UserRowV>, pk: Seq<u8>)
    ensures
        forall|i: int|
            0 <= i < users_except(users, pk).len() ==> (#[trigger] users_except(users, pk)[i]).id
                != pk,
        forall|i: int|
            0 <= i < users_except(users, pk).len() ==> exists|j: int|
                0 <= j < users.len() && users[j] == #[trigger] users_except(users, pk)[i],
        users_except(users, pk).len() <= users.len(),
        (forall|i: int, j: int|
            0 <= i < j < users.len() ==> (#[trigger] users[i]).id != (#[trigger] users[j]).id)
            ==> (forall|i: int, j: int|
            0 <= i < j < users_except(users, pk).len() ==> (#[trigger] users_except(users, pk)[i]).id
                != (#[trigger] users_except(users, pk)[j]).id),
    decreases users.len(),
{
    if users.len() == 0 {
    } else {
        let prefix = users.drop_last();
        lemma_users_except_props(prefix, pk);
        assert(forall|j: int| 0 <= j < prefix.len() ==> prefix[j] == users[j]);
        let except = users_except(users, pk);
        let pe = users_except(prefix, pk);
        if users.last().id == pk {
            assert(except =~= pe);
        } else {
            assert(except =~= pe.push(users.last()));
            assert forall|i: int| 0 <= i < except.len() implies exists|j: int|
                0 <= j < users.len() && users[j] == #[trigger] except[i] by {
                if i < pe.len() {
                    let j = choose|j: int| 0 <= j < prefix.len() && prefix[j] == except[i];
                    assert(users[j] == except[i]);
                } else {
                    assert(users[users.len() - 1] == except[i]);
                }
            }
        }
    }
}

/// A query that does not mark leaves the table as it was.
pub proof fn lemma_after_mark_false(
    msgs: Seq<MessageRowV>,
    pk: Seq<u8>,
    c: WindowCond,
    lo: int,
    hi: int,
)
    ensures
        after_mark(msgs, pk, c, lo, hi, false) == msgs,
{
    let am = after_mark(msgs, pk, c, lo, hi, false);
    assert forall|i: int| 0 <= i < msgs.len() implies #[trigger] am[i] == msgs[i] by {
        assert(am[i].read == msgs[i].read);
    }
    assert(am =~= msgs);
}

/// With bounds that cover every admitted row, the selection is the whole
/// matching sequence.
pub proof fn lemma_selseq_full(msgs: Seq<MessageRowV>, pk: Seq<u8>, c: WindowCond, hi: int)
    requires
        hi >= matching(msgs, pk, c).len(),
    ensures
        selseq(msgs, pk, c, 0, hi) == matching(msgs, pk, c),
    decreases msgs.len(),
{
    if msgs.len() == 0 {
    } else {
        let prefix = msgs.drop_last();
        assert(matching(msgs, pk, c).len() >= matching(prefix, pk, c).len());
        lemma_selseq_full(prefix, pk, c, hi);
        if in_window(msgs.last(), pk, c) {
            assert(matching(prefix, pk, c).len() < matching(msgs, pk, c).len());
        }
    }
}

/// Every admitted row is an admitted row of any longer prefix: the number of
/// admitted rows grows with the prefix.
pub proof fn lemma_matching_prefix_le(msgs: Seq<MessageRowV>, pk: Seq<u8>, c: WindowCond, i: int)
    requires
        0 <= i <= msgs.len(),
    ensures
        matching(msgs.take(i), pk, c).len() <= matching(msgs, pk, c).len(),
    decreases msgs.len() - i,
{
    if i == msgs.len() {
        assert(msgs.take(i) =~= msgs);
    } else {
        assert(msgs.take(i + 1).drop_last() =~= msgs.take(i));
        assert(msgs.take(i + 1).last() == msgs[i]);
        lemma_matching_prefix_le(msgs, pk, c, i + 1);
    }
}

/// An admitted row's rank among admitted rows lies below their total number.
pub proof fn lemma_matching_rank_lt(msgs: Seq<MessageRowV>, pk: Seq<u8>, c: WindowCond, i: int)
    requires
        0 <= i < msgs.len(),
        in_window(msgs[i], pk, c),
    ensures
        matching(msgs.take(i), pk, c).len() < matching(msgs, pk, c).len(),
{
    assert(msgs.take(i + 1).drop_last() =~= msgs.take(i));
    assert(msgs.take(i + 1).last() == msgs[i]);
    lemma_matching_prefix_le(msgs, pk, c, i + 1);
}

/// Admitted rows keep the storage order; with strictly increasing ids the
/// admitted ids are strictly increasing and bounded by the last row's id.
pub proof fn lemma_matching_sorted(msgs: Seq<MessageRowV>, pk: Seq<u8>, c: WindowCond)
    requires
        forall|i: int, j: int|
            0 <= i < j < msgs.len() ==> (#[trigger] msgs[i]).id < (#[trigger] msgs[j]).id,
    ensures
        forall|i: int, j: int|
            0 <= i < j < matching(msgs, pk, c).len() ==> (#[trigger] matching(msgs, pk, c)[i]).id < (
            #[trigger] matching(msgs, pk, c)[j]).id,
        forall|i: int|
            0 <= i < matching(msgs, pk, c).len() ==> in_window(
                #[trigger] matching(msgs, pk, c)[i],
                pk,
                c,
            ),
        msgs.len() > 0 ==> forall|i: int|
            0 <= i < matching(msgs, pk, c).len() ==> (#[trigger] matching(msgs, pk, c)[i]).id
                <= msgs[msgs.len() - 1].id,
    decreases msgs.len(),
{
    if msgs.len() == 0 {
    } else {
        let prefix = msgs.drop_last();
        assert(forall|i: int| 0 <= i < prefix.len() ==> prefix[i] == msgs[i]);
        lemma_matching_sorted(prefix, pk, c);
        let mp = matching(prefix, pk, c);
        let m = matching(msgs, pk, c);
        if prefix.len() > 0 {
            assert(prefix[prefix.len() - 1].id == msgs[msgs.len() - 2].id);
            assert(msgs[msgs.len() - 2].id < msgs[msgs.len() - 1].id);
        }
        if in_window(msgs.last(), pk, c) {
            assert(m =~= mp.push(msgs.last()));
        } else {
            assert(m =~= mp);
        }
    }
}

/// How many rows of a listing are unread.
pub open spec fn count_unread_rows(rows: Seq<MessageRowV>) -> int
    decreases rows.len(),
{
    if rows.len() == 0 {
        0
    } else {
        count_unread_rows(rows.drop_last()) + if !rows.last().read {
            1int
        } else {
            0int
        }
    }
}

/// How many rows of a listing are inbound.
pub open spec fn count_inbound_rows(rows: Seq<MessageRowV>) -> int
    decreases rows.len(),
{
    if rows.len() == 0 {
        0
    } else {
        count_inbound_rows(rows.drop_last()) + if rows.last().inbound {
            1int
        } else {
            0int
        }
    }
}

proof fn lemma_count_inbound_add(a: Seq<MessageRowV>, b: Seq<MessageRowV>)
    ensures
        count_inbound_rows(a + b) == count_inbound_rows(a) + count_inbound_rows(b),
    decreases b.len(),
{
    if b.len() == 0 {
        assert(a + b =~= a);
    } else {
        assert((a + b).drop_last() =~= a + b.drop_last());
        assert((a + b).last() == b.last());
        lemma_count_inbound_add(a, b.drop_last());
    }
}

proof fn lemma_count_inbound_reverse(s: Seq<MessageRowV>)
    ensures
        count_inbound_rows(s.reverse()) == count_inbound_rows(s),
    decreases s.len(),
{
    if s.len() == 0 {
        assert(s.reverse() =~= s);
    } else {
        let head = seq![s.last()];
        assert(s.reverse() =~= head + s.drop_last().reverse());
        lemma_count_inbound_add(head, s.drop_last().reverse());
        lemma_count_inbound_reverse(s.drop_last());
        assert(head.drop_last() =~= Seq::<MessageRowV>::empty());
        assert(head.len() == 1);
        assert(head.last() == s.last());
        assert(count_inbound_rows(Seq::<MessageRowV>::empty()) == 0);
        assert(count_inbound_rows(head.drop_last()) == 0);
        assert(count_inbound_rows(head) == if s.last().inbound {
            1int
        } else {
            0int
        });
    }
}

/// Two equally long row sequences that agree on everything but read flags
/// admit the same rows at the same ranks.
proof fn lemma_matching_congruent(a: Seq<MessageRowV>, b: Seq<MessageRowV>, pk: Seq<u8>, c: WindowCond)
    requires
        a.len() == b.len(),
        forall|i: int| 0 <= i < a.len() ==> same_but_read(#[trigger] a[i], #[trigger] b[i]),
    ensures
        matching(a, pk, c).len() == matching(b, pk, c).len(),
        forall|i: int|
            0 <= i < matching(a, pk, c).len() ==> same_but_read(
                #[trigger] matching(a, pk, c)[i],
                #[trigger] matching(b, pk, c)[i],
            ),
    decreases a.len(),
{
    if a.len() == 0 {
    } else {
        let ap = a.drop_last();
        let bp = b.drop_last();
        assert(forall|i: int| 0 <= i < ap.len() ==> ap[i] == a[i] && bp[i] == b[i]);
        lemma_matching_congruent(ap, bp, pk, c);
        assert(same_but_read(a.last(), b.last()));
        assert(in_window(a.last(), pk, c) == in_window(b.last(), pk, c));
        if in_window(a.last(), pk, c) {
            assert(matching(a, pk, c) =~= matching(ap, pk, c).push(a.last()));
            assert(matching(b, pk, c) =~= matching(bp, pk, c).push(b.last()));
        } else {
            assert(matching(a, pk, c) =~= matching(ap, pk, c));
            assert(matching(b, pk, c) =~= matching(bp, pk, c));
        }
    }
}

/// The same, for the bounded selection.
proof fn lemma_selseq_congruent(
    a: Seq<MessageRowV>,
    b: Seq<MessageRowV>,
    pk: Seq<u8>,
    c: WindowCond,
    lo: int,
    hi: int,
)
    requires
        a.len() == b.len(),
        forall|i: int| 0 <= i < a.len() ==> same_but_read(#[trigger] a[i], #[trigger] b[i]),
    ensures
        selseq(a, pk, c, lo, hi).len() == selseq(b, pk, c, lo, hi).len(),
        forall|i: int|
            0 <= i < selseq(a, pk, c, lo, hi).len() ==> same_but_read(
                #[trigger] selseq(a, pk, c, lo, hi)[i],
                #[trigger] selseq(b, pk, c, lo, hi)[i],
            ),
    decreases a.len(),
{
    if a.len() == 0 {
    } else {
        let ap = a.drop_last();
        let bp = b.drop_last();
        assert(forall|i: int| 0 <= i < ap.len() ==> ap[i] == a[i] && bp[i] == b[i]);
        lemma_selseq_congruent(ap, bp, pk, c, lo, hi);
        lemma_matching_congruent(ap, bp, pk, c);
        assert(same_but_read(a.last(), b.last()));
        assert(in_window(a.last(), pk, c) == in_window(b.last(), pk, c));
        let sel_a = in_window(a.last(), pk, c) && lo <= matching(ap, pk, c).len() && matching(
            ap,
            pk,
            c,
        ).len() < hi;
        if sel_a {
            assert(selseq(a, pk, c, lo, hi) =~= selseq(ap, pk, c, lo, hi).push(a.last()));
            assert(selseq(b, pk, c, lo, hi) =~= selseq(bp, pk, c, lo, hi).push(b.last()));
        } else {
            assert(selseq(a, pk, c, lo, hi) =~= selseq(ap, pk, c, lo, hi));
            assert(selseq(b, pk, c, lo, hi) =~= selseq(bp, pk, c, lo, hi));
        }
    }
}

/// Marking commutes with dropping the last row.
proof fn lemma_after_mark_drop_last(
    msgs: Seq<MessageRowV>,
    pk: Seq<u8>,
    c: WindowCond,
    lo: int,
    hi: int,
    mark: bool,
)
    requires
        msgs.len() > 0,
    ensures
        after_mark(msgs, pk, c, lo, hi, mark).drop_last() == after_mark(
            msgs.drop_last(),
            pk,
            c,
            lo,
            hi,
            mark,
        ),
        after_mark(msgs, pk, c, lo, hi, mark).last() == (MessageRowV {
            read: msgs.last().read || (mark && in_sel(msgs, pk, c, lo, hi, msgs.len() - 1)),
            ..msgs.last()
        }),
{
    let am = after_mark(msgs, pk, c, lo, hi, mark);
    let prefix = msgs.drop_last();
    assert forall|i: int| 0 <= i < prefix.len() implies #[trigger] am.drop_last()[i] == after_mark(
        prefix,
        pk,
        c,
        lo,
        hi,
        mark,
    )[i] by {
        assert(am[i].read == msgs[i].read || (mark && in_sel(msgs, pk, c, lo, hi, i)));
        assert(msgs.take(i) =~= prefix.take(i));
        assert(prefix[i] == msgs[i]);
        assert(in_sel(msgs, pk, c, lo, hi, i) == in_sel(prefix, pk, c, lo, hi, i));
    }
    assert(am.drop_last() =~= after_mark(prefix, pk, c, lo, hi, mark));
    assert(msgs.take(msgs.len() - 1) =~= prefix);
}

/// Marking a window removes exactly its unread rows from the unread count.
proof fn lemma_mark_accounting(msgs: Seq<MessageRowV>, pk: Seq<u8>, c: WindowCond, lo: int, hi: int)
    ensures
        unread_count(after_mark(msgs, pk, c, lo, hi, true), pk) == unread_count(msgs, pk)
            - count_unread_rows(selseq(msgs, pk, c, lo, hi)),
    decreases msgs.len(),
{
    let am = after_mark(msgs, pk, c, lo, hi, true);
    if msgs.len() == 0 {
        assert(am =~= msgs);
    } else {
        let prefix = msgs.drop_last();
        lemma_mark_accounting(prefix, pk, c, lo, hi);
        lemma_after_mark_drop_last(msgs, pk, c, lo, hi, true);
        assert(msgs.take(msgs.len() - 1) =~= prefix);
        let sel_last = in_sel(msgs, pk, c, lo, hi, msgs.len() - 1);
        if sel_last {
            assert(in_window(msgs.last(), pk, c));
            assert(msgs.last().user_id == pk);
            assert(selseq(msgs, pk, c, lo, hi) =~= selseq(prefix, pk, c, lo, hi).push(msgs.last()));
            assert(selseq(msgs, pk, c, lo, hi).drop_last() =~= selseq(prefix, pk, c, lo, hi));
        } else {
            assert(selseq(msgs, pk, c, lo, hi) =~= selseq(prefix, pk, c, lo, hi));
        }
    }
}

/// Where every selected inbound row is unread and every selected outbound row
/// is read, the selection's unread rows are exactly its inbound rows.
proof fn lemma_sel_unread_is_inbound(
    msgs: Seq<MessageRowV>,
    pk: Seq<u8>,
    c: WindowCond,
    lo: int,
    hi: int,
)
    requires
        forall|i: int|
            0 <= i < msgs.len() && in_sel(msgs, pk, c, lo, hi, i) ==> ((#[trigger] msgs[i]).inbound
                <==> !msgs[i].read),
    ensures
        count_unread_rows(selseq(msgs, pk, c, lo, hi)) == count_inbound_rows(
            selseq(msgs, pk, c, lo, hi),
        ),
    decreases msgs.len(),
{
    if msgs.len() == 0 {
    } else {
        let prefix = msgs.drop_last();
        assert(msgs.take(msgs.len() - 1) =~= prefix);
        assert forall|i: int|
            0 <= i < prefix.len() && in_sel(prefix, pk, c, lo, hi, i) implies ((
        #[trigger] prefix[i]).inbound <==> !prefix[i].read) by {
            assert(prefix[i] == msgs[i]);
            assert(prefix.take(i) =~= msgs.take(i));
            assert(in_sel(msgs, pk, c, lo, hi, i));
        }
        lemma_sel_unread_is_inbound(prefix, pk, c, lo, hi);
        let sel_last = in_window(msgs.last(), pk, c) && lo <= matching(prefix, pk, c).len()
            && matching(prefix, pk, c).len() < hi;
        if sel_last {
            assert(in_sel(msgs, pk, c, lo, hi, msgs.len() - 1));
            assert(selseq(msgs, pk, c, lo, hi) =~= selseq(prefix, pk, c, lo, hi).push(msgs.last()));
            assert(selseq(msgs, pk, c, lo, hi).drop_last() =~= selseq(prefix, pk, c, lo, hi));
        } else {
            assert(selseq(msgs, pk, c, lo, hi) =~= selseq(prefix, pk, c, lo, hi));
        }
    }
}

/// A full descending listing returns every message of the correspondent,
/// exactly once, newest first: as many rows as the correspondent has, their
/// ids strictly decreasing.
pub proof fn lemma_full_listing(s: StoreV, pk: Seq<u8>)
    requires
        store_wf(s),
    ensures
        ({
            let w = window(s.messages, pk, WindowCond::All, true, None);
            &&& w.len() == count_for(s.messages, pk)
            &&& forall|i: int, j: int|
                0 <= i < j < w.len() ==> (#[trigger] w[i]).id > (#[trigger] w[j]).id
            &&& forall|i: int| 0 <= i < w.len() ==> (#[trigger] w[i]).user_id == pk
        }),
{
    let msgs = s.messages;
    let c = WindowCond::All;
    let m = matching(msgs, pk, c);
    lemma_selseq_full(msgs, pk, c, m.len() as int);
    lemma_matching_sorted(msgs, pk, c);
    let w = window(msgs, pk, c, true, None);
    assert(win_lo(msgs, pk, c, true, None) == 0);
    assert(win_hi(msgs, pk, c, true, None) == m.len());
    assert(w == m.reverse());
    assert(w.len() == m.len());
    assert forall|i: int, j: int| 0 <= i < j < w.len() implies (#[trigger] w[i]).id > (
    #[trigger] w[j]).id by {
        assert(w[i] == m[m.len() - 1 - i]);
        assert(w[j] == m[m.len() - 1 - j]);
    }
    assert forall|i: int| 0 <= i < w.len() implies (#[trigger] w[i]).user_id == pk by {
        assert(w[i] == m[m.len() - 1 - i]);
        assert(in_window(m[m.len() - 1 - i], pk, c));
    }
}

/// Listing a window with `mark_as_read` does not change what an immediate
/// second listing of the same window returns, and lowers the correspondent's
/// unread count by exactly the returned window's inbound rows — provided the
/// inbound rows of the window were still unread, as they are for a window of
/// newly received messages.
pub proof fn lemma_mark_as_read_listing(
    s: StoreV,
    pk: Seq<u8>,
    c: WindowCond,
    desc: bool,
    limit: Option<usize>,
)
    requires
        store_wf(s),
        forall|i: int|
            0 <= i < s.messages.len() && in_sel(
                s.messages,
                pk,
                c,
                win_lo(s.messages, pk, c, desc, limit),
                win_hi(s.messages, pk, c, desc, limit),
                i,
            ) && (#[trigger] s.messages[i]).inbound ==> !s.messages[i].read,
    ensures
        ({
            let lo = win_lo(s.messages, pk, c, desc, limit);
            let hi = win_hi(s.messages, pk, c, desc, limit);
            let m1 = after_mark(s.messages, pk, c, lo, hi, true);
            let w0 = window(s.messages, pk, c, desc, limit);
            &&& window(m1, pk, c, desc, limit).map_values(|m: MessageRowV| row_to_msg(m))
                == w0.map_values(|m: MessageRowV| row_to_msg(m))
            &&& unread_count(m1, pk) == unread_count(s.messages, pk) - count_inbound_rows(w0)
        }),
{
    let msgs = s.messages;
    let lo = win_lo(msgs, pk, c, desc, limit);
    let hi = win_hi(msgs, pk, c, desc, limit);
    let m1 = after_mark(msgs, pk, c, lo, hi, true);
    assert(m1.len() == msgs.len());
    assert forall|i: int| 0 <= i < msgs.len() implies same_but_read(
        #[trigger] msgs[i],
        #[trigger] m1[i],
    ) by {
        assert(m1[i] == MessageRowV {
            read: msgs[i].read || (true && in_sel(msgs, pk, c, lo, hi, i)),
            ..msgs[i]
        });
    }
    lemma_matching_congruent(msgs, m1, pk, c);
    assert(win_lo(m1, pk, c, desc, limit) == lo);
    assert(win_hi(m1, pk, c, desc, limit) == hi);
    lemma_selseq_congruent(msgs, m1, pk, c, lo, hi);
    let s0 = selseq(msgs, pk, c, lo, hi);
    let s1 = selseq(m1, pk, c, lo, hi);
    let w0 = window(msgs, pk, c, desc, limit);
    let w1 = window(m1, pk, c, desc, limit);
    let w0m = w0.map_values(|m: MessageRowV| row_to_msg(m));
    let w1m = w1.map_values(|m: MessageRowV| row_to_msg(m));
    assert forall|i: int| 0 <= i < w1.len() implies #[trigger] w1m[i] == w0m[i] by {
        if desc {
            assert(w0 == s0.reverse());
            assert(w1 == s1.reverse());
            assert(w1[i] == s1[s1.len() - 1 - i]);
            assert(w0[i] == s0[s0.len() - 1 - i]);
            assert(same_but_read(s0[s0.len() - 1 - i], s1[s1.len() - 1 - i]));
        } else {
            assert(same_but_read(s0[i], s1[i]));
        }
        assert(row_to_msg(w1[i]) == row_to_msg(w0[i]));
        assert(w1m[i] == row_to_msg(w1[i]));
        assert(w0m[i] == row_to_msg(w0[i]));
    }
    assert(w1m =~= w0m);
    lemma_mark_accounting(msgs, pk, c, lo, hi);
    assert forall|i: int|
        0 <= i < msgs.len() && in_sel(msgs, pk, c, lo, hi, i) implies ((
    #[trigger] msgs[i]).inbound <==> !msgs[i].read) by {
        assert(row_wf(msgs[i]));
    }
    lemma_sel_unread_is_inbound(msgs, pk, c, lo, hi);
    if desc {
        lemma_count_inbound_reverse(s0);
        assert(w0 == s0.reverse());
    }
}

/// The oldest unread id is a lower bound on every unread id.
proof fn lemma_first_unread_min(msgs: Seq<MessageRowV>, pk: Seq<u8>, u: i64)
    requires
        forall|i: int, j: int|
            0 <= i < j < msgs.len() ==> (#[trigger] msgs[i]).id < (#[trigger] msgs[j]).id,
        first_unread(msgs, pk) == Some(u),
    ensures
        forall|i: int|
            0 <= i < msgs.len() && (#[trigger] msgs[i]).user_id == pk && !msgs[i].read ==> msgs[i].id
                >= u,
    decreases msgs.len(),
{
    if msgs.len() == 0 {
    } else if msgs[0].user_id == pk && !msgs[0].read {
        assert(u == msgs[0].id);
        assert forall|i: int|
            0 <= i < msgs.len() && (#[trigger] msgs[i]).user_id == pk && !msgs[i].read implies msgs[i].id
            >= u by {
            if i > 0 {
                assert(msgs[0].id < msgs[i].id);
            }
        }
    } else {
        let rest = msgs.drop_first();
        assert(forall|i: int| 0 <= i < rest.len() ==> rest[i] == msgs[i + 1]);
        assert forall|i: int, j: int| 0 <= i < j < rest.len() implies (#[trigger] rest[i]).id < (
        #[trigger] rest[j]).id by {
            assert(rest[i] == msgs[i + 1] && rest[j] == msgs[j + 1]);
        }
        lemma_first_unread_min(rest, pk, u);
        assert forall|i: int|
            0 <= i < msgs.len() && (#[trigger] msgs[i]).user_id == pk && !msgs[i].read implies msgs[i].id
            >= u by {
            assert(i > 0);
            assert(rest[i - 1] == msgs[i]);
        }
    }
}

/// With no unread row for the correspondent, there is no oldest unread id.
proof fn lemma_first_unread_none(msgs: Seq<MessageRowV>, pk: Seq<u8>)
    requires
        forall|i: int|
            0 <= i < msgs.len() ==> !((#[trigger] msgs[i]).user_id == pk && !msgs[i].read),
    ensures
        first_unread(msgs, pk) is None,
    decreases msgs.len(),
{
    if msgs.len() == 0 {
    } else {
        let rest = msgs.drop_first();
        assert(forall|i: int| 0 <= i < rest.len() ==> rest[i] == msgs[i + 1]);
        lemma_first_unread_none(rest, pk);
    }
}

/// Draining the unread backlog with `mark_as_read` and no limit leaves
/// nothing unread: an immediate second backlog query returns the empty list.
pub proof fn lemma_new_messages_drain(s: StoreV, pk: Seq<u8>, u: i64)
    requires
        store_wf(s),
        first_unread(s.messages, pk) == Some(u),
    ensures
        ({
            let c = WindowCond::Ge(u);
            let m1 = after_mark(
                s.messages,
                pk,
                c,
                win_lo(s.messages, pk, c, false, None),
                win_hi(s.messages, pk, c, false, None),
                true,
            );
            first_unread(m1, pk) is None
        }),
{
    let msgs = s.messages;
    let c = WindowCond::Ge(u);
    let lo = win_lo(msgs, pk, c, false, None);
    let hi = win_hi(msgs, pk, c, false, None);
    let m1 = after_mark(msgs, pk, c, lo, hi, true);
    assert(lo == 0);
    assert(hi == matching(msgs, pk, c).len());
    lemma_first_unread_min(msgs, pk, u);
    assert forall|i: int|
        0 <= i < m1.len() implies !((#[trigger] m1[i]).user_id == pk && !m1[i].read) by {
        assert(m1[i] == MessageRowV {
            read: msgs[i].read || (true && in_sel(msgs, pk, c, lo, hi, i)),
            ..msgs[i]
        });
        if msgs[i].user_id == pk && !msgs[i].read {
            assert(msgs[i].id >= u);
            assert(in_window(msgs[i], pk, c));
            lemma_matching_rank_lt(msgs, pk, c, i);
            assert(in_sel(msgs, pk, c, lo, hi, i));
        }
    }
    lemma_first_unread_none(m1, pk);
}

/// Whether a persisted message row is well formed, as `row_wf` asks.
fn row_check(row: &MessageRow) -> (r: bool)
    ensures
        r == row_wf(row@),
{
    if row.user_id.len() != 32 {
        return false;
    }
    match PubKey::from_bytes(slice_to_vec(row.user_id.as_slice())) {
        Some(_) => {},
        None => {
            return false;
        },
    }
    match &row.tracking_id {
        Some(t) => {
            if t.len() != 16 {
                return false;
            }
            let mut nonzero = false;
            for i in 0..16usize
                invariant
                    t@.len() == 16,
                    nonzero == (exists|j: int| 0 <= j < i && t@[j] != 0u8),
            {
                if t[i] != 0 {
                    nonzero = true;
                    proof {
                        assert(t@[i as int] != 0u8);
                    }
                } else {
                    proof {
                        assert forall|j: int| 0 <= j < i + 1 && t@[j] != 0u8 implies exists|k: int|
                            0 <= k < i && t@[k] != 0u8 by {
                            assert(j != i);
                        }
                    }
                }
            }
            if !nonzero {
                return false;
            }
        },
        None => {},
    }
    if !row.inbound && !row.read {
        return false;
    }
    true
}

/// Whether a stored row falls inside a window.
fn row_matches(row: &MessageRow, pk: &PubKey, c: &WindowCond) -> (r: bool)
    ensures
        r == in_window(row@, pk@, *c),
{
    if !bytes_eq(row.user_id.as_slice(), pk.as_bytes()) {
        return false;
    }
    match c {
        WindowCond::All => true,
        WindowCond::Lt(b) => row.id < *b,
        WindowCond::Gt(a) => row.id > *a,
        WindowCond::Ge(a) => row.id >= *a,
    }
}

/// Whether one of the collected keys equals `key`.
fn keys_contain(seen: &Vec<Vec<u8>>, key: &[u8]) -> (r: bool)
    ensures
        r == seen@.map_values(|v: Vec<u8>| v@).contains(key@),
{
    let ghost smap = seen@.map_values(|v: Vec<u8>| v@);
    let n = seen.len();
    for i in 0..n
        invariant
            n == seen@.len(),
            smap == seen@.map_values(|v: Vec<u8>| v@),
            forall|j: int| 0 <= j < i ==> smap[j] != key@,
    {
        proof {
            assert(smap[i as int] == seen@[i as int]@);
        }
        if bytes_eq(seen[i].as_slice(), key) {
            proof {
                assert(smap.contains(key@));
            }
            return true;
        }
    }
    proof {
        assert(smap.len() == seen@.len());
        if smap.contains(key@) {
            let j = choose|j: int| 0 <= j < smap.len() && smap[j] == key@;
            assert(false);
        }
    }
    false
}

/// The elements of `v`, last first.
fn reverse_vec<T>(v: Vec<T>) -> (r: Vec<T>)
    ensures
        r@ == v@.reverse(),
{
    let ghost v0 = v@;
    let mut v = v;
    let mut r: Vec<T> = Vec::new();
    proof {
        assert(v0.take(v0.len() as int) =~= v0);
        assert(v0.skip(v0.len() as int).reverse() =~= Seq::<T>::empty());
    }
    while v.len() > 0
        invariant
            v@.len() <= v0.len(),
            v@ == v0.take(v@.len() as int),
            r@ == v0.skip(v@.len() as int).reverse(),
        decreases v.len(),
    {
        let ghost m = v@.len() as int;
        let ghost r_pre = r@;
        let x = match v.pop() {
            Some(x) => x,
            None => {
                proof {
                    assert(false);
                }
                unreached()
            },
        };
        r.push(x);
        proof {
            let n0 = v0.len() as int;
            assert(v@ =~= v0.take(m - 1));
            assert(x == v0[m - 1]);
            let tgt = v0.skip(m - 1).reverse();
            assert(tgt.len() == n0 - m + 1);
            assert(r@.len() == n0 - m + 1);
            assert forall|j: int| 0 <= j < tgt.len() implies r@[j] == tgt[j] by {
                assert(tgt[j] == v0.skip(m - 1)[n0 - (m - 1) - 1 - j]);
                assert(v0.skip(m - 1)[n0 - (m - 1) - 1 - j] == v0[n0 - 1 - j]);
                if j < n0 - m {
                    assert(r@[j] == r_pre[j]);
                    assert(r_pre[j] == v0.skip(m).reverse()[j]);
                    assert(v0.skip(m).reverse()[j] == v0.skip(m)[n0 - m - 1 - j]);
                    assert(v0.skip(m)[n0 - m - 1 - j] == v0[n0 - 1 - j]);
                } else {
                    assert(r@[j] == x);
                    assert(n0 - 1 - j == m - 1);
                }
            }
            assert(r@ =~= tgt);
        }
    }
    proof {
        assert(v0.take(0) =~= Seq::<T>::empty());
        assert(v@.len() == 0);
        assert(v0.skip(0) =~= v0);
    }
    r
}

impl Store {
    pub open spec fn wf(&self) -> bool {
        store_wf(self@)
    }

    /// An empty store; the first insert takes id 1.
    pub fn new() -> (r: Store)
        ensures
            r.wf(),
            r@.messages == Seq::<MessageRowV>::empty(),
            r@.users == Seq::<UserRowV>::empty(),
            r@.next_id == 1,
    {
        let r = Store { messages: Vec::new(), users: Vec::new(), next_id: 1 };
        proof {
            assert(r@.messages =~= Seq::<MessageRowV>::empty());
            assert(r@.users =~= Seq::<UserRowV>::empty());
        }
        r
    }

    /// The id the next insert will take.
    pub fn next_id(&self) -> (r: i64)
        ensures
            r == self@.next_id,
    {
        self.next_id
    }

    /// Rebuilds a store from persisted rows, message rows in id order.
    /// Accepts exactly the row sets that satisfy the store's invariant.
    pub fn from_rows(messages: Vec<MessageRow>, users: Vec<UserRow>) -> (r: Option<Store>)
        ensures
            ({
                let mv = messages@.map_values(|m: MessageRow| m@);
                let uv = users@.map_values(|u: UserRow| u@);
                match r {
                    Some(s) => loadable(mv, uv) && s.wf() && s@.messages == mv && s@.users == uv,
                    None => !loadable(mv, uv),
                }
            }),
    {
        let ghost mv = messages@.map_values(|m: MessageRow| m@);
        let ghost uv = users@.map_values(|u: UserRow| u@);
        let n = messages.len();
        proof {
            assert(mv.len() == n);
        }
        for i in 0..n
            invariant
                n == messages@.len(),
                mv == messages@.map_values(|m: MessageRow| m@),
                n == mv.len(),
                forall|a: int| 0 <= a < i ==> row_wf(#[trigger] mv[a]),
                forall|a: int, b: int|
                    0 <= a < b < i ==> (#[trigger] mv[a]).id < (#[trigger] mv[b]).id,
                i > 0 ==> mv[0].id >= 1,
        {
            proof {
                assert(mv[i as int] == messages@[i as int]@);
            }
            if !row_check(&messages[i]) {
                proof {
                    assert(!row_wf(mv[i as int]));
                }
                return None;
            }
            if i == 0 {
                if messages[i].id < 1 {
                    return None;
                }
            } else {
                proof {
                    assert(mv[i - 1] == messages@[i - 1]@);
                }
                if messages[i - 1].id >= messages[i].id {
                    return None;
                }
                proof {
                    assert forall|a: int| 0 <= a < i implies (#[trigger] mv[a]).id
                        < mv[i as int].id by {
                        if a < i - 1 {
                            assert(mv[a].id < mv[i - 1].id);
                        }
                    }
                }
            }
        }
        let next_id: i64 = if n == 0 {
            1
        } else {
            proof {
                assert(mv[n - 1] == messages@[n - 1]@);
            }
            if messages[n - 1].id == i64::MAX {
                return None;
            }
            messages[n - 1].id + 1
        };
        let un = users.len();
        proof {
            assert(uv.len() == un);
        }
        for i in 0..un
            invariant
                un == users@.len(),
                uv == users@.map_values(|u: UserRow| u@),
                un == uv.len(),
                forall|a: int| 0 <= a < i ==> user_wf(#[trigger] uv[a]),
                forall|a: int, b: int|
                    0 <= a < b < i ==> (#[trigger] uv[a]).id != (#[trigger] uv[b]).id,
        {
            proof {
                assert(uv[i as int] == users@[i as int]@);
            }
            let urow = &users[i];
            if urow.id.len() != 32 {
                return None;
            }
            match PubKey::from_bytes(slice_to_vec(urow.id.as_slice())) {
                Some(_) => {},
                None => {
                    return None;
                },
            }
            for j in 0..i
                invariant
                    un == users@.len(),
                    uv == users@.map_values(|u: UserRow| u@),
                    un == uv.len(),
                    i < un,
                    forall|a: int| 0 <= a < j ==> (#[trigger] uv[a]).id != uv[i as int].id,
            {
                proof {
                    assert(uv[j as int] == users@[j as int]@);
                }
                if bytes_eq(users[j].id.as_slice(), users[i].id.as_slice()) {
                    proof {
                        assert(uv[j as int].id == users@[j as int]@.id);
                        assert(uv[i as int].id == users@[i as int]@.id);
                        assert(uv[j as int].id == uv[i as int].id);
                        assert(!loadable(mv, uv));
                    }
                    return None;
                }
            }
        }
        let store = Store { messages, users, next_id };
        proof {
            assert(store@.messages == mv);
            assert(store@.users == uv);
            assert forall|i: int| 0 <= i < mv.len() implies (#[trigger] mv[i]).id >= i + 1 by {
                lemma_sorted_ids_bound(mv, i);
            }
            assert forall|i: int| 0 <= i < mv.len() implies (#[trigger] mv[i]).id < next_id by {
                if i < mv.len() - 1 {
                    assert(mv[i].id < mv[mv.len() - 1].id);
                }
            }
            assert(store_wf(store@));
        }
        Some(store)
    }

    /// Inserts an accepted inbound message: unread, no tracking id.
    pub fn save_in_message(&mut self, message: NewInboundMessage) -> (r: Result<(), Error>)
        requires
            old(self).wf(),
            message.wf(),
            old(self)@.next_id < i64::MAX,
        ensures
            r is Ok,
            final(self).wf(),
            final(self)@.messages == old(self)@.messages.push(
                inbound_row(old(self)@.next_id, message.from@, message.time, message.content@),
            ),
            final(self)@.users == old(self)@.users,
            final(self)@.next_id == old(self)@.next_id + 1,
    {
        let ghost pre = self@;
        let row = MessageRow {
            id: self.next_id,
            tracking_id: None,
            user_id: message.from.into_bytes(),
            inbound: true,
            time: message.time,
            content: message.content,
            read: false,
        };
        let ghost rowv = row@;
        self.messages.push(row);
        self.next_id = self.next_id + 1;
        proof {
            assert(self@.messages =~= pre.messages.push(rowv));
            self.lemma_after_insert(pre, rowv);
        }
        Ok(())
    }

    /// Inserts a delivered outbound message: read, tracking id as given.
    pub fn save_out_message(&mut self, message: NewOutboundMessage) -> (r: Result<(), Error>)
        requires
            old(self).wf(),
            message.wf(),
            old(self)@.next_id < i64::MAX,
        ensures
            r is Ok,
            final(self).wf(),
            final(self)@.messages == old(self)@.messages.push(
                outbound_row(
                    old(self)@.next_id,
                    opt_bytes_view(message.tracking_id),
                    message.to@,
                    message.time,
                    message.content@,
                ),
            ),
            final(self)@.users == old(self)@.users,
            final(self)@.next_id == old(self)@.next_id + 1,
    {
        let ghost pre = self@;
        let row = MessageRow {
            id: self.next_id,
            tracking_id: message.tracking_id,
            user_id: message.to.into_bytes(),
            inbound: false,
            time: message.time,
            content: message.content,
            read: true,
        };
        let ghost rowv = row@;
        self.messages.push(row);
        self.next_id = self.next_id + 1;
        proof {
            assert(self@.messages =~= pre.messages.push(rowv));
            self.lemma_after_insert(pre, rowv);
        }
        Ok(())
    }

    proof fn lemma_after_insert(&self, pre: StoreV, rowv: MessageRowV)
        requires
            store_wf(pre),
            self@.messages == pre.messages.push(rowv),
            self@.users == pre.users,
            self@.next_id == pre.next_id + 1,
            rowv.id == pre.next_id,
            pre.next_id < i64::MAX,
            row_wf(rowv),
        ensures
            store_wf(self@),
    {
        let msgs = self@.messages;
        let n = pre.messages.len() as int;
        assert(forall|i: int| 0 <= i < n ==> msgs[i] == pre.messages[i]);
        assert(msgs[n] == rowv);
        if n > 0 {
            assert(pre.messages[n - 1].id >= n);
            assert(pre.messages[n - 1].id < pre.next_id);
        }
        assert(forall|i: int| 0 <= i < msgs.len() ==> (#[trigger] msgs[i]).id < self@.next_id);
    }

    /// Inserts or renames a user; the key keeps a single row.
    pub fn save_user(&mut self, pubkey: PubKey, name: String) -> (r: Result<(), Error>)
        requires
            old(self).wf(),
            pubkey.wf(),
        ensures
            r is Ok,
            final(self).wf(),
            final(self)@.users == users_except(old(self)@.users, pubkey@).push(
                UserRowV { id: pubkey@, name: name@ },
            ),
            final(self)@.messages == old(self)@.messages,
            final(self)@.next_id == old(self)@.next_id,
    {
        let ghost pre = self@;
        self.remove_user_rows(&pubkey);
        self.users.push(UserRow { id: pubkey.into_bytes(), name: name });
        proof {
            assert(self@.users =~= users_except(pre.users, pubkey@).push(
                UserRowV { id: pubkey@, name: name@ },
            ));
            lemma_users_except_props(pre.users, pubkey@);
            assert(store_wf(self@));
        }
        Ok(())
    }

    /// Removes the user row for a key; messages are retained.
    pub fn del_user(&mut self, pubkey: PubKey) -> (r: Result<(), Error>)
        requires
            old(self).wf(),
        ensures
            r is Ok,
            final(self).wf(),
            final(self)@.users == users_except(old(self)@.users, pubkey@),
            final(self)@.messages == old(self)@.messages,
            final(self)@.next_id == old(self)@.next_id,
    {
        let ghost pre = self@;
        self.remove_user_rows(&pubkey);
        proof {
            lemma_users_except_props(pre.users, pubkey@);
            assert(store_wf(self@));
        }
        Ok(())
    }

    fn remove_user_rows(&mut self, pubkey: &PubKey)
        ensures
            final(self)@.users == users_except(old(self)@.users, pubkey@),
            final(self)@.messages == old(self)@.messages,
            final(self)@.next_id == old(self)@.next_id,
    {
        let ghost u0 = self@.users;
        let mut kept: Vec<UserRow> = Vec::new();
        let n = self.users.len();
        for i in 0..n
            invariant
                n == self.users@.len(),
                self@.users == u0,
                self@.messages == old(self)@.messages,
                self@.next_id == old(self)@.next_id,
                kept@.map_values(|u: UserRow| u@) == users_except(u0.take(i as int), pubkey@),
        {
            let row = &self.users[i];
            proof {
                assert(u0.take(i + 1).drop_last() =~= u0.take(i as int));
                assert(u0.take(i + 1).last() == u0[i as int]);
            }
            if !bytes_eq(row.id.as_slice(), pubkey.as_bytes()) {
                let copy = UserRow {
                    id: slice_to_vec(row.id.as_slice()),
                    name: row.name.clone(),
                };
                kept.push(copy);
                proof {
                    assert(kept@.map_values(|u: UserRow| u@) =~= users_except(
                        u0.take(i + 1),
                        pubkey@,
                    ));
                }
            } else {
                proof {
                    assert(kept@.map_values(|u: UserRow| u@) =~= users_except(
                        u0.take(i + 1),
                        pubkey@,
                    ));
                }
            }
        }
        proof {
            assert(u0.take(n as int) =~= u0);
        }
        self.users = kept;
    }

    /// Runs one pagination query: selects the window, marks it read if asked,
    /// and returns it in query order.
    #[verifier::rlimit(50)]
    fn select_window(
        &mut self,
        pubkey: &PubKey,
        cond: WindowCond,
        desc: bool,
        limit: Option<usize>,
        mark_as_read: bool,
    ) -> (r: Vec<Message>)
        requires
            old(self).wf(),
        ensures
            final(self).wf(),
            final(self)@.users == old(self)@.users,
            final(self)@.next_id == old(self)@.next_id,
            final(self)@.messages == after_mark(
                old(self)@.messages,
                pubkey@,
                cond,
                win_lo(old(self)@.messages, pubkey@, cond, desc, limit),
                win_hi(old(self)@.messages, pubkey@, cond, desc, limit),
                mark_as_read,
            ),
            msgs_view(r@) == window(old(self)@.messages, pubkey@, cond, desc, limit).map_values(
                |m: MessageRowV| row_to_msg(m),
            ),
    {
        let ghost m0 = self@.messages;
        let n = self.messages.len();
        let mut total: usize = 0;
        for i in 0..n
            invariant
                n == self.messages@.len(),
                m0 == self@.messages,
                total == matching(m0.take(i as int), pubkey@, cond).len(),
                total <= i,
        {
            proof {
                assert(m0.take(i + 1).drop_last() =~= m0.take(i as int));
                assert(m0.take(i + 1).last() == m0[i as int]);
            }
            if row_matches(&self.messages[i], pubkey, &cond) {
                total = total + 1;
            }
        }
        proof {
            assert(m0.take(n as int) =~= m0);
        }
        let k: usize = match limit {
            Some(l) => if l <= total {
                l
            } else {
                total
            },
            None => total,
        };
        let lo: usize = if desc {
            total - k
        } else {
            0
        };
        let hi: usize = if desc {
            total
        } else {
            k
        };
        proof {
            assert(lo == win_lo(m0, pubkey@, cond, desc, limit));
            assert(hi == win_hi(m0, pubkey@, cond, desc, limit));
        }
        let mut rest: Vec<MessageRow> = Vec::new();
        core::mem::swap(&mut rest, &mut self.messages);
        let mut rebuilt: Vec<MessageRow> = Vec::new();
        let mut collected: Vec<Message> = Vec::new();
        let mut mcount: usize = 0;
        proof {
            assert(rest@.map_values(|r: MessageRow| r@) =~= m0.skip(0));
            assert(rebuilt@.map_values(|r: MessageRow| r@) =~= after_mark(
                m0,
                pubkey@,
                cond,
                lo as int,
                hi as int,
                mark_as_read,
            ).take(0));
            assert(msgs_view(collected@) =~= selseq(m0.take(0), pubkey@, cond, lo as int, hi as int).map_values(
                |m: MessageRowV| row_to_msg(m),
            ));
        }
        for i in 0..n
            invariant
                n == m0.len(),
                rest@.map_values(|r: MessageRow| r@) == m0.skip(i as int),
                rebuilt@.len() == i,
                rebuilt@.map_values(|r: MessageRow| r@) == after_mark(
                    m0,
                    pubkey@,
                    cond,
                    lo as int,
                    hi as int,
                    mark_as_read,
                ).take(i as int),
                mcount == matching(m0.take(i as int), pubkey@, cond).len(),
                mcount <= i,
                msgs_view(collected@) == selseq(
                    m0.take(i as int),
                    pubkey@,
                    cond,
                    lo as int,
                    hi as int,
                ).map_values(|m: MessageRowV| row_to_msg(m)),
        {
            let ghost am = after_mark(m0, pubkey@, cond, lo as int, hi as int, mark_as_read);
            let ghost rest_pre = rest@;
            proof {
                assert(rest_pre.map_values(|r: MessageRow| r@).len() == rest_pre.len());
                assert(rest_pre.len() == n - i);
            }
            let mut row = rest.remove(0);
            proof {
                assert(rest_pre.map_values(|r: MessageRow| r@)[0] == row@);
                assert(row@ == m0.skip(i as int)[0]);
                assert(m0.skip(i as int)[0] == m0[i as int]);
                let rmap = rest@.map_values(|r: MessageRow| r@);
                assert forall|j: int| 0 <= j < rest@.len() implies #[trigger] rmap[j] == m0.skip(
                    i + 1,
                )[j] by {
                    assert(rest@[j] == rest_pre[j + 1]);
                    assert(rest_pre.map_values(|r: MessageRow| r@)[j + 1] == rest_pre[j + 1]@);
                    assert(m0.skip(i + 1)[j] == m0[i + 1 + j]);
                    assert(m0.skip(i as int)[j + 1] == m0[i + 1 + j]);
                }
                assert(rmap =~= m0.skip(i + 1));
                assert(m0.take(i + 1).drop_last() =~= m0.take(i as int));
                assert(m0.take(i + 1).last() == m0[i as int]);
            }
            let matches_here = row_matches(&row, pubkey, &cond);
            let selected = matches_here && lo <= mcount && mcount < hi;
            let ghost c_pre = collected@;
            let ghost s_pre = selseq(m0.take(i as int), pubkey@, cond, lo as int, hi as int);
            proof {
                assert(selected == in_sel(m0, pubkey@, cond, lo as int, hi as int, i as int));
            }
            if selected {
                let out_msg = Message {
                    id: row.id,
                    tracking_id: match &row.tracking_id {
                        Some(t) => Some(slice_to_vec(t.as_slice())),
                        None => None,
                    },
                    time: row.time,
                    inbound: row.inbound,
                    content: row.content.clone(),
                };
                proof {
                    assert(out_msg@ == row_to_msg(m0[i as int]));
                }
                collected.push(out_msg);
                proof {
                    assert(collected@.len() == c_pre.len() + 1);
                    assert(collected@[c_pre.len() as int]@ == row_to_msg(m0[i as int]));
                    assert(forall|j: int| 0 <= j < c_pre.len() ==> collected@[j] == c_pre[j]);
                }
                if mark_as_read {
                    row.read = true;
                }
            }
            proof {
                let s_new = selseq(m0.take(i + 1), pubkey@, cond, lo as int, hi as int);
                assert(s_new == s_pre + if in_sel(m0, pubkey@, cond, lo as int, hi as int, i as int) {
                    seq![m0[i as int]]
                } else {
                    Seq::<MessageRowV>::empty()
                });
                let smap_new = s_new.map_values(|m: MessageRowV| row_to_msg(m));
                if selected {
                    assert(s_new =~= s_pre.push(m0[i as int]));
                    assert(msgs_view(c_pre).len() == c_pre.len());
                    assert(s_pre.map_values(|m: MessageRowV| row_to_msg(m)).len() == s_pre.len());
                    assert(c_pre.len() == s_pre.len());
                    assert(msgs_view(collected@).len() == collected@.len());
                    assert(msgs_view(collected@).len() == smap_new.len());
                    assert forall|j: int| 0 <= j < smap_new.len() implies #[trigger] msgs_view(
                        collected@,
                    )[j] == smap_new[j] by {
                        assert(msgs_view(collected@)[j] == collected@[j]@);
                        assert(smap_new[j] == row_to_msg(s_new[j]));
                        if j < c_pre.len() {
                            assert(collected@[j] == c_pre[j]);
                            assert(msgs_view(c_pre)[j] == c_pre[j]@);
                            assert(msgs_view(c_pre)[j] == s_pre.map_values(
                                |m: MessageRowV| row_to_msg(m),
                            )[j]);
                            assert(s_pre.map_values(|m: MessageRowV| row_to_msg(m))[j]
                                == row_to_msg(s_pre[j]));
                            assert(s_new[j] == s_pre[j]);
                        } else {
                            assert(collected@[j]@ == row_to_msg(m0[i as int]));
                            assert(s_new[j] == m0[i as int]);
                        }
                    }
                    assert(msgs_view(collected@) =~= smap_new);
                } else {
                    assert(s_new =~= s_pre);
                    assert(msgs_view(collected@) =~= smap_new);
                }
                assert(row@ == am[i as int]);
            }
            rebuilt.push(row);
            proof {
                assert(rebuilt@.map_values(|r: MessageRow| r@) =~= am.take(i + 1));
            }
            if matches_here {
                mcount = mcount + 1;
            }
        }
        self.messages = rebuilt;
        proof {
            let am = after_mark(m0, pubkey@, cond, lo as int, hi as int, mark_as_read);
            assert(am.take(n as int) =~= am);
            assert(m0.take(n as int) =~= m0);
            assert(self@.messages == am);
            assert(am.len() == m0.len());
            assert forall|i: int| 0 <= i < am.len() implies row_wf(#[trigger] am[i]) && (
            #[trigger] am[i]).id == m0[i].id by {
                assert(row_wf(m0[i]));
            }
            assert(forall|i: int|
                0 <= i < self@.messages.len() ==> row_wf(#[trigger] self@.messages[i]));
            assert(forall|i: int|
                0 <= i < self@.messages.len() ==> (#[trigger] self@.messages[i]).id >= i + 1);
            assert(forall|i: int, j: int|
                0 <= i < j < self@.messages.len() ==> (#[trigger] self@.messages[i]).id < (
                #[trigger] self@.messages[j]).id);
            assert(forall|i: int|
                0 <= i < self@.messages.len() ==> (#[trigger] self@.messages[i]).id
                    < self@.next_id);
            assert(self@.users == old(self)@.users);
            assert(forall|i: int| 0 <= i < self@.users.len() ==> user_wf(#[trigger] self@.users[i]));
            assert(forall|i: int, j: int|
                0 <= i < j < self@.users.len() ==> (#[trigger] self@.users[i]).id != (
                #[trigger] self@.users[j]).id);
            assert(store_wf(self@));
        }
        if desc {
            let ghost c = collected@;
            let r = reverse_vec(collected);
            proof {
                let sel = selseq(
                    m0,
                    pubkey@,
                    cond,
                    win_lo(m0, pubkey@, cond, desc, limit),
                    win_hi(m0, pubkey@, cond, desc, limit),
                );
                assert(msgs_view(c).len() == c.len());
                assert(sel.map_values(|m: MessageRowV| row_to_msg(m)).len() == sel.len());
                assert(c.len() == sel.len());
                assert forall|j: int| 0 <= j < c.len() implies (#[trigger] msgs_view(r@)[j])
                    == sel.reverse().map_values(|m: MessageRowV| row_to_msg(m))[j] by {
                    assert(r@[j] == c[c.len() - 1 - j]);
                    assert(msgs_view(r@)[j] == r@[j]@);
                    assert(msgs_view(c)[c.len() - 1 - j] == c[c.len() - 1 - j]@);
                    assert(msgs_view(c)[c.len() - 1 - j] == sel.map_values(
                        |m: MessageRowV| row_to_msg(m),
                    )[c.len() - 1 - j]);
                    assert(sel.reverse()[j] == sel[sel.len() - 1 - j]);
                    assert(sel.reverse().map_values(|m: MessageRowV| row_to_msg(m))[j]
                        == row_to_msg(sel.reverse()[j]));
                    assert(sel.map_values(|m: MessageRowV| row_to_msg(m))[sel.len() - 1 - j]
                        == row_to_msg(sel[sel.len() - 1 - j]));
                }
                assert(msgs_view(r@) =~= sel.reverse().map_values(|m: MessageRowV| row_to_msg(m)));
            }
            r
        } else {
            collected
        }
    }

    /// Lists a correspondent's messages inside the window the limits choose,
    /// newest first (oldest first when the window is `After`), and marks the
    /// returned window read if asked.
    pub fn get_messages(
        &mut self,
        pubkey: &PubKey,
        limits: &Limits,
        mark_as_read: bool,
    ) -> (r: Vec<Message>)
        requires
            old(self).wf(),
        ensures
            final(self).wf(),
            final(self)@.users == old(self)@.users,
            final(self)@.next_id == old(self)@.next_id,
            final(self)@.messages == after_mark(
                old(self)@.messages,
                pubkey@,
                cond_of(limits.before_after),
                win_lo(
                    old(self)@.messages,
                    pubkey@,
                    cond_of(limits.before_after),
                    desc_of(limits.before_after),
                    limits.limit,
                ),
                win_hi(
                    old(self)@.messages,
                    pubkey@,
                    cond_of(limits.before_after),
                    desc_of(limits.before_after),
                    limits.limit,
                ),
                mark_as_read,
            ),
            msgs_view(r@) == window(
                old(self)@.messages,
                pubkey@,
                cond_of(limits.before_after),
                desc_of(limits.before_after),
                limits.limit,
            ).map_values(|m: MessageRowV| row_to_msg(m)),
    {
        let cond = match limits.before_after {
            None => WindowCond::All,
            Some(BeforeAfter::Before(b)) => WindowCond::Lt(b),
            Some(BeforeAfter::After(a)) => WindowCond::Gt(a),
        };
        let desc = match limits.before_after {
            Some(BeforeAfter::After(_)) => false,
            _ => true,
        };
        self.select_window(pubkey, cond, desc, limits.limit, mark_as_read)
    }

    /// The id of the oldest unread message for a correspondent, if any.
    fn find_first_unread(&self, pubkey: &PubKey) -> (r: Option<i64>)
        ensures
            r == first_unread(self@.messages, pubkey@),
    {
        let ghost m0 = self@.messages;
        let n = self.messages.len();
        proof {
            assert(m0.skip(0) =~= m0);
        }
        for i in 0..n
            invariant
                n == self.messages@.len(),
                m0 == self@.messages,
                first_unread(m0, pubkey@) == first_unread(m0.skip(i as int), pubkey@),
        {
            proof {
                assert(m0.skip(i as int)[0] == m0[i as int]);
            }
            let row = &self.messages[i];
            if !row.read && bytes_eq(row.user_id.as_slice(), pubkey.as_bytes()) {
                return Some(row.id);
            }
            proof {
                assert(m0.skip(i as int).drop_first() =~= m0.skip(i + 1));
            }
        }
        proof {
            assert(m0.skip(n as int) =~= Seq::<MessageRowV>::empty());
        }
        None
    }

    /// Lists a correspondent's unread backlog: the window starting at the
    /// oldest unread message, oldest first, capped by the limit; marks it
    /// read if asked. With nothing unread the store is untouched and the
    /// result empty.
    pub fn get_new_messages(
        &mut self,
        pubkey: &PubKey,
        limit: Option<usize>,
        mark_as_read: bool,
    ) -> (r: Vec<Message>)
        requires
            old(self).wf(),
        ensures
            final(self).wf(),
            final(self)@.users == old(self)@.users,
            final(self)@.next_id == old(self)@.next_id,
            match first_unread(old(self)@.messages, pubkey@) {
                None => final(self)@.messages == old(self)@.messages && r@.len() == 0,
                Some(u) => {
                    &&& final(self)@.messages == after_mark(
                        old(self)@.messages,
                        pubkey@,
                        WindowCond::Ge(u),
                        win_lo(old(self)@.messages, pubkey@, WindowCond::Ge(u), false, limit),
                        win_hi(old(self)@.messages, pubkey@, WindowCond::Ge(u), false, limit),
                        mark_as_read,
                    )
                    &&& msgs_view(r@) == window(
                        old(self)@.messages,
                        pubkey@,
                        WindowCond::Ge(u),
                        false,
                        limit,
                    ).map_values(|m: MessageRowV| row_to_msg(m))
                },
            },
    {
        let first = self.find_first_unread(pubkey);
        match first {
            None => Vec::new(),
            Some(u) => self.select_window(pubkey, WindowCond::Ge(u), false, limit, mark_as_read),
        }
    }

    /// How many unread messages the store holds for `key`.
    fn count_unread_for(&self, key: &[u8]) -> (r: i64)
        requires
            self.wf(),
        ensures
            r as int == unread_count(self@.messages, key@),
    {
        let ghost m0 = self@.messages;
        let n = self.messages.len();
        let mut cnt: usize = 0;
        proof {
            assert(m0.take(0) =~= Seq::<MessageRowV>::empty());
        }
        for i in 0..n
            invariant
                n == self.messages@.len(),
                m0 == self@.messages,
                self.wf(),
                cnt == unread_count(m0.take(i as int), key@),
                cnt <= i,
        {
            proof {
                assert(m0.take(i + 1).drop_last() =~= m0.take(i as int));
                assert(m0.take(i + 1).last() == m0[i as int]);
            }
            let row = &self.messages[i];
            if !row.read && bytes_eq(row.user_id.as_slice(), key) {
                cnt = cnt + 1;
            }
        }
        proof {
            assert(m0.take(n as int) =~= m0);
            if n > 0 {
                assert(m0[n - 1].id >= n);
            }
            assert(cnt <= i64::MAX);
        }
        cnt as i64
    }

    /// The display name stored for `key`, if any.
    fn find_name(&self, key: &[u8]) -> (r: Option<String>)
        ensures
            match r {
                Some(n) => name_of(self@.users, key@) == Some(n@),
                None => name_of(self@.users, key@) is None,
            },
    {
        let ghost u0 = self@.users;
        let n = self.users.len();
        proof {
            assert(u0.skip(0) =~= u0);
        }
        for i in 0..n
            invariant
                n == self.users@.len(),
                u0 == self@.users,
                name_of(u0, key@) == name_of(u0.skip(i as int), key@),
        {
            proof {
                assert(u0.skip(i as int)[0] == u0[i as int]);
            }
            let row = &self.users[i];
            if bytes_eq(row.id.as_slice(), key) {
                return Some(row.name.clone());
            }
            proof {
                assert(u0.skip(i as int).drop_first() =~= u0.skip(i + 1));
            }
        }
        proof {
            assert(u0.skip(n as int) =~= Seq::<UserRowV>::empty());
        }
        None
    }

    /// Lists every correspondent with at least one message (in order of first
    /// appearance, with name and unread count) and then every user row
    /// without messages (in table order, unread count zero).
    pub fn get_user_info(&self) -> (r: Result<Vec<UserInfo>, Error>)
        requires
            self.wf(),
        ensures
            match r {
                Ok(v) => infos_view(v@) == user_info_list(self@.messages, self@.users),
                Err(_) => false,
            },
    {
        let ghost m0 = self@.messages;
        let ghost u0 = self@.users;
        let n = self.messages.len();
        let mut seen: Vec<Vec<u8>> = Vec::new();
        proof {
            assert(seen@.map_values(|v: Vec<u8>| v@) =~= senders(m0.take(0)));
        }
        for i in 0..n
            invariant
                n == self.messages@.len(),
                m0 == self@.messages,
                u0 == self@.users,
                self.wf(),
                seen@.map_values(|v: Vec<u8>| v@) == senders(m0.take(i as int)),
                forall|j: int|
                    0 <= j < seen@.len() ==> (#[trigger] seen@[j])@.len() == 32 && pubkey_valid(
                        seen@[j]@,
                    ),
        {
            proof {
                assert(m0.take(i + 1).drop_last() =~= m0.take(i as int));
                assert(m0.take(i + 1).last() == m0[i as int]);
            }
            let ghost seen_pre = seen@;
            let row = &self.messages[i];
            if !keys_contain(&seen, row.user_id.as_slice()) {
                seen.push(slice_to_vec(row.user_id.as_slice()));
                proof {
                    assert(row_wf(m0[i as int]));
                    assert(seen@.map_values(|v: Vec<u8>| v@) =~= senders(m0.take(i as int)).push(
                        m0[i as int].user_id,
                    ));
                }
            }
        }
        proof {
            assert(m0.take(n as int) =~= m0);
        }
        let mut result: Vec<UserInfo> = Vec::new();
        let ghost part1 = senders(m0).map_values(
            |pk: Seq<u8>|
                UserInfoV { pubkey: pk, name: name_of(u0, pk), unreads: unread_count(m0, pk) },
        );
        let sn = seen.len();
        proof {
            assert(seen@.map_values(|v: Vec<u8>| v@).len() == seen@.len());
            assert(part1.len() == senders(m0).len());
            assert(infos_view(result@) =~= part1.take(0));
        }
        for j in 0..sn
            invariant
                sn == seen@.len(),
                m0 == self@.messages,
                u0 == self@.users,
                self.wf(),
                sn == senders(m0).len(),
                part1 == senders(m0).map_values(
                    |pk: Seq<u8>|
                        UserInfoV {
                            pubkey: pk,
                            name: name_of(u0, pk),
                            unreads: unread_count(m0, pk),
                        },
                ),
                seen@.map_values(|v: Vec<u8>| v@) == senders(m0),
                forall|j2: int|
                    0 <= j2 < seen@.len() ==> (#[trigger] seen@[j2])@.len() == 32 && pubkey_valid(
                        seen@[j2]@,
                    ),
                infos_view(result@) == part1.take(j as int),
        {
            proof {
                assert(seen@.map_values(|v: Vec<u8>| v@)[j as int] == seen@[j as int]@);
                assert(senders(m0)[j as int] == seen@[j as int]@);
            }
            let key = &seen[j];
            let unreads = self.count_unread_for(key.as_slice());
            let name = self.find_name(key.as_slice());
            let pubkey = match PubKey::from_bytes(slice_to_vec(key.as_slice())) {
                Some(k) => k,
                None => {
                    proof {
                        assert(false);
                    }
                    unreached()
                },
            };
            let info = UserInfo { pubkey, name, unreads };
            let ghost r_pre = result@;
            proof {
                assert(part1[j as int] == UserInfoV {
                    pubkey: senders(m0)[j as int],
                    name: name_of(u0, senders(m0)[j as int]),
                    unreads: unread_count(m0, senders(m0)[j as int]),
                });
                assert(info@ == part1[j as int]);
            }
            result.push(info);
            proof {
                assert(infos_view(r_pre).len() == r_pre.len());
                assert forall|k: int| 0 <= k < result@.len() implies #[trigger] infos_view(
                    result@,
                )[k] == part1.take(j + 1)[k] by {
                    assert(infos_view(result@)[k] == result@[k]@);
                    if k < r_pre.len() {
                        assert(result@[k] == r_pre[k]);
                        assert(infos_view(r_pre)[k] == r_pre[k]@);
                        assert(infos_view(r_pre)[k] == part1.take(j as int)[k]);
                    } else {
                        assert(result@[k]@ == part1[j as int]);
                    }
                }
                assert(infos_view(result@) =~= part1.take(j + 1));
            }
        }
        proof {
            assert(part1.take(sn as int) =~= part1);
            assert(users_without_messages(u0.take(0), m0) =~= Seq::<UserRowV>::empty());
            assert(infos_view(result@) =~= part1 + users_without_messages(u0.take(0), m0).map_values(
                |u: UserRowV| UserInfoV { pubkey: u.id, name: Some(u.name), unreads: 0 },
            ));
        }
        let un = self.users.len();
        for i in 0..un
            invariant
                un == self.users@.len(),
                m0 == self@.messages,
                u0 == self@.users,
                self.wf(),
                seen@.map_values(|v: Vec<u8>| v@) == senders(m0),
                part1 == senders(m0).map_values(
                    |pk: Seq<u8>|
                        UserInfoV {
                            pubkey: pk,
                            name: name_of(u0, pk),
                            unreads: unread_count(m0, pk),
                        },
                ),
                infos_view(result@) == part1 + users_without_messages(u0.take(i as int), m0).map_values(
                    |u: UserRowV| UserInfoV { pubkey: u.id, name: Some(u.name), unreads: 0 },
                ),
        {
            proof {
                assert(u0.take(i + 1).drop_last() =~= u0.take(i as int));
                assert(u0.take(i + 1).last() == u0[i as int]);
            }
            let urow = &self.users[i];
            if !keys_contain(&seen, urow.id.as_slice()) {
                let pubkey = match PubKey::from_bytes(slice_to_vec(urow.id.as_slice())) {
                    Some(k) => k,
                    None => {
                        proof {
                            assert(user_wf(u0[i as int]));
                            assert(false);
                        }
                        unreached()
                    },
                };
                let info = UserInfo { pubkey, name: Some(urow.name.clone()), unreads: 0 };
                let ghost r_pre = result@;
                proof {
                    assert(info@ == UserInfoV {
                        pubkey: u0[i as int].id,
                        name: Some(u0[i as int].name),
                        unreads: 0,
                    });
                }
                result.push(info);
                proof {
                    let w_pre = users_without_messages(u0.take(i as int), m0);
                    let w_new = users_without_messages(u0.take(i + 1), m0);
                    assert(w_new =~= w_pre.push(u0[i as int]));
                    let p2map = |u: UserRowV| UserInfoV {
                        pubkey: u.id,
                        name: Some(u.name),
                        unreads: 0,
                    };
                    let tgt = part1 + w_new.map_values(p2map);
                    assert(infos_view(r_pre).len() == r_pre.len());
                    assert(infos_view(r_pre) == part1 + w_pre.map_values(p2map));
                    assert(w_pre.map_values(p2map).len() == w_pre.len());
                    assert(w_new.map_values(p2map).len() == w_new.len());
                    assert forall|k: int| 0 <= k < result@.len() implies #[trigger] infos_view(
                        result@,
                    )[k] == tgt[k] by {
                        assert(infos_view(result@)[k] == result@[k]@);
                        if k < r_pre.len() {
                            assert(result@[k] == r_pre[k]);
                            assert(infos_view(r_pre)[k] == r_pre[k]@);
                            if k >= part1.len() {
                                assert(tgt[k] == w_new.map_values(p2map)[k - part1.len()]);
                                assert(w_new.map_values(p2map)[k - part1.len()] == p2map(
                                    w_new[k - part1.len()],
                                ));
                                assert(w_new[k - part1.len()] == w_pre[k - part1.len()]);
                                assert(w_pre.map_values(p2map)[k - part1.len()] == p2map(
                                    w_pre[k - part1.len()],
                                ));
                            }
                        } else {
                            assert(result@[k]@ == p2map(u0[i as int]));
                            assert(tgt[k] == w_new.map_values(p2map)[k - part1.len()]);
                            assert(w_new.map_values(p2map)[k - part1.len()] == p2map(
                                w_new[k - part1.len()],
                            ));
                            assert(w_new[k - part1.len()] == u0[i as int]);
                        }
                    }
                    assert(infos_view(result@).len() == tgt.len());
                    assert(infos_view(result@) =~= tgt);
                }
            } else {
                proof {
                    assert(users_without_messages(u0.take(i + 1), m0) =~= users_without_messages(
                        u0.take(i as int),
                        m0,
                    ));
                }
            }
        }
        proof {
            assert(u0.take(un as int) =~= u0);
            assert(infos_view(result@) =~= user_info_list(m0, u0));
        }
        Ok(result)
    }

    /// How many messages the store holds for the correspondent.
    pub fn count_messages_by_user(&self, pubkey: &PubKey) -> (r: i64)
        requires
            self.wf(),
        ensures
            r == count_for(self@.messages, pubkey@),
    {
        let ghost msgs = self@.messages;
        let n = self.messages.len();
        let mut cnt: usize = 0;
        for i in 0..n
            invariant
                n == self.messages@.len(),
                msgs == self@.messages,
                self.wf(),
                cnt == matching(msgs.take(i as int), pubkey@, WindowCond::All).len(),
                cnt <= i,
        {
            proof {
                assert(msgs.take(i + 1).drop_last() =~= msgs.take(i as int));
                assert(msgs.take(i + 1).last() == msgs[i as int]);
            }
            if bytes_eq(self.messages[i].user_id.as_slice(), pubkey.as_bytes()) {
                cnt = cnt + 1;
            }
        }
        proof {
            assert(msgs.take(n as int) =~= msgs);
            if n > 0 {
                assert(msgs[n - 1].id >= n);
            }
            assert(cnt <= i64::MAX);
        }
        cnt as i64
    }
}

} // verus!
