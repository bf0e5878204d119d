//! The transport's verified state: per-relay subscription sets with
//! refcounts, outbound queues drained in order, the request inbox, and
//! room-id derivation, together with the laws they obey.

use vstd::prelude::*;

use crate::data::Ctl;
use crate::data::Inbox;
use crate::data::InboxV;
use crate::data::Packet;
use crate::data::PacketKind;
use crate::data::PacketV;
use crate::error::Error;
use crate::util::bytes_eq;
use crate::util::concat_bytes;
use crate::cbor::copy_range;

verus! {

/// One refcounted subscription: a room id and how many times it was
/// subscribed.
#[derive(Debug, Clone, PartialEq, Eq)]
pub struct SubEntry {
    pub room: Vec<u8>,
    pub count: u64,
}

/// The subscription table is a set: every room appears once, with a positive
/// count.
pub open spec fn subs_wf(subs: Seq<SubEntry>) -> bool {
    &&& forall|i: int, j: int|
        0 <= i < j < subs.len() ==> (#[trigger] subs[i]).room@ != (#[trigger] subs[j]).room@
    &&& forall|i: int| 0 <= i < subs.len() ==> (#[trigger] subs[i]).count >= 1
}

/// Whether the table holds the room.
pub open spec fn has_room(subs: Seq<SubEntry>, room: Seq<u8>) -> bool {
    exists|i: int| 0 <= i < subs.len() && (#[trigger] subs[i]).room@ == room
}

/// The room's refcount; meaningful only when the table holds the room.
pub open spec fn room_count(subs: Seq<SubEntry>, room: Seq<u8>) -> u64 {
    subs[choose|i: int| 0 <= i < subs.len() && (#[trigger] subs[i]).room@ == room].count
}

/// How one subscription changes the table: the room's count rises by one —
/// saturating at the machine limit — or the room enters with count one, and
/// no other room moves.
pub open spec fn sub_step(pre: Seq<SubEntry>, post: Seq<SubEntry>, room: Seq<u8>) -> bool {
    &&& has_room(post, room)
    &&& room_count(post, room) == (if has_room(pre, room) {
        if room_count(pre, room) == u64::MAX {
            u64::MAX
        } else {
            (room_count(pre, room) + 1) as u64
        }
    } else {
        1u64
    })
    &&& forall|r2: Seq<u8>|
        r2 != room ==> (#[trigger] has_room(post, r2)) == has_room(pre, r2) && (has_room(pre, r2)
            ==> room_count(post, r2) == room_count(pre, r2))
}

/// How one unsubscription changes the table: an absent room leaves it
/// untouched; a count above one drops by one; a count of one removes the
/// room. No other room moves.
pub open spec fn unsub_step(pre: Seq<SubEntry>, post: Seq<SubEntry>, room: Seq<u8>) -> bool {
    &&& (!has_room(pre, room) ==> post == pre)
    &&& (has_room(pre, room) && room_count(pre, room) > 1 ==> has_room(post, room) && room_count(
        post,
        room,
    ) == room_count(pre, room) - 1)
    &&& (has_room(pre, room) && room_count(pre, room) == 1 ==> !has_room(post, room))
    &&& forall|r2: Seq<u8>|
        r2 != room ==> (#[trigger] has_room(post, r2)) == has_room(pre, r2) && (has_room(pre, r2)
            ==> room_count(post, r2) == room_count(pre, r2))
}

/// Law: subscribing to a fresh room and then unsubscribing once leaves the
/// table without that room.
pub proof fn lemma_sub_then_unsub_excludes(
    s0: Seq<SubEntry>,
    s1: Seq<SubEntry>,
    s2: Seq<SubEntry>,
    room: Seq<u8>,
)
    requires
        !has_room(s0, room),
        sub_step(s0, s1, room),
        unsub_step(s1, s2, room),
    ensures
        !has_room(s2, room),
{
}

/// Law: subscribing twice to a fresh room and unsubscribing once keeps the
/// room in the table, with one reference left.
pub proof fn lemma_sub_twice_unsub_keeps(
    s0: Seq<SubEntry>,
    s1: Seq<SubEntry>,
    s2: Seq<SubEntry>,
    s3: Seq<SubEntry>,
    room: Seq<u8>,
)
    requires
        !has_room(s0, room),
        sub_step(s0, s1, room),
        sub_step(s1, s2, room),
        unsub_step(s2, s3, room),
    ensures
        has_room(s3, room),
        room_count(s3, room) == 1,
{
}

/// Updating one entry in place, keeping its room, moves no other room.
proof fn lemma_update_same_room(pre: Seq<SubEntry>, k: int, e2: SubEntry)
    requires
        subs_wf(pre),
        0 <= k < pre.len(),
        e2.room@ == pre[k].room@,
        e2.count >= 1,
    ensures
        subs_wf(pre.update(k, e2)),
        has_room(pre.update(k, e2), pre[k].room@),
        room_count(pre.update(k, e2), pre[k].room@) == e2.count,
        forall|r2: Seq<u8>|
            r2 != pre[k].room@ ==> (#[trigger] has_room(pre.update(k, e2), r2)) == has_room(
                pre,
                r2,
            ) && (has_room(pre, r2) ==> room_count(pre.update(k, e2), r2) == room_count(pre, r2)),
{
    let room = pre[k].room@;
    let post = pre.update(k, e2);
    assert(post[k] == e2);
    assert forall|i: int, j: int| 0 <= i < j < post.len() implies (#[trigger] post[i]).room@ != (
    #[trigger] post[j]).room@ by {
        assert(pre[i].room@ != pre[j].room@);
    }
    assert forall|i: int| 0 <= i < post.len() implies (#[trigger] post[i]).count >= 1 by {
        assert(pre[i].count >= 1);
    }
    lemma_unique_room_index(post, room, k);
    assert forall|r2: Seq<u8>| r2 != room implies (#[trigger] has_room(post, r2)) == has_room(
        pre,
        r2,
    ) && (has_room(pre, r2) ==> room_count(post, r2) == room_count(pre, r2)) by {
        if has_room(pre, r2) {
            let i = choose|i: int| 0 <= i < pre.len() && (#[trigger] pre[i]).room@ == r2;
            assert(i != k);
            assert(post[i] == pre[i]);
            assert(has_room(post, r2));
            lemma_unique_room_index(pre, r2, i);
            lemma_unique_room_index(post, r2, i);
        }
        if has_room(post, r2) {
            let i = choose|i: int| 0 <= i < post.len() && (#[trigger] post[i]).room@ == r2;
            assert(i != k);
            assert(post[i] == pre[i]);
            assert(has_room(pre, r2));
        }
    }
}

/// Appending a fresh room moves no other room.
proof fn lemma_push_new_room(pre: Seq<SubEntry>, e2: SubEntry)
    requires
        subs_wf(pre),
        !has_room(pre, e2.room@),
        e2.count >= 1,
    ensures
        subs_wf(pre.push(e2)),
        has_room(pre.push(e2), e2.room@),
        room_count(pre.push(e2), e2.room@) == e2.count,
        forall|r2: Seq<u8>|
            r2 != e2.room@ ==> (#[trigger] has_room(pre.push(e2), r2)) == has_room(pre, r2) && (
            has_room(pre, r2) ==> room_count(pre.push(e2), r2) == room_count(pre, r2)),
{
    let room = e2.room@;
    let post = pre.push(e2);
    assert(post[pre.len() as int] == e2);
    assert forall|i: int, j: int| 0 <= i < j < post.len() implies (#[trigger] post[i]).room@ != (
    #[trigger] post[j]).room@ by {
        if j < pre.len() {
            assert(pre[i].room@ != pre[j].room@);
        } else {
            assert(post[i] == pre[i]);
            assert(post[j] == e2);
        }
    }
    assert forall|i: int| 0 <= i < post.len() implies (#[trigger] post[i]).count >= 1 by {
        if i < pre.len() {
            assert(pre[i].count >= 1);
        }
    }
    lemma_unique_room_index(post, room, pre.len() as int);
    assert forall|r2: Seq<u8>| r2 != room implies (#[trigger] has_room(post, r2)) == has_room(
        pre,
        r2,
    ) && (has_room(pre, r2) ==> room_count(post, r2) == room_count(pre, r2)) by {
        if has_room(pre, r2) {
            let i = choose|i: int| 0 <= i < pre.len() && (#[trigger] pre[i]).room@ == r2;
            assert(post[i] == pre[i]);
            assert(has_room(post, r2));
            lemma_unique_room_index(pre, r2, i);
            lemma_unique_room_index(post, r2, i);
        }
        if has_room(post, r2) {
            let i = choose|i: int| 0 <= i < post.len() && (#[trigger] post[i]).room@ == r2;
            assert(i < pre.len());
            assert(post[i] == pre[i]);
            assert(has_room(pre, r2));
        }
    }
}

/// Removing a room's entry moves no other room.
proof fn lemma_remove_room(pre: Seq<SubEntry>, k: int)
    requires
        subs_wf(pre),
        0 <= k < pre.len(),
    ensures
        subs_wf(pre.remove(k)),
        !has_room(pre.remove(k), pre[k].room@),
        forall|r2: Seq<u8>|
            r2 != pre[k].room@ ==> (#[trigger] has_room(pre.remove(k), r2)) == has_room(pre, r2)
                && (has_room(pre, r2) ==> room_count(pre.remove(k), r2) == room_count(pre, r2)),
{
    let room = pre[k].room@;
    let post = pre.remove(k);
    assert forall|i: int| 0 <= i < post.len() implies (#[trigger] post[i]).room@ != room && post[i].count >= 1 by {
        if i < k {
            assert(post[i] == pre[i]);
            assert(pre[i].room@ != pre[k].room@);
        } else {
            assert(post[i] == pre[i + 1]);
            assert(pre[k].room@ != pre[i + 1].room@);
        }
    }
    assert forall|i: int, j: int| 0 <= i < j < post.len() implies (#[trigger] post[i]).room@ != (
    #[trigger] post[j]).room@ by {
        let i2: int = if i < k { i } else { i + 1 };
        let j2: int = if j < k { j } else { j + 1 };
        assert(post[i] == pre[i2]);
        assert(post[j] == pre[j2]);
        assert(pre[i2].room@ != pre[j2].room@);
    }
    assert forall|r2: Seq<u8>| r2 != room implies (#[trigger] has_room(post, r2)) == has_room(
        pre,
        r2,
    ) && (has_room(pre, r2) ==> room_count(post, r2) == room_count(pre, r2)) by {
        if has_room(pre, r2) {
            let i = choose|i: int| 0 <= i < pre.len() && (#[trigger] pre[i]).room@ == r2;
            assert(i != k);
            let i2: int = if i < k { i } else { i - 1 };
            assert(post[i2] == pre[i]);
            assert(has_room(post, r2));
            lemma_unique_room_index(pre, r2, i);
            lemma_unique_room_index(post, r2, i2);
        }
        if has_room(post, r2) {
            let i = choose|i: int| 0 <= i < post.len() && (#[trigger] post[i]).room@ == r2;
            let i2: int = if i < k { i } else { i + 1 };
            assert(post[i] == pre[i2]);
            assert(has_room(pre, r2));
        }
    }
}

/// In a well-formed table an index whose entry holds the room is the index
/// the count is read from.
proof fn lemma_unique_room_index(subs: Seq<SubEntry>, room: Seq<u8>, k: int)
    requires
        subs_wf(subs),
        0 <= k < subs.len(),
        subs[k].room@ == room,
    ensures
        has_room(subs, room),
        room_count(subs, room) == subs[k].count,
{
    assert(has_room(subs, room));
    let i = choose|i: int| 0 <= i < subs.len() && (#[trigger] subs[i]).room@ == room;
    if i != k {
        if i < k {
            assert(subs[i].room@ != subs[k].room@);
        } else {
            assert(subs[k].room@ != subs[i].room@);
        }
    }
}

/// Adds one reference to a room, inserting it if absent.
fn subs_add(subs: &mut Vec<SubEntry>, room: &Vec<u8>)
    requires
        subs_wf(old(subs)@),
    ensures
        subs_wf(final(subs)@),
        sub_step(old(subs)@, final(subs)@, room@),
{
    let ghost pre = subs@;
    let mut k: usize = 0;
    while k < subs.len()
        invariant
            pre == old(subs)@,
            subs@ == pre,
            subs_wf(pre),
            0 <= k <= subs@.len(),
            forall|j: int| 0 <= j < k ==> (#[trigger] subs@[j]).room@ != room@,
        decreases subs@.len() - k,
    {
        if bytes_eq(subs[k].room.as_slice(), room.as_slice()) {
            proof {
                lemma_unique_room_index(pre, room@, k as int);
            }
            let e = subs.remove(k);
            let newc: u64 = if e.count == u64::MAX {
                u64::MAX
            } else {
                e.count + 1
            };
            let e2 = SubEntry { room: e.room, count: newc };
            subs.insert(k, e2);
            proof {
                let e2g = SubEntry { room: pre[k as int].room, count: newc };
                assert(subs@ =~= pre.update(k as int, e2g));
                lemma_update_same_room(pre, k as int, e2g);
            }
            return ;
        }
        k += 1;
    }
    proof {
        assert(!has_room(pre, room@));
    }
    let room2 = copy_range(room.as_slice(), 0, room.len());
    let e2 = SubEntry { room: room2, count: 1 };
    subs.push(e2);
    proof {
        assert(e2.room@ == room@);
        lemma_push_new_room(pre, e2);
        assert(subs@ == pre.push(e2));
    }
}

/// Drops one reference from a room; reports whether the room left the table.
fn subs_drop(subs: &mut Vec<SubEntry>, room: &Vec<u8>) -> (removed: bool)
    requires
        subs_wf(old(subs)@),
    ensures
        subs_wf(final(subs)@),
        unsub_step(old(subs)@, final(subs)@, room@),
        removed == (has_room(old(subs)@, room@) && room_count(old(subs)@, room@) == 1),
{
    let ghost pre = subs@;
    let mut k: usize = 0;
    while k < subs.len()
        invariant
            pre == old(subs)@,
            subs@ == pre,
            subs_wf(pre),
            0 <= k <= subs@.len(),
            forall|j: int| 0 <= j < k ==> (#[trigger] subs@[j]).room@ != room@,
        decreases subs@.len() - k,
    {
        if bytes_eq(subs[k].room.as_slice(), room.as_slice()) {
            proof {
                lemma_unique_room_index(pre, room@, k as int);
            }
            let e = subs.remove(k);
            if e.count == 1 {
                proof {
                    assert(subs@ =~= pre.remove(k as int));
                    lemma_remove_room(pre, k as int);
                }
                return true;
            } else {
                let e2 = SubEntry { room: e.room, count: e.count - 1 };
                subs.insert(k, e2);
                proof {
                    let e2g = SubEntry {
                        room: pre[k as int].room,
                        count: (pre[k as int].count - 1) as u64,
                    };
                    assert(subs@ =~= pre.update(k as int, e2g));
                    lemma_update_same_room(pre, k as int, e2g);
                }
                return false;
            }
        }
        k += 1;
    }
    proof {
        assert(!has_room(pre, room@));
        assert(subs@ == pre);
    }
    false
}


/// One pending request: a 16-byte correlation id and the caller's opaque
/// waiter token.
#[derive(Debug, Clone, PartialEq, Eq)]
pub struct InboxEntry {
    pub id: Vec<u8>,
    pub token: u64,
}

/// The inbox table holds each correlation id once.
pub open spec fn inbox_wf(entries: Seq<InboxEntry>) -> bool {
    forall|i: int, j: int|
        0 <= i < j < entries.len() ==> (#[trigger] entries[i]).id@ != (#[trigger] entries[j]).id@
}

/// Whether the table holds the id.
pub open spec fn has_id(entries: Seq<InboxEntry>, id: Seq<u8>) -> bool {
    exists|i: int| 0 <= i < entries.len() && (#[trigger] entries[i]).id@ == id
}

/// The waiter registered under the id; meaningful only when the table holds
/// it.
pub open spec fn token_of(entries: Seq<InboxEntry>, id: Seq<u8>) -> u64 {
    entries[choose|i: int| 0 <= i < entries.len() && (#[trigger] entries[i]).id@ == id].token
}

/// How registering a request changes the table: the id maps to the new
/// waiter — an older entry under the same id is purged — and no other id
/// moves.
pub open spec fn register_step(
    pre: Seq<InboxEntry>,
    post: Seq<InboxEntry>,
    id: Seq<u8>,
    token: u64,
) -> bool {
    &&& has_id(post, id)
    &&& token_of(post, id) == token
    &&& forall|i2: Seq<u8>|
        i2 != id ==> (#[trigger] has_id(post, i2)) == has_id(pre, i2) && (has_id(pre, i2)
            ==> token_of(post, i2) == token_of(pre, i2))
}

/// Law: a pending request resolves exactly on the response that carries its
/// correlation id. After registering a waiter, the id is pending with that
/// waiter — a matching response hands the packet to it — and no other id's
/// pending state moved, so a response with any other id resolves nothing of
/// this request.
pub proof fn lemma_inbox_correlation(
    pre: Seq<InboxEntry>,
    post: Seq<InboxEntry>,
    id: Seq<u8>,
    token: u64,
    other: Seq<u8>,
)
    requires
        register_step(pre, post, id, token),
        other != id,
    ensures
        has_id(post, id),
        token_of(post, id) == token,
        has_id(post, other) == has_id(pre, other),
{
}

/// In a well-formed table an index whose entry holds the id is the index the
/// token is read from.
proof fn lemma_unique_id_index(entries: Seq<InboxEntry>, id: Seq<u8>, k: int)
    requires
        inbox_wf(entries),
        0 <= k < entries.len(),
        entries[k].id@ == id,
    ensures
        has_id(entries, id),
        token_of(entries, id) == entries[k].token,
{
    assert(has_id(entries, id));
    let i = choose|i: int| 0 <= i < entries.len() && (#[trigger] entries[i]).id@ == id;
    if i != k {
        if i < k {
            assert(entries[i].id@ != entries[k].id@);
        } else {
            assert(entries[k].id@ != entries[i].id@);
        }
    }
}

/// Removing an id's entry moves no other id.
proof fn lemma_remove_id(pre: Seq<InboxEntry>, k: int)
    requires
        inbox_wf(pre),
        0 <= k < pre.len(),
    ensures
        inbox_wf(pre.remove(k)),
        !has_id(pre.remove(k), pre[k].id@),
        forall|i2: Seq<u8>|
            i2 != pre[k].id@ ==> (#[trigger] has_id(pre.remove(k), i2)) == has_id(pre, i2) && (
            has_id(pre, i2) ==> token_of(pre.remove(k), i2) == token_of(pre, i2)),
{
    let id = pre[k].id@;
    let post = pre.remove(k);
    assert forall|i: int| 0 <= i < post.len() implies (#[trigger] post[i]).id@ != id by {
        if i < k {
            assert(post[i] == pre[i]);
            assert(pre[i].id@ != pre[k].id@);
        } else {
            assert(post[i] == pre[i + 1]);
            assert(pre[k].id@ != pre[i + 1].id@);
        }
    }
    assert forall|i: int, j: int| 0 <= i < j < post.len() implies (#[trigger] post[i]).id@ != (
    #[trigger] post[j]).id@ by {
        let i2: int = if i < k { i } else { i + 1 };
        let j2: int = if j < k { j } else { j + 1 };
        assert(post[i] == pre[i2]);
        assert(post[j] == pre[j2]);
        assert(pre[i2].id@ != pre[j2].id@);
    }
    assert forall|i2: Seq<u8>| i2 != id implies (#[trigger] has_id(post, i2)) == has_id(pre, i2)
        && (has_id(pre, i2) ==> token_of(post, i2) == token_of(pre, i2)) by {
        if has_id(pre, i2) {
            let i = choose|i: int| 0 <= i < pre.len() && (#[trigger] pre[i]).id@ == i2;
            assert(i != k);
            let ix: int = if i < k { i } else { i - 1 };
            assert(post[ix] == pre[i]);
            assert(has_id(post, i2));
            lemma_unique_id_index(pre, i2, i);
            lemma_unique_id_index(post, i2, ix);
        }
        if has_id(post, i2) {
            let i = choose|i: int| 0 <= i < post.len() && (#[trigger] post[i]).id@ == i2;
            let ix: int = if i < k { i } else { i + 1 };
            assert(post[i] == pre[ix]);
            assert(has_id(pre, i2));
        }
    }
}

/// Appending a fresh id moves no other id.
proof fn lemma_push_new_id(pre: Seq<InboxEntry>, e2: InboxEntry)
    requires
        inbox_wf(pre),
        !has_id(pre, e2.id@),
    ensures
        inbox_wf(pre.push(e2)),
        has_id(pre.push(e2), e2.id@),
        token_of(pre.push(e2), e2.id@) == e2.token,
        forall|i2: Seq<u8>|
            i2 != e2.id@ ==> (#[trigger] has_id(pre.push(e2), i2)) == has_id(pre, i2) && (has_id(
                pre,
                i2,
            ) ==> token_of(pre.push(e2), i2) == token_of(pre, i2)),
{
    let id = e2.id@;
    let post = pre.push(e2);
    assert(post[pre.len() as int] == e2);
    assert forall|i: int, j: int| 0 <= i < j < post.len() implies (#[trigger] post[i]).id@ != (
    #[trigger] post[j]).id@ by {
        if j < pre.len() {
            assert(pre[i].id@ != pre[j].id@);
        } else {
            assert(post[i] == pre[i]);
            assert(post[j] == e2);
        }
    }
    lemma_unique_id_index(post, id, pre.len() as int);
    assert forall|i2: Seq<u8>| i2 != id implies (#[trigger] has_id(post, i2)) == has_id(pre, i2)
        && (has_id(pre, i2) ==> token_of(post, i2) == token_of(pre, i2)) by {
        if has_id(pre, i2) {
            let i = choose|i: int| 0 <= i < pre.len() && (#[trigger] pre[i]).id@ == i2;
            assert(post[i] == pre[i]);
            assert(has_id(post, i2));
            lemma_unique_id_index(pre, i2, i);
            lemma_unique_id_index(post, i2, i);
        }
        if has_id(post, i2) {
            let i = choose|i: int| 0 <= i < post.len() && (#[trigger] post[i]).id@ == i2;
            assert(i < pre.len());
            assert(post[i] == pre[i]);
            assert(has_id(pre, i2));
        }
    }
}

/// Removes the id's entry, handing its waiter back.
fn inbox_take(entries: &mut Vec<InboxEntry>, id: &Vec<u8>) -> (r: Option<u64>)
    requires
        inbox_wf(old(entries)@),
    ensures
        inbox_wf(final(entries)@),
        match r {
            Some(tok) => has_id(old(entries)@, id@) && tok == token_of(old(entries)@, id@)
                && !has_id(final(entries)@, id@) && forall|i2: Seq<u8>|
                i2 != id@ ==> (#[trigger] has_id(final(entries)@, i2)) == has_id(old(entries)@, i2)
                    && (has_id(old(entries)@, i2) ==> token_of(final(entries)@, i2) == token_of(
                    old(entries)@,
                    i2,
                )),
            None => !has_id(old(entries)@, id@) && final(entries)@ == old(entries)@,
        },
{
    let ghost pre = entries@;
    let mut k: usize = 0;
    while k < entries.len()
        invariant
            pre == old(entries)@,
            entries@ == pre,
            inbox_wf(pre),
            0 <= k <= entries@.len(),
            forall|j: int| 0 <= j < k ==> (#[trigger] entries@[j]).id@ != id@,
        decreases entries@.len() - k,
    {
        if bytes_eq(entries[k].id.as_slice(), id.as_slice()) {
            proof {
                lemma_unique_id_index(pre, id@, k as int);
            }
            let e = entries.remove(k);
            proof {
                assert(entries@ =~= pre.remove(k as int));
                lemma_remove_id(pre, k as int);
            }
            return Some(e.token);
        }
        k += 1;
    }
    proof {
        assert(!has_id(pre, id@));
    }
    None
}

/// Registers a waiter under an id, purging any older entry with the same id.
fn inbox_register(entries: &mut Vec<InboxEntry>, id: Vec<u8>, token: u64)
    requires
        inbox_wf(old(entries)@),
    ensures
        inbox_wf(final(entries)@),
        register_step(old(entries)@, final(entries)@, id@, token),
{
    let ghost pre = entries@;
    let _ = inbox_take(entries, &id);
    let ghost mid = entries@;
    let e2 = InboxEntry { id, token };
    entries.push(e2);
    proof {
        lemma_push_new_id(mid, e2);
    }
}


/// What version-5 UUID derivation returns for a namespace and a name; SHA-1
/// based and a function of the two arguments alone.
pub uninterp spec fn uuid_v5_of(ns: Seq<u8>, name: Seq<u8>) -> Seq<u8>;

/// Relies on uuid's `Uuid::new_v5`: deterministic in namespace and name, 16
/// bytes wide.
#[verifier::external_body]
fn uuid_v5(ns: &[u8], name: &[u8]) -> (r: Vec<u8>)
    requires
        ns@.len() == 16,
    ensures
        r@ == uuid_v5_of(ns@, name@),
        r@.len() == 16,
{
    let n = match uuid::Uuid::from_slice(ns) {
        Ok(u) => u,
        Err(_) => uuid::Uuid::nil(),
    };
    uuid::Uuid::new_v5(&n, name).as_bytes().to_vec()
}

/// Relies on uuid's `Uuid::new_v4`: 16 random bytes. Nothing is promised of
/// their values.
#[verifier::external_body]
fn uuid_v4() -> (r: Vec<u8>)
    ensures
        r@.len() == 16,
{
    uuid::Uuid::new_v4().as_bytes().to_vec()
}

/// The namespace under which room ids are derived.
pub open spec fn namespace_msgist() -> Seq<u8> {
    seq![
        0x17u8,
        0x9eu8,
        0x34u8,
        0x49u8,
        0xc4u8,
        0x1fu8,
        0x4au8,
        0x57u8,
        0xa7u8,
        0x63u8,
        0x59u8,
        0xa7u8,
        0x87u8,
        0xefu8,
        0xaau8,
        0x52u8,
    ]
}

/// Builds the room-id namespace.
fn namespace_msgist_vec() -> (r: Vec<u8>)
    ensures
        r@ == namespace_msgist(),
        r@.len() == 16,
{
    let r: Vec<u8> = vec![
        0x17, 0x9e, 0x34, 0x49, 0xc4, 0x1f, 0x4a, 0x57, 0xa7, 0x63, 0x59, 0xa7, 0x87, 0xef, 0xaa,
        0x52,
    ];
    proof {
        assert(r@ =~= namespace_msgist());
    }
    r
}

/// Law: room-id derivation is constant in its inputs — two derivations from
/// the same address and passphrase agree, on any peer.
pub proof fn lemma_room_id_deterministic(addr: Seq<u8>, key: Seq<u8>, r1: Seq<u8>, r2: Seq<u8>)
    requires
        r1 == uuid_v5_of(namespace_msgist(), addr + key),
        r2 == uuid_v5_of(namespace_msgist(), addr + key),
    ensures
        r1 == r2,
{
}

/// Law: packets enqueued one after the other stand in the queue in that
/// order, and the writer drains the queue from the front, so they leave in
/// enqueue order.
pub proof fn lemma_send_order(q0: Seq<Packet>, p1: Packet, p2: Packet)
    ensures
        q0.push(p1).push(p2)[q0.len() as int] == p1,
        q0.push(p1).push(p2)[q0.len() as int + 1] == p2,
{
}

/// One cached room-id derivation.
#[derive(Debug, Clone, PartialEq, Eq)]
pub struct RoomEntry {
    pub address: Vec<u8>,
    pub id: Vec<u8>,
}

/// Per-relay state: the relay's configured address, its refcounted
/// subscription set, and its outbound queue, drained from the front by a
/// single writer.
#[derive(Debug)]
pub struct ServerSlot {
    pub name: Vec<u8>,
    pub address: Vec<u8>,
    pub subs: Vec<SubEntry>,
    pub outbound: Vec<Packet>,
}

/// Whether some slot carries the relay name.
pub open spec fn has_slot(slots: Seq<ServerSlot>, name: Seq<u8>) -> bool {
    exists|i: int| 0 <= i < slots.len() && (#[trigger] slots[i]).name@ == name
}

/// Slot names are unique, every subscription table is sound, and every
/// subscribed room id is 16 bytes.
pub open spec fn slots_wf(slots: Seq<ServerSlot>) -> bool {
    &&& forall|i: int, j: int|
        0 <= i < j < slots.len() ==> (#[trigger] slots[i]).name@ != (#[trigger] slots[j]).name@
    &&& forall|i: int| 0 <= i < slots.len() ==> subs_wf((#[trigger] slots[i]).subs@)
    &&& forall|i: int, j: int|
        0 <= i < slots.len() && 0 <= j < slots[i].subs@.len() ==> (#[trigger] slots[i].subs@[j]).room@.len() == 16
}

/// Every cached room id is the derivation of its address under the key.
pub open spec fn room_map_wf(entries: Seq<RoomEntry>, key: Seq<u8>) -> bool {
    forall|i: int|
        0 <= i < entries.len() ==> (#[trigger] entries[i]).id@ == uuid_v5_of(
            namespace_msgist(),
            entries[i].address@ + key,
        ) && entries[i].id@.len() == 16
}

/// The transport's verified state: the passphrase for room-id derivation,
/// the room-id cache, one slot per configured relay, and the pending-request
/// inbox.
#[derive(Debug)]
pub struct Server {
    pub origin_key: Vec<u8>,
    pub room_map: Vec<RoomEntry>,
    pub slots: Vec<ServerSlot>,
    pub inbox: Vec<InboxEntry>,
}

impl Server {
    /// The state invariant.
    pub open spec fn wf(self) -> bool {
        &&& slots_wf(self.slots@)
        &&& inbox_wf(self.inbox@)
        &&& room_map_wf(self.room_map@, self.origin_key@)
    }

    /// Sets up one empty slot per configured relay. The configuration is a
    /// map, so its relay names are distinct.
    pub fn init(remote_address: Vec<(Vec<u8>, Vec<u8>)>, cipher_key: Vec<u8>) -> (r: Server)
        requires
            forall|i: int, j: int|
                0 <= i < j < remote_address@.len() ==> (#[trigger] remote_address@[i]).0@ != (
                #[trigger] remote_address@[j]).0@,
        ensures
            r.wf(),
            r.origin_key@ == cipher_key@,
            r.slots@.len() == remote_address@.len(),
            forall|i: int|
                0 <= i < remote_address@.len() ==> (#[trigger] r.slots@[i]).name@
                    == remote_address@[i].0@ && r.slots@[i].address@ == remote_address@[i].1@
                    && r.slots@[i].subs@.len() == 0 && r.slots@[i].outbound@.len() == 0,
            r.inbox@.len() == 0,
            r.room_map@.len() == 0,
    {
        let ghost conf = remote_address@;
        let mut slots: Vec<ServerSlot> = Vec::new();
        let mut rest = remote_address;
        while rest.len() > 0
            invariant
                conf.len() == slots@.len() + rest@.len(),
                forall|i: int, j: int|
                    0 <= i < j < conf.len() ==> (#[trigger] conf[i]).0@ != (#[trigger] conf[j]).0@,
                forall|i: int|
                    0 <= i < slots@.len() ==> (#[trigger] slots@[i]).name@ == conf[i].0@
                        && slots@[i].address@ == conf[i].1@ && slots@[i].subs@.len() == 0
                        && slots@[i].outbound@.len() == 0,
                forall|i: int|
                    0 <= i < rest@.len() ==> #[trigger] rest@[i] == conf[slots@.len() + i],
            decreases rest@.len(),
        {
            let (name, address) = rest.remove(0);
            let slot = ServerSlot { name, address, subs: Vec::new(), outbound: Vec::new() };
            slots.push(slot);
        }
        proof {
            assert forall|i: int, j: int| 0 <= i < j < slots@.len() implies (
            #[trigger] slots@[i]).name@ != (#[trigger] slots@[j]).name@ by {
                assert(conf[i].0@ != conf[j].0@);
            }
        }
        Server { origin_key: cipher_key, room_map: Vec::new(), slots, inbox: Vec::new() }
    }

    /// Derives — and caches — the room id of a room address: the version-5
    /// UUID of the address with the passphrase appended, under the library's
    /// fixed namespace. The same address and passphrase give the same id on
    /// every peer.
    pub fn room_id(&mut self, room_address: &Vec<u8>) -> (r: Vec<u8>)
        requires
            old(self).wf(),
        ensures
            final(self).wf(),
            r@ == uuid_v5_of(namespace_msgist(), room_address@ + old(self).origin_key@),
            r@.len() == 16,
            final(self).origin_key == old(self).origin_key,
            final(self).slots == old(self).slots,
            final(self).inbox == old(self).inbox,
    {
        let ghost pre = self.room_map@;
        let mut k: usize = 0;
        while k < self.room_map.len()
            invariant
                self == old(self),
                pre == self.room_map@,
                old(self).wf(),
                0 <= k <= pre.len(),
            decreases pre.len() - k,
        {
            if bytes_eq(self.room_map[k].address.as_slice(), room_address.as_slice()) {
                let id = copy_range(self.room_map[k].id.as_slice(), 0, self.room_map[k].id.len());
                proof {
                    assert(id@ =~= pre[k as int].id@);
                    assert(pre[k as int].id@ == uuid_v5_of(
                        namespace_msgist(),
                        pre[k as int].address@ + self.origin_key@,
                    ));
                }
                return id;
            }
            k += 1;
        }
        let ns = namespace_msgist_vec();
        let unique_address = concat_bytes(room_address.as_slice(), self.origin_key.as_slice());
        let id = uuid_v5(ns.as_slice(), unique_address.as_slice());
        let address2 = copy_range(room_address.as_slice(), 0, room_address.len());
        let id2 = copy_range(id.as_slice(), 0, id.len());
        proof {
            assert(address2@ =~= room_address@);
            assert(id2@ =~= id@);
        }
        let entry = RoomEntry { address: address2, id: id2 };
        self.room_map.push(entry);
        proof {
            assert forall|i: int| 0 <= i < self.room_map@.len() implies (
            #[trigger] self.room_map@[i]).id@ == uuid_v5_of(
                namespace_msgist(),
                self.room_map@[i].address@ + self.origin_key@,
            ) && self.room_map@[i].id@.len() == 16 by {
                if i < pre.len() {
                    assert(self.room_map@[i] == pre[i]);
                }
            }
        }
        id
    }

    /// Finds the slot of a relay name.
    fn find_slot(&self, server: &Vec<u8>) -> (r: Option<usize>)
        requires
            self.wf(),
        ensures
            match r {
                Some(k) => k < self.slots@.len() && self.slots@[k as int].name@ == server@,
                None => !has_slot(self.slots@, server@),
            },
    {
        let mut k: usize = 0;
        while k < self.slots.len()
            invariant
                0 <= k <= self.slots@.len(),
                forall|j: int| 0 <= j < k ==> (#[trigger] self.slots@[j]).name@ != server@,
            decreases self.slots@.len() - k,
        {
            if bytes_eq(self.slots[k].name.as_slice(), server.as_slice()) {
                return Some(k);
            }
            k += 1;
        }
        None
    }
}

/// Replacing one slot by another with the same name keeps the state sound.
proof fn lemma_slots_update_wf(pre: Seq<ServerSlot>, k: int, s2: ServerSlot)
    requires
        slots_wf(pre),
        0 <= k < pre.len(),
        s2.name@ == pre[k].name@,
        subs_wf(s2.subs@),
        forall|j: int| 0 <= j < s2.subs@.len() ==> (#[trigger] s2.subs@[j]).room@.len() == 16,
    ensures
        slots_wf(pre.update(k, s2)),
        forall|n2: Seq<u8>| #[trigger] has_slot(pre.update(k, s2), n2) == has_slot(pre, n2),
{
    let post = pre.update(k, s2);
    assert forall|i: int, j: int| 0 <= i < j < post.len() implies (#[trigger] post[i]).name@ != (
    #[trigger] post[j]).name@ by {
        assert(pre[i].name@ != pre[j].name@);
    }
    assert forall|i: int| 0 <= i < post.len() implies subs_wf((#[trigger] post[i]).subs@) by {
        if i != k {
            assert(post[i] == pre[i]);
        }
    }
    assert forall|i: int, j: int|
        0 <= i < post.len() && 0 <= j < post[i].subs@.len() implies (
    #[trigger] post[i].subs@[j]).room@.len() == 16 by {
        if i != k {
            assert(post[i] == pre[i]);
        }
    }
    assert forall|n2: Seq<u8>| #[trigger] has_slot(post, n2) == has_slot(pre, n2) by {
        if has_slot(pre, n2) {
            let i = choose|i: int| 0 <= i < pre.len() && (#[trigger] pre[i]).name@ == n2;
            if i == k {
                assert(post[k].name@ == n2);
            } else {
                assert(post[i] == pre[i]);
            }
            assert(has_slot(post, n2));
        }
        if has_slot(post, n2) {
            let i = choose|i: int| 0 <= i < post.len() && (#[trigger] post[i]).name@ == n2;
            if i == k {
                assert(pre[k].name@ == n2);
            } else {
                assert(post[i] == pre[i]);
            }
            assert(has_slot(pre, n2));
        }
    }
}


/// All slots but `k` are untouched, and slot `k` keeps its identity.
pub open spec fn slots_except(pre: Seq<ServerSlot>, post: Seq<ServerSlot>, k: int) -> bool {
    &&& post.len() == pre.len()
    &&& 0 <= k < pre.len()
    &&& forall|j: int| 0 <= j < pre.len() && j != k ==> post[j] == pre[j]
    &&& post[k].name == pre[k].name
    &&& post[k].address == pre[k].address
}

impl Server {
    /// Subscribes to a room on a relay: one reference is added to the
    /// relay's subscription set and a `Sub` control packet joins the relay's
    /// outbound queue. An unknown relay name is a configuration error and
    /// changes nothing.
    pub fn sub(&mut self, room_id: &Vec<u8>, server: &Vec<u8>) -> (r: Result<(), Error>)
        requires
            old(self).wf(),
            room_id@.len() == 16,
        ensures
            final(self).wf(),
            final(self).origin_key == old(self).origin_key,
            final(self).room_map == old(self).room_map,
            final(self).inbox == old(self).inbox,
            match r {
                Ok(()) => exists|k: int|
                    {
                        &&& 0 <= k < old(self).slots@.len()
                        &&& (#[trigger] old(self).slots@[k]).name@ == server@
                        &&& slots_except(old(self).slots@, final(self).slots@, k)
                        &&& sub_step(
                            old(self).slots@[k].subs@,
                            final(self).slots@[k].subs@,
                            room_id@,
                        )
                        &&& final(self).slots@[k].outbound@.len() == old(
                            self,
                        ).slots@[k].outbound@.len() + 1
                        &&& forall|i: int|
                            0 <= i < old(self).slots@[k].outbound@.len() ==> (
                            #[trigger] final(self).slots@[k].outbound@[i]) == old(
                                self,
                            ).slots@[k].outbound@[i]
                        &&& final(self).slots@[k].outbound@.last()@ == (PacketV {
                            ty: PacketKind::Ctl,
                            content: Seq::<u8>::empty(),
                            nonce: Seq::<u8>::empty(),
                            room_id: room_id@,
                            inbox: None,
                            ctl: Some(Ctl::Sub),
                        })
                    },
                Err(e) => e == Error::Config && !has_slot(old(self).slots@, server@) && *final(self)
                    == *old(self),
            },
    {
        let k = match self.find_slot(server) {
            Some(k) => k,
            None => {
                return Err(Error::Config);
            },
        };
        let ghost pre_slots = self.slots@;
        let mut slot = self.slots.remove(k);
        subs_add(&mut slot.subs, room_id);
        let room2 = copy_range(room_id.as_slice(), 0, room_id.len());
        proof {
            assert(room2@ =~= room_id@);
        }
        let pkt = Packet::new_sub(room2);
        slot.outbound.push(pkt);
        let ghost gslot = slot;
        self.slots.insert(k, slot);
        proof {
            assert(self.slots@ =~= pre_slots.update(k as int, gslot));
            assert forall|j: int|
                0 <= j < gslot.subs@.len() implies (#[trigger] gslot.subs@[j]).room@.len()
                == 16 by {
                if gslot.subs@[j].room@ != room_id@ {
                    let pre_subs = pre_slots[k as int].subs@;
                    let r2 = gslot.subs@[j].room@;
                    assert(has_room(gslot.subs@, r2));
                    assert(has_room(pre_subs, r2));
                    let i = choose|i: int|
                        0 <= i < pre_subs.len() && (#[trigger] pre_subs[i]).room@ == r2;
                    assert(pre_slots[k as int].subs@[i].room@.len() == 16);
                }
            }
            lemma_slots_update_wf(pre_slots, k as int, gslot);
        }
        Ok(())
    }

    /// Unsubscribes from a room on a relay: one reference leaves the relay's
    /// subscription set, and when the last one goes, the room is removed and
    /// an `Unsub` control packet joins the outbound queue. An unknown relay
    /// name is a configuration error and changes nothing.
    pub fn unsub(&mut self, room_id: &Vec<u8>, server: &Vec<u8>) -> (r: Result<bool, Error>)
        requires
            old(self).wf(),
            room_id@.len() == 16,
        ensures
            final(self).wf(),
            final(self).origin_key == old(self).origin_key,
            final(self).room_map == old(self).room_map,
            final(self).inbox == old(self).inbox,
            match r {
                Ok(removed) => exists|k: int|
                    {
                        &&& 0 <= k < old(self).slots@.len()
                        &&& (#[trigger] old(self).slots@[k]).name@ == server@
                        &&& slots_except(old(self).slots@, final(self).slots@, k)
                        &&& unsub_step(
                            old(self).slots@[k].subs@,
                            final(self).slots@[k].subs@,
                            room_id@,
                        )
                        &&& removed == (has_room(old(self).slots@[k].subs@, room_id@)
                            && room_count(old(self).slots@[k].subs@, room_id@) == 1)
                        &&& (removed ==> final(self).slots@[k].outbound@.len() == old(
                            self,
                        ).slots@[k].outbound@.len() + 1 && final(self).slots@[k].outbound@.last()@
                            == (PacketV {
                            ty: PacketKind::Ctl,
                            content: Seq::<u8>::empty(),
                            nonce: Seq::<u8>::empty(),
                            room_id: room_id@,
                            inbox: None,
                            ctl: Some(Ctl::Unsub),
                        }))
                        &&& (!removed ==> final(self).slots@[k].outbound == old(
                            self,
                        ).slots@[k].outbound)
                        &&& forall|i: int|
                            0 <= i < old(self).slots@[k].outbound@.len() ==> (
                            #[trigger] final(self).slots@[k].outbound@[i]) == old(
                                self,
                            ).slots@[k].outbound@[i]
                    },
                Err(e) => e == Error::Config && !has_slot(old(self).slots@, server@) && *final(self)
                    == *old(self),
            },
    {
        let k = match self.find_slot(server) {
            Some(k) => k,
            None => {
                return Err(Error::Config);
            },
        };
        let ghost pre_slots = self.slots@;
        let mut slot = self.slots.remove(k);
        let removed = subs_drop(&mut slot.subs, room_id);
        if removed {
            let room2 = copy_range(room_id.as_slice(), 0, room_id.len());
            proof {
                assert(room2@ =~= room_id@);
            }
            let pkt = Packet::new_unsub(room2);
            slot.outbound.push(pkt);
        }
        let ghost gslot = slot;
        self.slots.insert(k, slot);
        proof {
            assert(self.slots@ =~= pre_slots.update(k as int, gslot));
            assert forall|j: int|
                0 <= j < gslot.subs@.len() implies (#[trigger] gslot.subs@[j]).room@.len()
                == 16 by {
                if gslot.subs@[j].room@ != room_id@ {
                    let pre_subs = pre_slots[k as int].subs@;
                    let r2 = gslot.subs@[j].room@;
                    assert(has_room(gslot.subs@, r2));
                    assert(has_room(pre_subs, r2));
                    let i = choose|i: int|
                        0 <= i < pre_subs.len() && (#[trigger] pre_subs[i]).room@ == r2;
                    assert(pre_slots[k as int].subs@[i].room@.len() == 16);
                } else {
                    assert(gslot.subs@[j].room@.len() == 16);
                }
            }
            lemma_slots_update_wf(pre_slots, k as int, gslot);
        }
        Ok(removed)
    }

    /// Enqueues a packet on a relay's outbound queue. An unknown relay name
    /// is a configuration error and changes nothing.
    pub fn send(&mut self, pkt: Packet, server: &Vec<u8>) -> (r: Result<(), Error>)
        requires
            old(self).wf(),
        ensures
            final(self).wf(),
            final(self).origin_key == old(self).origin_key,
            final(self).room_map == old(self).room_map,
            final(self).inbox == old(self).inbox,
            match r {
                Ok(()) => exists|k: int|
                    {
                        &&& 0 <= k < old(self).slots@.len()
                        &&& (#[trigger] old(self).slots@[k]).name@ == server@
                        &&& slots_except(old(self).slots@, final(self).slots@, k)
                        &&& final(self).slots@[k].subs == old(self).slots@[k].subs
                        &&& final(self).slots@[k].outbound@ == old(self).slots@[k].outbound@.push(
                            pkt,
                        )
                    },
                Err(e) => e == Error::Config && !has_slot(old(self).slots@, server@) && *final(self)
                    == *old(self),
            },
    {
        let k = match self.find_slot(server) {
            Some(k) => k,
            None => {
                return Err(Error::Config);
            },
        };
        let ghost pre_slots = self.slots@;
        let mut slot = self.slots.remove(k);
        slot.outbound.push(pkt);
        let ghost gslot = slot;
        self.slots.insert(k, slot);
        proof {
            assert(self.slots@ =~= pre_slots.update(k as int, gslot));
            lemma_slots_update_wf(pre_slots, k as int, gslot);
        }
        Ok(())
    }

    /// Hands the writer the next packet of a relay's outbound queue, in
    /// enqueue order.
    pub fn next_outbound(&mut self, server: &Vec<u8>) -> (r: Option<Packet>)
        requires
            old(self).wf(),
        ensures
            final(self).wf(),
            final(self).origin_key == old(self).origin_key,
            final(self).room_map == old(self).room_map,
            final(self).inbox == old(self).inbox,
            match r {
                Some(pkt) => exists|k: int|
                    {
                        &&& 0 <= k < old(self).slots@.len()
                        &&& (#[trigger] old(self).slots@[k]).name@ == server@
                        &&& slots_except(old(self).slots@, final(self).slots@, k)
                        &&& final(self).slots@[k].subs == old(self).slots@[k].subs
                        &&& old(self).slots@[k].outbound@.len() > 0
                        &&& pkt == old(self).slots@[k].outbound@[0]
                        &&& final(self).slots@[k].outbound@ == old(
                            self,
                        ).slots@[k].outbound@.skip(1)
                    },
                None => *final(self) == *old(self),
            },
    {
        let k = match self.find_slot(server) {
            Some(k) => k,
            None => {
                return None;
            },
        };
        if self.slots[k].outbound.len() == 0 {
            return None;
        }
        let ghost pre_slots = self.slots@;
        let mut slot = self.slots.remove(k);
        let pkt = slot.outbound.remove(0);
        let ghost gslot = slot;
        self.slots.insert(k, slot);
        proof {
            assert(self.slots@ =~= pre_slots.update(k as int, gslot));
            lemma_slots_update_wf(pre_slots, k as int, gslot);
            assert(gslot.outbound@ =~= pre_slots[k as int].outbound@.skip(1));
        }
        Some(pkt)
    }
}


/// The correlation id carried by a packet's inbox field.
pub open spec fn pkt_inbox_id(p: PacketV) -> Seq<u8> {
    p.inbox->Some_0.id_seq()
}

impl Server {
    /// Prepares a request: the packet gets a fresh 16-byte correlation id
    /// unless it already carries an inbox token, the caller's waiter is
    /// registered under that id, and the packet joins the relay's outbound
    /// queue. The returned packet is the one enqueued; the caller awaits the
    /// waiter. An unknown relay name is a configuration error and changes
    /// nothing.
    pub fn request(&mut self, pkt: Packet, server: &Vec<u8>, token: u64) -> (r: Result<
        Packet,
        Error,
    >)
        requires
            old(self).wf(),
        ensures
            final(self).wf(),
            final(self).origin_key == old(self).origin_key,
            final(self).room_map == old(self).room_map,
            match r {
                Ok(p2) => {
                    &&& p2@.ty == pkt@.ty
                    &&& p2@.content == pkt@.content
                    &&& p2@.nonce == pkt@.nonce
                    &&& p2@.room_id == pkt@.room_id
                    &&& p2@.ctl == pkt@.ctl
                    &&& p2@.inbox is Some
                    &&& (pkt@.inbox is Some ==> p2@.inbox == pkt@.inbox)
                    &&& (pkt@.inbox is None ==> (p2@.inbox matches Some(InboxV::Request { id })
                        && id.len() == 16))
                    &&& register_step(
                        old(self).inbox@,
                        final(self).inbox@,
                        pkt_inbox_id(p2@),
                        token,
                    )
                    &&& exists|k: int|
                        {
                            &&& 0 <= k < old(self).slots@.len()
                            &&& (#[trigger] old(self).slots@[k]).name@ == server@
                            &&& slots_except(old(self).slots@, final(self).slots@, k)
                            &&& final(self).slots@[k].subs == old(self).slots@[k].subs
                            &&& final(self).slots@[k].outbound@.len() == old(
                                self,
                            ).slots@[k].outbound@.len() + 1
                            &&& final(self).slots@[k].outbound@.last()@ == p2@
                            &&& forall|i: int|
                                0 <= i < old(self).slots@[k].outbound@.len() ==> (
                                #[trigger] final(self).slots@[k].outbound@[i]) == old(
                                    self,
                                ).slots@[k].outbound@[i]
                        }
                },
                Err(e) => e == Error::Config && !has_slot(old(self).slots@, server@) && *final(self)
                    == *old(self),
            },
    {
        let k = match self.find_slot(server) {
            Some(k) => k,
            None => {
                return Err(Error::Config);
            },
        };
        let Packet { ty, content, nonce, room_id, inbox, ctl } = pkt;
        let (inbox2, reg_id): (Inbox, Vec<u8>) = match inbox {
            Some(ib) => {
                let idc = match &ib {
                    Inbox::Request { id } => copy_range(id.as_slice(), 0, id.len()),
                    Inbox::Respond { id } => copy_range(id.as_slice(), 0, id.len()),
                };
                proof {
                    assert(idc@ =~= ib@.id_seq());
                }
                (ib, idc)
            },
            None => {
                let fresh = uuid_v4();
                let idc = copy_range(fresh.as_slice(), 0, fresh.len());
                proof {
                    assert(idc@ =~= fresh@);
                }
                (Inbox::Request { id: fresh }, idc)
            },
        };
        let p2 = Packet { ty, content, nonce, room_id, inbox: Some(inbox2), ctl };
        inbox_register(&mut self.inbox, reg_id, token);
        let p2ret = packet_dup(&p2);
        let ghost pre_slots = self.slots@;
        let mut slot = self.slots.remove(k);
        slot.outbound.push(p2);
        let ghost gslot = slot;
        self.slots.insert(k, slot);
        proof {
            assert(self.slots@ =~= pre_slots.update(k as int, gslot));
            lemma_slots_update_wf(pre_slots, k as int, gslot);
        }
        Ok(p2ret)
    }

    /// Marks a packet as the response to a pending request and enqueues it.
    /// An unknown relay name is a configuration error and changes nothing.
    pub fn respond(&mut self, pkt: Packet, inbox_id: &Vec<u8>, server: &Vec<u8>) -> (r: Result<
        (),
        Error,
    >)
        requires
            old(self).wf(),
        ensures
            final(self).wf(),
            final(self).origin_key == old(self).origin_key,
            final(self).room_map == old(self).room_map,
            final(self).inbox == old(self).inbox,
            match r {
                Ok(()) => exists|k: int|
                    {
                        &&& 0 <= k < old(self).slots@.len()
                        &&& (#[trigger] old(self).slots@[k]).name@ == server@
                        &&& slots_except(old(self).slots@, final(self).slots@, k)
                        &&& final(self).slots@[k].subs == old(self).slots@[k].subs
                        &&& final(self).slots@[k].outbound@.len() == old(
                            self,
                        ).slots@[k].outbound@.len() + 1
                        &&& final(self).slots@[k].outbound@.last()@ == (PacketV {
                            inbox: Some(InboxV::Respond { id: inbox_id@ }),
                            ..pkt@
                        })
                        &&& forall|i: int|
                            0 <= i < old(self).slots@[k].outbound@.len() ==> (
                            #[trigger] final(self).slots@[k].outbound@[i]) == old(
                                self,
                            ).slots@[k].outbound@[i]
                    },
                Err(e) => e == Error::Config && !has_slot(old(self).slots@, server@) && *final(self)
                    == *old(self),
            },
    {
        let k = match self.find_slot(server) {
            Some(k) => k,
            None => {
                return Err(Error::Config);
            },
        };
        let idc = copy_range(inbox_id.as_slice(), 0, inbox_id.len());
        proof {
            assert(idc@ =~= inbox_id@);
        }
        let Packet { ty, content, nonce, room_id, inbox: _, ctl } = pkt;
        let p2 = Packet { ty, content, nonce, room_id, inbox: Some(Inbox::Respond { id: idc }), ctl };
        let ghost pre_slots = self.slots@;
        let mut slot = self.slots.remove(k);
        slot.outbound.push(p2);
        let ghost gslot = slot;
        self.slots.insert(k, slot);
        proof {
            assert(self.slots@ =~= pre_slots.update(k as int, gslot));
            lemma_slots_update_wf(pre_slots, k as int, gslot);
        }
        Ok(())
    }

    /// Routes a packet the registered handler handed back: when it carries a
    /// response token whose id is pending, the pending entry is consumed and
    /// its waiter returned, so the caller can complete that request with this
    /// packet. Any other packet resolves nothing and changes nothing.
    pub fn handle_rest_pkt(&mut self, pkt: &Packet) -> (r: Option<u64>)
        requires
            old(self).wf(),
        ensures
            final(self).wf(),
            final(self).origin_key == old(self).origin_key,
            final(self).room_map == old(self).room_map,
            final(self).slots == old(self).slots,
            match r {
                Some(tok) => {
                    &&& pkt@.inbox matches Some(InboxV::Respond { id })
                    &&& has_id(old(self).inbox@, pkt_inbox_id(pkt@))
                    &&& tok == token_of(old(self).inbox@, pkt_inbox_id(pkt@))
                    &&& !has_id(final(self).inbox@, pkt_inbox_id(pkt@))
                    &&& forall|i2: Seq<u8>|
                        i2 != pkt_inbox_id(pkt@) ==> (#[trigger] has_id(final(self).inbox@, i2))
                            == has_id(old(self).inbox@, i2) && (has_id(old(self).inbox@, i2)
                            ==> token_of(final(self).inbox@, i2) == token_of(old(self).inbox@, i2))
                },
                None => {
                    &&& final(self).inbox@ == old(self).inbox@
                    &&& ((pkt@.inbox matches Some(InboxV::Respond { id })) ==> !has_id(
                        old(self).inbox@,
                        pkt_inbox_id(pkt@),
                    ))
                },
            },
    {
        match &pkt.inbox {
            Some(Inbox::Respond { id }) => inbox_take(&mut self.inbox, id),
            _ => None,
        }
    }

    /// The subscription replay sent after a reconnect: one `Sub` control
    /// packet for every room in the relay's subscription set, so the peer
    /// re-registers every delivery route. An unknown relay name is a
    /// configuration error.
    pub fn replay_subs(&self, server: &Vec<u8>) -> (r: Result<Vec<Packet>, Error>)
        requires
            self.wf(),
        ensures
            match r {
                Ok(v) => exists|k: int|
                    {
                        &&& 0 <= k < self.slots@.len()
                        &&& (#[trigger] self.slots@[k]).name@ == server@
                        &&& v@.len() == self.slots@[k].subs@.len()
                        &&& forall|i: int|
                            0 <= i < v@.len() ==> (#[trigger] v@[i])@ == (PacketV {
                                ty: PacketKind::Ctl,
                                content: Seq::<u8>::empty(),
                                nonce: Seq::<u8>::empty(),
                                room_id: self.slots@[k].subs@[i].room@,
                                inbox: None,
                                ctl: Some(Ctl::Sub),
                            })
                    },
                Err(e) => e == Error::Config && !has_slot(self.slots@, server@),
            },
    {
        let k = match self.find_slot(server) {
            Some(k) => k,
            None => {
                return Err(Error::Config);
            },
        };
        let mut out: Vec<Packet> = Vec::new();
        let mut i: usize = 0;
        while i < self.slots[k].subs.len()
            invariant
                self.wf(),
                0 <= k < self.slots@.len(),
                0 <= i <= self.slots@[k as int].subs@.len(),
                out@.len() == i,
                forall|j: int|
                    0 <= j < i ==> (#[trigger] out@[j])@ == (PacketV {
                        ty: PacketKind::Ctl,
                        content: Seq::<u8>::empty(),
                        nonce: Seq::<u8>::empty(),
                        room_id: self.slots@[k as int].subs@[j].room@,
                        inbox: None,
                        ctl: Some(Ctl::Sub),
                    }),
            decreases self.slots@[k as int].subs@.len() - i,
        {
            let room = &self.slots[k].subs[i].room;
            let room2 = copy_range(room.as_slice(), 0, room.len());
            proof {
                assert(room2@ =~= self.slots@[k as int].subs@[i as int].room@);
            }
            let pkt = Packet::new_sub(room2);
            out.push(pkt);
            i += 1;
        }
        Ok(out)
    }
}

/// A fresh deep copy of a byte vector.
fn bytes_dup(v: &Vec<u8>) -> (r: Vec<u8>)
    ensures
        r@ == v@,
{
    let r = copy_range(v.as_slice(), 0, v.len());
    proof {
        assert(r@ =~= v@);
    }
    r
}

/// A fresh packet with the same abstract value.
fn packet_dup(p: &Packet) -> (r: Packet)
    ensures
        r@ == p@,
{
    let inbox: Option<Inbox> = match &p.inbox {
        Some(Inbox::Request { id }) => Some(Inbox::Request { id: bytes_dup(id) }),
        Some(Inbox::Respond { id }) => Some(Inbox::Respond { id: bytes_dup(id) }),
        None => None,
    };
    Packet {
        ty: p.ty,
        content: bytes_dup(&p.content),
        nonce: bytes_dup(&p.nonce),
        room_id: bytes_dup(&p.room_id),
        inbox,
        ctl: p.ctl,
    }
}

} // verus!
