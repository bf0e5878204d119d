//! The resource cache: content-addressed paths, the pending-wait map, and
//! the decision of each fetch step. The disk and network work the decisions
//! call for happens outside the crate.

use vstd::prelude::*;

use crate::cbor::copy_range;
use crate::cipher::Cipher;
use crate::cipher::aead_open;
use crate::data::Packet;
use crate::data::PacketKind;
use crate::data::Payload;
use crate::data::PayloadV;
use crate::data::enc_payload;
use crate::data::events::Event;
use crate::data::events::EventV;
use crate::error::Error;
use crate::util::bytes_eq;

verus! {

/// What base64url encoding returns for a byte string: URL-safe alphabet, no
/// padding, a function of the input alone.
pub uninterp spec fn b64url_of(b: Seq<u8>) -> Seq<u8>;

/// Relies on base64-url's `encode`: URL-safe base64 without padding, a
/// function of the input alone; an empty input encodes to an empty string.
#[verifier::external_body]
pub(crate) fn b64url(b: &[u8]) -> (r: Vec<u8>)
    ensures
        r@ == b64url_of(b@),
        b@.len() == 0 ==> r@.len() == 0,
{
    base64_url::encode(b).into_bytes()
}

/// One pending download: the resource's encoded id and the waiters blocked
/// on it.
#[derive(Debug, Clone, PartialEq, Eq)]
pub struct WaitEntry {
    pub key: Vec<u8>,
    pub waiters: Vec<u64>,
}

/// The wait map holds each key once.
pub open spec fn handlers_wf(entries: Seq<WaitEntry>) -> bool {
    forall|i: int, j: int|
        0 <= i < j < entries.len() ==> (#[trigger] entries[i]).key@ != (#[trigger] entries[j]).key@
}

/// Whether the map holds the key.
pub open spec fn has_key(entries: Seq<WaitEntry>, key: Seq<u8>) -> bool {
    exists|i: int| 0 <= i < entries.len() && (#[trigger] entries[i]).key@ == key
}

/// The waiters blocked on the key; meaningful only when the map holds it.
pub open spec fn waiters_of(entries: Seq<WaitEntry>, key: Seq<u8>) -> Seq<u64> {
    entries[choose|i: int| 0 <= i < entries.len() && (#[trigger] entries[i]).key@ == key].waiters@
}

/// How enqueuing one waiter changes the map: the waiter joins the key's
/// list, at its end, and no other key moves.
pub open spec fn wait_step(
    pre: Seq<WaitEntry>,
    post: Seq<WaitEntry>,
    key: Seq<u8>,
    token: u64,
) -> bool {
    &&& has_key(post, key)
    &&& waiters_of(post, key) == (if has_key(pre, key) {
        waiters_of(pre, key).push(token)
    } else {
        seq![token]
    })
    &&& forall|k2: Seq<u8>|
        k2 != key ==> (#[trigger] has_key(post, k2)) == has_key(pre, k2) && (has_key(pre, k2)
            ==> waiters_of(post, k2) == waiters_of(pre, k2))
}

/// Law: waiters accumulate in arrival order, so a drain serves every one of
/// them, each exactly once.
pub proof fn lemma_waiters_accumulate(
    h0: Seq<WaitEntry>,
    h1: Seq<WaitEntry>,
    h2: Seq<WaitEntry>,
    key: Seq<u8>,
    t1: u64,
    t2: u64,
)
    requires
        !has_key(h0, key),
        wait_step(h0, h1, key, t1),
        wait_step(h1, h2, key, t2),
    ensures
        waiters_of(h2, key) == seq![t1, t2],
{
    assert(waiters_of(h1, key) == seq![t1]);
    assert(seq![t1].push(t2) =~= seq![t1, t2]);
}

/// In a well-formed map an index whose entry holds the key is the index the
/// waiters are read from.
proof fn lemma_unique_key_index(entries: Seq<WaitEntry>, key: Seq<u8>, k: int)
    requires
        handlers_wf(entries),
        0 <= k < entries.len(),
        entries[k].key@ == key,
    ensures
        has_key(entries, key),
        waiters_of(entries, key) == entries[k].waiters@,
{
    assert(has_key(entries, key));
    let i = choose|i: int| 0 <= i < entries.len() && (#[trigger] entries[i]).key@ == key;
    if i != k {
        if i < k {
            assert(entries[i].key@ != entries[k].key@);
        } else {
            assert(entries[k].key@ != entries[i].key@);
        }
    }
}

/// Removing a key's entry moves no other key.
proof fn lemma_remove_key(pre: Seq<WaitEntry>, k: int)
    requires
        handlers_wf(pre),
        0 <= k < pre.len(),
    ensures
        handlers_wf(pre.remove(k)),
        !has_key(pre.remove(k), pre[k].key@),
        forall|k2: Seq<u8>|
            k2 != pre[k].key@ ==> (#[trigger] has_key(pre.remove(k), k2)) == has_key(pre, k2) && (
            has_key(pre, k2) ==> waiters_of(pre.remove(k), k2) == waiters_of(pre, k2)),
{
    let key = pre[k].key@;
    let post = pre.remove(k);
    assert forall|i: int| 0 <= i < post.len() implies (#[trigger] post[i]).key@ != key by {
        if i < k {
            assert(post[i] == pre[i]);
            assert(pre[i].key@ != pre[k].key@);
        } else {
            assert(post[i] == pre[i + 1]);
            assert(pre[k].key@ != pre[i + 1].key@);
        }
    }
    assert forall|i: int, j: int| 0 <= i < j < post.len() implies (#[trigger] post[i]).key@ != (
    #[trigger] post[j]).key@ by {
        let i2: int = if i < k {
            i
        } else {
            i + 1
        };
        let j2: int = if j < k {
            j
        } else {
            j + 1
        };
        assert(post[i] == pre[i2]);
        assert(post[j] == pre[j2]);
        assert(pre[i2].key@ != pre[j2].key@);
    }
    assert forall|k2: Seq<u8>| k2 != key implies (#[trigger] has_key(post, k2)) == has_key(pre, k2)
        && (has_key(pre, k2) ==> waiters_of(post, k2) == waiters_of(pre, k2)) by {
        if has_key(pre, k2) {
            let i = choose|i: int| 0 <= i < pre.len() && (#[trigger] pre[i]).key@ == k2;
            assert(i != k);
            let ix: int = if i < k {
                i
            } else {
                i - 1
            };
            assert(post[ix] == pre[i]);
            assert(has_key(post, k2));
            lemma_unique_key_index(pre, k2, i);
            lemma_unique_key_index(post, k2, ix);
        }
        if has_key(post, k2) {
            let i = choose|i: int| 0 <= i < post.len() && (#[trigger] post[i]).key@ == k2;
            let ix: int = if i < k {
                i
            } else {
                i + 1
            };
            assert(post[i] == pre[ix]);
            assert(has_key(pre, k2));
        }
    }
}

/// Replacing an entry in place, keeping its key, moves no other key.
proof fn lemma_update_same_key(pre: Seq<WaitEntry>, k: int, e2: WaitEntry)
    requires
        handlers_wf(pre),
        0 <= k < pre.len(),
        e2.key@ == pre[k].key@,
    ensures
        handlers_wf(pre.update(k, e2)),
        has_key(pre.update(k, e2), pre[k].key@),
        waiters_of(pre.update(k, e2), pre[k].key@) == e2.waiters@,
        forall|k2: Seq<u8>|
            k2 != pre[k].key@ ==> (#[trigger] has_key(pre.update(k, e2), k2)) == has_key(pre, k2)
                && (has_key(pre, k2) ==> waiters_of(pre.update(k, e2), k2) == waiters_of(pre, k2)),
{
    let key = pre[k].key@;
    let post = pre.update(k, e2);
    assert(post[k] == e2);
    assert forall|i: int, j: int| 0 <= i < j < post.len() implies (#[trigger] post[i]).key@ != (
    #[trigger] post[j]).key@ by {
        assert(pre[i].key@ != pre[j].key@);
    }
    lemma_unique_key_index(post, key, k);
    assert forall|k2: Seq<u8>| k2 != key implies (#[trigger] has_key(post, k2)) == has_key(pre, k2)
        && (has_key(pre, k2) ==> waiters_of(post, k2) == waiters_of(pre, k2)) by {
        if has_key(pre, k2) {
            let i = choose|i: int| 0 <= i < pre.len() && (#[trigger] pre[i]).key@ == k2;
            assert(i != k);
            assert(post[i] == pre[i]);
            assert(has_key(post, k2));
            lemma_unique_key_index(pre, k2, i);
            lemma_unique_key_index(post, k2, i);
        }
        if has_key(post, k2) {
            let i = choose|i: int| 0 <= i < post.len() && (#[trigger] post[i]).key@ == k2;
            assert(i != k);
            assert(post[i] == pre[i]);
            assert(has_key(pre, k2));
        }
    }
}

/// Appending a fresh key moves no other key.
proof fn lemma_push_new_key(pre: Seq<WaitEntry>, e2: WaitEntry)
    requires
        handlers_wf(pre),
        !has_key(pre, e2.key@),
    ensures
        handlers_wf(pre.push(e2)),
        has_key(pre.push(e2), e2.key@),
        waiters_of(pre.push(e2), e2.key@) == e2.waiters@,
        forall|k2: Seq<u8>|
            k2 != e2.key@ ==> (#[trigger] has_key(pre.push(e2), k2)) == has_key(pre, k2) && (
            has_key(pre, k2) ==> waiters_of(pre.push(e2), k2) == waiters_of(pre, k2)),
{
    let key = e2.key@;
    let post = pre.push(e2);
    assert(post[pre.len() as int] == e2);
    assert forall|i: int, j: int| 0 <= i < j < post.len() implies (#[trigger] post[i]).key@ != (
    #[trigger] post[j]).key@ by {
        if j < pre.len() {
            assert(pre[i].key@ != pre[j].key@);
        } else {
            assert(post[i] == pre[i]);
            assert(post[j] == e2);
        }
    }
    lemma_unique_key_index(post, key, pre.len() as int);
    assert forall|k2: Seq<u8>| k2 != key implies (#[trigger] has_key(post, k2)) == has_key(pre, k2)
        && (has_key(pre, k2) ==> waiters_of(post, k2) == waiters_of(pre, k2)) by {
        if has_key(pre, k2) {
            let i = choose|i: int| 0 <= i < pre.len() && (#[trigger] pre[i]).key@ == k2;
            assert(post[i] == pre[i]);
            assert(has_key(post, k2));
            lemma_unique_key_index(pre, k2, i);
            lemma_unique_key_index(post, k2, i);
        }
        if has_key(post, k2) {
            let i = choose|i: int| 0 <= i < post.len() && (#[trigger] post[i]).key@ == k2;
            assert(i < pre.len());
            assert(post[i] == pre[i]);
            assert(has_key(pre, k2));
        }
    }
}

/// What one step of fetching a resource should do next.
#[derive(Debug, Clone, PartialEq, Eq)]
pub enum FileStep {
    /// The blob is on disk; hand this path out.
    UsePath { path: Vec<u8> },
    /// Another task is downloading; enqueue a waiter and block on it.
    Wait,
    /// Nobody is downloading: fetch `url` into `tmp`, then rename `tmp` to
    /// `dst` atomically.
    Download { url: Vec<u8>, tmp: Vec<u8>, dst: Vec<u8> },
    /// The URL is unknown; ask the peers for it over the transport.
    Request,
}

/// The content-addressed blob cache: a process-scoped directory and the
/// pending-wait map.
#[derive(Debug)]
pub struct Res {
    pub directory: Vec<u8>,
    pub handlers: Vec<WaitEntry>,
}

/// The cached path of an encoded resource id.
pub open spec fn spec_path(dir: Seq<u8>, name: Seq<u8>) -> Seq<u8> {
    dir + seq![47u8] + name
}

/// The in-flight path of an encoded resource id.
pub open spec fn spec_tmp_path(dir: Seq<u8>, name: Seq<u8>) -> Seq<u8> {
    dir + seq![47u8] + name + seq![46u8, 116u8, 109u8, 112u8]
}

impl Res {
    /// The wait map holds each key once.
    pub open spec fn wf(self) -> bool {
        handlers_wf(self.handlers@)
    }

    /// Sets the cache up over its directory, with nobody waiting.
    pub fn init(directory: Vec<u8>) -> (r: Res)
        ensures
            r.wf(),
            r.directory@ == directory@,
            r.handlers@.len() == 0,
    {
        Res { directory, handlers: Vec::new() }
    }

    /// The path a cached blob lives at: the directory, a separator, and the
    /// encoded id.
    pub fn path(&self, name: &Vec<u8>) -> (r: Vec<u8>)
        ensures
            r@ == spec_path(self.directory@, name@),
    {
        let mut r = copy_range(self.directory.as_slice(), 0, self.directory.len());
        proof {
            assert(r@ =~= self.directory@);
        }
        r.push(47);
        crate::util::push_all(&mut r, name.as_slice());
        proof {
            assert(r@ =~= spec_path(self.directory@, name@));
        }
        r
    }

    /// The path a download in flight writes to: the cached path with a
    /// `.tmp` suffix.
    pub fn tmp_path(&self, name: &Vec<u8>) -> (r: Vec<u8>)
        ensures
            r@ == spec_tmp_path(self.directory@, name@),
    {
        let mut r = self.path(name);
        r.push(46);
        r.push(116);
        r.push(109);
        r.push(112);
        proof {
            assert(r@ =~= spec_tmp_path(self.directory@, name@));
        }
        r
    }

    /// Enqueues a waiter for a resource whose download is in flight.
    pub fn wait_for(&mut self, name: &Vec<u8>, token: u64)
        requires
            old(self).wf(),
        ensures
            final(self).wf(),
            final(self).directory == old(self).directory,
            wait_step(old(self).handlers@, final(self).handlers@, name@, token),
    {
        let ghost pre = self.handlers@;
        let mut k: usize = 0;
        while k < self.handlers.len()
            invariant
                pre == old(self).handlers@,
                self.handlers@ == pre,
                self.directory == old(self).directory,
                handlers_wf(pre),
                0 <= k <= pre.len(),
                forall|j: int| 0 <= j < k ==> (#[trigger] pre[j]).key@ != name@,
            decreases pre.len() - k,
        {
            if bytes_eq(self.handlers[k].key.as_slice(), name.as_slice()) {
                proof {
                    lemma_unique_key_index(pre, name@, k as int);
                }
                let mut e = self.handlers.remove(k);
                e.waiters.push(token);
                let ghost ge = e;
                self.handlers.insert(k, e);
                proof {
                    assert(self.handlers@ =~= pre.update(k as int, ge));
                    lemma_update_same_key(pre, k as int, ge);
                }
                return ;
            }
            k += 1;
        }
        proof {
            assert(!has_key(pre, name@));
        }
        let key2 = copy_range(name.as_slice(), 0, name.len());
        proof {
            assert(key2@ =~= name@);
        }
        let mut waiters: Vec<u64> = Vec::new();
        waiters.push(token);
        let e2 = WaitEntry { key: key2, waiters };
        self.handlers.push(e2);
        proof {
            lemma_push_new_key(pre, e2);
            assert(e2.waiters@ =~= seq![token]);
        }
    }

    /// Hands out — and forgets — every waiter of a resource whose blob has
    /// arrived: each of them is served, exactly once, with the same path.
    pub fn drain_waiters(&mut self, name: &Vec<u8>) -> (r: Vec<u64>)
        requires
            old(self).wf(),
        ensures
            final(self).wf(),
            final(self).directory == old(self).directory,
            has_key(old(self).handlers@, name@) ==> r@ == waiters_of(old(self).handlers@, name@)
                && !has_key(final(self).handlers@, name@) && forall|k2: Seq<u8>|
                k2 != name@ ==> (#[trigger] has_key(final(self).handlers@, k2)) == has_key(
                    old(self).handlers@,
                    k2,
                ) && (has_key(old(self).handlers@, k2) ==> waiters_of(final(self).handlers@, k2)
                    == waiters_of(old(self).handlers@, k2)),
            !has_key(old(self).handlers@, name@) ==> r@.len() == 0 && final(self).handlers@ == old(
                self,
            ).handlers@,
    {
        let ghost pre = self.handlers@;
        let mut k: usize = 0;
        while k < self.handlers.len()
            invariant
                pre == old(self).handlers@,
                self.handlers@ == pre,
                self.directory == old(self).directory,
                handlers_wf(pre),
                0 <= k <= pre.len(),
                forall|j: int| 0 <= j < k ==> (#[trigger] pre[j]).key@ != name@,
            decreases pre.len() - k,
        {
            if bytes_eq(self.handlers[k].key.as_slice(), name.as_slice()) {
                proof {
                    lemma_unique_key_index(pre, name@, k as int);
                }
                let e = self.handlers.remove(k);
                proof {
                    assert(self.handlers@ =~= pre.remove(k as int));
                    lemma_remove_key(pre, k as int);
                }
                return e.waiters;
            }
            k += 1;
        }
        proof {
            assert(!has_key(pre, name@));
        }
        Vec::new()
    }

    /// The encoded ids with waiters still blocked, for the poller to test
    /// against the disk.
    pub fn pending_ids(&self) -> (r: Vec<Vec<u8>>)
        ensures
            r@.len() == self.handlers@.len(),
            forall|i: int| 0 <= i < r@.len() ==> (#[trigger] r@[i])@ == self.handlers@[i].key@,
    {
        let mut r: Vec<Vec<u8>> = Vec::new();
        let mut k: usize = 0;
        while k < self.handlers.len()
            invariant
                0 <= k <= self.handlers@.len(),
                r@.len() == k,
                forall|i: int| 0 <= i < k ==> (#[trigger] r@[i])@ == self.handlers@[i].key@,
            decreases self.handlers@.len() - k,
        {
            let key2 = copy_range(self.handlers[k].key.as_slice(), 0, self.handlers[k].key.len());
            proof {
                assert(key2@ =~= self.handlers@[k as int].key@);
            }
            r.push(key2);
            k += 1;
        }
        r
    }

    /// Decides one step of fetching a resource by URL. Exactly one caller
    /// can be told to download: the one that sees neither the blob nor the
    /// in-flight file; everyone later sees the in-flight file and waits.
    pub fn file_by_url(&self, id: &Vec<u8>, url: &Vec<u8>, final_exists: bool, tmp_exists: bool) -> (r:
        FileStep)
        ensures
            final_exists ==> (r matches FileStep::UsePath { path } && path@ == spec_path_of_id(
                self.directory@,
                id@,
            )),
            !final_exists && tmp_exists ==> r == FileStep::Wait,
            !final_exists && !tmp_exists ==> (r matches FileStep::Download { url: u, tmp, dst }
                && u@ == url@ && tmp@ == spec_tmp_path(self.directory@, b64url_of(id@)) && dst@
                == spec_path_of_id(self.directory@, id@)),
    {
        let name = b64url(id.as_slice());
        if final_exists {
            let path = self.path(&name);
            FileStep::UsePath { path }
        } else if tmp_exists {
            FileStep::Wait
        } else {
            let tmp = self.tmp_path(&name);
            let dst = self.path(&name);
            let u2 = copy_range(url.as_slice(), 0, url.len());
            proof {
                assert(u2@ =~= url@);
            }
            FileStep::Download { url: u2, tmp, dst }
        }
    }

    /// Decides one step of fetching a resource by its id alone: as by URL,
    /// except that with no file on disk the peers must first be asked for a
    /// URL.
    pub fn file_by_uid(&self, id: &Vec<u8>, final_exists: bool, tmp_exists: bool) -> (r: FileStep)
        ensures
            final_exists ==> (r matches FileStep::UsePath { path } && path@ == spec_path_of_id(
                self.directory@,
                id@,
            )),
            !final_exists && tmp_exists ==> r == FileStep::Wait,
            !final_exists && !tmp_exists ==> r == FileStep::Request,
    {
        let name = b64url(id.as_slice());
        if final_exists {
            let path = self.path(&name);
            FileStep::UsePath { path }
        } else if tmp_exists {
            FileStep::Wait
        } else {
            FileStep::Request
        }
    }

    /// Decides one step of fetching a resource, by URL when one is known and
    /// by id otherwise.
    pub fn file(&self, id: &Vec<u8>, url: &Option<Vec<u8>>, final_exists: bool, tmp_exists: bool) -> (r:
        FileStep)
        ensures
            final_exists ==> (r matches FileStep::UsePath { path } && path@ == spec_path_of_id(
                self.directory@,
                id@,
            )),
            !final_exists && tmp_exists ==> r == FileStep::Wait,
            !final_exists && !tmp_exists && url is Some ==> (r matches FileStep::Download {
                url: u,
                tmp,
                dst,
            } && u@ == url->Some_0@ && tmp@ == spec_tmp_path(self.directory@, b64url_of(id@))
                && dst@ == spec_path_of_id(self.directory@, id@)),
            !final_exists && !tmp_exists && url is None ==> r == FileStep::Request,
    {
        match url {
            Some(u) => self.file_by_url(id, u, final_exists, tmp_exists),
            None => self.file_by_uid(id, final_exists, tmp_exists),
        }
    }

    /// The destination an externally produced blob is renamed to when it is
    /// put into the cache.
    pub fn put_file(&self, id: &Vec<u8>) -> (r: Vec<u8>)
        ensures
            r@ == spec_path_of_id(self.directory@, id@),
    {
        let name = b64url(id.as_slice());
        let r = self.path(&name);
        r
    }
}

/// The cached path of a raw resource id.
pub open spec fn spec_path_of_id(dir: Seq<u8>, id: Seq<u8>) -> Seq<u8> {
    spec_path(dir, b64url_of(id))
}

/// The cache's encoded form of a raw resource id.
pub fn encoded_id(id: &Vec<u8>) -> (r: Vec<u8>)
    ensures
        r@ == b64url_of(id@),
{
    b64url(id.as_slice())
}

/// The encoded image request is the id plus a bounded frame: the payload map
/// header, five short text items, and the id item's own header.
pub proof fn lemma_request_image_len(id: Seq<u8>)
    requires
        id.len() <= u64::MAX,
    ensures
        enc_payload(PayloadV::EventPayload(EventV::RequestImage { id })).len() <= id.len() + 160,
{
    let e = EventV::RequestImage { id };
    crate::cbor::lemma_hdr_len(crate::cbor::MAJOR_MAP, crate::data::payload_cnt(PayloadV::EventPayload(e)));
    crate::cbor::lemma_enc_lit_len(crate::atoms::Atom::KeyT);
    crate::cbor::lemma_enc_lit_len(crate::atoms::Atom::ValE);
    crate::cbor::lemma_enc_lit_len(crate::atoms::Atom::ValRequestImage);
    crate::cbor::lemma_enc_lit_len(crate::atoms::Atom::KeyId);
    crate::cbor::lemma_hdr_len(crate::cbor::MAJOR_BYTES, id.len() as u64);
}

/// Builds the packet that asks the peers for a resource's URL: an encrypted
/// `RequestImage` event for the room. An id within the cipher's plaintext
/// bound is owed success.
pub fn request_image_packet(id: &Vec<u8>, room_id: Vec<u8>, cipher: &Cipher) -> (r: Result<
    Packet,
    Error,
>)
    requires
        cipher.wf(),
        room_id@.len() == 16,
    ensures
        id@.len() + 160 <= 0x1000000000 ==> r is Ok,
        match r {
            Ok(pkt) => {
                &&& pkt@.wf()
                &&& pkt@.ty == PacketKind::Event
                &&& pkt@.room_id == room_id@
                &&& aead_open(cipher.key@, pkt@.nonce, pkt@.content) == Some(
                    enc_payload(PayloadV::EventPayload(EventV::RequestImage { id: id@ })),
                )
            },
            Err(e) => e == Error::Cipher,
        },
{
    let id2 = copy_range(id.as_slice(), 0, id.len());
    proof {
        assert(id2@ =~= id@);
        vstd::std_specs::vec::axiom_spec_len(id);
        lemma_request_image_len(id@);
    }
    let payload = Payload::EventPayload(Event::RequestImage { id: id2 });
    Packet::new(room_id, &payload, cipher)
}


impl Res {
    /// Stores the platform file id a resource uid maps to; the durable store
    /// does the work.
    pub fn put_image_id(&self, db: &mut crate::db::Db, uid: &[u8], file_id: &[u8]) -> (r: Result<
        (),
        Error,
    >)
        requires
            old(db).wf(),
        ensures
            final(db).wf(),
            match r {
                Ok(()) => final(db).image_map() == old(db).image_map().insert(uid@, file_id@),
                Err(e) => e == Error::Resource,
            },
    {
        db.put_image_id(uid, file_id)
    }
}

/// The older face of the resource cache. Its decisions are `Res`'s; the
/// asynchronous orchestration around them lives in the embedding
/// application.
#[derive(Debug, Clone, Copy, PartialEq, Eq, Structural)]
pub struct Cache {}

impl Cache {
    /// The cache needs no setup of its own.
    pub fn init(&self) {
    }

    /// Decides one step of fetching a resource; as `Res::file`.
    pub fn file(
        &self,
        res: &Res,
        id: &Vec<u8>,
        url: &Option<Vec<u8>>,
        final_exists: bool,
        tmp_exists: bool,
    ) -> (r: FileStep)
        ensures
            final_exists ==> (r matches FileStep::UsePath { path } && path@ == spec_path_of_id(
                res.directory@,
                id@,
            )),
            !final_exists && tmp_exists ==> r == FileStep::Wait,
            !final_exists && !tmp_exists && url is Some ==> (r matches FileStep::Download {
                url: u,
                tmp,
                dst,
            } && u@ == url->Some_0@ && tmp@ == spec_tmp_path(res.directory@, b64url_of(id@))
                && dst@ == spec_path_of_id(res.directory@, id@)),
            !final_exists && !tmp_exists && url is None ==> r == FileStep::Request,
    {
        res.file(id, url, final_exists, tmp_exists)
    }

    /// Decides one step of fetching a resource by id; as `Res::file_by_uid`.
    pub fn file_by_uid(&self, res: &Res, id: &Vec<u8>, final_exists: bool, tmp_exists: bool) -> (r:
        FileStep)
        ensures
            final_exists ==> (r matches FileStep::UsePath { path } && path@ == spec_path_of_id(
                res.directory@,
                id@,
            )),
            !final_exists && tmp_exists ==> r == FileStep::Wait,
            !final_exists && !tmp_exists ==> r == FileStep::Request,
    {
        res.file_by_uid(id, final_exists, tmp_exists)
    }

    /// Decides one step of fetching a resource by URL; as `Res::file_by_url`.
    pub fn file_by_url(
        &self,
        res: &Res,
        id: &Vec<u8>,
        url: &Vec<u8>,
        final_exists: bool,
        tmp_exists: bool,
    ) -> (r: FileStep)
        ensures
            final_exists ==> (r matches FileStep::UsePath { path } && path@ == spec_path_of_id(
                res.directory@,
                id@,
            )),
            !final_exists && tmp_exists ==> r == FileStep::Wait,
            !final_exists && !tmp_exists ==> (r matches FileStep::Download { url: u, tmp, dst }
                && u@ == url@ && tmp@ == spec_tmp_path(res.directory@, b64url_of(id@)) && dst@
                == spec_path_of_id(res.directory@, id@)),
    {
        res.file_by_url(id, url, final_exists, tmp_exists)
    }

    /// The destination a blob is renamed to when put into the cache; as
    /// `Res::put_file`.
    pub fn put_file(&self, res: &Res, id: &Vec<u8>) -> (r: Vec<u8>)
        ensures
            r@ == spec_path_of_id(res.directory@, id@),
    {
        res.put_file(id)
    }
}


/// Classifies the answer to an image request: the URL when the decrypted
/// payload is the image response carrying the asked id, and a protocol error
/// for any other payload.
pub fn image_response_url(payload: &Payload, id: &Vec<u8>) -> (r: Result<Vec<u8>, Error>)
    ensures
        match r {
            Ok(u) => (payload@ matches PayloadV::EventPayload(EventV::RespondImage {
                id: rid,
                url,
            }) && rid == id@ && u@ == url),
            Err(e) => e == Error::Protocol && !(payload@ matches PayloadV::EventPayload(
                EventV::RespondImage { id: rid, url },
            ) && rid == id@),
        },
{
    match payload {
        Payload::EventPayload(Event::RespondImage { id: rid, url }) => {
            if bytes_eq(rid.as_slice(), id.as_slice()) {
                let u = copy_range(url.as_slice(), 0, url.len());
                proof {
                    assert(u@ =~= url@);
                }
                Ok(u)
            } else {
                Err(Error::Protocol)
            }
        },
        _ => Err(Error::Protocol),
    }
}

} // verus!
