//! The durable id store: the image-id tree and one message-id tree per
//! conversation, specified as maps over the wrapped sled trees.

pub mod store;

use vstd::prelude::*;

use crate::cbor::copy_range;
use crate::db::store::Tree;
use crate::db::store::sled_get;
use crate::db::store::sled_map;
use crate::db::store::sled_put;
use crate::error::Error;
use crate::res::b64url;
use crate::res::b64url_of;
use crate::util::bytes_eq;
use crate::util::push_all;

verus! {

/// One per-conversation message-id tree.
#[derive(Debug)]
pub struct MsgDb {
    pub target: Vec<u8>,
    pub db: Tree,
}

/// Each conversation has at most one tree.
pub open spec fn mids_wf(entries: Seq<MsgDb>) -> bool {
    forall|i: int, j: int|
        0 <= i < j < entries.len() ==> (#[trigger] entries[i]).target@ != (
        #[trigger] entries[j]).target@
}

/// Whether a conversation has a registered tree.
pub open spec fn has_target(entries: Seq<MsgDb>, target: Seq<u8>) -> bool {
    exists|i: int| 0 <= i < entries.len() && (#[trigger] entries[i]).target@ == target
}

/// The conversation's tree contents; meaningful only when registered.
pub open spec fn target_map(entries: Seq<MsgDb>, target: Seq<u8>) -> Map<Seq<u8>, Seq<u8>> {
    sled_map(
        entries[choose|i: int|
            0 <= i < entries.len() && (#[trigger] entries[i]).target@ == target].db,
    )
}

/// In a well-formed list an index whose entry holds the target is the index
/// the contents are read from.
proof fn lemma_unique_target_index(entries: Seq<MsgDb>, target: Seq<u8>, k: int)
    requires
        mids_wf(entries),
        0 <= k < entries.len(),
        entries[k].target@ == target,
    ensures
        has_target(entries, target),
        target_map(entries, target) == sled_map(entries[k].db),
{
    assert(has_target(entries, target));
    let i = choose|i: int| 0 <= i < entries.len() && (#[trigger] entries[i]).target@ == target;
    if i != k {
        if i < k {
            assert(entries[i].target@ != entries[k].target@);
        } else {
            assert(entries[k].target@ != entries[i].target@);
        }
    }
}

/// The durable store: the image-id tree and one message-id tree per
/// conversation, each opened by the caller and registered here.
#[derive(Debug)]
pub struct Db {
    pub image_db: Tree,
    pub mid_dbs: Vec<MsgDb>,
    pub db_name: Vec<u8>,
}

impl Db {
    /// Each conversation has at most one tree.
    pub open spec fn wf(self) -> bool {
        mids_wf(self.mid_dbs@)
    }

    /// What the image-id tree holds.
    pub open spec fn image_map(self) -> Map<Seq<u8>, Seq<u8>> {
        sled_map(self.image_db)
    }

    /// What a conversation's message-id tree holds.
    pub open spec fn msg_map(self, target: Seq<u8>) -> Map<Seq<u8>, Seq<u8>> {
        target_map(self.mid_dbs@, target)
    }

    /// Whether a conversation's tree is registered.
    pub open spec fn has_msg_db(self, target: Seq<u8>) -> bool {
        has_target(self.mid_dbs@, target)
    }

    /// Wraps an opened image-id tree under an instance name.
    pub fn init(db_name: Vec<u8>, image_db: Tree) -> (r: Db)
        ensures
            r.wf(),
            r.db_name@ == db_name@,
            r.image_map() == sled_map(image_db),
            forall|t: Seq<u8>| !(#[trigger] r.has_msg_db(t)),
    {
        Db { image_db, mid_dbs: Vec::new(), db_name }
    }

    /// Stores the platform file id a resource uid maps to.
    pub fn put_image_id(&mut self, uid: &[u8], file_id: &[u8]) -> (r: Result<(), Error>)
        requires
            old(self).wf(),
        ensures
            final(self).wf(),
            final(self).db_name == old(self).db_name,
            final(self).mid_dbs == old(self).mid_dbs,
            match r {
                Ok(()) => final(self).image_map() == old(self).image_map().insert(uid@, file_id@),
                Err(e) => e == Error::Resource,
            },
    {
        sled_put(&mut self.image_db, uid, file_id)
    }

    /// Looks a resource uid's platform file id up; a handed-out value is
    /// exactly what the tree holds. Store failures surface as nothing, as
    /// callers treat the mapping as advisory.
    pub fn get_image_id(&self, uid: &[u8]) -> (r: Option<Vec<u8>>)
        ensures
            match r {
                Some(v) => self.image_map().contains_key(uid@) && v@ == self.image_map()[uid@],
                None => true,
            },
    {
        match sled_get(&self.image_db, uid) {
            Ok(v) => v,
            Err(_) => None,
        }
    }

    /// The directory a conversation's message-id tree is opened at, under
    /// the instance's namespace.
    pub fn msg_db_path(&self, target: &Vec<u8>) -> (r: Vec<u8>)
        ensures
            r@ == seq![100u8, 98u8, 47u8] + self.db_name@ + seq![
                47u8,
                109u8,
                115u8,
                103u8,
                45u8,
                105u8,
                100u8,
                47u8,
            ] + b64url_of(target@),
    {
        let mut r: Vec<u8> = vec![100, 98, 47];
        push_all(&mut r, self.db_name.as_slice());
        let mid: Vec<u8> = vec![47, 109, 115, 103, 45, 105, 100, 47];
        push_all(&mut r, mid.as_slice());
        let enc = b64url(target.as_slice());
        push_all(&mut r, enc.as_slice());
        proof {
            assert(r@ =~= seq![100u8, 98u8, 47u8] + self.db_name@ + seq![
                47u8,
                109u8,
                115u8,
                103u8,
                45u8,
                105u8,
                100u8,
                47u8,
            ] + b64url_of(target@));
        }
        r
    }

    /// Registers a conversation's tree, opened by the caller; a conversation
    /// already registered keeps its tree.
    pub fn register_msg_db(&mut self, target: Vec<u8>, db: Tree) -> (fresh: bool)
        requires
            old(self).wf(),
        ensures
            final(self).wf(),
            final(self).db_name == old(self).db_name,
            final(self).image_map() == old(self).image_map(),
            final(self).has_msg_db(target@),
            fresh == !old(self).has_msg_db(target@),
            fresh ==> final(self).msg_map(target@) == sled_map(db),
            !fresh ==> final(self).mid_dbs == old(self).mid_dbs,
    {
        let ghost pre = self.mid_dbs@;
        let mut k: usize = 0;
        while k < self.mid_dbs.len()
            invariant
                pre == old(self).mid_dbs@,
                self.mid_dbs == old(self).mid_dbs,
                self.mid_dbs@ == pre,
                self.image_db == old(self).image_db,
                self.db_name == old(self).db_name,
                mids_wf(pre),
                0 <= k <= pre.len(),
                forall|j: int| 0 <= j < k ==> (#[trigger] pre[j]).target@ != target@,
            decreases pre.len() - k,
        {
            if bytes_eq(self.mid_dbs[k].target.as_slice(), target.as_slice()) {
                return false;
            }
            k += 1;
        }
        proof {
            assert(!has_target(pre, target@));
        }
        let entry = MsgDb { target, db };
        self.mid_dbs.push(entry);
        proof {
            let post = self.mid_dbs@;
            assert(post[pre.len() as int] == entry);
            assert forall|i: int, j: int| 0 <= i < j < post.len() implies (
            #[trigger] post[i]).target@ != (#[trigger] post[j]).target@ by {
                if j < pre.len() {
                    assert(pre[i].target@ != pre[j].target@);
                } else {
                    assert(post[i] == pre[i]);
                    assert(post[j] == entry);
                }
            }
            lemma_unique_target_index(post, entry.target@, pre.len() as int);
        }
        true
    }

    /// Stores the mapping from a peer's message id to this platform's id for
    /// one conversation, and the reverse mapping when asked. A conversation
    /// without a registered tree is refused as a configuration error, so the
    /// caller can open and register one; a store failure can leave only this
    /// conversation's tree partially written. Whatever happens, every
    /// registration stays, and no other conversation's tree moves.
    pub fn put_msg_id(&mut self, target: &Vec<u8>, uid: &[u8], id: &[u8], reverse: bool) -> (r:
        Result<(), Error>)
        requires
            old(self).wf(),
        ensures
            final(self).wf(),
            final(self).db_name == old(self).db_name,
            final(self).image_map() == old(self).image_map(),
            forall|t: Seq<u8>|
                (#[trigger] final(self).has_msg_db(t)) == old(self).has_msg_db(t),
            forall|t: Seq<u8>|
                t != target@ && old(self).has_msg_db(t) ==> (#[trigger] final(self).msg_map(t))
                    == old(self).msg_map(t),
            match r {
                Ok(()) => {
                    &&& old(self).has_msg_db(target@)
                    &&& final(self).msg_map(target@) == (if reverse {
                        old(self).msg_map(target@).insert(uid@, id@).insert(id@, uid@)
                    } else {
                        old(self).msg_map(target@).insert(uid@, id@)
                    })
                },
                Err(e) => {
                    ||| (e == Error::Config && !old(self).has_msg_db(target@)
                        && final(self).mid_dbs == old(self).mid_dbs)
                    ||| e == Error::Resource
                },
            },
    {
        let ghost pre = self.mid_dbs@;
        let mut k: usize = 0;
        while k < self.mid_dbs.len()
            invariant
                pre == old(self).mid_dbs@,
                self.mid_dbs == old(self).mid_dbs,
                self.mid_dbs@ == pre,
                self.image_db == old(self).image_db,
                self.db_name == old(self).db_name,
                mids_wf(pre),
                0 <= k <= pre.len(),
                forall|j: int| 0 <= j < k ==> (#[trigger] pre[j]).target@ != target@,
            decreases pre.len() - k,
        {
            if bytes_eq(self.mid_dbs[k].target.as_slice(), target.as_slice()) {
                proof {
                    lemma_unique_target_index(pre, target@, k as int);
                }
                let mut entry = self.mid_dbs.remove(k);
                let r1 = sled_put(&mut entry.db, uid, id);
                let r2: Result<(), Error> = if r1.is_ok() && reverse {
                    sled_put(&mut entry.db, id, uid)
                } else {
                    Ok(())
                };
                let ghost gentry = entry;
                self.mid_dbs.insert(k, entry);
                proof {
                    assert(self.mid_dbs@ =~= pre.update(k as int, gentry));
                    lemma_mids_update_wf(pre, k as int, gentry);
                    lemma_unique_target_index(self.mid_dbs@, target@, k as int);
                    assert forall|t: Seq<u8>| (#[trigger] has_target(self.mid_dbs@, t))
                        == has_target(pre, t) by {
                        if t != target@ {
                            assert(has_target(pre.update(k as int, gentry), t) == has_target(
                                pre,
                                t,
                            ));
                        }
                    }
                    assert forall|t: Seq<u8>|
                        t != target@ && has_target(pre, t) implies (#[trigger] target_map(
                        self.mid_dbs@,
                        t,
                    )) == target_map(pre, t) by {
                        assert(has_target(pre.update(k as int, gentry), t) == has_target(pre, t));
                        assert(target_map(pre.update(k as int, gentry), t) == target_map(pre, t));
                    }
                }
                if r1.is_err() {
                    return Err(Error::Resource);
                }
                if r2.is_err() {
                    return Err(Error::Resource);
                }
                return Ok(());
            }
            k += 1;
        }
        proof {
            assert(!has_target(pre, target@));
        }
        Err(Error::Config)
    }

    /// Looks the stored counterpart of a message id up for one conversation.
    /// A conversation without a registered tree holds nothing.
    pub fn get_msg_id(&self, target: &Vec<u8>, id: &Vec<u8>) -> (r: Result<Option<Vec<u8>>, Error>)
        requires
            self.wf(),
        ensures
            !self.has_msg_db(target@) ==> r == Result::<Option<Vec<u8>>, Error>::Ok(None),
            match r {
                Ok(Some(v)) => self.has_msg_db(target@) && self.msg_map(target@).contains_key(id@)
                    && v@ == self.msg_map(target@)[id@],
                Ok(None) => !self.has_msg_db(target@) || !self.msg_map(target@).contains_key(id@),
                Err(e) => e == Error::Resource,
            },
    {
        let mut k: usize = 0;
        while k < self.mid_dbs.len()
            invariant
                self.wf(),
                0 <= k <= self.mid_dbs@.len(),
                forall|j: int| 0 <= j < k ==> (#[trigger] self.mid_dbs@[j]).target@ != target@,
            decreases self.mid_dbs@.len() - k,
        {
            if bytes_eq(self.mid_dbs[k].target.as_slice(), target.as_slice()) {
                proof {
                    lemma_unique_target_index(self.mid_dbs@, target@, k as int);
                }
                return sled_get(&self.mid_dbs[k].db, id.as_slice());
            }
            k += 1;
        }
        proof {
            assert(!has_target(self.mid_dbs@, target@));
        }
        Ok(None)
    }
}

/// Replacing one tree by another under the same conversation keeps the list
/// sound and moves no other conversation.
proof fn lemma_mids_update_wf(pre: Seq<MsgDb>, k: int, e2: MsgDb)
    requires
        mids_wf(pre),
        0 <= k < pre.len(),
        e2.target@ == pre[k].target@,
    ensures
        mids_wf(pre.update(k, e2)),
        forall|t2: Seq<u8>|
            t2 != pre[k].target@ ==> (#[trigger] has_target(pre.update(k, e2), t2)) == has_target(
                pre,
                t2,
            ) && (has_target(pre, t2) ==> target_map(pre.update(k, e2), t2) == target_map(pre, t2)),
{
    let target = pre[k].target@;
    let post = pre.update(k, e2);
    assert(post[k] == e2);
    assert forall|i: int, j: int| 0 <= i < j < post.len() implies (#[trigger] post[i]).target@ != (
    #[trigger] post[j]).target@ by {
        assert(pre[i].target@ != pre[j].target@);
    }
    assert forall|t2: Seq<u8>| t2 != target implies (#[trigger] has_target(post, t2)) == has_target(
        pre,
        t2,
    ) && (has_target(pre, t2) ==> target_map(post, t2) == target_map(pre, t2)) by {
        if has_target(pre, t2) {
            let i = choose|i: int| 0 <= i < pre.len() && (#[trigger] pre[i]).target@ == t2;
            assert(i != k);
            assert(post[i] == pre[i]);
            assert(has_target(post, t2));
            lemma_unique_target_index(pre, t2, i);
            lemma_unique_target_index(post, t2, i);
        }
        if has_target(post, t2) {
            let i = choose|i: int| 0 <= i < post.len() && (#[trigger] post[i]).target@ == t2;
            assert(i != k);
            assert(post[i] == pre[i]);
            assert(has_target(pre, t2));
        }
    }
}

} // verus!
