use vstd::prelude::*;

use crate::error::Error;

verus! {

/// One sled tree, held opaquely. The handle lives in a hidden field and is
/// reached only through the wrappers below, which say what the tree holds in
/// terms of `sled_map`.
#[verifier::external_body]
#[derive(Debug)]
pub struct Tree {
    inner: sled::Db,
}

/// What a sled tree holds: the map from keys to the values last written
/// under them.
pub uninterp spec fn sled_map(db: Tree) -> Map<Seq<u8>, Seq<u8>>;

/// Relies on sled's `Config::open`: a tree backed by the directory at the
/// path. What it already holds depends on the disk, so nothing is promised
/// of the contents.
#[verifier::external_body]
pub fn tree_open(path: &[u8]) -> (r: Result<Tree, Error>)
    ensures
        r is Err ==> r->Err_0 == Error::Resource,
{
    let p = match std::str::from_utf8(path) {
        Ok(p) => p,
        Err(_) => return Err(Error::Resource),
    };
    match sled::Config::default().path(p).open() {
        Ok(db) => Ok(Tree { inner: db }),
        Err(_) => Err(Error::Resource),
    }
}

/// Relies on sled's `Db::insert`: afterwards the tree maps the key to the
/// value and every other key keeps its value.
#[verifier::external_body]
pub(crate) fn sled_put(db: &mut Tree, key: &[u8], value: &[u8]) -> (r: Result<(), Error>)
    ensures
        match r {
            Ok(()) => sled_map(*final(db)) == sled_map(*old(db)).insert(key@, value@),
            Err(e) => e == Error::Resource,
        },
{
    match db.inner.insert(key, value) {
        Ok(_) => Ok(()),
        Err(_) => Err(Error::Resource),
    }
}

/// Relies on sled's `Db::get`: the value last written under the key, nothing
/// when the key was never written.
#[verifier::external_body]
pub(crate) fn sled_get(db: &Tree, key: &[u8]) -> (r: Result<Option<Vec<u8>>, Error>)
    ensures
        match r {
            Ok(Some(v)) => sled_map(*db).contains_key(key@) && v@ == sled_map(*db)[key@],
            Ok(None) => !sled_map(*db).contains_key(key@),
            Err(e) => e == Error::Resource,
        },
{
    match db.inner.get(key) {
        Ok(Some(v)) => Ok(Some(v.to_vec())),
        Ok(None) => Ok(None),
        Err(_) => Err(Error::Resource),
    }
}

} // verus!
