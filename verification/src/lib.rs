//! The core of a cross-platform message bridge: chat-bridge instances
//! exchange end-to-end encrypted messages and small binary resources through
//! a shared relay fabric.
//!
//! Four subsystems make it up. The packet and payload model carries a chat
//! message or a control event inside a versioned, symmetrically encrypted
//! envelope, serialised as compact CBOR by a codec that is proved to invert
//! itself. The cipher derives its key from a passphrase by SHA-256 and seals
//! every payload under a fresh random nonce. The transport state owns the
//! per-relay subscription sets, outbound queues and the request inbox; the
//! connection state machine and retry budget decide reconnection, and the
//! subscription set is what a reconnect replays. The resource cache decides
//! how an image blob is fetched — from disk, from a download already in
//! flight, by URL, or by asking the peers — and serves every waiter of a
//! finished download.
//!
//! Textual values cross the API as UTF-8 bytes. The asynchronous shell that
//! performs socket, disk and HTTP work lives outside this crate and only
//! carries out the decisions made here.
use vstd::prelude::*;

pub mod atoms;
pub mod cbor;
pub mod cipher;
pub mod conn;
pub mod data;
pub mod db;
pub mod error;
pub mod res;
pub mod server;
pub mod util;

verus! {

use crate::cipher::Cipher;
use crate::db::Db;
use crate::db::store::Tree;
use crate::db::store::sled_map;
use crate::error::Error;
use crate::res::Res;
use crate::server::Server;

/// Classification of an opaque byte identifier by its width, as used when
/// rendering platform-scoped ids: 4 bytes hold a 32-bit integer, 8 bytes a
/// 64-bit integer, 16 bytes a UUID, anything else is shown as raw hex.
#[derive(Debug, Clone, Copy, PartialEq, Eq, Structural)]
pub enum ByteWidth {
    Int32,
    Int64,
    Uuid,
    Raw,
}

/// Classifies an id's byte width for display purposes.
pub fn fmt_bytes(vec: &Vec<u8>) -> (r: ByteWidth)
    ensures
        r == ByteWidth::Int32 <==> vec@.len() == 4,
        r == ByteWidth::Int64 <==> vec@.len() == 8,
        r == ByteWidth::Uuid <==> vec@.len() == 16,
{
    if vec.len() == 4 {
        ByteWidth::Int32
    } else if vec.len() == 8 {
        ByteWidth::Int64
    } else if vec.len() == 16 {
        ByteWidth::Uuid
    } else {
        ByteWidth::Raw
    }
}

/// Turns a result into an option, discarding the error quietly, or after the
/// caller has logged it.
pub trait ResultExt<T, E>: Sized {
    /// Discards the error without a trace.
    fn ignore(self) -> Option<T>;

    /// Discards the error; the caller's logging has already seen it.
    fn log(self) -> Option<T>;
}

impl<T, E> ResultExt<T, E> for Result<T, E> {
    fn ignore(self) -> (r: Option<T>)
        ensures
            r == (match self {
                Ok(v) => Some(v),
                Err(_) => None::<T>,
            }),
    {
        match self {
            Ok(v) => Some(v),
            Err(_) => None,
        }
    }

    fn log(self) -> (r: Option<T>)
        ensures
            r == (match self {
                Ok(v) => Some(v),
                Err(_) => None::<T>,
            }),
    {
        match self {
            Ok(v) => Some(v),
            Err(_) => None,
        }
    }
}

/// Wraps any value as a success.
pub trait OkExt<E>: Sized {
    /// The value, as a success.
    fn ok(self) -> Result<Self, E>;
}

impl<T, E> OkExt<E> for T {
    fn ok(self) -> Result<T, E> {
        Ok(self)
    }
}

/// Wraps any value as a present option.
pub trait OptionExt: Sized {
    /// The value, present.
    fn some(self) -> Option<Self>;

    /// A reference to the value, present.
    fn some_ref(&self) -> Option<&Self>;
}

impl<T> OptionExt for T {
    fn some(self) -> (r: Option<Self>)
        ensures
            r == Some(self),
    {
        Some(self)
    }

    fn some_ref(&self) -> (r: Option<&Self>)
        ensures
            r == Some(self),
    {
        Some(self)
    }
}

/// Everything one configured instance owns: the cipher, the transport state,
/// the resource cache, and the durable id store.
#[derive(Debug)]
pub struct Library {
    pub cipher: Cipher,
    pub server: Server,
    pub res: Res,
    pub db: Db,
}

/// The one-shot configuration of an instance: its label, the optional HTTP
/// proxy for downloads, the cipher passphrase, the TLS knobs the network
/// layer reads, and the relay map. Textual values hold UTF-8 bytes.
#[derive(Debug, Clone, PartialEq, Eq)]
pub struct MesagistoConfig {
    pub name: Vec<u8>,
    pub proxy: Option<Vec<u8>>,
    pub cipher_key: Vec<u8>,
    pub skip_verify: bool,
    pub custom_cert: Option<Vec<u8>>,
    pub remote_address: Vec<(Vec<u8>, Vec<u8>)>,
    pub same_side_deliver: bool,
}

/// Relay names are pairwise distinct.
pub open spec fn names_unique(conf: Seq<(Vec<u8>, Vec<u8>)>) -> bool {
    forall|i: int, j: int|
        0 <= i < j < conf.len() ==> (#[trigger] conf[i]).0@ != (#[trigger] conf[j]).0@
}

impl MesagistoConfig {
    /// A configuration is usable when it carries a passphrase and one
    /// address per relay name.
    pub open spec fn valid(self) -> bool {
        self.cipher_key@.len() > 0 && names_unique(self.remote_address@)
    }

    /// Checks the configuration; a missing cipher key or a relay name given
    /// twice is a configuration error.
    pub fn validate(&self) -> (r: Result<(), Error>)
        ensures
            r is Ok <==> self.valid(),
            r is Err ==> r->Err_0 == Error::Config,
    {
        if self.cipher_key.len() == 0 {
            return Err(Error::Config);
        }
        let mut i: usize = 0;
        while i < self.remote_address.len()
            invariant
                0 <= i <= self.remote_address@.len(),
                forall|a: int, b: int|
                    0 <= a < b < self.remote_address@.len() && a < i ==> (
                    #[trigger] self.remote_address@[a]).0@ != (
                    #[trigger] self.remote_address@[b]).0@,
            decreases self.remote_address@.len() - i,
        {
            let mut j: usize = i + 1;
            while j < self.remote_address.len()
                invariant
                    0 <= i < j <= self.remote_address@.len(),
                    forall|b: int|
                        i < b < j ==> (#[trigger] self.remote_address@[b]).0@
                            != self.remote_address@[i as int].0@,
                decreases self.remote_address@.len() - j,
            {
                if crate::util::bytes_eq(
                    self.remote_address[i].0.as_slice(),
                    self.remote_address[j].0.as_slice(),
                ) {
                    return Err(Error::Config);
                }
                j += 1;
            }
            i += 1;
        }
        Ok(())
    }

    /// Builds the instance the configuration describes: the cipher keyed by
    /// the passphrase, one transport slot per relay, the resource cache over
    /// its directory, and the id store over its opened tree. The caller
    /// supplies what only the environment can give: the cache directory and
    /// the opened tree.
    pub fn apply(self, directory: Vec<u8>, image_db: Tree) -> (r: Result<Library, Error>)
        ensures
            match r {
                Ok(lib) => {
                    &&& self.valid()
                    &&& lib.cipher.wf()
                    &&& lib.cipher.origin_key@ == self.cipher_key@
                    &&& lib.server.wf()
                    &&& lib.server.origin_key@ == self.cipher_key@
                    &&& lib.server.slots@.len() == self.remote_address@.len()
                    &&& forall|i: int|
                        0 <= i < self.remote_address@.len() ==> (#[trigger] lib.server.slots@[i]).name@
                            == self.remote_address@[i].0@ && lib.server.slots@[i].address@
                            == self.remote_address@[i].1@
                    &&& lib.res.wf()
                    &&& lib.res.directory@ == directory@
                    &&& lib.db.wf()
                    &&& lib.db.db_name@ == self.name@
                    &&& lib.db.image_map() == sled_map(image_db)
                },
                Err(e) => e == Error::Config && !self.valid(),
            },
    {
        match self.validate() {
            Ok(()) => {},
            Err(e) => {
                return Err(e);
            },
        }
        let MesagistoConfig {
            name,
            proxy: _,
            cipher_key,
            skip_verify: _,
            custom_cert: _,
            remote_address,
            same_side_deliver: _,
        } = self;
        let key2 = crate::cbor::copy_range(cipher_key.as_slice(), 0, cipher_key.len());
        proof {
            assert(key2@ =~= cipher_key@);
        }
        let cipher = Cipher::init(cipher_key);
        let server = Server::init(remote_address, key2);
        let res = Res::init(directory);
        let db = Db::init(name, image_db);
        Ok(Library { cipher, server, res, db })
    }
}

} // verus!
