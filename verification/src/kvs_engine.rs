//! The shared engine: cloneable handles over one store, every operation
//! serialized by a verified reader-writer lock whose invariant is the
//! store's well-formedness.
//!
//! Point reads of the in-memory store move no file cursor, so `get` takes
//! the shared mode; mutators take the exclusive mode. Whatever interleaving
//! the threads produce, every handle only ever observes a well-formed store,
//! and each operation is the store operation with its full contract, applied
//! atomically between acquire and release.

use std::sync::Arc;

use vstd::prelude::*;
use vstd::rwlock::{RwLock, RwLockPredicate};

use crate::engine::{KvError, KvsEngine};
use crate::store::Store;

verus! {

/// The lock's invariant: the guarded store is well formed.
pub struct StorePred;

impl RwLockPredicate<Store> for StorePred {
    open spec fn inv(self, v: Store) -> bool {
        v.wf()
    }
}

/// A cheaply cloneable handle to one shared, well-formed store.
#[derive(Clone)]
pub struct KvStore {
    store: Arc<RwLock<Store, StorePred>>,
}

impl KvStore {
    /// Open a shared store from the characters of a log file; fails with
    /// `Codec` exactly where the log replays to no state.
    pub fn open(initial: Vec<char>) -> (r: Result<KvStore, KvError>)
        ensures
            match r {
                Ok(_) => crate::store::replay(initial@) is Some,
                Err(e) => e == KvError::Codec && crate::store::replay(initial@) is None,
            },
    {
        match Store::open(initial) {
            Ok(s) => {
                let lock = RwLock::new(s, Ghost(StorePred));
                Ok(KvStore { store: Arc::new(lock) })
            },
            Err(e) => Err(e),
        }
    }

    /// Record an assignment against the shared store. Never fails: the lock
    /// cannot poison and the in-memory append cannot be refused.
    pub fn set(&self, key: String, value: String) -> (r: Result<(), KvError>)
        ensures
            r is Ok,
    {
        let (mut s, wh) = self.store.acquire_write();
        let res = s.set(key, value);
        wh.release_write(s);
        res
    }

    /// Look a key up in the shared store, under the shared mode: the store's
    /// `get` leaves it untouched. Never fails.
    pub fn get(&self, key: String) -> (r: Result<Option<String>, KvError>)
        ensures
            r is Ok,
    {
        let rh = self.store.acquire_read();
        let res = rh.borrow().get(key);
        rh.release_read();
        res
    }

    /// Remove a key from the shared store. The only failure is
    /// `KeyNotFound`, for a key that was absent when the lock was held.
    pub fn remove(&self, key: String) -> (r: Result<(), KvError>)
        ensures
            r is Err ==> r->Err_0 == KvError::KeyNotFound,
    {
        let (mut s, wh) = self.store.acquire_write();
        let res = s.remove(key);
        wh.release_write(s);
        res
    }

    /// One compaction pass, as the background worker runs it: under the
    /// exclusive mode, rewrite the log where it has outgrown the threshold,
    /// and do nothing below it. Never fails.
    pub fn compact_now(&self) -> (r: Result<(), KvError>)
        ensures
            r is Ok,
    {
        let (mut s, wh) = self.store.acquire_write();
        if Store::needs_compaction(s.current_offset()) {
            s.compact();
        }
        wh.release_write(s);
        Ok(())
    }

    /// A copy of the shared store's log, for the caller that persists it.
    pub fn log_chars(&self) -> Vec<char> {
        let rh = self.store.acquire_read();
        let out = rh.borrow().log_chars();
        rh.release_read();
        out
    }

    /// The number of live keys.
    pub fn len(&self) -> usize {
        let rh = self.store.acquire_read();
        let n = rh.borrow().len();
        rh.release_read();
        n
    }
}

impl KvsEngine for KvStore {
    fn set(&self, key: String, value: String) -> Result<(), KvError> {
        KvStore::set(self, key, value)
    }

    fn get(&self, key: String) -> Result<Option<String>, KvError> {
        KvStore::get(self, key)
    }

    fn remove(&self, key: String) -> Result<(), KvError> {
        KvStore::remove(self, key)
    }
}

} // verus!
