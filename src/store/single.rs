//! Stores with one value per key.
use crate::database::DatabaseImpl;
use crate::environment::{owned, all_wf, del_effect, only_changed, put_effect, Readable, RwTransactionImpl};
use crate::error::{store_error_of, ErrorImpl, StoreError};
use crate::flags::WriteFlags;
use crate::snapshot::{pairs_from, SnapshotView};
use crate::store::{get_result, opt_value_view, read_key, Iter};
use crate::value::{encoded, Value};
use vstd::prelude::*;

verus! {

/// What a write through a store did to the transaction's snapshots.
pub open spec fn write_result(
    r: Result<(), StoreError>,
    before: Seq<SnapshotView>,
    after: Seq<SnapshotView>,
    id: usize,
    done: spec_fn(SnapshotView, SnapshotView) -> bool,
) -> bool {
    match r {
        Ok(()) => id < before.len() && only_changed(before, after, id) && done(before[id as int], after[id as int]),
        Err(_) => after == before,
    }
}

/// A store whose keys each hold one value.
#[derive(Debug, Clone, Copy, PartialEq, Eq, Structural)]
pub struct SingleStore {
    pub db: DatabaseImpl,
}

impl SingleStore {
    /// The store over database `db`.
    pub fn new(db: DatabaseImpl) -> (r: SingleStore)
        ensures
            r.db == db,
    {
        SingleStore { db }
    }

    /// The value under `k`, or none if the key is absent.
    pub fn get<R: Readable>(&self, reader: &R, k: &[u8]) -> (r: Result<Option<Value>, StoreError>)
        requires
            all_wf(reader.snapshots()),
        ensures
            opt_value_view(r) == get_result(reader.env_id(), reader.snapshots(), self.db, k@),
    {
        read_key(reader, &self.db, k)
    }

    /// Stores `v` under `k`, replacing what the key held.
    pub fn put(&self, writer: &mut RwTransactionImpl, k: &[u8], v: &Value) -> (r: Result<(), StoreError>)
        requires
            all_wf(old(writer)@),
        ensures
            all_wf(final(writer)@),
            final(writer).env_id() == old(writer).env_id(),
            !owned(old(writer).env_id(), old(writer)@, self.db) <==> r == Err::<(), StoreError>(store_error_of(ErrorImpl::DbIsForeignError)),
            owned(old(writer).env_id(), old(writer)@, self.db) ==> r is Ok,
            write_result(r, old(writer)@, final(writer)@, self.db.id,
                |b: SnapshotView, a: SnapshotView| put_effect(b, a, k@, encoded(v@))),
    {
        assert(0u32 & !(0x10u32 | 0x20u32) == 0) by (bit_vector);
        self.put_with_flags(writer, k, v, WriteFlags::empty())
    }

    /// Stores `v` under `k` with write flags; with `NO_OVERWRITE` a present key is refused.
    pub fn put_with_flags(&self, writer: &mut RwTransactionImpl, k: &[u8], v: &Value, flags: WriteFlags) -> (r: Result<(), StoreError>)
        requires
            all_wf(old(writer)@),
        ensures
            all_wf(final(writer)@),
            final(writer).env_id() == old(writer).env_id(),
            !owned(old(writer).env_id(), old(writer)@, self.db) ==> r == Err::<(), StoreError>(store_error_of(ErrorImpl::DbIsForeignError)),
            owned(old(writer).env_id(), old(writer)@, self.db) && !crate::environment::unsupported_write_flags(flags) ==> (r is Ok
                <==> !crate::environment::put_refused(old(writer)@[self.db.id as int], k@, encoded(v@), flags)),
            owned(old(writer).env_id(), old(writer)@, self.db) && !crate::environment::unsupported_write_flags(flags)
                && crate::environment::put_refused(old(writer)@[self.db.id as int], k@, encoded(v@), flags) ==> r
                == Err::<(), StoreError>(store_error_of(ErrorImpl::KeyExist)),
            write_result(r, old(writer)@, final(writer)@, self.db.id,
                |b: SnapshotView, a: SnapshotView| put_effect(b, a, k@, encoded(v@))),
    {
        let bytes = v.to_bytes();
        match writer.put(&self.db, k, bytes.as_slice(), flags) {
            Ok(()) => Ok(()),
            Err(e) => Err(e.into_store_error()),
        }
    }

    /// Removes the key; fails with `KeyValuePairNotFound` if it is absent.
    pub fn delete(&self, writer: &mut RwTransactionImpl, k: &[u8]) -> (r: Result<(), StoreError>)
        requires
            all_wf(old(writer)@),
        ensures
            all_wf(final(writer)@),
            final(writer).env_id() == old(writer).env_id(),
            !owned(old(writer).env_id(), old(writer)@, self.db) ==> r == Err::<(), StoreError>(store_error_of(ErrorImpl::DbIsForeignError)),
            owned(old(writer).env_id(), old(writer)@, self.db) ==> (r == Err::<(), StoreError>(StoreError::KeyValuePairNotFound)
                <==> !old(writer)@[self.db.id as int].has_key(k@)),
            owned(old(writer).env_id(), old(writer)@, self.db) ==> (r is Ok <==> old(writer)@[self.db.id as int].has_key(k@)),
            write_result(r, old(writer)@, final(writer)@, self.db.id,
                |b: SnapshotView, a: SnapshotView| del_effect(b, a, k@, None)),
    {
        match writer.del(&self.db, k, None) {
            Ok(()) => Ok(()),
            Err(e) => Err(e.into_store_error()),
        }
    }

    /// Iterates over the whole store, by ascending key.
    pub fn iter_start<R: Readable>(&self, reader: &R) -> (r: Result<Iter, StoreError>)
        requires
            all_wf(reader.snapshots()),
        ensures
            !owned(reader.env_id(), reader.snapshots(), self.db) ==> r is Err && r->Err_0 == store_error_of(ErrorImpl::DbIsForeignError),
            owned(reader.env_id(), reader.snapshots(), self.db) ==> r is Ok && r->Ok_0@.pos == 0 && r->Ok_0@.items
                == reader.snapshots()[self.db.id as int].entries,
    {
        match reader.pairs(&self.db, None) {
            Ok(items) => Ok(Iter::new(items)),
            Err(e) => Err(e.into_store_error()),
        }
    }

    /// Iterates by ascending key from the first key not below `k`.
    pub fn iter_from<R: Readable>(&self, reader: &R, k: &[u8]) -> (r: Result<Iter, StoreError>)
        requires
            all_wf(reader.snapshots()),
        ensures
            !owned(reader.env_id(), reader.snapshots(), self.db) ==> r is Err && r->Err_0 == store_error_of(ErrorImpl::DbIsForeignError),
            owned(reader.env_id(), reader.snapshots(), self.db) ==> r is Ok && r->Ok_0@.pos == 0 && r->Ok_0@.items == pairs_from(
                reader.snapshots()[self.db.id as int].entries,
                k@,
            ),
    {
        match reader.pairs(&self.db, Some(k)) {
            Ok(items) => Ok(Iter::new(items)),
            Err(e) => Err(e.into_store_error()),
        }
    }

    /// Removes every key.
    pub fn clear(&self, writer: &mut RwTransactionImpl) -> (r: Result<(), StoreError>)
        requires
            all_wf(old(writer)@),
        ensures
            all_wf(final(writer)@),
            final(writer).env_id() == old(writer).env_id(),
            !owned(old(writer).env_id(), old(writer)@, self.db) <==> r is Err,
            write_result(r, old(writer)@, final(writer)@, self.db.id,
                |b: SnapshotView, a: SnapshotView| a.entries.len() == 0 && a.flags == b.flags),
    {
        match writer.clear_db(&self.db) {
            Ok(()) => Ok(()),
            Err(e) => Err(e.into_store_error()),
        }
    }
}

} // verus!
