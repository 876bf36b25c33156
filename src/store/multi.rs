//! Stores whose keys each hold an ordered set of values.
use crate::database::DatabaseImpl;
use crate::environment::{owned, all_wf, del_effect, del_finds, put_effect, put_refused, unsupported_write_flags, Readable, RwTransactionImpl};
use crate::error::{store_error_of, ErrorImpl, StoreError};
use crate::flags::WriteFlags;
use crate::snapshot::{key_is, SnapshotView};
use crate::store::single::write_result;
use crate::store::{get_result, opt_value_view, read_key, Iter};
use crate::value::{encoded, Value};
use vstd::prelude::*;

verus! {

/// A store whose keys each hold an ordered set of values.
#[derive(Debug, Clone, Copy, PartialEq, Eq, Structural)]
pub struct MultiStore {
    pub db: DatabaseImpl,
}

impl MultiStore {
    /// The store over database `db`.
    pub fn new(db: DatabaseImpl) -> (r: MultiStore)
        ensures
            r.db == db,
    {
        MultiStore { db }
    }

    /// Iterates over the values under `k`, in ascending order.
    pub fn get<R: Readable>(&self, reader: &R, k: &[u8]) -> (r: Result<Iter, StoreError>)
        requires
            all_wf(reader.snapshots()),
        ensures
            !owned(reader.env_id(), reader.snapshots(), self.db) ==> r is Err && r->Err_0 == store_error_of(ErrorImpl::DbIsForeignError),
            owned(reader.env_id(), reader.snapshots(), self.db) ==> r is Ok && r->Ok_0@.pos == 0 && r->Ok_0@.items
                == reader.snapshots()[self.db.id as int].entries.filter(key_is(k@)),
    {
        match reader.key_pairs(&self.db, k) {
            Ok(items) => Ok(Iter::new(items)),
            Err(e) => Err(e.into_store_error()),
        }
    }

    /// The smallest value under `k`, or none if the key is absent.
    pub fn get_first<R: Readable>(&self, reader: &R, k: &[u8]) -> (r: Result<Option<Value>, StoreError>)
        requires
            all_wf(reader.snapshots()),
        ensures
            opt_value_view(r) == get_result(reader.env_id(), reader.snapshots(), self.db, k@),
    {
        read_key(reader, &self.db, k)
    }

    /// Adds `v` to the values under `k`.
    pub fn put(&self, writer: &mut RwTransactionImpl, k: &[u8], v: &Value) -> (r: Result<(), StoreError>)
        requires
            all_wf(old(writer)@),
        ensures
            all_wf(final(writer)@),
            final(writer).env_id() == old(writer).env_id(),
            !owned(old(writer).env_id(), old(writer)@, self.db) <==> r == Err::<(), StoreError>(store_error_of(ErrorImpl::DbIsForeignError)),
            owned(old(writer).env_id(), old(writer)@, self.db) ==> r is Ok,
            write_result(r, old(writer)@, final(writer)@, self.db.id,
                |b: SnapshotView, a: SnapshotView| put_effect(b, a, k@, encoded(v@))),
    {
        assert(0u32 & !(0x10u32 | 0x20u32) == 0) by (bit_vector);
        self.put_with_flags(writer, k, v, WriteFlags::empty())
    }

    /// Adds `v` under `k` with write flags; with `NO_DUP_DATA` a present pair is refused.
    pub fn put_with_flags(&self, writer: &mut RwTransactionImpl, k: &[u8], v: &Value, flags: WriteFlags) -> (r: Result<(), StoreError>)
        requires
            all_wf(old(writer)@),
        ensures
            all_wf(final(writer)@),
            final(writer).env_id() == old(writer).env_id(),
            !owned(old(writer).env_id(), old(writer)@, self.db) ==> r == Err::<(), StoreError>(store_error_of(ErrorImpl::DbIsForeignError)),
            owned(old(writer).env_id(), old(writer)@, self.db) && !unsupported_write_flags(flags) ==> (r is Ok <==> !put_refused(
                old(writer)@[self.db.id as int],
                k@,
                encoded(v@),
                flags,
            )),
            owned(old(writer).env_id(), old(writer)@, self.db) && !unsupported_write_flags(flags) && put_refused(
                old(writer)@[self.db.id as int],
                k@,
                encoded(v@),
                flags,
            ) ==> r == Err::<(), StoreError>(store_error_of(ErrorImpl::KeyExist)),
            write_result(r, old(writer)@, final(writer)@, self.db.id,
                |b: SnapshotView, a: SnapshotView| put_effect(b, a, k@, encoded(v@))),
    {
        let bytes = v.to_bytes();
        match writer.put(&self.db, k, bytes.as_slice(), flags) {
            Ok(()) => Ok(()),
            Err(e) => Err(e.into_store_error()),
        }
    }

    /// Removes every value under `k`; fails with `KeyValuePairNotFound` if the key is absent.
    pub fn delete_all(&self, writer: &mut RwTransactionImpl, k: &[u8]) -> (r: Result<(), StoreError>)
        requires
            all_wf(old(writer)@),
        ensures
            all_wf(final(writer)@),
            final(writer).env_id() == old(writer).env_id(),
            !owned(old(writer).env_id(), old(writer)@, self.db) ==> r == Err::<(), StoreError>(store_error_of(ErrorImpl::DbIsForeignError)),
            owned(old(writer).env_id(), old(writer)@, self.db) ==> (r is Ok <==> old(writer)@[self.db.id as int].has_key(k@)),
            owned(old(writer).env_id(), old(writer)@, self.db) && !old(writer)@[self.db.id as int].has_key(k@) ==> r == Err::<
                (),
                StoreError,
            >(StoreError::KeyValuePairNotFound),
            write_result(r, old(writer)@, final(writer)@, self.db.id,
                |b: SnapshotView, a: SnapshotView| del_effect(b, a, k@, None)),
    {
        match writer.del(&self.db, k, None) {
            Ok(()) => Ok(()),
            Err(e) => Err(e.into_store_error()),
        }
    }

    /// Removes the value `v` from under `k`; fails with `KeyValuePairNotFound` if it is not there.
    pub fn delete(&self, writer: &mut RwTransactionImpl, k: &[u8], v: &Value) -> (r: Result<(), StoreError>)
        requires
            all_wf(old(writer)@),
        ensures
            all_wf(final(writer)@),
            final(writer).env_id() == old(writer).env_id(),
            !owned(old(writer).env_id(), old(writer)@, self.db) ==> r == Err::<(), StoreError>(store_error_of(ErrorImpl::DbIsForeignError)),
            owned(old(writer).env_id(), old(writer)@, self.db) ==> (r is Ok <==> del_finds(
                old(writer)@[self.db.id as int],
                k@,
                Some(encoded(v@)),
            )),
            owned(old(writer).env_id(), old(writer)@, self.db) && !del_finds(old(writer)@[self.db.id as int], k@, Some(encoded(v@)))
                ==> r == Err::<(), StoreError>(StoreError::KeyValuePairNotFound),
            write_result(r, old(writer)@, final(writer)@, self.db.id,
                |b: SnapshotView, a: SnapshotView| del_effect(b, a, k@, Some(encoded(v@)))),
    {
        let bytes = v.to_bytes();
        match writer.del(&self.db, k, Some(bytes.as_slice())) {
            Ok(()) => Ok(()),
            Err(e) => Err(e.into_store_error()),
        }
    }
}

} // verus!
