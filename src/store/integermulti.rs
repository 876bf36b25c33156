//! Stores keyed by fixed-width integers, each key holding an ordered set of values.
use crate::database::DatabaseImpl;
use crate::environment::{owned, put_refused, unsupported_write_flags, all_wf, del_effect, del_finds, put_effect, Readable, RwTransactionImpl};
use crate::error::{store_error_of, ErrorImpl, StoreError};
use crate::snapshot::{key_is, SnapshotView};
use crate::store::integer::{Key, PrimitiveInt};
use crate::store::multi::MultiStore;
use crate::store::single::write_result;
use crate::store::{get_result, opt_value_view, Iter};
use crate::flags::WriteFlags;
use crate::value::{encoded, Value};
use core::marker::PhantomData;
use vstd::prelude::*;

verus! {

/// A store whose integer keys each hold an ordered set of values.
pub struct MultiIntegerStore<K> {
    inner: MultiStore,
    phantom: PhantomData<K>,
}

impl<K: PrimitiveInt> MultiIntegerStore<K> {
    pub closed spec fn db(&self) -> DatabaseImpl {
        self.inner.db
    }

    /// The store over database `db`.
    pub fn new(db: DatabaseImpl) -> (r: MultiIntegerStore<K>)
        ensures
            r.db() == db,
    {
        MultiIntegerStore { inner: MultiStore::new(db), phantom: PhantomData }
    }

    /// Iterates over the values under `k`, in ascending order.
    pub fn get<R: Readable>(&self, reader: &R, k: K) -> (r: Result<Iter, StoreError>)
        requires
            all_wf(reader.snapshots()),
        ensures
            !owned(reader.env_id(), reader.snapshots(), self.db()) ==> r is Err && r->Err_0 == store_error_of(ErrorImpl::DbIsForeignError),
            owned(reader.env_id(), reader.snapshots(), self.db()) ==> r is Ok && r->Ok_0@.pos == 0 && r->Ok_0@.items
                == reader.snapshots()[self.db().id as int].entries.filter(key_is(k.key_bytes())),
    {
        let key = Key::new(k);
        self.inner.get(reader, key.as_slice())
    }

    /// The smallest value under `k`, or none if the key is absent.
    pub fn get_first<R: Readable>(&self, reader: &R, k: K) -> (r: Result<Option<Value>, StoreError>)
        requires
            all_wf(reader.snapshots()),
        ensures
            opt_value_view(r) == get_result(reader.env_id(), reader.snapshots(), self.db(), k.key_bytes()),
    {
        let key = Key::new(k);
        self.inner.get_first(reader, key.as_slice())
    }

    /// Adds `v` to the values under `k`.
    pub fn put(&self, writer: &mut RwTransactionImpl, k: K, v: &Value) -> (r: Result<(), StoreError>)
        requires
            all_wf(old(writer)@),
        ensures
            all_wf(final(writer)@),
            final(writer).env_id() == old(writer).env_id(),
            !owned(old(writer).env_id(), old(writer)@, self.db()) <==> r == Err::<(), StoreError>(store_error_of(ErrorImpl::DbIsForeignError)),
            owned(old(writer).env_id(), old(writer)@, self.db()) ==> r is Ok,
            write_result(r, old(writer)@, final(writer)@, self.db().id,
                |b: SnapshotView, a: SnapshotView| put_effect(b, a, k.key_bytes(), encoded(v@))),
    {
        let key = Key::new(k);
        self.inner.put(writer, key.as_slice(), v)
    }

    /// Adds `v` under `k` with write flags; with `NO_DUP_DATA` a present pair is refused.
    pub fn put_with_flags(&self, writer: &mut RwTransactionImpl, k: K, v: &Value, flags: WriteFlags) -> (r: Result<
        (),
        StoreError,
    >)
        requires
            all_wf(old(writer)@),
        ensures
            all_wf(final(writer)@),
            final(writer).env_id() == old(writer).env_id(),
            !owned(old(writer).env_id(), old(writer)@, self.db()) ==> r == Err::<(), StoreError>(
                store_error_of(ErrorImpl::DbIsForeignError),
            ),
            owned(old(writer).env_id(), old(writer)@, self.db()) && !unsupported_write_flags(flags) ==> (r is Ok
                <==> !put_refused(old(writer)@[self.db().id as int], k.key_bytes(), encoded(v@), flags)),
            owned(old(writer).env_id(), old(writer)@, self.db()) && !unsupported_write_flags(flags) && put_refused(
                old(writer)@[self.db().id as int],
                k.key_bytes(),
                encoded(v@),
                flags,
            ) ==> r == Err::<(), StoreError>(store_error_of(ErrorImpl::KeyExist)),
            write_result(r, old(writer)@, final(writer)@, self.db().id,
                |b: SnapshotView, a: SnapshotView| put_effect(b, a, k.key_bytes(), encoded(v@))),
    {
        let key = Key::new(k);
        self.inner.put_with_flags(writer, key.as_slice(), v, flags)
    }

    /// Removes every value under `k`; fails with `KeyValuePairNotFound` if the key is absent.
    pub fn delete_all(&self, writer: &mut RwTransactionImpl, k: K) -> (r: Result<(), StoreError>)
        requires
            all_wf(old(writer)@),
        ensures
            all_wf(final(writer)@),
            final(writer).env_id() == old(writer).env_id(),
            !owned(old(writer).env_id(), old(writer)@, self.db()) ==> r == Err::<(), StoreError>(store_error_of(ErrorImpl::DbIsForeignError)),
            owned(old(writer).env_id(), old(writer)@, self.db()) ==> (r is Ok <==> old(writer)@[self.db().id as int].has_key(k.key_bytes())),
            write_result(r, old(writer)@, final(writer)@, self.db().id,
                |b: SnapshotView, a: SnapshotView| del_effect(b, a, k.key_bytes(), None)),
    {
        let key = Key::new(k);
        self.inner.delete_all(writer, key.as_slice())
    }

    /// Removes the value `v` from under `k`; fails with `KeyValuePairNotFound` if it is not there.
    pub fn delete(&self, writer: &mut RwTransactionImpl, k: K, v: &Value) -> (r: Result<(), StoreError>)
        requires
            all_wf(old(writer)@),
        ensures
            all_wf(final(writer)@),
            final(writer).env_id() == old(writer).env_id(),
            !owned(old(writer).env_id(), old(writer)@, self.db()) ==> r == Err::<(), StoreError>(store_error_of(ErrorImpl::DbIsForeignError)),
            owned(old(writer).env_id(), old(writer)@, self.db()) ==> (r is Ok <==> del_finds(
                old(writer)@[self.db().id as int],
                k.key_bytes(),
                Some(encoded(v@)),
            )),
            write_result(r, old(writer)@, final(writer)@, self.db().id,
                |b: SnapshotView, a: SnapshotView| del_effect(b, a, k.key_bytes(), Some(encoded(v@)))),
    {
        let key = Key::new(k);
        self.inner.delete(writer, key.as_slice(), v)
    }
}

} // verus!
