//! Stores keyed by fixed-width integers.
use crate::database::DatabaseImpl;
use crate::environment::{owned, all_wf, del_effect, put_effect, Readable, RwTransactionImpl};
use crate::error::{store_error_of, ErrorImpl, StoreError};
use crate::snapshot::SnapshotView;
use crate::store::single::{write_result, SingleStore};
use crate::store::{get_result, opt_value_view};
use crate::value::{encoded, Value};
use core::marker::PhantomData;
use vstd::bytes::*;
use vstd::prelude::*;

verus! {

/// A key that has a fixed byte encoding.
pub trait EncodableKey {
    spec fn key_bytes(&self) -> Seq<u8>;

    /// The encoded key.
    fn to_bytes(&self) -> (r: Vec<u8>)
        ensures
            r@ == self.key_bytes(),
    ;
}

/// The integer types a store can be keyed by.
pub trait PrimitiveInt: EncodableKey {

}

impl EncodableKey for u32 {
    /// Four little-endian bytes.
    open spec fn key_bytes(&self) -> Seq<u8> {
        spec_u32_to_le_bytes(*self)
    }

    fn to_bytes(&self) -> (r: Vec<u8>) {
        u32_to_le_bytes(*self)
    }
}

impl PrimitiveInt for u32 {

}

/// An encoded key of type `K`.
pub struct Key<K> {
    bytes: Vec<u8>,
    phantom: PhantomData<K>,
}

impl<K: EncodableKey> Key<K> {
    pub closed spec fn bytes_view(&self) -> Seq<u8> {
        self.bytes@
    }

    /// Encodes `k`.
    pub fn new(k: K) -> (r: Key<K>)
        ensures
            r.bytes_view() == k.key_bytes(),
    {
        Key { bytes: k.to_bytes(), phantom: PhantomData }
    }

    /// The encoded bytes.
    pub fn as_slice(&self) -> (r: &[u8])
        ensures
            r@ == self.bytes_view(),
    {
        self.bytes.as_slice()
    }
}

/// A store with one value per integer key.
pub struct IntegerStore<K> {
    inner: SingleStore,
    phantom: PhantomData<K>,
}

impl<K: PrimitiveInt> IntegerStore<K> {
    pub closed spec fn db(&self) -> DatabaseImpl {
        self.inner.db
    }

    /// The store over database `db`.
    pub fn new(db: DatabaseImpl) -> (r: IntegerStore<K>)
        ensures
            r.db() == db,
    {
        IntegerStore { inner: SingleStore::new(db), phantom: PhantomData }
    }

    /// The value under `k`, or none if the key is absent.
    pub fn get<R: Readable>(&self, reader: &R, k: K) -> (r: Result<Option<Value>, StoreError>)
        requires
            all_wf(reader.snapshots()),
        ensures
            opt_value_view(r) == get_result(reader.env_id(), reader.snapshots(), self.db(), k.key_bytes()),
    {
        let key = Key::new(k);
        self.inner.get(reader, key.as_slice())
    }

    /// Stores `v` under `k`, replacing what the key held.
    pub fn put(&self, writer: &mut RwTransactionImpl, k: K, v: &Value) -> (r: Result<(), StoreError>)
        requires
            all_wf(old(writer)@),
        ensures
            all_wf(final(writer)@),
            final(writer).env_id() == old(writer).env_id(),
            !owned(old(writer).env_id(), old(writer)@, self.db()) <==> r == Err::<(), StoreError>(store_error_of(ErrorImpl::DbIsForeignError)),
            owned(old(writer).env_id(), old(writer)@, self.db()) ==> r is Ok,
            write_result(r, old(writer)@, final(writer)@, self.db().id,
                |b: SnapshotView, a: SnapshotView| put_effect(b, a, k.key_bytes(), encoded(v@))),
    {
        let key = Key::new(k);
        self.inner.put(writer, key.as_slice(), v)
    }

    /// Removes the key; fails with `KeyValuePairNotFound` if it is absent.
    pub fn delete(&self, writer: &mut RwTransactionImpl, k: K) -> (r: Result<(), StoreError>)
        requires
            all_wf(old(writer)@),
        ensures
            all_wf(final(writer)@),
            final(writer).env_id() == old(writer).env_id(),
            !owned(old(writer).env_id(), old(writer)@, self.db()) ==> r == Err::<(), StoreError>(store_error_of(ErrorImpl::DbIsForeignError)),
            owned(old(writer).env_id(), old(writer)@, self.db()) ==> (r is Ok <==> old(writer)@[self.db().id as int].has_key(k.key_bytes())),
            write_result(r, old(writer)@, final(writer)@, self.db().id,
                |b: SnapshotView, a: SnapshotView| del_effect(b, a, k.key_bytes(), None)),
    {
        let key = Key::new(k);
        self.inner.delete(writer, key.as_slice())
    }
}

} // verus!
