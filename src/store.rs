//! Typed stores over the databases of an environment.
use crate::database::DatabaseImpl;
use crate::environment::{all_wf, owned, Readable};
use crate::error::{store_error_of, ErrorImpl, StoreError};
use crate::flags::DatabaseFlags;
use crate::snapshot::{entries_view, values_of, PairView, SnapshotView};
use crate::value::{decoded, Value, ValueView};
use vstd::prelude::*;

pub mod integer;
pub mod integermulti;
pub mod multi;
pub mod single;

verus! {

/// How a store is opened: created if missing, and with which flags.
#[derive(Debug, Clone, Copy, PartialEq, Eq, Structural)]
pub struct Options {
    pub create: bool,
    pub flags: DatabaseFlags,
}

impl Options {
    /// Create the store if it is missing, with no flag.
    pub fn create() -> (r: Options)
        ensures
            r.create,
            r.flags.bits == 0,
    {
        Options { create: true, flags: DatabaseFlags::empty() }
    }

    /// Open the store only if it exists.
    pub fn open() -> (r: Options)
        ensures
            !r.create,
            r.flags.bits == 0,
    {
        Options { create: false, flags: DatabaseFlags::empty() }
    }
}

/// What a stored byte string reads as: its decoded value, or the decoding error.
pub open spec fn read_value(b: Seq<u8>) -> Result<Option<ValueView>, StoreError> {
    match decoded(b) {
        Ok(v) => Ok(Some(v)),
        Err(e) => Err(StoreError::DataError(e)),
    }
}

pub open spec fn opt_value_view(r: Result<Option<Value>, StoreError>) -> Result<Option<ValueView>, StoreError> {
    match r {
        Ok(Some(v)) => Ok(Some(v@)),
        Ok(None) => Ok(None),
        Err(e) => Err(e),
    }
}

/// What reading key `k` of database `db` gives, through a transaction of
/// environment `env`: the smallest value under the
/// key, decoded, or none when the key is absent.
pub open spec fn get_result(env: u64, snapshots: Seq<SnapshotView>, db: DatabaseImpl, k: Seq<u8>) -> Result<
    Option<ValueView>,
    StoreError,
> {
    if !owned(env, snapshots, db) {
        Err(store_error_of(ErrorImpl::DbIsForeignError))
    } else {
        let vs = values_of(snapshots[db.id as int].entries, k);
        if vs.len() == 0 {
            Ok(None)
        } else {
            read_value(vs[0])
        }
    }
}

/// Turns the raw outcome of a lookup into a value: a missing pair is no value.
pub fn read_transform(val: Result<&[u8], ErrorImpl>) -> (r: Result<Option<Value>, StoreError>)
    ensures
        opt_value_view(r) == match val {
            Ok(b) => read_value(b@),
            Err(ErrorImpl::KeyValuePairNotFound) => Ok(None),
            Err(e) => Err(store_error_of(e)),
        },
{
    match val {
        Ok(bytes) => {
            let d = Value::from_tagged_slice(bytes);
            match d {
                Ok(v) => Ok(Some(v)),
                Err(e) => Err(StoreError::DataError(e)),
            }
        },
        Err(ErrorImpl::KeyValuePairNotFound) => Ok(None),
        Err(e) => Err(e.into_store_error()),
    }
}

/// Reads key `k` of database `db` through a transaction.
pub fn read_key<R: Readable>(reader: &R, db: &DatabaseImpl, k: &[u8]) -> (r: Result<Option<Value>, StoreError>)
    requires
        all_wf(reader.snapshots()),
    ensures
        opt_value_view(r) == get_result(reader.env_id(), reader.snapshots(), *db, k@),
{
    read_transform(reader.get(db, k))
}

/// The items of an iterator: each key with its decoded value.
pub struct IterView {
    pub items: Seq<PairView>,
    pub pos: nat,
}

/// Pairs of a store, handed out one at a time with their values decoded.
pub struct Iter {
    items: Vec<(Vec<u8>, Vec<u8>)>,
    pos: usize,
}

pub open spec fn item_view(r: Result<(Vec<u8>, Option<Value>), StoreError>) -> Result<(Seq<u8>, Option<ValueView>), StoreError> {
    match r {
        Ok((k, Some(v))) => Ok((k@, Some(v@))),
        Ok((k, None)) => Ok((k@, None)),
        Err(e) => Err(e),
    }
}

/// What the iterator hands out for a stored pair.
pub open spec fn item_result(p: PairView) -> Result<(Seq<u8>, Option<ValueView>), StoreError> {
    match read_value(p.1) {
        Ok(v) => Ok((p.0, v)),
        Err(e) => Err(e),
    }
}

impl View for Iter {
    type V = IterView;

    closed spec fn view(&self) -> IterView {
        IterView { items: entries_view(self.items@), pos: self.pos as nat }
    }
}

impl Iter {
    /// An iterator over the given pairs, from the first.
    pub fn new(items: Vec<(Vec<u8>, Vec<u8>)>) -> (r: Iter)
        ensures
            r@.items == entries_view(items@),
            r@.pos == 0,
    {
        Iter { items, pos: 0 }
    }

    /// The next pair, with its value decoded; none once every pair was handed out.
    pub fn next(&mut self) -> (r: Option<Result<(Vec<u8>, Option<Value>), StoreError>>)
        ensures
            final(self)@.items == old(self)@.items,
            old(self)@.pos >= old(self)@.items.len() ==> r is None && final(self)@.pos == old(self)@.pos,
            old(self)@.pos < old(self)@.items.len() ==> r is Some && item_view(r->Some_0) == item_result(
                old(self)@.items[old(self)@.pos as int],
            ) && final(self)@.pos == old(self)@.pos + 1,
    {
        if self.pos >= self.items.len() {
            return None;
        }
        let i = self.pos;
        let key = crate::snapshot::copy_bytes(self.items[i].0.as_slice());
        let value = read_transform(Ok(self.items[i].1.as_slice()));
        self.pos = self.pos + 1;
        match value {
            Ok(v) => Some(Ok((key, v))),
            Err(e) => Some(Err(e)),
        }
    }
}

} // verus!
