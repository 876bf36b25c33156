//! The safe-mode environment: named databases, read and write transactions.
use crate::database::{Database, DatabaseImpl};
use crate::error::ErrorImpl;
use crate::flags::{DatabaseFlags, WriteFlags, NO_DUP_DATA_BIT, NO_OVERWRITE_BIT};
use crate::order::equal_bytes;
use crate::snapshot::{
    entries_view, key_is, lemma_filter_sorted, lemma_pair_lt_irrefl, pairs_from, values_of, value_part, PairView, Snapshot,
    SnapshotView,
};
use std::sync::Arc;
use vstd::prelude::*;
use vstd::utf8::*;

verus! {

broadcast use vstd::utf8::encode_utf8_decode_utf8;

pub open spec fn name_of_str(n: Option<&str>) -> Option<Seq<char>> {
    match n {
        Some(s) => Some(s@),
        None => None,
    }
}

pub open spec fn name_of_string(n: Option<String>) -> Option<Seq<char>> {
    match n {
        Some(s) => Some(s@),
        None => None,
    }
}

/// Whether two database names are the same.
fn same_name(a: &Option<String>, b: Option<&str>) -> (r: bool)
    ensures
        r == (name_of_string(*a) == name_of_str(b)),
{
    match (a, b) {
        (Some(x), Some(y)) => {
            let xs = x.as_str();
            let eq = equal_bytes(xs.as_bytes(), y.as_bytes());
            proof {
                if eq {
                    assert(decode_utf8(encode_utf8(xs@)) == xs@);
                    assert(decode_utf8(encode_utf8(y@)) == y@);
                }
            }
            eq
        },
        (None, None) => true,
        _ => false,
    }
}

fn owned_name(n: Option<&str>) -> (r: Option<String>)
    ensures
        name_of_string(r) == name_of_str(n),
{
    match n {
        Some(s) => Some(s.to_owned()),
        None => None,
    }
}

/// What a put leaves in a snapshot: in a database with several values per
/// key the pair is added, in any other it replaces the key's values.
pub open spec fn put_effect(before: SnapshotView, after: SnapshotView, k: Seq<u8>, v: Seq<u8>) -> bool {
    &&& after.wf()
    &&& after.flags == before.flags
    &&& forall|a: Seq<u8>, b: Seq<u8>| #[trigger]
        after.contains(a, b) <==> if before.flags.spec_dup_sort() {
            before.contains(a, b) || (a == k && b == v)
        } else {
            (before.contains(a, b) && a != k) || (a == k && b == v)
        }
}

/// What a delete leaves in a snapshot: the one pair when a value is given in a
/// database with several values per key, else every pair under the key.
pub open spec fn del_effect(before: SnapshotView, after: SnapshotView, k: Seq<u8>, v: Option<Seq<u8>>) -> bool {
    &&& after.wf()
    &&& after.flags == before.flags
    &&& forall|a: Seq<u8>, b: Seq<u8>| #[trigger]
        after.contains(a, b) <==> match v {
            Some(w) if before.flags.spec_dup_sort() => before.contains(a, b) && !(a == k && b == w),
            _ => before.contains(a, b) && a != k,
        }
}

/// Whether a delete finds something to remove.
pub open spec fn del_finds(before: SnapshotView, k: Seq<u8>, v: Option<Seq<u8>>) -> bool {
    match v {
        Some(w) if before.flags.spec_dup_sort() => before.contains(k, w),
        _ => before.has_key(k),
    }
}

/// Whether a put with these flags is refused because of what is present.
pub open spec fn put_refused(before: SnapshotView, k: Seq<u8>, v: Seq<u8>, flags: WriteFlags) -> bool {
    (flags.spec_no_overwrite() && before.has_key(k)) || (flags.spec_no_dup_data() && before.contains(k, v))
}

/// Whether write flags hold a bit this engine does not handle.
pub open spec fn unsupported_write_flags(flags: WriteFlags) -> bool {
    flags.bits & !(NO_OVERWRITE_BIT | NO_DUP_DATA_BIT) != 0
}

/// What reading the pairs of a database returns: all of them, or those from a key on.
pub open spec fn pairs_view(s: SnapshotView, from: Option<Seq<u8>>) -> Seq<(Seq<u8>, Seq<u8>)> {
    match from {
        Some(k) => pairs_from(s.entries, k),
        None => s.entries,
    }
}

pub open spec fn opt_bytes(k: Option<&[u8]>) -> Option<Seq<u8>> {
    match k {
        Some(b) => Some(b@),
        None => None,
    }
}

/// Whether database `db` belongs to the environment `env` whose databases
/// `snapshots` holds.
pub open spec fn owned(env: u64, snapshots: Seq<SnapshotView>, db: DatabaseImpl) -> bool {
    db.env == env && db.id < snapshots.len()
}

/// Read access to the snapshots a transaction holds, one per database.
pub trait Readable {
    /// The snapshots, one per database of the environment.
    spec fn snapshots(&self) -> Seq<SnapshotView>;

    /// The identity of the environment the transaction was begun on.
    spec fn env_id(&self) -> u64;

    /// The smallest value under key `k` in database `db`.
    fn get(&self, db: &DatabaseImpl, k: &[u8]) -> (r: Result<&[u8], ErrorImpl>)
        requires
            all_wf(self.snapshots()),
        ensures
            !owned(self.env_id(), self.snapshots(), *db) ==> r == Err::<&[u8], ErrorImpl>(ErrorImpl::DbIsForeignError),
            owned(self.env_id(), self.snapshots(), *db) ==> match r {
                Ok(v) => values_of(self.snapshots()[db.id as int].entries, k@).len() > 0 && v@ == values_of(
                    self.snapshots()[db.id as int].entries,
                    k@,
                )[0],
                Err(e) => e == ErrorImpl::KeyValuePairNotFound && values_of(
                    self.snapshots()[db.id as int].entries,
                    k@,
                ).len() == 0,
            },
    ;

    /// Copies of the pairs of database `db` in ascending order, from key `from` on if one is given.
    fn pairs(&self, db: &DatabaseImpl, from: Option<&[u8]>) -> (r: Result<Vec<(Vec<u8>, Vec<u8>)>, ErrorImpl>)
        requires
            all_wf(self.snapshots()),
        ensures
            !owned(self.env_id(), self.snapshots(), *db) ==> r is Err && r->Err_0 == ErrorImpl::DbIsForeignError,
            owned(self.env_id(), self.snapshots(), *db) ==> r is Ok && entries_view(r->Ok_0@) == pairs_view(
                self.snapshots()[db.id as int],
                opt_bytes(from),
            ) && self.snapshots()[db.id as int].wf(),
    ;

    /// Copies of the pairs under key `k` in database `db`, by ascending value.
    fn key_pairs(&self, db: &DatabaseImpl, k: &[u8]) -> (r: Result<Vec<(Vec<u8>, Vec<u8>)>, ErrorImpl>)
        requires
            all_wf(self.snapshots()),
        ensures
            !owned(self.env_id(), self.snapshots(), *db) ==> r is Err && r->Err_0 == ErrorImpl::DbIsForeignError,
            owned(self.env_id(), self.snapshots(), *db) ==> r is Ok && entries_view(r->Ok_0@) == self.snapshots()[db.id as int].entries.filter(
                key_is(k@),
            ),
    ;
}

/// `after` differs from `before` at most at position `id`.
pub open spec fn only_changed(before: Seq<SnapshotView>, after: Seq<SnapshotView>, id: usize) -> bool {
    &&& after.len() == before.len()
    &&& forall|j: int| 0 <= j < before.len() && j != id ==> #[trigger] after[j] == before[j]
}

/// Every snapshot is strictly ascending.
pub open spec fn all_wf(s: Seq<SnapshotView>) -> bool {
    forall|i: int| 0 <= i < s.len() ==> #[trigger] s[i].wf()
}

pub open spec fn shared_view(s: Seq<Arc<Snapshot>>) -> Seq<SnapshotView> {
    s.map_values(|x: Arc<Snapshot>| x@)
}

/// The snapshot of database `db` among `views`, found or not.
pub open spec fn found(env: u64, views: Seq<SnapshotView>, db: &DatabaseImpl, s: Option<&Snapshot>) -> bool {
    match s {
        Some(x) => owned(env, views, *db) && x@ == views[db.id as int] && x@.wf(),
        None => !owned(env, views, *db),
    }
}

fn read_get<'a>(s: Option<&'a Snapshot>, k: &[u8]) -> (r: Result<&'a [u8], ErrorImpl>)
    requires
        s matches Some(x) ==> x@.wf(),
    ensures
        s is None ==> r == Err::<&[u8], ErrorImpl>(ErrorImpl::DbIsForeignError),
        s matches Some(x) ==> match r {
            Ok(v) => values_of(x@.entries, k@).len() > 0 && v@ == values_of(x@.entries, k@)[0],
            Err(e) => e == ErrorImpl::KeyValuePairNotFound && values_of(x@.entries, k@).len() == 0,
        },
{
    match s {
        None => Err(ErrorImpl::DbIsForeignError),
        Some(x) => match x.get(k) {
            Some(v) => Ok(v),
            None => Err(ErrorImpl::KeyValuePairNotFound),
        },
    }
}

fn read_pairs(s: Option<&Snapshot>, from: Option<&[u8]>) -> (r: Result<Vec<(Vec<u8>, Vec<u8>)>, ErrorImpl>)
    requires
        s matches Some(x) ==> x@.wf(),
    ensures
        s is None ==> r is Err && r->Err_0 == ErrorImpl::DbIsForeignError,
        s matches Some(x) ==> r is Ok && entries_view(r->Ok_0@) == pairs_view(x@, opt_bytes(from)),
{
    match s {
        None => Err(ErrorImpl::DbIsForeignError),
        Some(x) => match from {
            Some(k) => Ok(x.pairs_from(k)),
            None => Ok(x.pairs()),
        },
    }
}

fn read_key_pairs(s: Option<&Snapshot>, k: &[u8]) -> (r: Result<Vec<(Vec<u8>, Vec<u8>)>, ErrorImpl>)
    requires
        s matches Some(x) ==> x@.wf(),
    ensures
        s is None ==> r is Err && r->Err_0 == ErrorImpl::DbIsForeignError,
        s matches Some(x) ==> r is Ok && entries_view(r->Ok_0@) == x@.entries.filter(key_is(k@)),
{
    match s {
        None => Err(ErrorImpl::DbIsForeignError),
        Some(x) => Ok(x.pairs_with_key(k)),
    }
}

/// A read transaction: every database's snapshot as it was when it began,
/// shared with the environment.
pub struct RoTransactionImpl {
    env: u64,
    snapshots: Vec<Arc<Snapshot>>,
}

impl RoTransactionImpl {
    fn at(&self, db: &DatabaseImpl) -> (r: Option<&Snapshot>)
        requires
            all_wf(self@),
        ensures
            found(self.env, self@, db, r),
    {
        if db.env == self.env && db.id < self.snapshots.len() {
            assert(self@[db.id as int] == self.snapshots@[db.id as int]@);
            Some(&*self.snapshots[db.id])
        } else {
            None
        }
    }
}

impl View for RoTransactionImpl {
    type V = Seq<SnapshotView>;

    closed spec fn view(&self) -> Seq<SnapshotView> {
        shared_view(self.snapshots@)
    }
}

impl Readable for RoTransactionImpl {
    open spec fn snapshots(&self) -> Seq<SnapshotView> {
        self@
    }

    closed spec fn env_id(&self) -> u64 {
        self.env
    }

    fn get(&self, db: &DatabaseImpl, k: &[u8]) -> (r: Result<&[u8], ErrorImpl>) {
        read_get(self.at(db), k)
    }

    fn pairs(&self, db: &DatabaseImpl, from: Option<&[u8]>) -> (r: Result<Vec<(Vec<u8>, Vec<u8>)>, ErrorImpl>) {
        read_pairs(self.at(db), from)
    }

    fn key_pairs(&self, db: &DatabaseImpl, k: &[u8]) -> (r: Result<Vec<(Vec<u8>, Vec<u8>)>, ErrorImpl>) {
        read_key_pairs(self.at(db), k)
    }
}

/// A database as a write transaction holds it: still the snapshot it began
/// on, shared with the environment, or its own copy once written to.
pub enum Working {
    Shared(Arc<Snapshot>),
    Own(Snapshot),
}

impl View for Working {
    type V = SnapshotView;

    open spec fn view(&self) -> SnapshotView {
        match self {
            Working::Shared(a) => a@,
            Working::Own(s) => s@,
        }
    }
}

pub open spec fn working_view(s: Seq<Working>) -> Seq<SnapshotView> {
    s.map_values(|w: Working| w@)
}

/// A write transaction: every database's snapshot, copied on the first write to it.
pub struct RwTransactionImpl {
    env: u64,
    snapshots: Vec<Working>,
}

impl RwTransactionImpl {
    fn at(&self, db: &DatabaseImpl) -> (r: Option<&Snapshot>)
        requires
            all_wf(self@),
        ensures
            found(self.env, self@, db, r),
    {
        if db.env == self.env && db.id < self.snapshots.len() {
            assert(self@[db.id as int] == self.snapshots@[db.id as int]@);
            match &self.snapshots[db.id] {
                Working::Shared(a) => Some(&**a),
                Working::Own(s) => Some(s),
            }
        } else {
            None
        }
    }

    /// Takes database `i` out for writing, as a copy of its own.
    fn take(&mut self, i: usize) -> (r: Snapshot)
        requires
            i < old(self)@.len(),
        ensures
            r@ == old(self)@[i as int],
            final(self).env == old(self).env,
            final(self)@.len() == old(self)@.len(),
            forall|j: int| 0 <= j < old(self)@.len() && j != i ==> #[trigger] final(self)@[j] == old(self)@[j],
    {
        let ghost before = self@;
        let flags = match &self.snapshots[i] {
            Working::Shared(a) => a.flags(),
            Working::Own(s) => s.flags(),
        };
        let mut taken = Working::Own(Snapshot::new(flags));
        core::mem::swap(&mut self.snapshots[i], &mut taken);
        assert forall|j: int| 0 <= j < before.len() && j != i implies #[trigger] self@[j] == before[j] by {}
        match taken {
            Working::Shared(a) => (*a).duplicate(),
            Working::Own(s) => s,
        }
    }

    /// Puts database `i` back after writing.
    fn restore(&mut self, i: usize, s: Snapshot)
        requires
            i < old(self)@.len(),
        ensures
            final(self).env == old(self).env,
            final(self)@ == old(self)@.update(i as int, s@),
    {
        let ghost before = self@;
        self.snapshots.set(i, Working::Own(s));
        assert(self@ =~= before.update(i as int, s@));
    }
}

impl View for RwTransactionImpl {
    type V = Seq<SnapshotView>;

    closed spec fn view(&self) -> Seq<SnapshotView> {
        working_view(self.snapshots@)
    }
}

impl Readable for RwTransactionImpl {
    open spec fn snapshots(&self) -> Seq<SnapshotView> {
        self@
    }

    closed spec fn env_id(&self) -> u64 {
        self.env
    }

    fn get(&self, db: &DatabaseImpl, k: &[u8]) -> (r: Result<&[u8], ErrorImpl>) {
        read_get(self.at(db), k)
    }

    fn pairs(&self, db: &DatabaseImpl, from: Option<&[u8]>) -> (r: Result<Vec<(Vec<u8>, Vec<u8>)>, ErrorImpl>) {
        read_pairs(self.at(db), from)
    }

    fn key_pairs(&self, db: &DatabaseImpl, k: &[u8]) -> (r: Result<Vec<(Vec<u8>, Vec<u8>)>, ErrorImpl>) {
        read_key_pairs(self.at(db), k)
    }
}

impl RwTransactionImpl {
    /// Stores `v` under `k` in database `db`.
    pub fn put(&mut self, db: &DatabaseImpl, k: &[u8], v: &[u8], flags: WriteFlags) -> (r: Result<(), ErrorImpl>)
        requires
            all_wf(old(self)@),
        ensures
            all_wf(final(self)@),
            final(self).env_id() == old(self).env_id(),
            !owned(old(self).env_id(), old(self)@, *db) ==> r == Err::<(), ErrorImpl>(ErrorImpl::DbIsForeignError),
            owned(old(self).env_id(), old(self)@, *db) && unsupported_write_flags(flags) ==> r == Err::<(), ErrorImpl>(
                ErrorImpl::UnsupportedFlags,
            ),
            owned(old(self).env_id(), old(self)@, *db) && !unsupported_write_flags(flags) && put_refused(
                old(self)@[db.id as int],
                k@,
                v@,
                flags,
            ) ==> r == Err::<(), ErrorImpl>(ErrorImpl::KeyExist),
            (r is Ok) <==> (owned(old(self).env_id(), old(self)@, *db) && !unsupported_write_flags(flags) && !put_refused(
                old(self)@[db.id as int],
                k@,
                v@,
                flags,
            )),
            r is Err ==> final(self)@ == old(self)@,
            r is Ok ==> {
                &&& owned(old(self).env_id(), old(self)@, *db)
                &&& !unsupported_write_flags(flags)
                &&& !put_refused(old(self)@[db.id as int], k@, v@, flags)
                &&& final(self)@.len() == old(self)@.len()
                &&& forall|j: int| 0 <= j < old(self)@.len() && j != db.id ==> #[trigger] final(self)@[j] == old(self)@[j]
                &&& put_effect(old(self)@[db.id as int], final(self)@[db.id as int], k@, v@)
            },
    {
        if db.env != self.env || db.id >= self.snapshots.len() {
            return Err(ErrorImpl::DbIsForeignError);
        }
        if flags.bits & !(NO_OVERWRITE_BIT | NO_DUP_DATA_BIT) != 0 {
            return Err(ErrorImpl::UnsupportedFlags);
        }
        let i = db.id;
        let present = match self.at(db) {
            Some(s) => (flags.is_no_overwrite() && s.get(k).is_some()) || (flags.is_no_dup_data() && s.contains_pair(
                k,
                v,
            )),
            None => false,
        };
        if present {
            return Err(ErrorImpl::KeyExist);
        }
        let ghost before = self@;
        let mut s = self.take(i);
        if s.flags().is_dup_sort() {
            s.put_dup(k, v);
        } else {
            s.put_one(k, v);
        }
        self.restore(i, s);
        assert forall|j: int| 0 <= j < before.len() && j != i implies #[trigger] self@[j] == before[j] by {}
        assert forall|j: int| 0 <= j < self@.len() implies #[trigger] self@[j].wf() by {
            if j != i {
                assert(self@[j] == before[j]);
            }
        }
        Ok(())
    }

    /// Removes from database `db` the pair `(k, v)` when `v` is given and the
    /// database keeps several values per key, else every pair under `k`.
    pub fn del(&mut self, db: &DatabaseImpl, k: &[u8], v: Option<&[u8]>) -> (r: Result<(), ErrorImpl>)
        requires
            all_wf(old(self)@),
        ensures
            all_wf(final(self)@),
            final(self).env_id() == old(self).env_id(),
            !owned(old(self).env_id(), old(self)@, *db) ==> r == Err::<(), ErrorImpl>(ErrorImpl::DbIsForeignError),
            owned(old(self).env_id(), old(self)@, *db) && !del_finds(old(self)@[db.id as int], k@, opt_bytes(v)) ==> r == Err::<
                (),
                ErrorImpl,
            >(ErrorImpl::KeyValuePairNotFound),
            (r is Ok) <==> (owned(old(self).env_id(), old(self)@, *db) && del_finds(old(self)@[db.id as int], k@, opt_bytes(v))),
            r is Err ==> final(self)@ == old(self)@,
            r is Ok ==> {
                &&& owned(old(self).env_id(), old(self)@, *db)
                &&& del_finds(old(self)@[db.id as int], k@, opt_bytes(v))
                &&& final(self)@.len() == old(self)@.len()
                &&& forall|j: int| 0 <= j < old(self)@.len() && j != db.id ==> #[trigger] final(self)@[j] == old(self)@[j]
                &&& del_effect(old(self)@[db.id as int], final(self)@[db.id as int], k@, opt_bytes(v))
            },
    {
        if db.env != self.env || db.id >= self.snapshots.len() {
            return Err(ErrorImpl::DbIsForeignError);
        }
        let i = db.id;
        let ghost before = self@;
        let finds = match self.at(db) {
            Some(s) => match v {
                Some(w) if s.flags().is_dup_sort() => s.contains_pair(k, w),
                _ => s.get(k).is_some(),
            },
            None => false,
        };
        if !finds {
            return Err(ErrorImpl::KeyValuePairNotFound);
        }
        let mut s = self.take(i);
        let dup = s.flags().is_dup_sort();
        let _ = match v {
            Some(w) if dup => s.del_exact(k, w),
            _ => s.del_all(k),
        };
        self.restore(i, s);
        assert forall|j: int| 0 <= j < before.len() && j != i implies #[trigger] self@[j] == before[j] by {}
        assert forall|j: int| 0 <= j < self@.len() implies #[trigger] self@[j].wf() by {
            if j != i {
                assert(self@[j] == before[j]);
            }
        }
        Ok(())
    }

    /// Removes every pair of database `db`.
    pub fn clear_db(&mut self, db: &DatabaseImpl) -> (r: Result<(), ErrorImpl>)
        requires
            all_wf(old(self)@),
        ensures
            all_wf(final(self)@),
            final(self).env_id() == old(self).env_id(),
            !owned(old(self).env_id(), old(self)@, *db) ==> r == Err::<(), ErrorImpl>(ErrorImpl::DbIsForeignError),
            (r is Ok) <==> owned(old(self).env_id(), old(self)@, *db),
            r is Err ==> final(self)@ == old(self)@,
            r is Ok ==> {
                &&& owned(old(self).env_id(), old(self)@, *db)
                &&& final(self)@.len() == old(self)@.len()
                &&& forall|j: int| 0 <= j < old(self)@.len() && j != db.id ==> #[trigger] final(self)@[j] == old(self)@[j]
                &&& final(self)@[db.id as int].entries.len() == 0
                &&& final(self)@[db.id as int].flags == old(self)@[db.id as int].flags
            },
    {
        if db.env != self.env || db.id >= self.snapshots.len() {
            return Err(ErrorImpl::DbIsForeignError);
        }
        let ghost before = self@;
        let mut s = self.take(db.id);
        s.clear();
        self.restore(db.id, s);
        assert forall|j: int| 0 <= j < before.len() && j != db.id implies #[trigger] self@[j] == before[j] by {}
        assert forall|j: int| 0 <= j < self@.len() implies #[trigger] self@[j].wf() by {
            if j != db.id {
                assert(self@[j] == before[j]);
            }
        }
        Ok(())
    }
}

/// The content of an environment.
pub struct EnvironmentView {
    /// The identity that tells this environment from the others.
    pub id: u64,
    /// The name of each database, by position.
    pub names: Seq<Option<Seq<char>>>,
    /// The committed snapshot of each database, by position.
    pub dbs: Seq<SnapshotView>,
    /// How many read transactions are live.
    pub readers: nat,
    /// Whether a write transaction is live.
    pub writer: bool,
}

/// The snapshots after a commit of `w`: the writer's copy of each database it
/// knew, the current one of each database created since it began.
pub open spec fn committed(dbs: Seq<SnapshotView>, w: Seq<SnapshotView>) -> Seq<SnapshotView> {
    Seq::new(dbs.len(), |i: int| if i < w.len() { w[i] } else { dbs[i] })
}

/// A safe-mode environment: its databases, in the order they were created.
pub struct EnvironmentImpl {
    id: u64,
    dbs: Vec<(Option<String>, Database)>,
    readers: usize,
    writer: bool,
}

impl View for EnvironmentImpl {
    type V = EnvironmentView;

    closed spec fn view(&self) -> EnvironmentView {
        EnvironmentView {
            id: self.id,
            names: Seq::new(self.dbs@.len(), |i: int| name_of_string(self.dbs@[i].0)),
            dbs: Seq::new(self.dbs@.len(), |i: int| self.dbs@[i].1@),
            readers: self.readers as nat,
            writer: self.writer,
        }
    }
}

impl EnvironmentView {
    /// Every database snapshot is sorted, and no two databases share a name.
    pub open spec fn wf(self) -> bool {
        &&& self.names.len() == self.dbs.len()
        &&& forall|i: int| 0 <= i < self.dbs.len() ==> #[trigger] self.dbs[i].wf()
        &&& forall|i: int, j: int| 0 <= i < j < self.names.len() ==> #[trigger] self.names[i] != #[trigger] self.names[j]
    }

    /// The environment once a read transaction has begun.
    pub open spec fn after_begin_ro(self) -> EnvironmentView {
        EnvironmentView { readers: self.readers + 1, ..self }
    }

    /// The environment once the write transaction has begun.
    pub open spec fn after_begin_rw(self) -> EnvironmentView {
        EnvironmentView { writer: true, ..self }
    }

    /// The environment once the write transaction has been aborted.
    pub open spec fn after_abort(self) -> EnvironmentView {
        EnvironmentView { writer: false, ..self }
    }

    /// The environment once a write transaction holding `w` has committed.
    pub open spec fn after_commit(self, w: Seq<SnapshotView>) -> EnvironmentView {
        EnvironmentView { dbs: committed(self.dbs, w), writer: false, ..self }
    }

    /// The position of the database named `n`, if any.
    pub open spec fn position_of(self, n: Option<Seq<char>>) -> Option<int> {
        if exists|i: int| 0 <= i < self.names.len() && #[trigger] self.names[i] == n {
            Some(choose|i: int| 0 <= i < self.names.len() && #[trigger] self.names[i] == n)
        } else {
            None
        }
    }
}

impl EnvironmentImpl {
    /// An empty environment with identity `id`. Each environment open at the
    /// same time is to have its own identity: transactions and stores check it.
    pub fn new(id: u64) -> (r: EnvironmentImpl)
        ensures
            r@.id == id,
            r@.wf(),
            r@.names.len() == 0,
            r@.dbs.len() == 0,
            r@.readers == 0,
            !r@.writer,
    {
        EnvironmentImpl { id, dbs: Vec::new(), readers: 0, writer: false }
    }

    /// Builds an environment with identity `id` from named databases.
    pub fn from_databases(dbs: Vec<(Option<String>, Database)>, id: u64) -> (r: Option<EnvironmentImpl>)
        ensures
            r is Some <==> ({
                &&& forall|i: int| 0 <= i < dbs@.len() ==> #[trigger] dbs@[i].1@.wf()
                &&& forall|i: int, j: int|
                    0 <= i < j < dbs@.len() ==> name_of_string(#[trigger] dbs@[i].0) != name_of_string(
                        #[trigger] dbs@[j].0,
                    )
            }),
            r matches Some(e) ==> e@.id == id && e@.wf() && e@.names == Seq::new(dbs@.len(), |i: int| name_of_string(dbs@[i].0))
                && e@.dbs == Seq::new(dbs@.len(), |i: int| dbs@[i].1@) && e@.readers == 0 && !e@.writer,
    {
        let mut i: usize = 0;
        while i < dbs.len()
            invariant
                i <= dbs@.len(),
                forall|a: int, b: int|
                    0 <= a < b < i ==> name_of_string(#[trigger] dbs@[a].0) != name_of_string(#[trigger] dbs@[b].0),
                forall|a: int| 0 <= a < i ==> #[trigger] dbs@[a].1@.wf(),
            decreases dbs@.len() - i,
        {
            if !dbs[i].1.is_wf() {
                return None;
            }
            let mut j: usize = 0;
            while j < i
                invariant
                    i < dbs@.len(),
                    j <= i,
                    forall|a: int| 0 <= a < j ==> name_of_string(#[trigger] dbs@[a].0) != name_of_string(dbs@[i as int].0),
                decreases i - j,
            {
                let n = match &dbs[i].0 {
                    Some(s) => Some(s.as_str()),
                    None => None,
                };
                if same_name(&dbs[j].0, n) {
                    return None;
                }
                j = j + 1;
            }
            i = i + 1;
        }
        Some(EnvironmentImpl { id, dbs, readers: 0, writer: false })
    }

    /// The position of the database named `name`.
    fn find(&self, name: Option<&str>) -> (r: Option<usize>)
        ensures
            r matches Some(i) ==> i < self@.names.len() && self@.names[i as int] == name_of_str(name),
            r is None ==> forall|i: int| 0 <= i < self@.names.len() ==> #[trigger] self@.names[i] != name_of_str(name),
    {
        let mut i: usize = 0;
        while i < self.dbs.len()
            invariant
                i <= self.dbs@.len(),
                forall|j: int| 0 <= j < i ==> #[trigger] self@.names[j] != name_of_str(name),
            decreases self.dbs@.len() - i,
        {
            if same_name(&self.dbs[i].0, name) {
                return Some(i);
            }
            i = i + 1;
        }
        None
    }

    /// How many read transactions are live.
    pub fn reader_count(&self) -> (r: usize)
        ensures
            r == self@.readers,
    {
        self.readers
    }

    /// Whether the write transaction is live.
    pub fn writer_live(&self) -> (r: bool)
        ensures
            r == self@.writer,
    {
        self.writer
    }

    /// How many databases there are.
    pub fn db_count(&self) -> (r: usize)
        ensures
            r == self@.dbs.len(),
    {
        self.dbs.len()
    }

    /// The name of the database at position `i`.
    pub fn name_at(&self, i: usize) -> (r: Option<&str>)
        requires
            i < self@.dbs.len(),
        ensures
            name_of_str(r) == self@.names[i as int],
    {
        match &self.dbs[i].0 {
            Some(s) => Some(s.as_str()),
            None => None,
        }
    }

    /// The committed snapshot of the database at position `i`.
    pub fn snapshot_at(&self, i: usize) -> (r: &Snapshot)
        requires
            i < self@.dbs.len(),
        ensures
            r@ == self@.dbs[i as int],
    {
        self.dbs[i].1.current()
    }

    /// The names of the databases, in the order they were created.
    pub fn get_dbs(&self) -> (r: Vec<Option<String>>)
        ensures
            r@.map_values(|n: Option<String>| name_of_string(n)) == self@.names,
    {
        let mut out: Vec<Option<String>> = Vec::new();
        let mut i: usize = 0;
        while i < self.dbs.len()
            invariant
                i <= self.dbs@.len(),
                out@.len() == i,
                forall|j: int| 0 <= j < i ==> name_of_string(#[trigger] out@[j]) == self@.names[j],
            decreases self.dbs@.len() - i,
        {
            let n = match &self.dbs[i].0 {
                Some(s) => Some(s.clone()),
                None => None,
            };
            out.push(n);
            i = i + 1;
        }
        assert(out@.map_values(|n: Option<String>| name_of_string(n)) =~= self@.names);
        out
    }

    /// Opens the existing database named `name`.
    pub fn open_db(&self, name: Option<&str>) -> (r: Result<DatabaseImpl, ErrorImpl>)
        requires
            self@.wf(),
        ensures
            self@.readers > 0 ==> r == Err::<DatabaseImpl, ErrorImpl>(ErrorImpl::DbsIllegalOpen),
            self@.readers == 0 ==> match self@.position_of(name_of_str(name)) {
                Some(i) => r == Ok::<DatabaseImpl, ErrorImpl>(DatabaseImpl { env: self@.id, id: i as usize }),
                None => r == Err::<DatabaseImpl, ErrorImpl>(ErrorImpl::DbNotFoundError),
            },
    {
        if self.readers > 0 {
            return Err(ErrorImpl::DbsIllegalOpen);
        }
        match self.find(name) {
            Some(i) => {
                proof {
                    Self::lemma_position_unique(self@, name_of_str(name), i as int);
                }
                Ok(DatabaseImpl { env: self.id, id: i })
            },
            None => Err(ErrorImpl::DbNotFoundError),
        }
    }

    proof fn lemma_position_unique(e: EnvironmentView, n: Option<Seq<char>>, i: int)
        requires
            e.wf(),
            0 <= i < e.names.len(),
            e.names[i] == n,
        ensures
            e.position_of(n) == Some(i),
    {
        let j = choose|j: int| 0 <= j < e.names.len() && #[trigger] e.names[j] == n;
        if i < j {
            assert(e.names[i] != e.names[j]);
        } else if j < i {
            assert(e.names[j] != e.names[i]);
        }
    }

    /// Opens the database named `name`, creating it with `flags` if it does not exist.
    pub fn create_db(&mut self, name: Option<&str>, flags: DatabaseFlags) -> (r: Result<DatabaseImpl, ErrorImpl>)
        requires
            old(self)@.wf(),
        ensures
            final(self)@.wf(),
            old(self)@.readers > 0 ==> r == Err::<DatabaseImpl, ErrorImpl>(ErrorImpl::DbsIllegalOpen),
            old(self)@.readers == 0 ==> match old(self)@.position_of(name_of_str(name)) {
                Some(i) => if old(self)@.dbs[i].flags == flags {
                    r == Ok::<DatabaseImpl, ErrorImpl>(DatabaseImpl { env: old(self)@.id, id: i as usize })
                } else {
                    r == Err::<DatabaseImpl, ErrorImpl>(ErrorImpl::DbFlagsMismatch)
                },
                None => {
                    &&& r == Ok::<DatabaseImpl, ErrorImpl>(DatabaseImpl { env: old(self)@.id, id: old(self)@.dbs.len() as usize })
                    &&& final(self)@.names == old(self)@.names.push(name_of_str(name))
                    &&& final(self)@.dbs.len() == old(self)@.dbs.len() + 1
                    &&& final(self)@.dbs.subrange(0, old(self)@.dbs.len() as int) == old(self)@.dbs
                    &&& final(self)@.dbs.last().flags == flags
                    &&& final(self)@.dbs.last().entries.len() == 0
                    &&& final(self)@.readers == old(self)@.readers
                    &&& final(self)@.writer == old(self)@.writer
                    &&& final(self)@.id == old(self)@.id
                },
            },
            !(old(self)@.readers == 0 && old(self)@.position_of(name_of_str(name)) is None) ==> final(self)@
                == old(self)@,
    {
        if self.readers > 0 {
            return Err(ErrorImpl::DbsIllegalOpen);
        }
        match self.find(name) {
            Some(i) => {
                proof {
                    Self::lemma_position_unique(self@, name_of_str(name), i as int);
                }
                if self.dbs[i].1.flags() == flags {
                    Ok(DatabaseImpl { env: self.id, id: i })
                } else {
                    Err(ErrorImpl::DbFlagsMismatch)
                }
            },
            None => {
                let id = self.dbs.len();
                let ghost before = self@;
                let ghost old_dbs = self.dbs@;
                let db = Database::new(Some(flags), None);
                self.dbs.push((owned_name(name), db));
                proof {
                    assert(self@.names =~= before.names.push(name_of_str(name)));
                    assert(self@.dbs.subrange(0, before.dbs.len() as int) =~= before.dbs);
                    assert forall|a: int| 0 <= a < self@.dbs.len() implies #[trigger] self@.dbs[a].wf() by {
                        if a < before.dbs.len() {
                            assert(self@.dbs[a] == before.dbs[a]);
                        }
                    }
                    assert forall|a: int, b: int| 0 <= a < b < self@.names.len() implies #[trigger] self@.names[a]
                        != #[trigger] self@.names[b] by {
                        if b < before.names.len() {
                            assert(before.names[a] != before.names[b]);
                        } else {
                            assert(before.names[a] != name_of_str(name));
                        }
                    }
                }
                Ok(DatabaseImpl { env: self.id, id })
            },
        }
    }

    /// Every database's snapshot, shared.
    fn shared_fleet(&self) -> (r: Vec<Arc<Snapshot>>)
        requires
            self@.wf(),
        ensures
            shared_view(r@) == self@.dbs,
    {
        let mut out: Vec<Arc<Snapshot>> = Vec::new();
        let mut i: usize = 0;
        while i < self.dbs.len()
            invariant
                i <= self.dbs@.len(),
                out@.len() == i,
                forall|j: int| 0 <= j < i ==> (#[trigger] out@[j])@ == self@.dbs[j],
            decreases self.dbs@.len() - i,
        {
            out.push(self.dbs[i].1.shared());
            i = i + 1;
        }
        assert(shared_view(out@) =~= self@.dbs);
        out
    }

    /// Begins a read transaction on the databases as they now are.
    pub fn begin_ro_txn(&mut self) -> (r: Result<RoTransactionImpl, ErrorImpl>)
        requires
            old(self)@.wf(),
        ensures
            old(self)@.readers >= usize::MAX ==> r is Err && r->Err_0 == ErrorImpl::ReadersFull && final(self)@
                == old(self)@,
            old(self)@.readers < usize::MAX ==> r is Ok && r->Ok_0@ == old(self)@.dbs && r->Ok_0.env_id()
                == old(self)@.id && final(self)@ == old(self)@.after_begin_ro(),
    {
        if self.readers == usize::MAX {
            return Err(ErrorImpl::ReadersFull);
        }
        let snapshots = self.shared_fleet();
        self.readers = self.readers + 1;
        Ok(RoTransactionImpl { env: self.id, snapshots })
    }

    /// Ends a read transaction; one of another environment changes nothing.
    pub fn end_ro_txn(&mut self, txn: RoTransactionImpl)
        ensures
            txn.env_id() != old(self)@.id ==> final(self)@ == old(self)@,
            txn.env_id() == old(self)@.id ==> final(self)@ == (EnvironmentView {
                readers: if old(self)@.readers > 0 {
                    (old(self)@.readers - 1) as nat
                } else {
                    0
                },
                ..old(self)@
            }),
    {
        if txn.env == self.id && self.readers > 0 {
            self.readers = self.readers - 1;
        }
    }

    /// Begins the write transaction, unless one is already live.
    pub fn begin_rw_txn(&mut self) -> (r: Result<RwTransactionImpl, ErrorImpl>)
        requires
            old(self)@.wf(),
        ensures
            old(self)@.writer ==> r is Err && r->Err_0 == ErrorImpl::WriteTransactionInProgress && final(self)@
                == old(self)@,
            !old(self)@.writer ==> r is Ok && r->Ok_0@ == old(self)@.dbs && r->Ok_0.env_id() == old(self)@.id
                && final(self)@ == old(self)@.after_begin_rw(),
    {
        if self.writer {
            return Err(ErrorImpl::WriteTransactionInProgress);
        }
        let shared = self.shared_fleet();
        let mut snapshots: Vec<Working> = Vec::new();
        let mut i: usize = 0;
        while i < shared.len()
            invariant
                i <= shared@.len(),
                snapshots@.len() == i,
                working_view(snapshots@) == shared_view(shared@).subrange(0, i as int),
            decreases shared@.len() - i,
        {
            let ghost before = snapshots@;
            let a = shared[i].clone();
            assert(a@ == shared_view(shared@)[i as int]);
            snapshots.push(Working::Shared(a));
            assert forall|j: int| 0 <= j < i + 1 implies #[trigger] working_view(snapshots@)[j] == shared_view(
                shared@,
            )[j] by {
                if j < i {
                    assert(snapshots@[j] == before[j]);
                    assert(working_view(before)[j] == shared_view(shared@).subrange(0, i as int)[j]);
                }
            }
            assert(working_view(snapshots@) =~= shared_view(shared@).subrange(0, i + 1));
            i = i + 1;
        }
        assert(shared_view(shared@).subrange(0, i as int) =~= shared_view(shared@));
        self.writer = true;
        Ok(RwTransactionImpl { env: self.id, snapshots })
    }

    /// Ends the write transaction, discarding its changes; one of another
    /// environment changes nothing.
    pub fn abort_rw_txn(&mut self, txn: RwTransactionImpl)
        ensures
            txn.env_id() != old(self)@.id ==> final(self)@ == old(self)@,
            txn.env_id() == old(self)@.id ==> final(self)@ == old(self)@.after_abort(),
    {
        if txn.env == self.id {
            self.writer = false;
        }
    }

    /// Ends the write transaction, making its snapshots current.
    pub fn commit(&mut self, txn: RwTransactionImpl) -> (r: Result<(), ErrorImpl>)
        requires
            old(self)@.wf(),
            all_wf(txn@),
        ensures
            final(self)@.wf(),
            txn.env_id() != old(self)@.id ==> r is Err && r->Err_0 == ErrorImpl::DbIsForeignError && final(self)@
                == old(self)@,
            txn.env_id() == old(self)@.id && txn@.len() > old(self)@.dbs.len() ==> r is Err && r->Err_0 == ErrorImpl::DbIsForeignError && final(self)@
                == old(self)@.after_abort(),
            txn.env_id() == old(self)@.id && txn@.len() <= old(self)@.dbs.len() ==> r is Ok && final(self)@
                == old(self)@.after_commit(txn@),
    {
        if txn.env != self.id {
            return Err(ErrorImpl::DbIsForeignError);
        }
        self.writer = false;
        if txn.snapshots.len() > self.dbs.len() {
            return Err(ErrorImpl::DbIsForeignError);
        }
        let ghost before = self@;
        let ghost w = txn@;
        let mut snapshots = txn.snapshots;
        while snapshots.len() > 0
            invariant
                snapshots@.len() <= w.len() <= self.dbs@.len(),
                before.dbs.len() == self.dbs@.len(),
                forall|j: int| 0 <= j < snapshots@.len() ==> (#[trigger] snapshots@[j])@ == w[j],
                forall|j: int| 0 <= j < w.len() ==> #[trigger] w[j].wf(),
                self@.names == before.names,
                self@.id == before.id,
                self@.readers == before.readers,
                !self@.writer,
                forall|j: int| 0 <= j < self.dbs@.len() ==> #[trigger] self@.dbs[j] == (if snapshots@.len() <= j < w.len() {
                    w[j]
                } else {
                    before.dbs[j]
                }),
            decreases snapshots@.len(),
        {
            let s = snapshots.pop().unwrap();
            let i = snapshots.len();
            let ghost mid = self@;
            match s {
                Working::Shared(a) => self.dbs[i].1.replace_shared(a),
                Working::Own(o) => {
                    let _ = self.dbs[i].1.replace(o);
                },
            }
            assert forall|j: int| 0 <= j < self.dbs@.len() implies #[trigger] self@.dbs[j] == (if snapshots@.len() <= j < w.len() {
                w[j]
            } else {
                before.dbs[j]
            }) by {
                if j != i {
                    assert(self@.dbs[j] == mid.dbs[j]);
                }
            }
        }
        assert(self@.dbs =~= committed(before.dbs, w));
        Ok(())
    }
}

/// Isolation: a reader begun before a writer commits keeps seeing, for every
/// key, what the environment held then; a reader begun after the commit sees
/// what the writer wrote.
pub proof fn lemma_isolation(e: EnvironmentView, w: Seq<SnapshotView>, db: DatabaseImpl, k: Seq<u8>)
    requires
        w.len() <= e.dbs.len(),
        db.env == e.id,
        db.id < w.len(),
    ensures
        crate::store::get_result(e.id, e.dbs, db, k) == crate::store::get_result(e.id, e.after_begin_ro().dbs, db, k),
        crate::store::get_result(e.id, e.after_begin_ro().after_commit(w).dbs, db, k) == crate::store::get_result(
            e.id,
            w,
            db,
            k,
        ),
        crate::store::get_result(e.id, e.after_commit(w).dbs, db, k) == crate::store::get_result(e.id, w, db, k),
{
    assert(e.after_begin_ro().after_commit(w).dbs[db.id as int] == w[db.id as int]);
    assert(e.after_commit(w).dbs[db.id as int] == w[db.id as int]);
}

/// A transaction reads its own writes: after a put into a database with one
/// value per key, the key holds exactly the value put.
pub proof fn lemma_read_own_write(before: SnapshotView, after: SnapshotView, k: Seq<u8>, v: Seq<u8>)
    requires
        put_effect(before, after, k, v),
        !before.flags.spec_dup_sort(),
    ensures
        values_of(after.entries, k) == seq![v],
{
    let s = after.entries;
    let pred = key_is(k);
    let f = s.filter(pred);
    lemma_filter_sorted(s, pred);
    assert forall|i: int| 0 <= i < f.len() implies #[trigger] f[i] == (k, v) by {
        s.lemma_filter_pred(pred, i);
        assert(f.contains(f[i]));
        s.lemma_filter_contains_rev(pred, f[i]);
        assert(after.contains(f[i].0, f[i].1));
    }
    assert(after.contains(k, v));
    let j = choose|j: int| 0 <= j < s.len() && s[j] == (k, v);
    s.lemma_filter_contains(pred, j);
    if f.len() >= 2 {
        assert(crate::snapshot::pair_lt(f[0], f[1]));
        lemma_pair_lt_irrefl(f[0]);
    }
    assert(f =~= seq![(k, v)]);
    assert(f.map_values(|p: PairView| value_part(p)) =~= seq![v]);
}

/// Single writer: while a write transaction is live no other can begin; once
/// it commits or aborts, one can.
pub proof fn lemma_single_writer(e: EnvironmentView, w: Seq<SnapshotView>)
    requires
        !e.writer,
    ensures
        e.after_begin_rw().writer,
        !e.after_begin_rw().after_commit(w).writer,
        !e.after_begin_rw().after_abort().writer,
{
}

} // verus!
