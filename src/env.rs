//! An environment and the stores opened on it: the entry point of the library.
use crate::database::DatabaseImpl;
use crate::environment::{
    all_wf, name_of_str, EnvironmentImpl, EnvironmentView, Readable, RoTransactionImpl, RwTransactionImpl,
};
use crate::error::{store_error_of, ErrorImpl, MigrateError, StoreError};
use crate::migrator::{copy_environment, migrate_error, Migrator};
use crate::flags::{DatabaseFlags, DUP_SORT_BIT, INTEGER_KEY_BIT};
use crate::persist::{bounded, dec_file, enc_file, from_bytes, stored, to_bytes, valid_stored};
use crate::snapshot::SnapshotView;
use crate::store::integer::{IntegerStore, PrimitiveInt};
use crate::store::integermulti::MultiIntegerStore;
use crate::store::multi::MultiStore;
use crate::store::single::SingleStore;
use crate::store::Options;
use vstd::prelude::*;

verus! {

/// A read transaction.
pub type Reader = RoTransactionImpl;

/// A write transaction.
pub type Writer = RwTransactionImpl;

/// Which database opening `n` gives, or why it fails: while a read
/// transaction is live nothing is opened; a missing database is created only
/// when asked; an existing one opens only with the flags it was created with.
pub open spec fn open_outcome(e: EnvironmentView, n: Option<Seq<char>>, create: bool, flags: DatabaseFlags) -> Result<usize, ErrorImpl> {
    if e.readers > 0 {
        Err(ErrorImpl::DbsIllegalOpen)
    } else {
        match e.position_of(n) {
            Some(i) => if e.dbs[i].flags == flags {
                Ok(i as usize)
            } else {
                Err(ErrorImpl::DbFlagsMismatch)
            },
            None => if create {
                Ok(e.dbs.len() as usize)
            } else {
                Err(ErrorImpl::DbNotFoundError)
            },
        }
    }
}

/// The environment after opening `n`: with one more, empty, database when it was created.
pub open spec fn opened(e: EnvironmentView, after: EnvironmentView, n: Option<Seq<char>>, create: bool, flags: DatabaseFlags) -> bool {
    if create && e.readers == 0 && e.position_of(n) is None {
        &&& after.names == e.names.push(n)
        &&& after.dbs.len() == e.dbs.len() + 1
        &&& after.dbs.subrange(0, e.dbs.len() as int) == e.dbs
        &&& after.dbs.last() == (SnapshotView { flags, entries: Seq::empty() })
        &&& after.readers == e.readers
        &&& after.writer == e.writer
        &&& after.id == e.id
    } else {
        after == e
    }
}

/// The flags a store is created with: those of the options and those of its kind.
pub open spec fn store_flags(opts: Options, kind: u32) -> DatabaseFlags {
    DatabaseFlags { bits: opts.flags.bits | kind }
}

/// An environment: named databases, each opened as a typed store.
pub struct Rkv {
    env: EnvironmentImpl,
}

impl View for Rkv {
    type V = EnvironmentView;

    closed spec fn view(&self) -> EnvironmentView {
        self.env@
    }
}

impl Rkv {
    /// A new, empty environment with identity `id`; each environment open at
    /// the same time is to have its own.
    pub fn new(id: u64) -> (r: Rkv)
        ensures
            r@.id == id,
            r@.wf(),
            r@.dbs.len() == 0,
            r@.readers == 0,
            !r@.writer,
    {
        Rkv { env: EnvironmentImpl::new(id) }
    }

    /// The environment, with identity `id`, whose data file holds `data`.
    pub fn from_bytes(data: &[u8], id: u64) -> (r: Result<Rkv, StoreError>)
        ensures
            r matches Ok(e) ==> e@.id == id && dec_file(data@) == Some(stored(e@)) && e@.wf() && e@.readers == 0 && !e@.writer,
            r is Err ==> r->Err_0 == StoreError::FileInvalid && !(dec_file(data@) matches Some(s) && valid_stored(s)),
    {
        match from_bytes(data, id) {
            Ok(env) => Ok(Rkv { env }),
            Err(_) => Err(StoreError::FileInvalid),
        }
    }

    /// The content of this environment's data file.
    pub fn to_bytes(&self) -> (r: Vec<u8>)
        ensures
            r@ == enc_file(stored(self@)),
            bounded(stored(self@)),
    {
        to_bytes(&self.env)
    }

    /// The underlying engine environment.
    pub fn environment(&self) -> (r: &EnvironmentImpl)
        ensures
            r@ == self@,
    {
        &self.env
    }

    /// The names of the databases, in the order they were created.
    pub fn get_dbs(&self) -> (r: Vec<Option<String>>)
        ensures
            r@.map_values(|n: Option<String>| crate::environment::name_of_string(n)) == self@.names,
    {
        self.env.get_dbs()
    }

    fn open_with(&mut self, name: Option<&str>, opts: Options, kind: u32) -> (r: Result<DatabaseImpl, StoreError>)
        requires
            old(self)@.wf(),
        ensures
            final(self)@.wf(),
            match open_outcome(old(self)@, name_of_str(name), opts.create, store_flags(opts, kind)) {
                Ok(i) => r == Ok::<DatabaseImpl, StoreError>(DatabaseImpl { env: old(self)@.id, id: i }),
                Err(e) => r == Err::<DatabaseImpl, StoreError>(store_error_of(e)),
            },
            opened(old(self)@, final(self)@, name_of_str(name), opts.create, store_flags(opts, kind)),
    {
        let flags = DatabaseFlags { bits: opts.flags.bits | kind };
        let count = self.env.db_count();
        let r = if opts.create {
            self.env.create_db(name, flags)
        } else {
            match self.env.open_db(name) {
                Ok(db) => if {
                    proof {
                        let i = old(self)@.position_of(name_of_str(name))->Some_0;
                        assert(0 <= i < count);
                        assert(db.id == i);
                    }
                    self.env.snapshot_at(db.id).flags() == flags
                } {
                    Ok(db)
                } else {
                    Err(ErrorImpl::DbFlagsMismatch)
                },
                Err(e) => Err(e),
            }
        };
        proof {
            if opts.create && old(self)@.readers == 0 && old(self)@.position_of(name_of_str(name)) is None {
                assert(self@.dbs.last().entries =~= Seq::<crate::snapshot::PairView>::empty());
                assert(self@.dbs.last().flags == store_flags(opts, kind));
            }
        }
        match r {
            Ok(db) => Ok(db),
            Err(e) => Err(e.into_store_error()),
        }
    }

    /// Opens (or, with `opts.create`, creates) the store named `name`, one value per key.
    pub fn open_single(&mut self, name: Option<&str>, opts: Options) -> (r: Result<SingleStore, StoreError>)
        requires
            old(self)@.wf(),
        ensures
            final(self)@.wf(),
            match open_outcome(old(self)@, name_of_str(name), opts.create, store_flags(opts, 0)) {
                Ok(i) => r is Ok && r->Ok_0.db == DatabaseImpl { env: old(self)@.id, id: i },
                Err(e) => r == Err::<SingleStore, StoreError>(store_error_of(e)),
            },
            opened(old(self)@, final(self)@, name_of_str(name), opts.create, store_flags(opts, 0)),
    {
        match self.open_with(name, opts, 0) {
            Ok(db) => Ok(SingleStore::new(db)),
            Err(e) => Err(e),
        }
    }

    /// Opens (or creates) the store named `name`, each key holding an ordered set of values.
    pub fn open_multi(&mut self, name: Option<&str>, opts: Options) -> (r: Result<MultiStore, StoreError>)
        requires
            old(self)@.wf(),
        ensures
            final(self)@.wf(),
            match open_outcome(old(self)@, name_of_str(name), opts.create, store_flags(opts, DUP_SORT_BIT)) {
                Ok(i) => r is Ok && r->Ok_0.db == DatabaseImpl { env: old(self)@.id, id: i },
                Err(e) => r == Err::<MultiStore, StoreError>(store_error_of(e)),
            },
            opened(old(self)@, final(self)@, name_of_str(name), opts.create, store_flags(opts, DUP_SORT_BIT)),
    {
        match self.open_with(name, opts, DUP_SORT_BIT) {
            Ok(db) => Ok(MultiStore::new(db)),
            Err(e) => Err(e),
        }
    }

    /// Opens (or creates) the store named `name`, keyed by integers.
    pub fn open_integer<K: PrimitiveInt>(&mut self, name: Option<&str>, opts: Options) -> (r: Result<IntegerStore<K>, StoreError>)
        requires
            old(self)@.wf(),
        ensures
            final(self)@.wf(),
            match open_outcome(old(self)@, name_of_str(name), opts.create, store_flags(opts, INTEGER_KEY_BIT)) {
                Ok(i) => r is Ok && r->Ok_0.db() == DatabaseImpl { env: old(self)@.id, id: i },
                Err(e) => r is Err && r->Err_0 == store_error_of(e),
            },
            opened(old(self)@, final(self)@, name_of_str(name), opts.create, store_flags(opts, INTEGER_KEY_BIT)),
    {
        match self.open_with(name, opts, INTEGER_KEY_BIT) {
            Ok(db) => Ok(IntegerStore::new(db)),
            Err(e) => Err(e),
        }
    }

    /// Opens (or creates) the store named `name`, keyed by integers, each key holding an ordered set of values.
    pub fn open_multi_integer<K: PrimitiveInt>(&mut self, name: Option<&str>, opts: Options) -> (r: Result<MultiIntegerStore<K>, StoreError>)
        requires
            old(self)@.wf(),
        ensures
            final(self)@.wf(),
            match open_outcome(
                old(self)@,
                name_of_str(name),
                opts.create,
                store_flags(opts, DUP_SORT_BIT | INTEGER_KEY_BIT),
            ) {
                Ok(i) => r is Ok && r->Ok_0.db() == DatabaseImpl { env: old(self)@.id, id: i },
                Err(e) => r is Err && r->Err_0 == store_error_of(e),
            },
            opened(old(self)@, final(self)@, name_of_str(name), opts.create, store_flags(opts, DUP_SORT_BIT | INTEGER_KEY_BIT)),
    {
        match self.open_with(name, opts, DUP_SORT_BIT | INTEGER_KEY_BIT) {
            Ok(db) => Ok(MultiIntegerStore::new(db)),
            Err(e) => Err(e),
        }
    }

    /// Begins a read transaction on the committed state.
    pub fn read(&mut self) -> (r: Result<Reader, StoreError>)
        requires
            old(self)@.wf(),
        ensures
            final(self)@.wf(),
            old(self)@.readers >= usize::MAX ==> r == Err::<Reader, StoreError>(StoreError::ReadersFull) && final(self)@
                == old(self)@,
            old(self)@.readers < usize::MAX ==> r is Ok && r->Ok_0@ == old(self)@.dbs && r->Ok_0.env_id()
                == old(self)@.id && all_wf(r->Ok_0@) && final(self)@ == old(self)@.after_begin_ro(),
    {
        match self.env.begin_ro_txn() {
            Ok(t) => Ok(t),
            Err(_) => Err(StoreError::ReadersFull),
        }
    }

    /// Ends a read transaction; one of another environment changes nothing.
    pub fn end_read(&mut self, reader: Reader)
        requires
            old(self)@.wf(),
        ensures
            final(self)@.wf(),
            reader.env_id() != old(self)@.id ==> final(self)@ == old(self)@,
            final(self)@.id == old(self)@.id,
            final(self)@.dbs == old(self)@.dbs,
            final(self)@.names == old(self)@.names,
            final(self)@.writer == old(self)@.writer,
            reader.env_id() == old(self)@.id ==> final(self)@.readers == if old(self)@.readers > 0 {
                (old(self)@.readers - 1) as nat
            } else {
                0
            },
    {
        self.env.end_ro_txn(reader)
    }

    /// Begins the write transaction; fails while another is live.
    pub fn write(&mut self) -> (r: Result<Writer, StoreError>)
        requires
            old(self)@.wf(),
        ensures
            final(self)@.wf(),
            old(self)@.writer ==> r == Err::<Writer, StoreError>(store_error_of(ErrorImpl::WriteTransactionInProgress))
                && final(self)@ == old(self)@,
            !old(self)@.writer ==> r is Ok && r->Ok_0@ == old(self)@.dbs && r->Ok_0.env_id() == old(self)@.id
                && all_wf(r->Ok_0@) && final(self)@ == old(self)@.after_begin_rw(),
    {
        match self.env.begin_rw_txn() {
            Ok(t) => Ok(t),
            Err(e) => Err(e.into_store_error()),
        }
    }

    /// Commits a write transaction: its changes become what later readers see.
    pub fn commit(&mut self, writer: Writer) -> (r: Result<(), StoreError>)
        requires
            old(self)@.wf(),
            all_wf(writer@),
        ensures
            final(self)@.wf(),
            writer.env_id() != old(self)@.id ==> r == Err::<(), StoreError>(store_error_of(ErrorImpl::DbIsForeignError))
                && final(self)@ == old(self)@,
            writer.env_id() == old(self)@.id && writer@.len() > old(self)@.dbs.len() ==> r == Err::<(), StoreError>(store_error_of(ErrorImpl::DbIsForeignError))
                && final(self)@ == old(self)@.after_abort(),
            writer.env_id() == old(self)@.id && writer@.len() <= old(self)@.dbs.len() ==> r is Ok && final(self)@ == old(self)@.after_commit(writer@),
    {
        match self.env.commit(writer) {
            Ok(()) => Ok(()),
            Err(e) => Err(e.into_store_error()),
        }
    }

    /// Aborts a write transaction: its changes are dropped. One of another
    /// environment changes nothing.
    pub fn abort(&mut self, writer: Writer)
        requires
            old(self)@.wf(),
        ensures
            final(self)@.wf(),
            writer.env_id() != old(self)@.id ==> final(self)@ == old(self)@,
            writer.env_id() == old(self)@.id ==> final(self)@ == old(self)@.after_abort(),
    {
        self.env.abort_rw_txn(writer)
    }
}

impl Migrator {
    /// Copies every database of `src`, as committed, into the empty `dst`.
    /// Refuses databases with several values per key or with integer keys.
    pub fn migrate(src: &Rkv, dst: &mut Rkv) -> (r: Result<(), MigrateError>)
        requires
            src@.wf(),
            old(dst)@.wf(),
        ensures
            final(dst)@.wf(),
            match migrate_error(src@, old(dst)@) {
                Some(e) => r == Err::<(), MigrateError>(e) && final(dst)@ == old(dst)@,
                None => r is Ok && final(dst)@.names == src@.names && final(dst)@.dbs == src@.dbs
                    && final(dst)@.readers == old(dst)@.readers && final(dst)@.writer == old(dst)@.writer,
            },
    {
        copy_environment(&src.env, &mut dst.env)
    }
}

} // verus!
