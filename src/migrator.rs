//! Copies every database of one environment into another, empty, one.
use crate::environment::{EnvironmentImpl, EnvironmentView, Readable};
use crate::error::{store_error_of, ErrorImpl, MigrateError, StoreError};
use crate::flags::{WriteFlags, INTEGER_KEY_BIT};
use crate::snapshot::{lemma_sorted_eq, single_valued, PairView, SnapshotView};
use vstd::prelude::*;

verus! {

/// Copies environments.
pub struct Migrator;

/// A database the migrator can copy: one value per key, keys not integers.
pub open spec fn migratable(s: SnapshotView) -> bool {
    &&& !s.flags.spec_dup_sort()
    &&& s.flags.bits & INTEGER_KEY_BIT != INTEGER_KEY_BIT
    &&& single_valued(s.entries)
}

/// What migrating `src` into `dst` fails with, if it fails.
pub open spec fn migrate_error(src: EnvironmentView, dst: EnvironmentView) -> Option<MigrateError> {
    if src.dbs.len() == 0 {
        Some(MigrateError::SourceEmpty)
    } else if dst.dbs.len() > 0 {
        Some(MigrateError::DestinationNotEmpty)
    } else if exists|i: int| 0 <= i < src.dbs.len() && !migratable(#[trigger] src.dbs[i]) {
        Some(MigrateError::UnsupportedDatabase)
    } else if dst.readers > 0 {
        Some(MigrateError::StoreError(store_error_of(ErrorImpl::DbsIllegalOpen)))
    } else if dst.writer {
        Some(MigrateError::StoreError(store_error_of(ErrorImpl::WriteTransactionInProgress)))
    } else {
        None
    }
}

/// Whether the migrator can copy every database of `src`.
fn all_migratable(src: &EnvironmentImpl) -> (r: bool)
    requires
        src@.wf(),
    ensures
        r == forall|i: int| 0 <= i < src@.dbs.len() ==> migratable(#[trigger] src@.dbs[i]),
{
    let n = src.db_count();
    let mut i: usize = 0;
    while i < n
        invariant
            n == src@.dbs.len(),
            src@.wf(),
            i <= n,
            forall|j: int| 0 <= j < i ==> migratable(#[trigger] src@.dbs[j]),
        decreases n - i,
    {
        let s = src.snapshot_at(i);
        let f = s.flags();
        assert(s@.wf());
        if f.is_dup_sort() || f.is_integer_key() || !s.is_single_valued() {
            assert(!migratable(src@.dbs[i as int]));
            return false;
        }
        i = i + 1;
    }
    true
}

/// Copies the committed databases of `src` into the empty `dst`.
pub fn copy_environment(src: &EnvironmentImpl, dst: &mut EnvironmentImpl) -> (r: Result<(), MigrateError>)
    requires
        src@.wf(),
        old(dst)@.wf(),
    ensures
        final(dst)@.wf(),
        match migrate_error(src@, old(dst)@) {
            Some(e) => r == Err::<(), MigrateError>(e) && final(dst)@ == old(dst)@,
            None => r is Ok && final(dst)@.names == src@.names && final(dst)@.dbs == src@.dbs && final(dst)@.readers
                == old(dst)@.readers && final(dst)@.writer == old(dst)@.writer,
        },
{
    let n = src.db_count();
    if n == 0 {
        return Err(MigrateError::SourceEmpty);
    }
    if dst.db_count() > 0 {
        return Err(MigrateError::DestinationNotEmpty);
    }
    if !all_migratable(src) {
        return Err(MigrateError::UnsupportedDatabase);
    }
    if dst.reader_count() > 0 {
        return Err(MigrateError::StoreError(StoreError::SafeModeError(ErrorImpl::DbsIllegalOpen)));
    }
    if dst.writer_live() {
        return Err(MigrateError::StoreError(StoreError::SafeModeError(ErrorImpl::WriteTransactionInProgress)));
    }
    let ghost readers = dst@.readers;
    let mut i: usize = 0;
    while i < n
        invariant
            n == src@.dbs.len(),
            src@.wf(),
            i <= n,
            forall|j: int| 0 <= j < n ==> migratable(#[trigger] src@.dbs[j]),
            dst@.wf(),
            dst@.readers == 0,
            readers == 0,
            !dst@.writer,
            dst@.names == src@.names.subrange(0, i as int),
            dst@.dbs == src@.dbs.subrange(0, i as int),
        decreases n - i,
    {
        copy_database(src, dst, i);
        i = i + 1;
    }
    assert(src@.names.subrange(0, n as int) =~= src@.names);
    assert(src@.dbs.subrange(0, n as int) =~= src@.dbs);
    Ok(())
}

/// Copies database `i` of `src` as the next database of `dst`.
fn copy_database(src: &EnvironmentImpl, dst: &mut EnvironmentImpl, i: usize)
    requires
        src@.wf(),
        i < src@.dbs.len(),
        migratable(src@.dbs[i as int]),
        old(dst)@.wf(),
        old(dst)@.readers == 0,
        !old(dst)@.writer,
        old(dst)@.names == src@.names.subrange(0, i as int),
        old(dst)@.dbs == src@.dbs.subrange(0, i as int),
    ensures
        final(dst)@.wf(),
        final(dst)@.readers == 0,
        !final(dst)@.writer,
        final(dst)@.names == src@.names.subrange(0, i + 1),
        final(dst)@.dbs == src@.dbs.subrange(0, i + 1),
{
    let name = src.name_at(i);
    let s = src.snapshot_at(i);
    let ghost sv = src@.dbs[i as int];
    proof {
        assert forall|j: int| 0 <= j < old(dst)@.names.len() implies #[trigger] old(dst)@.names[j] != src@.names[i as int] by {
            assert(old(dst)@.names[j] == src@.names[j]);
        }
    }
    let db = match dst.create_db(name, s.flags()) {
        Ok(db) => db,
        Err(_) => {
            proof {
                assert(false);
            }
            return;
        },
    };
    let ghost created = dst@;
    let mut w = match dst.begin_rw_txn() {
        Ok(w) => w,
        Err(_) => {
            proof {
                assert(false);
            }
            return;
        },
    };
    let m = s.len();
    let mut j: usize = 0;
    while j < m
        invariant
            m == sv.entries.len(),
            s@ == sv,
            sv.wf(),
            migratable(sv),
            db.id == i,
            db.env == created.id,
            w.env_id() == created.id,
            i < w@.len(),
            w@.len() == created.dbs.len(),
            crate::environment::all_wf(w@),
            forall|a: int| 0 <= a < w@.len() && a != i ==> #[trigger] w@[a] == created.dbs[a],
            w@[i as int].flags == sv.flags,
            j <= m,
            forall|p: PairView| #[trigger] w@[i as int].entries.contains(p) <==> sv.entries.subrange(0, j as int).contains(p),
        decreases m - j,
    {
        let (k, v) = s.pair_at(j);
        let ghost before = w@;
        assert(0u32 & !(0x10u32 | 0x20u32) == 0) by (bit_vector);
        proof {
            assert forall|p: PairView| #[trigger] before[i as int].entries.contains(p) implies p.0 != k@ by {
                let b = choose|b: int| 0 <= b < j && sv.entries.subrange(0, j as int)[b] == p;
                assert(sv.entries[b] == p);
                assert(sv.entries[b].0 != sv.entries[j as int].0);
            }
            assert(!before[i as int].has_key(k@));
        }
        match w.put(&db, k, v, WriteFlags::empty()) {
            Ok(()) => {},
            Err(_) => {
                proof {
                    assert(false);
                }
                return;
            },
        }
        proof {
            assert forall|p: PairView| #[trigger] w@[i as int].entries.contains(p) <==> sv.entries.subrange(
                0,
                j + 1,
            ).contains(p) by {
                assert(w@[i as int].contains(p.0, p.1) == w@[i as int].entries.contains(p));
                assert(before[i as int].contains(p.0, p.1) == before[i as int].entries.contains(p));
                let t = sv.entries.subrange(0, j + 1);
                if t.contains(p) {
                    let b = choose|b: int| 0 <= b < j + 1 && t[b] == p;
                    if b < j {
                        assert(sv.entries.subrange(0, j as int)[b] == p);
                    }
                }
                if sv.entries.subrange(0, j as int).contains(p) {
                    let b = choose|b: int| 0 <= b < j && sv.entries.subrange(0, j as int)[b] == p;
                    assert(t[b] == p);
                }
                if p == (k@, v@) {
                    assert(t[j as int] == p);
                }
            }
            assert forall|a: int| 0 <= a < w@.len() && a != i implies #[trigger] w@[a] == created.dbs[a] by {
                assert(w@[a] == before[a]);
            }
        }
        j = j + 1;
    }
    proof {
        assert(sv.entries.subrange(0, m as int) =~= sv.entries);
        assert(w@[i as int].wf());
        lemma_sorted_eq(w@[i as int].entries, sv.entries);
    }
    let ghost wv = w@;
    match dst.commit(w) {
        Ok(()) => {},
        Err(_) => {
            proof {
                assert(false);
            }
            return;
        },
    }
    proof {
        assert(dst@.names =~= src@.names.subrange(0, i + 1));
        assert forall|a: int| 0 <= a < i + 1 implies #[trigger] dst@.dbs[a] == src@.dbs[a] by {
            if a < i {
                assert(created.dbs.subrange(0, i as int)[a] == created.dbs[a]);
                assert(src@.dbs.subrange(0, i as int)[a] == src@.dbs[a]);
                assert(created.dbs[a] == src@.dbs[a]);
                assert(wv[a] == created.dbs[a]);
            }
        }
        assert(dst@.dbs =~= src@.dbs.subrange(0, i + 1));
    }
}

} // verus!
