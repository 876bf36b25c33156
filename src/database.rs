//! The databases of a safe-mode environment.
use crate::flags::DatabaseFlags;
use crate::snapshot::{Snapshot, SnapshotView};
use std::sync::Arc;
use vstd::prelude::*;

verus! {

/// The handle of a database: the identity of its environment and its
/// position there.
#[derive(Debug, Clone, Copy, PartialEq, Eq, Structural)]
pub struct DatabaseImpl {
    pub env: u64,
    pub id: usize,
}

/// A database: the snapshot that readers and writers start from, shared
/// with the readers that began on it.
pub struct Database {
    snapshot: Arc<Snapshot>,
}

impl View for Database {
    type V = SnapshotView;

    closed spec fn view(&self) -> SnapshotView {
        self.snapshot@
    }
}

impl Database {
    /// A database holding `snapshot`, or else an empty one with `flags`
    /// (no flag when none is given).
    pub fn new(flags: Option<DatabaseFlags>, snapshot: Option<Snapshot>) -> (r: Database)
        requires
            snapshot matches Some(s) ==> s@.wf(),
        ensures
            r@.wf(),
            snapshot matches Some(s) ==> r@ == s@,
            snapshot is None ==> r@.entries.len() == 0 && r@.flags == (match flags {
                Some(f) => f,
                None => DatabaseFlags { bits: 0 },
            }),
    {
        match snapshot {
            Some(s) => Database { snapshot: Arc::new(s) },
            None => {
                let f = match flags {
                    Some(f) => f,
                    None => DatabaseFlags::empty(),
                };
                Database { snapshot: Arc::new(Snapshot::new(f)) }
            },
        }
    }

    /// The current snapshot.
    pub fn current(&self) -> (r: &Snapshot)
        ensures
            r@ == self@,
    {
        &*self.snapshot
    }

    /// The current snapshot, shared: the database and the caller hold the same one.
    pub fn shared(&self) -> (r: Arc<Snapshot>)
        ensures
            r@ == self@,
    {
        self.snapshot.clone()
    }

    /// A copy of the current snapshot.
    pub fn snapshot(&self) -> (r: Snapshot)
        ensures
            r@ == self@,
    {
        self.snapshot.duplicate()
    }

    /// Makes `snapshot` current; gives back the one it replaces, which the
    /// readers that began on it may still share.
    pub fn replace(&mut self, snapshot: Snapshot) -> (r: Arc<Snapshot>)
        ensures
            r@ == old(self)@,
            final(self)@ == snapshot@,
    {
        let mut taken = Arc::new(snapshot);
        core::mem::swap(&mut self.snapshot, &mut taken);
        taken
    }

    /// Whether the snapshot's pairs are strictly ascending.
    pub fn is_wf(&self) -> (r: bool)
        ensures
            r == self@.wf(),
    {
        self.snapshot.is_wf()
    }

    /// Makes the shared snapshot `snapshot` current.
    pub fn replace_shared(&mut self, snapshot: Arc<Snapshot>)
        ensures
            final(self)@ == snapshot@,
    {
        self.snapshot = snapshot;
    }

    /// The flags the database was created with.
    pub fn flags(&self) -> (r: DatabaseFlags)
        ensures
            r == self@.flags,
    {
        self.snapshot.flags()
    }
}

} // verus!
