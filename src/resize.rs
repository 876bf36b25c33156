//! Growing a full memory map: the new size, and the writes to do again.
use crate::error::StoreError;
use crate::flags::WriteFlags;
use crate::snapshot::copy_bytes;
use vstd::prelude::*;

verus! {

pub const ONE_GIGABYTE: usize = 1073741824;

/// The map size after growing one that is `size` bytes: doubled up to one
/// gigabyte, then one gigabyte more each time.
pub open spec fn grown(size: int) -> int {
    if size > ONE_GIGABYTE {
        size + ONE_GIGABYTE
    } else {
        size * 2
    }
}

/// The size to grow a full map of `size` bytes to; fails with `ResizeError`
/// when it does not fit in a `usize`.
pub fn grown_map_size(size: usize) -> (r: Result<usize, StoreError>)
    ensures
        grown(size as int) <= usize::MAX ==> r == Ok::<usize, StoreError>(grown(size as int) as usize),
        grown(size as int) > usize::MAX ==> r == Err::<usize, StoreError>(StoreError::ResizeError),
{
    if size > ONE_GIGABYTE {
        match size.checked_add(ONE_GIGABYTE) {
            Some(n) => Ok(n),
            None => Err(StoreError::ResizeError),
        }
    } else {
        match size.checked_mul(2) {
            Some(n) => Ok(n),
            None => Err(StoreError::ResizeError),
        }
    }
}

/// A write that succeeded in a transaction, kept so that it can be done
/// again in a fresh transaction once the map has grown.
pub enum WriteOp {
    Put { db: u32, key: Vec<u8>, value: Vec<u8>, flags: WriteFlags },
    Delete { db: u32, key: Vec<u8>, value: Option<Vec<u8>> },
    Clear { db: u32 },
}

pub enum WriteOpView {
    Put { db: u32, key: Seq<u8>, value: Seq<u8>, flags: WriteFlags },
    Delete { db: u32, key: Seq<u8>, value: Option<Seq<u8>> },
    Clear { db: u32 },
}

impl View for WriteOp {
    type V = WriteOpView;

    open spec fn view(&self) -> WriteOpView {
        match self {
            WriteOp::Put { db, key, value, flags } => WriteOpView::Put { db: *db, key: key@, value: value@, flags: *flags },
            WriteOp::Delete { db, key, value } => WriteOpView::Delete {
                db: *db,
                key: key@,
                value: match value {
                    Some(v) => Some(v@),
                    None => None,
                },
            },
            WriteOp::Clear { db } => WriteOpView::Clear { db: *db },
        }
    }
}

impl WriteOp {
    /// A copy of the operation.
    pub fn duplicate(&self) -> (r: WriteOp)
        ensures
            r@ == self@,
    {
        match self {
            WriteOp::Put { db, key, value, flags } => WriteOp::Put {
                db: *db,
                key: copy_bytes(key.as_slice()),
                value: copy_bytes(value.as_slice()),
                flags: *flags,
            },
            WriteOp::Delete { db, key, value } => WriteOp::Delete {
                db: *db,
                key: copy_bytes(key.as_slice()),
                value: match value {
                    Some(v) => Some(copy_bytes(v.as_slice())),
                    None => None,
                },
            },
            WriteOp::Clear { db } => WriteOp::Clear { db: *db },
        }
    }
}

pub open spec fn ops_view(ops: Seq<WriteOp>) -> Seq<WriteOpView> {
    ops.map_values(|o: WriteOp| o@)
}

/// What the engine answered to a write.
pub enum WriteOutcome {
    Stored,
    MapFull,
    Failed(StoreError),
}

/// What the writer does next.
pub enum Step {
    /// Go on with the transaction.
    Continue,
    /// Abort the transaction, set the map size to `map_size`, begin a new
    /// transaction and do the writes of `redo` again, in order.
    Resize { map_size: usize, redo: Vec<WriteOp> },
    /// Report the error.
    Stop(StoreError),
}

/// The writes a transaction has done, in order.
pub struct RedoLog {
    ops: Vec<WriteOp>,
}

impl View for RedoLog {
    type V = Seq<WriteOpView>;

    closed spec fn view(&self) -> Seq<WriteOpView> {
        ops_view(self.ops@)
    }
}

impl RedoLog {
    /// An empty log, for a new transaction.
    pub fn new() -> (r: RedoLog)
        ensures
            r@.len() == 0,
    {
        let r = RedoLog { ops: Vec::new() };
        assert(r@ =~= Seq::<WriteOpView>::empty());
        r
    }

    /// Copies of the logged writes, in order.
    pub fn replay_plan(&self) -> (r: Vec<WriteOp>)
        ensures
            ops_view(r@) == self@,
    {
        let mut out: Vec<WriteOp> = Vec::new();
        let mut i: usize = 0;
        while i < self.ops.len()
            invariant
                i <= self.ops@.len(),
                ops_view(out@) == ops_view(self.ops@).subrange(0, i as int),
            decreases self.ops@.len() - i,
        {
            let op = self.ops[i].duplicate();
            let ghost before = out@;
            out.push(op);
            assert(ops_view(out@) =~= ops_view(before).push(op@));
            assert(ops_view(self.ops@).subrange(0, i + 1) =~= ops_view(self.ops@).subrange(0, i as int).push(
                self.ops@[i as int]@,
            ));
            i = i + 1;
        }
        assert(ops_view(self.ops@).subrange(0, i as int) =~= ops_view(self.ops@));
        out
    }

    /// Decides what follows the engine's answer to `op` in a map of `map_size`
    /// bytes. A stored write is logged. When the map is full, the write is
    /// logged too, and every logged write is to be done again, in the order
    /// they were first done, in a larger map. Any other failure is reported.
    pub fn after_write(&mut self, op: WriteOp, outcome: WriteOutcome, map_size: usize) -> (r: Step)
        ensures
            outcome is Stored ==> r is Continue && final(self)@ == old(self)@.push(op@),
            outcome is Failed ==> final(self)@ == old(self)@ && (r matches Step::Stop(e) && e == outcome->Failed_0),
            outcome is MapFull && grown(map_size as int) > usize::MAX ==> r == Step::Stop(StoreError::ResizeError)
                && final(self)@ == old(self)@,
            outcome is MapFull && grown(map_size as int) <= usize::MAX ==> final(self)@ == old(self)@.push(op@) && (
            r matches Step::Resize { map_size: m, redo } && m == grown(map_size as int) && ops_view(redo@)
                == final(self)@),
    {
        match outcome {
            WriteOutcome::Stored => {
                let ghost before = self.ops@;
                self.ops.push(op);
                assert(ops_view(self.ops@) =~= ops_view(before).push(op@));
                Step::Continue
            },
            WriteOutcome::Failed(e) => Step::Stop(e),
            WriteOutcome::MapFull => match grown_map_size(map_size) {
                Err(e) => Step::Stop(e),
                Ok(m) => {
                    let ghost before = self.ops@;
                    self.ops.push(op);
                    assert(ops_view(self.ops@) =~= ops_view(before).push(op@));
                    Step::Resize { map_size: m, redo: self.replay_plan() }
                },
            },
        }
    }
}

} // verus!
