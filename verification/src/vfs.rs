//! The file abstraction a SQL engine drives: lock-level requests are
//! translated into the volume's transaction lifecycle. A shared lock
//! opens a reader, the reserved lock admits the single writer (backed
//! by a per-volume reserved flag held across calls), and downgrading
//! from reserved commits the writer's overlay.

use vstd::prelude::*;
use crate::PAGESIZE;
use crate::page::Page;
use crate::storage::{Storage, find_volume};
use crate::volume::{VolumeHandle, VolumeReader, VolumeWriter, read_spec, find_overlay,
    commit_lsn, commit_snapshot, commit_watermarks};
use crate::volume_state::{Snapshot, StorageErr};

verus! {

/// The lock levels a SQL engine requests.
#[derive(Clone, Copy, Debug, PartialEq, Eq, Structural)]
pub enum LockLevel {
    Unlocked,
    Shared,
    Reserved,
    Pending,
    Exclusive,
}

/// Errors of the lock-state machine.
#[derive(Clone, Copy, Debug, PartialEq, Eq, Structural)]
pub enum ErrCtx {
    /// The requested lock transition is not part of the protocol.
    InvalidLockTransition,
    /// The file is in a state that cannot serve the request.
    InvalidVolumeState,
    /// Another connection holds the reserved lock.
    Busy,
    /// The snapshot moved since this transaction began.
    BusySnapshot,
    /// The storage layer failed.
    Storage(StorageErr),
}

/// The per-volume reserved flag: exclusive writer admission, held
/// across calls from lock to unlock.
#[derive(Clone, Copy, Debug, PartialEq, Eq, Structural)]
pub struct ReservedLock {
    pub held: bool,
}

impl ReservedLock {
    pub fn new() -> (r: Self)
        ensures
            !r.held,
    {
        ReservedLock { held: false }
    }
}

/// The transaction state of one open file.
#[derive(Debug)]
pub enum VolFileState {
    /// No lock is held.
    Idle,
    /// A read transaction with its snapshot.
    Shared { reader: VolumeReader },
    /// The single write transaction with its overlay.
    Reserved { writer: VolumeWriter },
    /// A commit is in flight; only a full unlock recovers the file.
    Committing,
}

impl VolFileState {
    /// A short name for diagnostics.
    pub fn name(&self) -> (r: &'static str)
    {
        match self {
            VolFileState::Idle => "Idle",
            VolFileState::Shared { .. } => "Shared",
            VolFileState::Reserved { .. } => "Reserved",
            VolFileState::Committing => "Committing",
        }
    }
}

/// One open volume file.
#[derive(Debug)]
pub struct VolFile {
    pub handle: VolumeHandle,
    pub readonly: bool,
    pub state: VolFileState,
}

/// The local-LSN of an optional snapshot, for snapshot-change checks.
pub open spec fn snapshot_lsn(s: Option<Snapshot>) -> Option<u64> {
    match s {
        Some(s) => Some(s.local),
        None => None,
    }
}

/// What a page read at the file's current state returns.
pub open spec fn file_read_spec(f: VolFile, st: Storage, pageidx: u32) -> Seq<u8> {
    match f.state {
        VolFileState::Idle => read_spec(
            st.pages@,
            f.handle.vid@,
            match find_volume(st.volumes@, f.handle.vid@) {
                Some(rec) => rec.snapshot,
                None => None,
            },
            pageidx,
        ),
        VolFileState::Shared { reader } => read_spec(st.pages@, reader.vid@, reader.snapshot, pageidx),
        VolFileState::Reserved { writer } => match find_overlay(writer.overlay@, pageidx) {
            Some(p) => p,
            None => read_spec(st.pages@, writer.vid@, writer.base, pageidx),
        },
        VolFileState::Committing => Seq::empty(),
    }
}

impl VolFile {
    /// The file's invariant: readers and writers belong to the file's
    /// volume and the writer is well formed.
    pub open spec fn wf(&self) -> bool {
        &&& self.state matches VolFileState::Shared { reader } ==> reader.vid@ == self.handle.vid@
        &&& self.state matches VolFileState::Reserved { writer } ==> writer.wf() && writer.vid@
            == self.handle.vid@
    }

    /// Opens a file on a volume; no lock is held yet.
    pub fn new(handle: VolumeHandle, readonly: bool) -> (r: VolFile)
        ensures
            r.wf(),
            r.handle == handle,
            r.readonly == readonly,
            r.state is Idle,
    {
        VolFile { handle, readonly, state: VolFileState::Idle }
    }

    pub fn handle(&self) -> (r: &VolumeHandle)
        ensures
            *r == self.handle,
    {
        &self.handle
    }

    /// Surrenders the file, returning its handle.
    pub fn close(self) -> (r: VolumeHandle)
        ensures
            r == self.handle,
    {
        self.handle
    }

    /// The snapshot the file currently reads from: the transaction's
    /// snapshot when one is open, else the latest persisted one.
    pub fn snapshot_or_latest(&self, st: &Storage) -> (r: Result<Option<Snapshot>, ErrCtx>)
        ensures
            r matches Ok(s) ==> s == match self.state {
                VolFileState::Idle => match find_volume(st.volumes@, self.handle.vid@) {
                    Some(rec) => rec.snapshot,
                    None => None,
                },
                VolFileState::Shared { reader } => reader.snapshot,
                VolFileState::Reserved { writer } => writer.base,
                VolFileState::Committing => None,
            },
            r is Err <==> self.state is Committing,
            r is Err ==> r == Err::<Option<Snapshot>, ErrCtx>(ErrCtx::InvalidVolumeState),
    {
        match &self.state {
            VolFileState::Idle => Ok(self.handle.snapshot(st)),
            VolFileState::Shared { reader } => Ok(match reader.snapshot() {
                Some(s) => Some(*s),
                None => None,
            }),
            VolFileState::Reserved { writer } => Ok(match writer.snapshot() {
                Some(s) => Some(*s),
                None => None,
            }),
            VolFileState::Committing => Err(ErrCtx::InvalidVolumeState),
        }
    }

    /// Handles a lock request.
    ///
    /// `Shared` opens a reader from `Idle`. `Reserved` upgrades a
    /// `Shared` file to the single writer: it fails `Busy` while
    /// another connection holds the reserved flag, and `BusySnapshot`
    /// if the persisted snapshot moved since the reader opened; on
    /// success the reserved flag stays held until the matching unlock.
    /// `Pending` and `Exclusive` are no-ops for a reserved file.
    pub fn lock(&mut self, st: &Storage, reserved: &mut ReservedLock, level: LockLevel) -> (r:
        Result<(), ErrCtx>)
        requires
            st.wf(),
            old(self).wf(),
            level != LockLevel::Unlocked,
            level is Pending || level is Exclusive ==> old(self).state is Reserved,
        ensures
            final(self).wf(),
            final(self).handle == old(self).handle,
            final(self).readonly == old(self).readonly,
            level is Shared ==> match old(self).state {
                VolFileState::Idle => r is Ok && (final(self).state matches VolFileState::Shared {
                    reader,
                } && reader.vid@ == old(self).handle.vid@ && reader.snapshot == (
                match find_volume(st.volumes@, old(self).handle.vid@) {
                    Some(rec) => rec.snapshot,
                    None => None,
                })) && *final(reserved) == *old(reserved),
                _ => r == Err::<(), ErrCtx>(ErrCtx::InvalidLockTransition) && *final(reserved)
                    == *old(reserved),
            },
            level is Reserved ==> match old(self).state {
                VolFileState::Shared { reader } => {
                    let latest = match find_volume(st.volumes@, old(self).handle.vid@) {
                        Some(rec) => rec.snapshot,
                        None => None,
                    };
                    if old(self).readonly {
                        r == Err::<(), ErrCtx>(ErrCtx::InvalidLockTransition) && *final(reserved)
                            == *old(reserved)
                    } else if old(reserved).held {
                        r == Err::<(), ErrCtx>(ErrCtx::Busy) && *final(reserved) == *old(reserved)
                    } else if snapshot_lsn(reader.snapshot) != snapshot_lsn(latest) {
                        r == Err::<(), ErrCtx>(ErrCtx::BusySnapshot) && *final(reserved) == *old(reserved)
                    } else {
                        r is Ok && final(reserved).held && (final(self).state matches VolFileState::Reserved { writer } && writer.base == latest
                            && writer.overlay@.len() == 0 && writer.size == (match latest {
                            Some(s) => s.pages,
                            None => 0u32,
                        }))
                    }
                },
                _ => r == Err::<(), ErrCtx>(ErrCtx::InvalidLockTransition) && *final(reserved)
                    == *old(reserved),
            },
            level is Pending || level is Exclusive ==> r is Ok && *final(self) == *old(self)
                && *final(reserved) == *old(reserved),
            r is Err ==> *final(self) == *old(self),
    {
        match level {
            LockLevel::Unlocked => {
                proof {
                    assert(false);
                }
                Err(ErrCtx::InvalidLockTransition)
            },
            LockLevel::Shared => {
                if let VolFileState::Idle = self.state {
                    let reader = self.handle.reader(st);
                    self.state = VolFileState::Shared { reader };
                    Ok(())
                } else {
                    Err(ErrCtx::InvalidLockTransition)
                }
            },
            LockLevel::Reserved => {
                if let VolFileState::Shared { reader } = &self.state {
                    // A read-only file can never take the write lock.
                    if self.readonly {
                        return Err(ErrCtx::InvalidLockTransition);
                    }
                    // Acquire the reserved flag or report contention.
                    if reserved.held {
                        return Err(ErrCtx::Busy);
                    }
                    // Re-read the latest snapshot: if the local LSN moved
                    // since this transaction began, the reader's view is
                    // stale and the upgrade must fail. The remote LSN
                    // needs no check: a pull moves the local LSN too, and
                    // a push does not change the logical state.
                    let latest = self.handle.snapshot(st);
                    let reader_lsn = match reader.snapshot() {
                        Some(s) => Some(s.local()),
                        None => None,
                    };
                    let latest_lsn = match &latest {
                        Some(s) => Some(s.local()),
                        None => None,
                    };
                    let same = match (reader_lsn, latest_lsn) {
                        (Some(a), Some(b)) => a == b,
                        (None, None) => true,
                        _ => false,
                    };
                    if !same {
                        return Err(ErrCtx::BusySnapshot);
                    }
                    proof {
                        if latest is Some {
                            crate::storage::lemma_find_idx(st.volumes@, self.handle.vid@);
                        }
                    }
                    let writer = self.handle.writer_at(latest);
                    self.state = VolFileState::Reserved { writer };
                    // The reserved flag stays held until the matching
                    // unlock releases it.
                    reserved.held = true;
                    Ok(())
                } else {
                    Err(ErrCtx::InvalidLockTransition)
                }
            },
            LockLevel::Pending | LockLevel::Exclusive => Ok(()),
        }
    }

    /// Handles an unlock request.
    ///
    /// Unlocking to `Unlocked` drops any read transaction. Downgrading
    /// from `Reserved` to `Shared` commits the writer's overlay: on
    /// success the file holds a reader at the new snapshot and the
    /// reserved flag is released; on failure the file stays
    /// `Committing` so that a subsequent full unlock cleans up.
    pub fn unlock(
        &mut self,
        st: &mut Storage,
        reserved: &mut ReservedLock,
        level: LockLevel,
        timestamp: u64,
    ) -> (r: Result<(), ErrCtx>)
        requires
            old(st).wf(),
            old(self).wf(),
            level is Unlocked || level is Shared,
            level is Shared ==> (old(self).state matches VolFileState::Reserved { writer }
                ==> old(reserved).held && (writer.base matches Some(b) ==> b.local < u64::MAX)),
        ensures
            final(self).wf(),
            final(st).wf(),
            final(self).handle == old(self).handle,
            final(self).readonly == old(self).readonly,
            level is Unlocked ==> match old(self).state {
                VolFileState::Reserved { .. } => r == Err::<(), ErrCtx>(
                    ErrCtx::InvalidLockTransition,
                ) && *final(self) == *old(self) && *final(st) == *old(st) && *final(reserved)
                    == *old(reserved),
                _ => r is Ok && final(self).state is Idle && *final(st) == *old(st) && *final(reserved) == *old(reserved),
            },
            level is Shared ==> match old(self).state {
                VolFileState::Reserved { writer } => {
                    let prev = find_volume(old(st).volumes@, writer.vid@);
                    let conflicted = match (prev, writer.base) {
                        (Some(rec), Some(b)) => !(rec.snapshot matches Some(cs) && cs.local
                            == b.local),
                        (Some(rec), None) => rec.snapshot is Some,
                        (None, Some(_)) => true,
                        (None, None) => false,
                    };
                    if conflicted {
                        r == Err::<(), ErrCtx>(ErrCtx::Storage(StorageErr::Conflict)) && final(self).state is Committing && *final(st) == *old(st) && *final(reserved)
                            == *old(reserved)
                    } else {
                        let ns = commit_snapshot(prev, writer.base, writer.size, timestamp);
                        r is Ok && !final(reserved).held && (final(self).state matches VolFileState::Shared { reader } && reader.vid@
                            == writer.vid@ && reader.snapshot == Some(ns) && ns.local == commit_lsn(
                            writer.base,
                        ) && ns.pages == writer.size) && (find_volume(final(st).volumes@, writer.vid@)
                            matches Some(nrec) && nrec.snapshot == Some(ns)
                            && nrec.watermarks == commit_watermarks(prev, ns.local, writer.size))
                    }
                },
                _ => r == Err::<(), ErrCtx>(ErrCtx::InvalidLockTransition) && *final(st) == *old(st) && *final(reserved) == *old(reserved) && *final(self) == *old(self),
            },
    {
        match level {
            LockLevel::Unlocked => {
                match self.state {
                    VolFileState::Reserved { .. } => Err(ErrCtx::InvalidLockTransition),
                    _ => {
                        self.state = VolFileState::Idle;
                        Ok(())
                    },
                }
            },
            LockLevel::Shared => {
                let mut prev_state = VolFileState::Committing;
                core::mem::swap(&mut prev_state, &mut self.state);
                if let VolFileState::Reserved { writer } = prev_state {
                    // Downgrade through the transient Committing state:
                    // if the commit fails, a later full unlock recovers.
                    match writer.commit(st, timestamp) {
                        Ok(reader) => {
                            self.state = VolFileState::Shared { reader };
                            // Release the reserved flag held since the
                            // lock upgrade.
                            reserved.held = false;
                            Ok(())
                        },
                        Err(e) => Err(ErrCtx::Storage(e)),
                    }
                } else {
                    self.state = prev_state;
                    Err(ErrCtx::InvalidLockTransition)
                }
            },
            _ => {
                proof {
                    assert(false);
                }
                Err(ErrCtx::InvalidLockTransition)
            },
        }
    }

    /// The file size in bytes: the page count of the current view times
    /// the page size.
    pub fn file_size(&self, st: &Storage) -> (r: Result<u64, ErrCtx>)
        ensures
            r matches Ok(size) ==> size == (PAGESIZE as u64) * (match self.state {
                VolFileState::Idle => match find_volume(st.volumes@, self.handle.vid@) {
                    Some(rec) => match rec.snapshot {
                        Some(s) => s.pages,
                        None => 0u32,
                    },
                    None => 0u32,
                },
                VolFileState::Shared { reader } => match reader.snapshot {
                    Some(s) => s.pages,
                    None => 0u32,
                },
                VolFileState::Reserved { writer } => writer.size,
                VolFileState::Committing => 0u32,
            }) as u64,
            r is Err <==> self.state is Committing,
            r is Err ==> r == Err::<u64, ErrCtx>(ErrCtx::InvalidVolumeState),
    {
        let pages: u32 = match &self.state {
            VolFileState::Idle => match self.handle.snapshot(st) {
                Some(s) => s.pages(),
                None => 0,
            },
            VolFileState::Shared { reader } => match reader.snapshot() {
                Some(s) => s.pages(),
                None => 0,
            },
            VolFileState::Reserved { writer } => writer.pages(),
            VolFileState::Committing => {
                return Err(ErrCtx::InvalidVolumeState);
            },
        };
        proof {
            assert((PAGESIZE as u64) * (pages as u64) <= 4096 * 0xFFFF_FFFFu64)
                by (nonlinear_arith)
                requires pages <= 0xFFFF_FFFFu32;
        }
        Ok((PAGESIZE as u64) * (pages as u64))
    }

    /// Reads `len` bytes at byte offset `offset`. The range must not
    /// cross a page boundary. Reads are served from the current view;
    /// an idle file reads from the latest persisted snapshot (a SQL
    /// engine reads the header without holding a lock).
    pub fn read(&self, st: &Storage, offset: usize, len: usize) -> (r: Result<Vec<u8>, ErrCtx>)
        requires
            st.wf(),
            self.wf(),
            offset % PAGESIZE + len <= PAGESIZE,
            offset / PAGESIZE + 1 <= u32::MAX,
        ensures
            r is Err <==> self.state is Committing,
            r is Err ==> r == Err::<Vec<u8>, ErrCtx>(ErrCtx::InvalidVolumeState),
            r matches Ok(data) ==> data@ == file_read_spec(*self, *st, (offset / PAGESIZE
                + 1) as u32).subrange(
                (offset % PAGESIZE) as int,
                (offset % PAGESIZE) as int + len as int,
            ),
    {
        let page_idx: u32 = (offset / PAGESIZE + 1) as u32;
        let local_offset: usize = offset % PAGESIZE;
        let page: Page = match &self.state {
            VolFileState::Idle => {
                let reader = self.handle.reader(st);
                reader.read(st, page_idx)
            },
            VolFileState::Shared { reader } => reader.read(st, page_idx),
            VolFileState::Reserved { writer } => writer.read(st, page_idx),
            VolFileState::Committing => {
                return Err(ErrCtx::InvalidVolumeState);
            },
        };
        Ok(page.read_range(local_offset, len))
    }

    /// Marks the volume size; requires the reserved lock.
    pub fn truncate(&mut self, size: usize) -> (r: Result<(), ErrCtx>)
        requires
            old(self).wf(),
            size % PAGESIZE == 0,
            size / PAGESIZE <= u32::MAX,
        ensures
            final(self).wf(),
            final(self).handle == old(self).handle,
            final(self).readonly == old(self).readonly,
            r is Err <==> !(old(self).state is Reserved),
            r is Err ==> r == Err::<(), ErrCtx>(ErrCtx::InvalidVolumeState) && *final(self)
                == *old(self),
            r is Ok ==> (old(self).state matches VolFileState::Reserved { writer } && (final(self).state matches VolFileState::Reserved { writer: w2 } && w2.size == size / PAGESIZE
                && w2.base == writer.base && w2.vid@ == writer.vid@ && (forall|q: u32|
                q <= size / PAGESIZE ==> #[trigger] find_overlay(w2.overlay@, q) == find_overlay(
                    writer.overlay@,
                    q,
                )) && (forall|q: u32|
                q > size / PAGESIZE ==> #[trigger] find_overlay(w2.overlay@, q) is None))),
    {
        let pages: u32 = (size / PAGESIZE) as u32;
        let mut prev_state = VolFileState::Committing;
        core::mem::swap(&mut prev_state, &mut self.state);
        match prev_state {
            VolFileState::Reserved { mut writer } => {
                writer.truncate(pages);
                self.state = VolFileState::Reserved { writer };
                Ok(())
            },
            other => {
                self.state = other;
                Err(ErrCtx::InvalidVolumeState)
            },
        }
    }

    /// Writes `data` at byte offset `offset`; requires the reserved
    /// lock, and the range must not cross a page boundary. A full-page
    /// write replaces the page; a partial write reads the page through
    /// the writer, splices the bytes in, and stages the result.
    pub fn write(&mut self, st: &Storage, offset: usize, data: &Vec<u8>) -> (r: Result<
        usize,
        ErrCtx,
    >)
        requires
            st.wf(),
            old(self).wf(),
            offset % PAGESIZE + data@.len() <= PAGESIZE,
            offset / PAGESIZE + 1 <= u32::MAX,
        ensures
            final(self).wf(),
            final(self).handle == old(self).handle,
            final(self).readonly == old(self).readonly,
            r is Err <==> !(old(self).state is Reserved),
            r is Err ==> r == Err::<usize, ErrCtx>(ErrCtx::InvalidVolumeState) && *final(self)
                == *old(self),
            r matches Ok(n) ==> n == data@.len() && (old(self).state matches VolFileState::Reserved { writer } && (final(self).state matches VolFileState::Reserved { writer: w2 } && {
                let idx = (offset / PAGESIZE + 1) as u32;
                let off = (offset % PAGESIZE) as int;
                let before = match find_overlay(writer.overlay@, idx) {
                    Some(p) => p,
                    None => read_spec(st.pages@, writer.vid@, writer.base, idx),
                };
                &&& w2.vid@ == writer.vid@
                &&& w2.base == writer.base
                &&& find_overlay(w2.overlay@, idx) matches Some(p2) && p2.len() == PAGESIZE && (
                forall|j: int|
                    0 <= j < PAGESIZE ==> p2[j] == (if off <= j < off + data@.len() {
                        data@[j - off]
                    } else {
                        before[j]
                    }))
                &&& forall|q: u32|
                    q != idx ==> #[trigger] find_overlay(w2.overlay@, q) == find_overlay(
                        writer.overlay@,
                        q,
                    )
            })),
    {
        let page_idx: u32 = (offset / PAGESIZE + 1) as u32;
        let local_offset: usize = offset % PAGESIZE;
        let mut prev_state = VolFileState::Committing;
        core::mem::swap(&mut prev_state, &mut self.state);
        match prev_state {
            VolFileState::Reserved { mut writer } => {
                // Read the current page through the writer, splice the
                // written range in, and stage the result.
                let mut page = writer.read(st, page_idx);
                page.write_range(local_offset, data);
                proof {
                    assert(page.wf());
                }
                writer.write(page_idx, page);
                self.state = VolFileState::Reserved { writer };
                Ok(data.len())
            },
            other => {
                self.state = other;
                Err(ErrCtx::InvalidVolumeState)
            },
        }
    }
}

} // verus!
