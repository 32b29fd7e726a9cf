//! The per-volume facade: a handle names a volume, readers capture an
//! immutable snapshot, and the single writer stages a copy-on-write
//! overlay of dirty pages that `commit` turns into the next local
//! commit atomically.

use vstd::prelude::*;
use crate::gid::VolumeId;
use crate::page::{Page, zero_page_bytes};
use crate::storage::{Storage, VolumeRecord, PageRecord, find_volume, best_page, record_wf};
use crate::volume_state::{Snapshot, snapshot_wf, RemoteMapping, VolumeConfig, Watermark,
    Watermarks, SyncDirection, sync_matches};
use crate::volume_state::StorageErr;

verus! {

/// What a read of `(vid, pageidx)` at a snapshot returns: the most
/// recently committed page at or below the snapshot's LSN, or the zero
/// page for positions never materialized or beyond the volume size.
pub open spec fn read_spec(
    pages: Seq<PageRecord>,
    vid: Seq<u8>,
    snapshot: Option<Snapshot>,
    pageidx: u32,
) -> Seq<u8> {
    match snapshot {
        None => zero_page_bytes(),
        Some(s) => if pageidx > s.pages {
            zero_page_bytes()
        } else {
            match best_page(pages, vid, pageidx, s.local) {
                Some(p) => p.page@,
                None => zero_page_bytes(),
            }
        },
    }
}

/// Finds the most recent materialized page for `(vid, idx)` at or
/// below `bound`.
fn lookup_page(st: &Storage, vid: &VolumeId, idx: u32, bound: u64) -> (r: Page)
    requires
        st.wf(),
    ensures
        r.wf(),
        r@ == match best_page(st.pages@, vid@, idx, bound) {
            Some(p) => p.page@,
            None => zero_page_bytes(),
        },
{
    let n = st.pages.len();
    let mut best: Option<usize> = None;
    let mut i: usize = 0;
    while i < n
        invariant
            i <= n,
            n == st.pages@.len(),
            st.wf(),
            match best {
                None => best_page(st.pages@.take(i as int), vid@, idx, bound)
                    is None,
                Some(b) => b < i && best_page(st.pages@.take(i as int), vid@, idx, bound)
                    == Some(st.pages@[b as int]),
            },
        decreases n - i,
    {
        proof {
            assert(st.pages@.take(i + 1).drop_last() =~= st.pages@.take(i as int));
            assert(st.pages@.take(i + 1).last() == st.pages@[i as int]);
        }
        let e = &st.pages[i];
        if e.vid.eq(vid) && e.pageidx == idx && e.lsn <= bound {
            match best {
                None => {
                    best = Some(i);
                },
                Some(b) => {
                    if e.lsn > st.pages[b].lsn {
                        best = Some(i);
                    }
                },
            }
        }
        i = i + 1;
    }
    proof {
        assert(st.pages@.take(n as int) =~= st.pages@);
    }
    match best {
        Some(b) => st.pages[b].page.clone(),
        None => Page::zero(),
    }
}

/// Names one volume; the entry point for readers and writers.
#[derive(Clone, Copy, Debug)]
pub struct VolumeHandle {
    pub vid: VolumeId,
}

/// A read view of a volume at one snapshot.
#[derive(Clone, Copy, Debug)]
pub struct VolumeReader {
    pub vid: VolumeId,
    pub snapshot: Option<Snapshot>,
}

/// The single writer of a volume: a copy-on-write overlay of dirty
/// pages atop a base snapshot.
#[derive(Debug)]
pub struct VolumeWriter {
    pub vid: VolumeId,
    pub base: Option<Snapshot>,
    pub overlay: Vec<(u32, Page)>,
    pub size: u32,
}

impl VolumeHandle {
    pub fn new(vid: VolumeId) -> (r: Self)
        ensures
            r.vid@ == vid@,
    {
        VolumeHandle { vid }
    }

    pub fn vid(&self) -> (r: &VolumeId)
        ensures
            r@ == self.vid@,
    {
        &self.vid
    }

    /// The latest persisted snapshot of the volume; a pure read.
    pub fn snapshot(&self, st: &Storage) -> (r: Option<Snapshot>)
        ensures
            r == match find_volume(st.volumes@, self.vid@) {
                Some(rec) => rec.snapshot,
                None => None::<Snapshot>,
            },
    {
        st.snapshot(&self.vid)
    }

    /// Opens a reader at the latest persisted snapshot.
    pub fn reader(&self, st: &Storage) -> (r: VolumeReader)
        ensures
            r.vid@ == self.vid@,
            r.snapshot == match find_volume(st.volumes@, self.vid@) {
                Some(rec) => rec.snapshot,
                None => None::<Snapshot>,
            },
    {
        VolumeReader { vid: self.vid, snapshot: self.snapshot(st) }
    }

    /// Opens a writer whose overlay sits atop the given base snapshot.
    pub fn writer_at(&self, snapshot: Option<Snapshot>) -> (r: VolumeWriter)
        requires
            snapshot matches Some(s) ==> snapshot_wf(s),
        ensures
            r.wf(),
            r.vid@ == self.vid@,
            r.base == snapshot,
            r.overlay@.len() == 0,
            r.size == match snapshot {
                Some(s) => s.pages,
                None => 0u32,
            },
    {
        let size = match &snapshot {
            Some(s) => s.pages(),
            None => 0,
        };
        VolumeWriter { vid: self.vid, base: snapshot, overlay: Vec::new(), size }
    }
}

impl VolumeReader {
    /// The reader's snapshot.
    pub fn snapshot(&self) -> (r: Option<&Snapshot>)
        ensures
            r matches Some(s) ==> self.snapshot == Some(*s),
            r is Some <==> self.snapshot is Some,
    {
        match &self.snapshot {
            Some(s) => Some(s),
            None => None,
        }
    }

    /// Reads one page at the reader's snapshot.
    pub fn read(&self, st: &Storage, pageidx: u32) -> (r: Page)
        requires
            st.wf(),
        ensures
            r.wf(),
            r@ == read_spec(st.pages@, self.vid@, self.snapshot, pageidx),
    {
        match &self.snapshot {
            None => Page::zero(),
            Some(s) => {
                if pageidx > s.pages() {
                    Page::zero()
                } else {
                    lookup_page(st, &self.vid, pageidx, s.local())
                }
            },
        }
    }
}

/// The page staged in an overlay for `idx`, if any (the last write
/// wins; the overlay keeps one entry per index).
pub open spec fn find_overlay(ov: Seq<(u32, Page)>, idx: u32) -> Option<Seq<u8>>
    decreases ov.len(),
{
    if ov.len() == 0 {
        None
    } else if ov.last().0 == idx {
        Some(ov.last().1@)
    } else {
        find_overlay(ov.drop_last(), idx)
    }
}

impl VolumeWriter {
    /// The writer's invariant: overlay entries are valid pages at
    /// distinct 1-based indexes within the volume size, and the base
    /// snapshot satisfies the snapshot invariant.
    pub open spec fn wf(&self) -> bool {
        &&& forall|i: int|
            0 <= i < self.overlay@.len() ==> 1 <= (#[trigger] self.overlay@[i]).0 <= self.size
        &&& forall|i: int| 0 <= i < self.overlay@.len() ==> (#[trigger] self.overlay@[i]).1.wf()
        &&& forall|i: int, j: int|
            0 <= i < j < self.overlay@.len() ==> (#[trigger] self.overlay@[i]).0
                != (#[trigger] self.overlay@[j]).0
        &&& self.base matches Some(s) ==> snapshot_wf(s)
    }

    /// The writer's base snapshot.
    pub fn snapshot(&self) -> (r: Option<&Snapshot>)
        ensures
            r matches Some(s) ==> self.base == Some(*s),
            r is Some <==> self.base is Some,
    {
        match &self.base {
            Some(s) => Some(s),
            None => None,
        }
    }

    /// The overlay-adjusted page count.
    pub fn pages(&self) -> (r: u32)
        ensures
            r == self.size,
    {
        self.size
    }

    /// Reads one page, preferring the overlay over the base snapshot.
    pub fn read(&self, st: &Storage, pageidx: u32) -> (r: Page)
        requires
            st.wf(),
            self.wf(),
        ensures
            r.wf(),
            r@ == match find_overlay(self.overlay@, pageidx) {
                Some(p) => p,
                None => read_spec(st.pages@, self.vid@, self.base, pageidx),
            },
    {
        let n = self.overlay.len();
        let mut i: usize = 0;
        while i < n
            invariant
                i <= n,
                n == self.overlay@.len(),
                self.wf(),
                st.wf(),
                forall|j: int| 0 <= j < i ==> (#[trigger] self.overlay@[j]).0 != pageidx,
            decreases n - i,
        {
            if self.overlay[i].0 == pageidx {
                proof {
                    lemma_find_overlay_at(self.overlay@, i as int, pageidx);
                }
                return self.overlay[i].1.clone();
            }
            i = i + 1;
        }
        proof {
            lemma_find_overlay_none(self.overlay@, pageidx);
        }
        let reader = VolumeReader { vid: self.vid, snapshot: self.base };
        reader.read(st, pageidx)
    }

    /// Stages a page into the overlay and extends the volume size to
    /// cover it.
    pub fn write(&mut self, pageidx: u32, page: Page)
        requires
            old(self).wf(),
            pageidx >= 1,
            page.wf(),
        ensures
            final(self).wf(),
            final(self).vid@ == old(self).vid@,
            final(self).base == old(self).base,
            final(self).size == if pageidx > old(self).size {
                pageidx
            } else {
                old(self).size
            },
            find_overlay(final(self).overlay@, pageidx) == Some(page@),
            forall|q: u32|
                q != pageidx ==> #[trigger] find_overlay(final(self).overlay@, q) == find_overlay(
                    old(self).overlay@,
                    q,
                ),
    {
        if pageidx > self.size {
            self.size = pageidx;
        }
        let n = self.overlay.len();
        let mut i: usize = 0;
        while i < n
            invariant
                i <= n,
                n == self.overlay@.len(),
                self.wf(),
                self.overlay@ == old(self).overlay@,
                self.vid == old(self).vid,
                self.base == old(self).base,
                pageidx >= 1,
                page.wf(),
                self.size == if pageidx > old(self).size {
                    pageidx
                } else {
                    old(self).size
                },
                pageidx <= self.size,
                forall|j: int| 0 <= j < i ==> (#[trigger] self.overlay@[j]).0 != pageidx,
            decreases n - i,
        {
            if self.overlay[i].0 == pageidx {
                self.overlay.set(i, (pageidx, page));
                proof {
                    lemma_overlay_update(old(self).overlay@, self.overlay@, i as int, pageidx);
                }
                return ;
            }
            i = i + 1;
        }
        self.overlay.push((pageidx, page));
        proof {
            assert(self.overlay@.drop_last() =~= old(self).overlay@);
            assert forall|q: u32| q != pageidx implies #[trigger] find_overlay(
                self.overlay@,
                q,
            ) == find_overlay(old(self).overlay@, q) by {}
        }
    }

    /// Marks the volume size; staged pages beyond it are dropped.
    pub fn truncate(&mut self, pages: u32)
        requires
            old(self).wf(),
        ensures
            final(self).wf(),
            final(self).vid@ == old(self).vid@,
            final(self).base == old(self).base,
            final(self).size == pages,
            forall|q: u32|
                q <= pages ==> #[trigger] find_overlay(final(self).overlay@, q) == find_overlay(
                    old(self).overlay@,
                    q,
                ),
            forall|q: u32|
                q > pages ==> #[trigger] find_overlay(final(self).overlay@, q)
                    is None,
    {
        let n = self.overlay.len();
        let mut kept: Vec<(u32, Page)> = Vec::new();
        let mut i: usize = 0;
        while i < n
            invariant
                i <= n,
                n == self.overlay@.len(),
                self.wf(),
                *self == *old(self),
                forall|q: u32|
                    q <= pages ==> #[trigger] find_overlay(kept@, q) == find_overlay(
                        self.overlay@.take(i as int),
                        q,
                    ),
                forall|j: int|
                    0 <= j < kept@.len() ==> 1 <= (#[trigger] kept@[j]).0 <= pages && kept@[
                        j
                    ].1.wf(),
                forall|a: int, b: int|
                    0 <= a < b < kept@.len() ==> (#[trigger] kept@[a]).0 != (#[trigger] kept@[b]).0,
                forall|j: int|
                    0 <= j < kept@.len() ==> exists|k: int|
                        0 <= k < i && (#[trigger] kept@[j]).0 == self.overlay@[k].0,
            decreases n - i,
        {
            proof {
                assert(self.overlay@.take(i + 1).drop_last() =~= self.overlay@.take(i as int));
            }
            let e = &self.overlay[i];
            if e.0 <= pages {
                let ghost kept0 = kept@;
                kept.push((e.0, e.1.clone()));
                proof {
                    assert(kept@.drop_last() =~= kept0);
                    assert(kept@.last().0 == self.overlay@[i as int].0);
                    assert(kept@.last().1@ == self.overlay@[i as int].1@);
                    assert forall|q: u32| q <= pages implies #[trigger] find_overlay(kept@, q)
                        == find_overlay(self.overlay@.take(i + 1), q) by {
                        assert(self.overlay@.take(i + 1).last() == self.overlay@[i as int]);
                        assert(find_overlay(kept0, q) == find_overlay(
                            self.overlay@.take(i as int),
                            q,
                        ));
                    }
                    assert forall|a: int, b: int|
                        0 <= a < b < kept@.len() implies (#[trigger] kept@[a]).0 != (
                    #[trigger] kept@[b]).0 by {
                        if b == kept@.len() - 1 {
                            let k = choose|k: int|
                                0 <= k < i && (#[trigger] kept0[a]).0 == self.overlay@[k].0;
                            assert(self.overlay@[k].0 != self.overlay@[i as int].0);
                        }
                    }
                }
            } else {
                proof {
                    assert forall|q: u32| q <= pages implies #[trigger] find_overlay(kept@, q)
                        == find_overlay(self.overlay@.take(i + 1), q) by {
                        assert(self.overlay@.take(i + 1).last() == self.overlay@[i as int]);
                        assert(find_overlay(kept@, q) == find_overlay(
                            self.overlay@.take(i as int),
                            q,
                        ));
                    }
                }
            }
            i = i + 1;
        }
        proof {
            assert(self.overlay@.take(n as int) =~= self.overlay@);
        }
        self.overlay = kept;
        self.size = pages;
        proof {
            assert forall|q: u32| q > pages implies #[trigger] find_overlay(self.overlay@, q)
                is None by {
                lemma_find_overlay_bound(self.overlay@, q, pages);
            }
        }
    }

    /// Commits the overlay: assigns the next local LSN, persists the
    /// staged pages and the new snapshot, advances the pending-sync
    /// watermark when the volume pushes, and returns a reader at the
    /// new snapshot. Fails with `Conflict` exactly when another commit
    /// interleaved at the same base, leaving the store unchanged.
    pub fn commit(self, st: &mut Storage, timestamp: u64) -> (r: Result<VolumeReader, StorageErr>)
        requires
            old(st).wf(),
            self.wf(),
            self.base matches Some(s) ==> s.local < u64::MAX,
        ensures
            final(st).wf(),
            r is Err <==> (match (find_volume(old(st).volumes@, self.vid@), self.base) {
                (Some(rec), Some(b)) => !(rec.snapshot matches Some(cs) && cs.local == b.local),
                (Some(rec), None) => rec.snapshot is Some,
                (None, Some(_)) => true,
                (None, None) => false,
            }),
            r is Err ==> r == Err::<VolumeReader, StorageErr>(StorageErr::Conflict) && *final(st)
                == *old(st),
            r matches Ok(reader) ==> {
                let new_lsn = commit_lsn(self.base);
                let prev = find_volume(old(st).volumes@, self.vid@);
                let ns = commit_snapshot(prev, self.base, self.size, timestamp);
                &&& reader.vid@ == self.vid@
                &&& reader.snapshot == Some(ns)
                &&& ns.local == new_lsn
                &&& ns.pages == self.size
                &&& find_volume(final(st).volumes@, self.vid@) matches Some(nrec)
                    && nrec.snapshot == Some(ns) && nrec.watermarks == commit_watermarks(
                    prev,
                    new_lsn,
                    self.size,
                )
                &&& final(st).pages@.len() == old(st).pages@.len() + self.overlay@.len()
                &&& forall|k: int|
                    0 <= k < old(st).pages@.len() ==> final(st).pages@[k] == old(st).pages@[k]
                &&& forall|k: int|
                    0 <= k < self.overlay@.len() ==> {
                        let p = #[trigger] final(st).pages@[old(st).pages@.len() + k];
                        p.vid@ == self.vid@ && p.pageidx == self.overlay@[k].0 && p.lsn == new_lsn
                            && p.page@ == self.overlay@[k].1@
                    }
                &&& final(st).segments@ == old(st).segments@
                &&& forall|v: Seq<u8>|
                    v != self.vid@ ==> #[trigger] find_volume(final(st).volumes@, v)
                        == find_volume(old(st).volumes@, v)
            },
    {
        let cur = st.get_volume(&self.vid);
        // Reject the commit if another commit interleaved at this base.
        let conflicted = match (&cur, &self.base) {
            (Some(rec), Some(b)) => match &rec.snapshot {
                Some(cs) => cs.local() != b.local(),
                None => true,
            },
            (Some(rec), None) => rec.snapshot.is_some(),
            (None, Some(_)) => true,
            (None, None) => false,
        };
        if conflicted {
            return Err(StorageErr::Conflict);
        }
        if cur.is_none() {
            // First commit of an unregistered volume: start from the
            // default configuration.
            st.add_volume(&self.vid, VolumeConfig::new(SyncDirection::Disabled));
        }
        let rec = match st.get_volume(&self.vid) {
            Some(rec) => rec,
            None => {
                proof {
                    assert(false);
                }
                return Err(StorageErr::Conflict);
            },
        };
        let new_lsn = match &self.base {
            Some(b) => b.local() + 1,
            None => 1,
        };
        let remote = match &rec.snapshot {
            Some(s) => s.remote,
            None => RemoteMapping::Unmapped,
        };
        proof {
            crate::storage::lemma_find_idx(st.volumes@, self.vid@);
            assert(record_wf(rec));
        }
        let ns = Snapshot::new(new_lsn, remote, self.size, timestamp);
        let push = rec.config.sync().matches(SyncDirection::Push);
        let wm = if push {
            rec.watermarks.with_pending_sync(Watermark::new(new_lsn, self.size))
        } else {
            rec.watermarks
        };
        let nrec = VolumeRecord { snapshot: Some(ns), watermarks: wm, ..rec };
        let ghost old_pages = st.pages@;
        proof {
            // Every existing page of this volume lies below the new LSN.
            assert forall|k: int|
                0 <= k < st.pages@.len() && (#[trigger] st.pages@[k]).vid@ == self.vid@
                implies st.pages@[k].lsn < new_lsn by {
                assert(crate::storage::page_linked(st.volumes@, st.pages@[k]));
            }
        }
        st.set_volume(&self.vid, nrec);
        proof {
            assert(st.pages@ == old(st).pages@);
        }
        let ghost st_mid = *st;
        let n = self.overlay.len();
        let mut i: usize = 0;
        while i < n
            invariant
                i <= n,
                n == self.overlay@.len(),
                self.wf(),
                st.wf(),
                st.volumes@ == st_mid.volumes@,
                st.segments@ == st_mid.segments@,
                st.pages@.len() == st_mid.pages@.len() + i,
                find_volume(st.volumes@, self.vid@) == Some(nrec),
                nrec.snapshot == Some(ns),
                ns.local == new_lsn,
                forall|k: int| 0 <= k < st_mid.pages@.len() ==> st.pages@[k] == st_mid.pages@[k],
                forall|k: int|
                    0 <= k < st_mid.pages@.len() && (#[trigger] st_mid.pages@[k]).vid@
                        == self.vid@ ==> st_mid.pages@[k].lsn < new_lsn,
                forall|k: int|
                    0 <= k < i ==> {
                        let p = #[trigger] st.pages@[st_mid.pages@.len() + k];
                        p.vid@ == self.vid@ && p.pageidx == self.overlay@[k].0 && p.lsn == new_lsn
                            && p.page@ == self.overlay@[k].1@
                    },
            decreases n - i,
        {
            let e = &self.overlay[i];
            let prec = PageRecord {
                vid: self.vid,
                pageidx: e.0,
                lsn: new_lsn,
                page: e.1.clone(),
            };
            let ghost pre_pages = st.pages@;
            st.pages.push(prec);
            proof {
                let ps = st.pages@;
                assert(ps == pre_pages.push(prec));
                assert(forall|a: int| 0 <= a < pre_pages.len() ==> ps[a] == pre_pages[a]);
                assert forall|a: int| 0 <= a < ps.len() implies crate::storage::page_linked(
                    st.volumes@,
                    #[trigger] ps[a],
                ) by {
                    if a < ps.len() - 1 {
                    } else {
                        assert(find_volume(st.volumes@, self.vid@) == Some(nrec));
                    }
                }
                assert forall|a: int, b: int| 0 <= a < b < ps.len() implies !((
                #[trigger] ps[a]).vid@ == (#[trigger] ps[b]).vid@ && ps[a].pageidx
                    == ps[b].pageidx && ps[a].lsn == ps[b].lsn) by {
                    if b == ps.len() - 1 && ps[a].vid@ == self.vid@ {
                        if a < st_mid.pages@.len() {
                            assert(ps[a] == pre_pages[a]);
                            assert(pre_pages[a] == st_mid.pages@[a]);
                            assert(ps[a].lsn < new_lsn);
                        } else {
                            let k = a - st_mid.pages@.len();
                            assert(ps[a] == pre_pages[a]);
                            assert(pre_pages[st_mid.pages@.len() + k].pageidx == self.overlay@[
                                k
                            ].0);
                            assert(self.overlay@[k].0 != self.overlay@[i as int].0);
                        }
                    }
                }
            }
            i = i + 1;
        }
        proof {
            assert forall|v: Seq<u8>| v != self.vid@ implies #[trigger] find_volume(
                st.volumes@,
                v,
            ) == find_volume(old(st).volumes@, v) by {}
        }
        Ok(VolumeReader { vid: self.vid, snapshot: Some(ns) })
    }
}

/// The LSN a commit on the given base is assigned.
pub open spec fn commit_lsn(base: Option<Snapshot>) -> u64 {
    match base {
        Some(s) => (s.local + 1) as u64,
        None => 1u64,
    }
}

/// The snapshot a commit persists: the next local LSN, the remote
/// mapping carried over, and the writer's page count.
pub open spec fn commit_snapshot(
    prev: Option<VolumeRecord>,
    base: Option<Snapshot>,
    size: u32,
    timestamp: u64,
) -> Snapshot {
    Snapshot {
        local: commit_lsn(base),
        remote: match prev {
            Some(rec) => match rec.snapshot {
                Some(s) => s.remote,
                None => RemoteMapping::Unmapped,
            },
            None => RemoteMapping::Unmapped,
        },
        pages: size,
        timestamp,
    }
}

/// The watermarks a commit persists: the pending-sync watermark moves
/// to the new commit exactly when the volume pushes.
pub open spec fn commit_watermarks(prev: Option<VolumeRecord>, new_lsn: u64, size: u32) -> Watermarks {
    let wm = match prev {
        Some(rec) => rec.watermarks,
        None => Watermarks { pending_sync: Watermark::Unmapped, checkpoint: Watermark::Unmapped },
    };
    let sync = match prev {
        Some(rec) => rec.config.sync,
        None => SyncDirection::Disabled,
    };
    if sync_matches(sync, SyncDirection::Push) {
        Watermarks { pending_sync: Watermark::Mapped { lsn: new_lsn, pages: size }, ..wm }
    } else {
        wm
    }
}

proof fn lemma_find_overlay_at(ov: Seq<(u32, Page)>, i: int, idx: u32)
    requires
        0 <= i < ov.len(),
        ov[i].0 == idx,
        forall|a: int, b: int| 0 <= a < b < ov.len() ==> (#[trigger] ov[a]).0 != (#[trigger] ov[b]).0,
    ensures
        find_overlay(ov, idx) == Some(ov[i].1@),
    decreases ov.len(),
{
    if i == ov.len() - 1 {
    } else {
        assert(ov.last().0 != idx);
        assert forall|a: int, b: int|
            0 <= a < b < ov.drop_last().len() implies (#[trigger] ov.drop_last()[a]).0 != (
        #[trigger] ov.drop_last()[b]).0 by {
            assert(ov.drop_last()[a] == ov[a] && ov.drop_last()[b] == ov[b]);
        }
        lemma_find_overlay_at(ov.drop_last(), i, idx);
    }
}

proof fn lemma_find_overlay_none(ov: Seq<(u32, Page)>, idx: u32)
    requires
        forall|j: int| 0 <= j < ov.len() ==> (#[trigger] ov[j]).0 != idx,
    ensures
        find_overlay(ov, idx) is None,
    decreases ov.len(),
{
    if ov.len() > 0 {
        lemma_find_overlay_none(ov.drop_last(), idx);
    }
}

proof fn lemma_find_overlay_bound(ov: Seq<(u32, Page)>, idx: u32, bound: u32)
    requires
        forall|j: int| 0 <= j < ov.len() ==> (#[trigger] ov[j]).0 <= bound,
        idx > bound,
    ensures
        find_overlay(ov, idx) is None,
    decreases ov.len(),
{
    if ov.len() > 0 {
        lemma_find_overlay_bound(ov.drop_last(), idx, bound);
    }
}

/// Replacing the unique entry of `idx` rebinds it and leaves other
/// lookups unchanged.
proof fn lemma_overlay_update(o: Seq<(u32, Page)>, s: Seq<(u32, Page)>, i: int, idx: u32)
    requires
        0 <= i < o.len(),
        s.len() == o.len(),
        s[i].0 == idx,
        o[i].0 == idx,
        forall|j: int| 0 <= j < o.len() && j != i ==> s[j] == o[j],
        forall|a: int, b: int| 0 <= a < b < o.len() ==> (#[trigger] o[a]).0 != (#[trigger] o[b]).0,
    ensures
        find_overlay(s, idx) == Some(s[i].1@),
        forall|q: u32| q != idx ==> #[trigger] find_overlay(s, q) == find_overlay(o, q),
    decreases o.len(),
{
    assert forall|a: int, b: int| 0 <= a < b < s.len() implies (#[trigger] s[a]).0 != (
    #[trigger] s[b]).0 by {
        if a != i && b != i {
            assert(s[a] == o[a] && s[b] == o[b]);
        } else if a == i {
            assert(s[b] == o[b]);
        } else {
            assert(s[a] == o[a]);
        }
    }
    lemma_find_overlay_at(s, i, idx);
    assert forall|q: u32| q != idx implies #[trigger] find_overlay(s, q) == find_overlay(
        o,
        q,
    ) by {
        lemma_overlay_update_other(o, s, i, q);
    }
}

proof fn lemma_overlay_update_other(o: Seq<(u32, Page)>, s: Seq<(u32, Page)>, i: int, q: u32)
    requires
        0 <= i < o.len(),
        s.len() == o.len(),
        s[i].0 == o[i].0,
        s[i].0 != q,
        forall|j: int| 0 <= j < o.len() && j != i ==> s[j] == o[j],
    ensures
        find_overlay(s, q) == find_overlay(o, q),
    decreases o.len(),
{
    if i == o.len() - 1 {
        assert(s.drop_last() =~= o.drop_last());
    } else {
        assert(s.last() == o.last());
        if o.last().0 != q {
            assert forall|j: int|
                0 <= j < o.drop_last().len() && j != i implies s.drop_last()[j] == o.drop_last()[
                j
            ] by {
                assert(s.drop_last()[j] == s[j] && o.drop_last()[j] == o[j]);
            }
            lemma_overlay_update_other(o.drop_last(), s.drop_last(), i, q);
        }
    }
}

/// Pages committed above a snapshot's LSN are invisible to it.
proof fn lemma_best_page_append(
    pages: Seq<PageRecord>,
    extra: Seq<PageRecord>,
    vid: Seq<u8>,
    idx: u32,
    bound: u64,
)
    requires
        forall|k: int| 0 <= k < extra.len() ==> (#[trigger] extra[k]).lsn > bound,
    ensures
        best_page(pages + extra, vid, idx, bound) == best_page(pages, vid, idx, bound),
    decreases extra.len(),
{
    if extra.len() == 0 {
        assert(pages + extra =~= pages);
    } else {
        assert((pages + extra).drop_last() =~= pages + extra.drop_last());
        assert((pages + extra).last() == extra.last());
        lemma_best_page_append(pages, extra.drop_last(), vid, idx, bound);
    }
}

/// Law: a reader never observes a later commit. A commit appends pages
/// only at its new LSN, so every read at a snapshot taken before the
/// commit returns exactly what it returned before.
pub proof fn lemma_reader_isolation(
    pre: Storage,
    post: Storage,
    vid: Seq<u8>,
    snapshot: Snapshot,
    new_lsn: u64,
    pageidx: u32,
)
    requires
        post.pages@.len() >= pre.pages@.len(),
        forall|k: int| 0 <= k < pre.pages@.len() ==> post.pages@[k] == pre.pages@[k],
        forall|k: int|
            pre.pages@.len() <= k < post.pages@.len() ==> (#[trigger] post.pages@[k]).lsn
                == new_lsn,
        snapshot.local < new_lsn,
    ensures
        read_spec(post.pages@, vid, Some(snapshot), pageidx) == read_spec(
            pre.pages@,
            vid,
            Some(snapshot),
            pageidx,
        ),
{
    let extra = post.pages@.skip(pre.pages@.len() as int);
    assert(post.pages@ =~= pre.pages@ + extra);
    lemma_best_page_append(pre.pages@, extra, vid, pageidx, snapshot.local);
}

} // verus!
