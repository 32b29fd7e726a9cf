//! The metastore's commit-log contract: LSN ranges with inclusive and
//! exclusive endpoints, the per-volume commit catalog, and the
//! pull-commits query that returns every commit of a range together
//! with the snapshot at its end.

use vstd::prelude::*;
use crate::gid::{VolumeId, SegmentId};
use crate::commit::CommitMeta;

verus! {

/// One endpoint of an LSN range.
#[derive(Clone, Copy, Debug, PartialEq, Eq, Structural)]
pub enum LsnBound {
    Included(u64),
    Excluded(u64),
}

/// A range of LSNs; missing endpoints are unbounded.
#[derive(Clone, Copy, Debug, PartialEq, Eq, Structural)]
pub struct LsnRange {
    pub start: Option<LsnBound>,
    pub end: Option<LsnBound>,
}

/// The first LSN a range includes, if it is bounded below.
pub open spec fn range_start(r: LsnRange) -> Option<u64> {
    match r.start {
        Some(LsnBound::Included(l)) => Some(l),
        Some(LsnBound::Excluded(l)) => Some((l + 1) as u64),
        None => None,
    }
}

/// The last LSN a range includes, if it is bounded above (saturating
/// below zero).
pub open spec fn range_end(r: LsnRange) -> Option<u64> {
    match r.end {
        Some(LsnBound::Included(l)) => Some(l),
        Some(LsnBound::Excluded(l)) => Some(if l == 0 {
            0u64
        } else {
            (l - 1) as u64
        }),
        None => None,
    }
}

impl LsnRange {
    /// Builds a range from its two optional endpoints.
    pub fn from_bounds(start: Option<LsnBound>, end: Option<LsnBound>) -> (r: Self)
        ensures
            r.start == start,
            r.end == end,
    {
        LsnRange { start, end }
    }

    /// The included start of the range: an excluded endpoint starts one
    /// past it.
    pub fn start(&self) -> (r: Option<u64>)
        requires
            self.start matches Some(LsnBound::Excluded(l)) ==> l < u64::MAX,
        ensures
            r == range_start(*self),
    {
        match self.start {
            Some(LsnBound::Included(l)) => Some(l),
            Some(LsnBound::Excluded(l)) => Some(l + 1),
            None => None,
        }
    }

    /// The LSN just before the included start, if any.
    pub fn start_exclusive(&self) -> (r: Option<u64>)
        ensures
            r == match self.start {
                Some(LsnBound::Included(l)) => if l == 0 {
                    None
                } else {
                    Some((l - 1) as u64)
                },
                Some(LsnBound::Excluded(l)) => Some(l),
                None => None::<u64>,
            },
    {
        match self.start {
            Some(LsnBound::Included(l)) => if l == 0 {
                None
            } else {
                Some(l - 1)
            },
            Some(LsnBound::Excluded(l)) => Some(l),
            None => None,
        }
    }

    /// The included end of the range: an excluded endpoint ends one
    /// before it, saturating at zero.
    pub fn end(&self) -> (r: Option<u64>)
        ensures
            r == range_end(*self),
    {
        match self.end {
            Some(LsnBound::Included(l)) => Some(l),
            Some(LsnBound::Excluded(l)) => if l == 0 {
                Some(0)
            } else {
                Some(l - 1)
            },
            None => None,
        }
    }
}

/// One catalogued commit: its metadata and the segments it wrote.
pub struct CatalogEntry {
    pub vid: VolumeId,
    pub meta: CommitMeta,
    pub segments: Vec<(SegmentId, Vec<u8>)>,
}

/// The volume catalog: the known commits of each volume, in ascending
/// LSN order per volume.
pub struct VolumeCatalog {
    pub entries: Vec<CatalogEntry>,
}

impl VolumeCatalog {
    /// Commits of one volume arrive in ascending LSN order.
    pub open spec fn wf(&self) -> bool {
        forall|i: int, j: int|
            0 <= i < j < self.entries@.len() && (#[trigger] self.entries@[i]).vid@ == (
            #[trigger] self.entries@[j]).vid@ ==> self.entries@[i].meta.lsn
                < self.entries@[j].meta.lsn
    }

    /// An empty catalog.
    pub fn new() -> (r: Self)
        ensures
            r.wf(),
            r.entries@.len() == 0,
    {
        VolumeCatalog { entries: Vec::new() }
    }

    /// The highest catalogued LSN of a volume, if any.
    pub fn latest_lsn(&self, vid: &VolumeId) -> (r: Option<u64>)
        ensures
            r == latest_lsn_spec(self.entries@, vid@),
    {
        let n = self.entries.len();
        let mut best: Option<u64> = None;
        let mut i: usize = 0;
        while i < n
            invariant
                i <= n,
                n == self.entries@.len(),
                best == latest_lsn_spec(self.entries@.take(i as int), vid@),
            decreases n - i,
        {
            proof {
                assert(self.entries@.take(i + 1).drop_last() =~= self.entries@.take(i as int));
            }
            let e = &self.entries[i];
            if e.vid.eq(vid) {
                match best {
                    None => {
                        best = Some(e.meta.lsn());
                    },
                    Some(b) => {
                        if e.meta.lsn() > b {
                            best = Some(e.meta.lsn());
                        }
                    },
                }
            }
            i = i + 1;
        }
        proof {
            assert(self.entries@.take(n as int) =~= self.entries@);
        }
        best
    }

    /// Appends one commit of a volume; it must extend that volume's
    /// history.
    pub fn update_volume(&mut self, entry: CatalogEntry)
        requires
            old(self).wf(),
            match latest_lsn_spec(old(self).entries@, entry.vid@) {
                Some(l) => entry.meta.lsn > l,
                None => true,
            },
        ensures
            final(self).wf(),
            final(self).entries@ == old(self).entries@.push(entry),
    {
        proof {
            lemma_latest_dominates(self.entries@, entry.vid@);
        }
        self.entries.push(entry);
        proof {
            let s = self.entries@;
            let o = old(self).entries@;
            assert forall|i: int, j: int|
                0 <= i < j < s.len() && (#[trigger] s[i]).vid@ == (#[trigger] s[j]).vid@
                implies s[i].meta.lsn < s[j].meta.lsn by {
                if j == s.len() - 1 {
                    assert(s[i] == o[i]);
                } else {
                    assert(s[i] == o[i] && s[j] == o[j]);
                }
            }
        }
    }
}

/// The highest LSN among a volume's catalogued commits.
pub open spec fn latest_lsn_spec(es: Seq<CatalogEntry>, vid: Seq<u8>) -> Option<u64>
    decreases es.len(),
{
    if es.len() == 0 {
        None
    } else {
        let rest = latest_lsn_spec(es.drop_last(), vid);
        if es.last().vid@ == vid {
            match rest {
                None => Some(es.last().meta.lsn),
                Some(b) => if es.last().meta.lsn > b {
                    Some(es.last().meta.lsn)
                } else {
                    Some(b)
                },
            }
        } else {
            rest
        }
    }
}

/// Every catalogued commit of a volume lies at or below the volume's
/// highest LSN.
pub proof fn lemma_latest_dominates(es: Seq<CatalogEntry>, vid: Seq<u8>)
    ensures
        forall|i: int|
            0 <= i < es.len() && (#[trigger] es[i]).vid@ == vid ==> (latest_lsn_spec(es, vid)
                matches Some(l) && es[i].meta.lsn <= l),
    decreases es.len(),
{
    if es.len() > 0 {
        lemma_latest_dominates(es.drop_last(), vid);
        assert forall|i: int|
            0 <= i < es.len() && (#[trigger] es[i]).vid@ == vid implies (latest_lsn_spec(es, vid)
            matches Some(l) && es[i].meta.lsn <= l) by {
            if i < es.len() - 1 {
                assert(es.drop_last()[i] == es[i]);
            }
        }
    }
}

/// The shared state behind the metastore's query handlers.
pub struct MetastoreApiState {
    store: VolumeCatalog,
    catalog: VolumeCatalog,
    updater: u64,
}

impl MetastoreApiState {
    /// Builds the handler state: the durable commit store, the cached
    /// catalog, and the updater's concurrency limit.
    pub fn new(store: VolumeCatalog, catalog: VolumeCatalog, updater: u64) -> (r: Self)
        ensures
            r.spec_store() == store.entries@,
            r.spec_catalog() == catalog.entries@,
            r.spec_updater() == updater,
    {
        MetastoreApiState { store, catalog, updater }
    }

    pub closed spec fn spec_store(&self) -> Seq<CatalogEntry> {
        self.store.entries@
    }

    pub closed spec fn spec_catalog(&self) -> Seq<CatalogEntry> {
        self.catalog.entries@
    }

    pub closed spec fn spec_updater(&self) -> u64 {
        self.updater
    }

    pub fn store(&self) -> (r: &VolumeCatalog)
        ensures
            r.entries@ == self.spec_store(),
    {
        &self.store
    }

    pub fn catalog(&self) -> (r: &VolumeCatalog)
        ensures
            r.entries@ == self.spec_catalog(),
    {
        &self.catalog
    }

    pub fn updater(&self) -> (r: u64)
        ensures
            r == self.spec_updater(),
    {
        self.updater
    }
}

/// Why a metastore query failed.
#[derive(Clone, Copy, Debug, PartialEq, Eq, Structural)]
pub enum ApiErr {
    /// The volume has no snapshot in the requested range.
    SnapshotMissing,
    /// A commit of the requested range was rejected.
    CommitRejected,
}

/// One commit of a pull-commits response.
pub struct CommitOut {
    pub meta: CommitMeta,
    pub segments: Vec<(SegmentId, Vec<u8>)>,
}

/// Whether a catalogued commit falls into the pulled window.
pub open spec fn in_window(e: CatalogEntry, vid: Seq<u8>, lo: u64, hi: u64) -> bool {
    e.vid@ == vid && lo <= e.meta.lsn <= hi
}

/// The catalogued commits of `vid` with LSN in `[lo, hi]`, in catalog
/// order (ascending LSN for one volume).
pub open spec fn window_spec(es: Seq<CatalogEntry>, vid: Seq<u8>, lo: u64, hi: u64) -> Seq<int>
    decreases es.len(),
{
    if es.len() == 0 {
        Seq::empty()
    } else if in_window(es.last(), vid, lo, hi) {
        window_spec(es.drop_last(), vid, lo, hi).push(es.len() - 1)
    } else {
        window_spec(es.drop_last(), vid, lo, hi)
    }
}

/// Whether `out` is exactly the commits of the window of the first
/// `bound` catalog entries, in order, with their segments copied.
pub open spec fn out_matches_window(
    out: Seq<CommitOut>,
    es: Seq<CatalogEntry>,
    vid: Seq<u8>,
    lo: u64,
    hi: u64,
    bound: int,
) -> bool {
    let w = window_spec(es.take(bound), vid, lo, hi);
    &&& out.len() == w.len()
    &&& forall|k: int|
        0 <= k < w.len() ==> (#[trigger] out[k]).meta == es[w[k]].meta && out[k].segments@.len()
            == es[w[k]].segments@.len() && (forall|m: int|
            0 <= m < out[k].segments@.len() ==> (#[trigger] out[k].segments@[m]).0@ == es[
                w[k]
            ].segments@[m].0@ && out[k].segments@[m].1@ == es[w[k]].segments@[m].1@)
}

/// Serves a pull-commits query: resolves the snapshot at the end of the
/// range (the volume's latest commit when the range is unbounded),
/// defaults the start of the range to that snapshot's checkpoint, and
/// returns every catalogued commit of the window in ascending LSN
/// order. Fails exactly when the volume has no commit at or below the
/// requested end.
pub fn pull_commits(catalog: &VolumeCatalog, vid: &VolumeId, range: Option<LsnRange>) -> (r:
    Result<Vec<CommitOut>, ApiErr>)
    requires
        catalog.wf(),
        range matches Some(rg) ==> (rg.start matches Some(LsnBound::Excluded(l)) ==> l
            < u64::MAX),
    ensures
        r is Err <==> snapshot_at(catalog.entries@, vid@, match range {
            Some(rg) => range_end(rg),
            None => None,
        }) is None,
        r is Err ==> r == Err::<Vec<CommitOut>, ApiErr>(ApiErr::SnapshotMissing),
        r matches Ok(commits) ==> {
            let end = match range {
                Some(rg) => range_end(rg),
                None => None,
            };
            let snap = snapshot_at(catalog.entries@, vid@, end)->Some_0;
            let lo = match (match range {
                Some(rg) => range_start(rg),
                None => None,
            }) {
                Some(l) => l,
                None => snap.checkpoint_lsn,
            };
            out_matches_window(commits@, catalog.entries@, vid@, lo, snap.lsn, catalog.entries@.len() as int)
        },
{
    let end_lsn = match &range {
        Some(rg) => rg.end(),
        None => None,
    };
    // Resolve the snapshot at the end of the range.
    let snap = match snapshot_at_exec(catalog, vid, end_lsn) {
        Some(m) => m,
        None => {
            return Err(ApiErr::SnapshotMissing);
        },
    };
    // Default the start of the range to the snapshot's checkpoint.
    let start_lsn = match &range {
        Some(rg) => rg.start(),
        None => None,
    };
    let lo = match start_lsn {
        Some(l) => l,
        None => snap.checkpoint(),
    };
    let hi = snap.lsn();
    let n = catalog.entries.len();
    let mut out: Vec<CommitOut> = Vec::new();
    let mut i: usize = 0;
    while i < n
        invariant
            i <= n,
            n == catalog.entries@.len(),
            out_matches_window(out@, catalog.entries@, vid@, lo, hi, i as int),
        decreases n - i,
    {
        proof {
            assert(catalog.entries@.take(i + 1).drop_last() =~= catalog.entries@.take(i as int));
            assert(catalog.entries@.take(i + 1).last() == catalog.entries@[i as int]);
        }
        let e = &catalog.entries[i];
        let ghost out0 = out@;
        let ghost w0 = window_spec(catalog.entries@.take(i as int), vid@, lo, hi);
        if e.vid.eq(vid) && lo <= e.meta.lsn() && e.meta.lsn() <= hi {
            let mut segs: Vec<(SegmentId, Vec<u8>)> = Vec::new();
            let sn = e.segments.len();
            let mut m: usize = 0;
            while m < sn
                invariant
                    m <= sn,
                    i < catalog.entries@.len(),
                    e.segments@ == catalog.entries@[i as int].segments@,
                    sn == catalog.entries@[i as int].segments@.len(),
                    segs@.len() == m,
                    forall|q: int|
                        0 <= q < m ==> (#[trigger] segs@[q]).0@ == catalog.entries@[
                            i as int
                        ].segments@[q].0@ && segs@[q].1@ == catalog.entries@[i as int].segments@[
                            q
                        ].1@,
                decreases sn - m,
            {
                let sid = e.segments[m].0;
                let bytes = e.segments[m].1.clone();
                segs.push((sid, bytes));
                m = m + 1;
            }
            out.push(CommitOut { meta: e.meta, segments: segs });
            proof {
                let w1 = window_spec(catalog.entries@.take(i + 1), vid@, lo, hi);
                assert(w1 == w0.push(i as int));
                assert(out@.drop_last() =~= out0);
                assert forall|k: int| 0 <= k < w1.len() implies (
                #[trigger] out@[k]).meta == catalog.entries@[w1[k]].meta && out@[k].segments@.len()
                    == catalog.entries@[w1[k]].segments@.len() && (forall|m2: int|
                    0 <= m2 < out@[k].segments@.len() ==> (#[trigger] out@[k].segments@[m2]).0@
                        == catalog.entries@[w1[k]].segments@[m2].0@ && out@[k].segments@[m2].1@
                        == catalog.entries@[w1[k]].segments@[m2].1@) by {
                    if k < w1.len() - 1 {
                        assert(out@[k] == out0[k]);
                        assert(w1[k] == w0[k]);
                    } else {
                        assert(w1[k] == i as int);
                        assert(out@[k] == out@.last());
                    }
                }
                assert(out_matches_window(out@, catalog.entries@, vid@, lo, hi, i + 1));
            }
        } else {
            proof {
                let w1 = window_spec(catalog.entries@.take(i + 1), vid@, lo, hi);
                assert(w1 == w0);
                assert(out_matches_window(out@, catalog.entries@, vid@, lo, hi, i + 1));
            }
        }
        i = i + 1;
    }
    proof {
        assert(catalog.entries@.take(n as int) =~= catalog.entries@);
    }
    Ok(out)
}

/// Law: a pulled window comes in ascending LSN order. Window indexes
/// ascend through the catalog, window entries share the volume, and a
/// well-formed catalog orders one volume's commits by LSN.
pub proof fn lemma_window_ascending(es: Seq<CatalogEntry>, vid: Seq<u8>, lo: u64, hi: u64)
    requires
        forall|i: int, j: int|
            0 <= i < j < es.len() && (#[trigger] es[i]).vid@ == (#[trigger] es[j]).vid@
                ==> es[i].meta.lsn < es[j].meta.lsn,
    ensures
        ({
            let w = window_spec(es, vid, lo, hi);
            forall|k: int, l: int|
                0 <= k < l < w.len() ==> 0 <= #[trigger] w[k] < #[trigger] w[l] < es.len()
                    && es[w[k]].meta.lsn < es[w[l]].meta.lsn
        }),
{
    lemma_window_members(es, vid, lo, hi);
    let w = window_spec(es, vid, lo, hi);
    assert forall|k: int, l: int| 0 <= k < l < w.len() implies 0 <= #[trigger] w[k]
        < #[trigger] w[l] < es.len() && es[w[k]].meta.lsn < es[w[l]].meta.lsn by {
        assert(es[w[k]].vid@ == vid && es[w[l]].vid@ == vid);
    }
}

/// Window indexes ascend and point at in-window entries.
proof fn lemma_window_members(es: Seq<CatalogEntry>, vid: Seq<u8>, lo: u64, hi: u64)
    ensures
        ({
            let w = window_spec(es, vid, lo, hi);
            &&& forall|k: int|
                0 <= k < w.len() ==> 0 <= #[trigger] w[k] < es.len() && in_window(
                    es[w[k]],
                    vid,
                    lo,
                    hi,
                )
            &&& forall|k: int, l: int| 0 <= k < l < w.len() ==> #[trigger] w[k] < #[trigger] w[l]
        }),
    decreases es.len(),
{
    if es.len() > 0 {
        lemma_window_members(es.drop_last(), vid, lo, hi);
        let w0 = window_spec(es.drop_last(), vid, lo, hi);
        assert forall|k: int| 0 <= k < w0.len() implies 0 <= #[trigger] w0[k] < es.len() - 1
            && in_window(es[w0[k]], vid, lo, hi) by {
            assert(es.drop_last()[w0[k]] == es[w0[k]]);
        }
    }
}

/// The snapshot of `vid` at `end`: the metadata of the volume's
/// highest catalogued commit at or below `end` (its latest commit when
/// `end` is unbounded).
pub open spec fn snapshot_at(es: Seq<CatalogEntry>, vid: Seq<u8>, end: Option<u64>) -> Option<
    CommitMeta,
>
    decreases es.len(),
{
    if es.len() == 0 {
        None
    } else {
        let rest = snapshot_at(es.drop_last(), vid, end);
        let e = es.last();
        if e.vid@ == vid && (match end {
            Some(l) => e.meta.lsn <= l,
            None => true,
        }) {
            match rest {
                None => Some(e.meta),
                Some(b) => if e.meta.lsn > b.lsn {
                    Some(e.meta)
                } else {
                    Some(b)
                },
            }
        } else {
            rest
        }
    }
}

fn snapshot_at_exec(catalog: &VolumeCatalog, vid: &VolumeId, end: Option<u64>) -> (r: Option<
    CommitMeta,
>)
    ensures
        r == snapshot_at(catalog.entries@, vid@, end),
{
    let n = catalog.entries.len();
    let mut best: Option<CommitMeta> = None;
    let mut i: usize = 0;
    while i < n
        invariant
            i <= n,
            n == catalog.entries@.len(),
            best == snapshot_at(catalog.entries@.take(i as int), vid@, end),
        decreases n - i,
    {
        proof {
            assert(catalog.entries@.take(i + 1).drop_last() =~= catalog.entries@.take(i as int));
        }
        let e = &catalog.entries[i];
        let fits = match end {
            Some(l) => e.meta.lsn() <= l,
            None => true,
        };
        if e.vid.eq(vid) && fits {
            match &best {
                None => {
                    best = Some(e.meta);
                },
                Some(b) => {
                    if e.meta.lsn() > b.lsn {
                        best = Some(e.meta);
                    }
                },
            }
        }
        i = i + 1;
    }
    proof {
        assert(catalog.entries@.take(n as int) =~= catalog.entries@);
    }
    best
}

} // verus!
