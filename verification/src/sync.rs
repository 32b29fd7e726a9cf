//! The sync task's decision logic: how one pulled remote commit is
//! reconciled with the local state, and how a push advances the
//! watermarks and the remote mapping. The surrounding task performs
//! the network transfers and calls these transitions between them;
//! each transition is one atomic batch on the store.

use vstd::prelude::*;
use crate::gid::{VolumeId, SegmentId};
use crate::splinter::Splinter;
use crate::storage::{Storage, VolumeRecord, SegmentRecord, PageRecord, find_volume, record_wf};
use crate::volume_state::{Snapshot, RemoteMapping, VolumeStatus, Watermark};

verus! {

/// One commit pulled from the remote: the remote LSN, the volume size
/// it leaves behind, and the segments holding its pages.
pub struct RemoteCommit {
    pub remote_lsn: u64,
    pub pages: u32,
    pub segments: Vec<(SegmentId, Splinter)>,
}

/// How applying one pulled commit ended.
#[derive(Clone, Copy, Debug, PartialEq, Eq, Structural)]
pub enum PullOutcome {
    /// The commit was applied and the remote mapping advanced.
    Applied,
    /// The commit overlaps local commits the remote has not seen; the
    /// volume is marked `Conflict` and the mapping does not advance.
    Conflict,
}

/// Whether a pulled commit's offsets overlap a local page written
/// after the last synced LSN: the divergence a pull must not paper
/// over.
pub open spec fn pull_conflict(
    pages: Seq<PageRecord>,
    vid: Seq<u8>,
    synced: u64,
    segs: Seq<(SegmentId, Splinter)>,
) -> bool {
    exists|i: int, j: int|
        0 <= i < pages.len() && 0 <= j < segs.len() && (#[trigger] pages[i]).vid@ == vid
            && pages[i].lsn > synced && pages[i].pageidx >= 1 && (#[trigger] segs[j]).1.set()
            .contains((pages[i].pageidx - 1) as u32)
}

/// Decides whether a pulled commit conflicts with unpushed local
/// writes.
pub fn has_pull_conflict(st: &Storage, vid: &VolumeId, synced: u64, segs: &Vec<
    (SegmentId, Splinter),
>) -> (r: bool)
    requires
        st.wf(),
        forall|j: int| 0 <= j < segs@.len() ==> (#[trigger] segs@[j]).1.wf(),
    ensures
        r == pull_conflict(st.pages@, vid@, synced, segs@),
{
    let n = st.pages.len();
    let m = segs.len();
    let mut i: usize = 0;
    while i < n
        invariant
            i <= n,
            n == st.pages@.len(),
            m == segs@.len(),
            st.wf(),
            forall|j: int| 0 <= j < segs@.len() ==> (#[trigger] segs@[j]).1.wf(),
            forall|a: int, b: int|
                0 <= a < i && 0 <= b < m ==> !((#[trigger] st.pages@[a]).vid@ == vid@
                    && st.pages@[a].lsn > synced && st.pages@[a].pageidx >= 1 && (
                #[trigger] segs@[b]).1.set().contains((st.pages@[a].pageidx - 1) as u32)),
        decreases n - i,
    {
        let p = &st.pages[i];
        if p.vid.eq(vid) && p.lsn > synced && p.pageidx >= 1 {
            let off = p.pageidx - 1;
            let mut j: usize = 0;
            while j < m
                invariant
                    j <= m,
                    i < n == st.pages@.len(),
                    m == segs@.len(),
                    forall|b: int| 0 <= b < segs@.len() ==> (#[trigger] segs@[b]).1.wf(),
                    p == st.pages@[i as int],
                    p.vid@ == vid@ && p.lsn > synced && p.pageidx >= 1,
                    off == p.pageidx - 1,
                    forall|b: int|
                        0 <= b < j ==> !(#[trigger] segs@[b]).1.set().contains(
                            (st.pages@[i as int].pageidx - 1) as u32,
                        ),
                decreases m - j,
            {
                if segs[j].1.contains(off) {
                    proof {
                        assert(segs@[j as int].1.set().contains(off));
                    }
                    return true;
                }
                j = j + 1;
            }
        }
        i = i + 1;
    }
    proof {
        if pull_conflict(st.pages@, vid@, synced, segs@) {
            let (a, b) = choose|a: int, b: int|
                0 <= a < st.pages@.len() && 0 <= b < segs@.len() && (
                #[trigger] st.pages@[a]).vid@ == vid@ && st.pages@[a].lsn > synced
                    && st.pages@[a].pageidx >= 1 && (#[trigger] segs@[b]).1.set().contains(
                    (st.pages@[a].pageidx - 1) as u32,
                );
            assert(false);
        }
    }
    false
}

/// Applies one pulled remote commit, in ascending remote order: if its
/// offsets overlap local pages written after `synced` — the local LSN
/// the remote had acknowledged when the pull cycle began — the volume
/// is marked `Conflict` and nothing else changes; otherwise the commit
/// becomes the next local commit, the remote mapping advances to it,
/// its segments join the segment index, and a mapped pending-sync
/// watermark moves along with the new synced point.
pub fn apply_remote_commit(
    st: &mut Storage,
    vid: &VolumeId,
    rc: &RemoteCommit,
    synced: u64,
    timestamp: u64,
) -> (r: PullOutcome)
    requires
        old(st).wf(),
        find_volume(old(st).volumes@, vid@) is Some,
        (match find_volume(old(st).volumes@, vid@) {
            Some(rec) => match rec.snapshot {
                Some(s) => s.local < u64::MAX,
                None => true,
            },
            None => true,
        }),
        forall|j: int| 0 <= j < rc.segments@.len() ==> (#[trigger] rc.segments@[j]).1.wf(),
    ensures
        final(st).wf(),
        final(st).pages@ == old(st).pages@,
        ({
            let rec = find_volume(old(st).volumes@, vid@)->Some_0;
            let conflicted = pull_conflict(old(st).pages@, vid@, synced, rc.segments@);
            let new_local = match rec.snapshot {
                Some(s) => (s.local + 1) as u64,
                None => 1u64,
            };
            if conflicted {
                r == PullOutcome::Conflict && final(st).segments@ == old(st).segments@
                    && (find_volume(final(st).volumes@, vid@) matches Some(nrec)
                    && nrec.status == VolumeStatus::Conflict && nrec.config == rec.config
                    && nrec.snapshot == rec.snapshot && nrec.watermarks == rec.watermarks)
            } else {
                r == PullOutcome::Applied && (find_volume(final(st).volumes@, vid@)
                    matches Some(nrec) && nrec.status == rec.status && nrec.config == rec.config
                    && (nrec.snapshot
                    matches Some(ns) && ns.local == new_local && ns.pages == rc.pages
                    && ns.remote == (RemoteMapping::Mapped {
                    remote: rc.remote_lsn,
                    local: new_local,
                }) && ns.timestamp == timestamp) && nrec.watermarks.pending_sync == (
                match rec.watermarks.pending_sync {
                    Watermark::Mapped { .. } => Watermark::Mapped {
                        lsn: new_local,
                        pages: rc.pages,
                    },
                    Watermark::Unmapped => Watermark::Unmapped,
                }) && nrec.watermarks.checkpoint == rec.watermarks.checkpoint) && final(st).segments@.len() == old(st).segments@.len() + rc.segments@.len() && (forall|
                    k: int,
                |
                    0 <= k < old(st).segments@.len() ==> final(st).segments@[k] == old(st).segments@[k]) && (forall|k: int|
                    0 <= k < rc.segments@.len() ==> {
                        let sr = #[trigger] final(st).segments@[old(st).segments@.len() + k];
                        sr.vid@ == vid@ && sr.lsn == rc.remote_lsn && sr.sid@ == rc.segments@[
                            k
                        ].0@ && sr.offsets@ == rc.segments@[k].1@
                    })
            }
        }),
        forall|v: Seq<u8>|
            v != vid@ ==> #[trigger] find_volume(final(st).volumes@, v) == find_volume(
                old(st).volumes@,
                v,
            ),
{
    let rec = match st.get_volume(vid) {
        Some(rec) => rec,
        None => {
            proof {
                assert(false);
            }
            return PullOutcome::Conflict;
        },
    };
    proof {
        crate::storage::lemma_find_idx(st.volumes@, vid@);
        assert(record_wf(rec));
    }
    if has_pull_conflict(st, vid, synced, &rc.segments) {
        // Divergence: surface it and stop; operators resolve it.
        let nrec = VolumeRecord { status: VolumeStatus::Conflict, ..rec };
        st.set_volume(vid, nrec);
        return PullOutcome::Conflict;
    }
    let new_local = match &rec.snapshot {
        Some(s) => s.local() + 1,
        None => 1,
    };
    let ns = Snapshot::new(
        new_local,
        RemoteMapping::Mapped { remote: rc.remote_lsn, local: new_local },
        rc.pages,
        timestamp,
    );
    let pending = match rec.watermarks.pending_sync() {
        Watermark::Mapped { .. } => Watermark::new(new_local, rc.pages),
        Watermark::Unmapped => Watermark::Unmapped,
    };
    let wm = rec.watermarks.with_pending_sync(pending);
    let nrec = VolumeRecord { snapshot: Some(ns), watermarks: wm, ..rec };
    st.set_volume(vid, nrec);
    // Record which segments hold this commit's pages.
    let n = rc.segments.len();
    let ghost segs0 = st.segments@;
    let mut k: usize = 0;
    while k < n
        invariant
            k <= n,
            n == rc.segments@.len(),
            st.wf(),
            st.pages@ == old(st).pages@,
            segs0 == old(st).segments@,
            st.segments@.len() == segs0.len() + k,
            forall|a: int| 0 <= a < segs0.len() ==> st.segments@[a] == segs0[a],
            forall|a: int|
                0 <= a < k ==> {
                    let sr = #[trigger] st.segments@[segs0.len() + a];
                    sr.vid@ == vid@ && sr.lsn == rc.remote_lsn && sr.sid@ == rc.segments@[a].0@
                        && sr.offsets@ == rc.segments@[a].1@
                },
            find_volume(st.volumes@, vid@) == Some(nrec),
            forall|v: Seq<u8>|
                v != vid@ ==> #[trigger] find_volume(st.volumes@, v) == find_volume(
                    old(st).volumes@,
                    v,
                ),
        decreases n - k,
    {
        let e = &rc.segments[k];
        let sr = SegmentRecord { vid: *vid, lsn: rc.remote_lsn, sid: e.0, offsets: e.1.clone() };
        st.segments.push(sr);
        k = k + 1;
    }
    PullOutcome::Applied
}

/// The local LSN the remote has acknowledged for a record; the
/// pre-first-commit sentinel if it never synced.
pub open spec fn synced_of(rec: VolumeRecord) -> u64 {
    match rec.snapshot {
        Some(s) => match s.remote {
            RemoteMapping::Mapped { local, .. } => local,
            RemoteMapping::Unmapped => crate::LSN_ZERO,
        },
        None => crate::LSN_ZERO,
    }
}

/// The local LSN of a record's snapshot; zero if none was persisted.
pub open spec fn base_local(rec: VolumeRecord) -> int {
    match rec.snapshot {
        Some(s) => s.local as int,
        None => 0,
    }
}

/// How many segment records the first `k` commits of a batch carry.
pub open spec fn seg_count(commits: Seq<RemoteCommit>, k: int) -> int
    decreases k,
{
    if k <= 0 {
        0
    } else {
        seg_count(commits, k - 1) + commits[k - 1].segments@.len()
    }
}

/// A batch prefix never carries negatively many segment records.
proof fn lemma_seg_count_nonneg(commits: Seq<RemoteCommit>, k: int)
    ensures
        seg_count(commits, k) >= 0,
    decreases k,
{
    if k > 0 {
        lemma_seg_count_nonneg(commits, k - 1);
    }
}

/// Whether position `at` of the segment index holds entry `j` of the
/// pulled commit `rc` for volume `vid`.
pub open spec fn segment_appended(
    segs: Seq<SegmentRecord>,
    at: int,
    vid: Seq<u8>,
    rc: RemoteCommit,
    j: int,
) -> bool {
    &&& 0 <= at < segs.len()
    &&& segs[at].vid@ == vid
    &&& segs[at].lsn == rc.remote_lsn
    &&& segs[at].sid@ == rc.segments@[j].0@
    &&& segs[at].offsets@ == rc.segments@[j].1@
}

/// Applies a batch of pulled commits in ascending remote order,
/// stopping at the first divergence. Every commit of the applied
/// prefix was conflict-free against the synced point where the cycle
/// began; a commit left unapplied diverges there, and the volume is
/// marked `Conflict`. The applied prefix advances the snapshot one
/// local LSN per commit, maps the head remotely, and appends every
/// segment of every applied commit to the index, in order.
pub fn apply_remote_commits(
    st: &mut Storage,
    vid: &VolumeId,
    commits: &Vec<RemoteCommit>,
    timestamp: u64,
) -> (applied: usize)
    requires
        old(st).wf(),
        find_volume(old(st).volumes@, vid@) is Some,
        base_local(find_volume(old(st).volumes@, vid@)->Some_0) + commits@.len() <= u64::MAX,
        forall|k: int, j: int|
            0 <= k < commits@.len() && 0 <= j < (#[trigger] commits@[k]).segments@.len() ==> (
            #[trigger] commits@[k].segments@[j]).1.wf(),
    ensures
        final(st).wf(),
        applied <= commits@.len(),
        final(st).pages@ == old(st).pages@,
        forall|v: Seq<u8>|
            v != vid@ ==> #[trigger] find_volume(final(st).volumes@, v) == find_volume(
                old(st).volumes@,
                v,
            ),
        ({
            let rec = find_volume(old(st).volumes@, vid@)->Some_0;
            let syncb = synced_of(rec);
            &&& forall|k: int|
                0 <= k < applied ==> !pull_conflict(
                    old(st).pages@,
                    vid@,
                    syncb,
                    (#[trigger] commits@[k]).segments@,
                )
            &&& applied < commits@.len() ==> pull_conflict(
                old(st).pages@,
                vid@,
                syncb,
                commits@[applied as int].segments@,
            )
            &&& final(st).segments@.len() == old(st).segments@.len() + seg_count(
                commits@,
                applied as int,
            )
            &&& forall|a: int|
                0 <= a < old(st).segments@.len() ==> #[trigger] final(st).segments@[a] == old(
                    st,
                ).segments@[a]
            &&& forall|k: int, j: int|
                0 <= k < applied && 0 <= j < commits@[k].segments@.len()
                    ==> #[trigger] segment_appended(
                    final(st).segments@,
                    old(st).segments@.len() + seg_count(commits@, k) + j,
                    vid@,
                    commits@[k],
                    j,
                )
            &&& (find_volume(final(st).volumes@, vid@) matches Some(nrec) && nrec.config
                == rec.config && nrec.watermarks.checkpoint == rec.watermarks.checkpoint && (
            applied < commits@.len() ==> nrec.status == VolumeStatus::Conflict) && (applied
                == commits@.len() ==> nrec.status == rec.status) && (applied == 0
                ==> nrec.snapshot == rec.snapshot && nrec.watermarks == rec.watermarks) && (
            applied > 0 ==> (nrec.snapshot matches Some(ns) && ns.local == base_local(rec)
                + applied && ns.pages == commits@[applied - 1].pages && ns.timestamp == timestamp
                && ns.remote == (RemoteMapping::Mapped {
                remote: commits@[applied - 1].remote_lsn,
                local: ns.local,
            }) && nrec.watermarks.pending_sync == (match rec.watermarks.pending_sync {
                Watermark::Mapped { .. } => Watermark::Mapped {
                    lsn: ns.local,
                    pages: commits@[applied - 1].pages,
                },
                Watermark::Unmapped => Watermark::Unmapped,
            }))))
        }),
{
    let n = commits.len();
    let ghost rec0 = find_volume(st.volumes@, vid@)->Some_0;
    // The divergence bound is fixed when the cycle begins: local
    // commits past it stay in conflict with every commit of this pull.
    let synced = match st.get_volume(vid) {
        Some(rec) => match &rec.snapshot {
            Some(s) => match s.remote_local() {
                Some(l) => l,
                None => crate::LSN_ZERO,
            },
            None => crate::LSN_ZERO,
        },
        None => crate::LSN_ZERO,
    };
    proof {
        assert(synced == synced_of(rec0));
    }
    let mut i: usize = 0;
    while i < n
        invariant
            i <= n,
            n == commits@.len(),
            st.wf(),
            rec0 == find_volume(old(st).volumes@, vid@)->Some_0,
            find_volume(old(st).volumes@, vid@) == Some(rec0),
            synced == synced_of(rec0),
            base_local(rec0) + n <= u64::MAX,
            st.pages@ == old(st).pages@,
            forall|v: Seq<u8>|
                v != vid@ ==> #[trigger] find_volume(st.volumes@, v) == find_volume(
                    old(st).volumes@,
                    v,
                ),
            forall|k: int, j: int|
                0 <= k < commits@.len() && 0 <= j < (#[trigger] commits@[k]).segments@.len()
                    ==> (#[trigger] commits@[k].segments@[j]).1.wf(),
            forall|k: int|
                0 <= k < i ==> !pull_conflict(
                    old(st).pages@,
                    vid@,
                    synced_of(rec0),
                    (#[trigger] commits@[k]).segments@,
                ),
            st.segments@.len() == old(st).segments@.len() + seg_count(commits@, i as int),
            forall|a: int|
                0 <= a < old(st).segments@.len() ==> #[trigger] st.segments@[a] == old(
                    st,
                ).segments@[a],
            forall|k: int, j: int|
                0 <= k < i && 0 <= j < commits@[k].segments@.len()
                    ==> #[trigger] segment_appended(
                    st.segments@,
                    old(st).segments@.len() + seg_count(commits@, k) + j,
                    vid@,
                    commits@[k],
                    j,
                ),
            find_volume(st.volumes@, vid@) matches Some(nrec) && nrec.config == rec0.config
                && nrec.status == rec0.status && nrec.watermarks.checkpoint
                == rec0.watermarks.checkpoint && (i == 0 ==> nrec.snapshot == rec0.snapshot
                && nrec.watermarks == rec0.watermarks) && (i > 0 ==> (nrec.snapshot
                matches Some(ns) && ns.local == base_local(rec0) + i && ns.pages == commits@[
                i - 1
            ].pages && ns.timestamp == timestamp && ns.remote == (RemoteMapping::Mapped {
                remote: commits@[i - 1].remote_lsn,
                local: ns.local,
            }) && nrec.watermarks.pending_sync == (match rec0.watermarks.pending_sync {
                Watermark::Mapped { .. } => Watermark::Mapped {
                    lsn: ns.local,
                    pages: commits@[i - 1].pages,
                },
                Watermark::Unmapped => Watermark::Unmapped,
            }))),
        decreases n - i,
    {
        let rc = &commits[i];
        let ghost pre = *st;
        match apply_remote_commit(st, vid, rc, synced, timestamp) {
            PullOutcome::Applied => {},
            PullOutcome::Conflict => {
                proof {
                    if !pull_conflict(pre.pages@, vid@, synced, rc.segments@) {
                        assert(false);
                    }
                }
                return i;
            },
        }
        proof {
            if pull_conflict(pre.pages@, vid@, synced, rc.segments@) {
                assert(false);
            }
            lemma_seg_count_nonneg(commits@, i as int);
            assert(seg_count(commits@, i + 1) == seg_count(commits@, i as int) + commits@[
                i as int
            ].segments@.len());
            assert forall|a: int| 0 <= a < old(st).segments@.len() implies #[trigger] st.segments@[
                a
            ] == old(st).segments@[a] by {
                assert(st.segments@[a] == pre.segments@[a]);
            }
            assert forall|k: int, j: int|
                0 <= k < i + 1 && 0 <= j < commits@[k].segments@.len()
                implies #[trigger] segment_appended(
                st.segments@,
                old(st).segments@.len() + seg_count(commits@, k) + j,
                vid@,
                commits@[k],
                j,
            ) by {
                if k < i {
                    assert(segment_appended(
                        pre.segments@,
                        old(st).segments@.len() + seg_count(commits@, k) + j,
                        vid@,
                        commits@[k],
                        j,
                    ));
                    assert(st.segments@[old(st).segments@.len() + seg_count(commits@, k) + j]
                        == pre.segments@[old(st).segments@.len() + seg_count(commits@, k) + j]);
                } else {
                    assert(st.segments@[pre.segments@.len() + j].vid@ == vid@);
                }
            }
        }
        i = i + 1;
    }
    n
}

/// Begins a push cycle: the pending-sync watermark moves to the
/// latest snapshot, so that the cycle pushes everything committed so
/// far. Returns the watermark to push, or nothing when the volume has
/// no snapshot yet.
pub fn update_pending_sync(st: &mut Storage, vid: &VolumeId) -> (r: Option<(u64, u32)>)
    requires
        old(st).wf(),
        find_volume(old(st).volumes@, vid@) is Some,
    ensures
        final(st).wf(),
        final(st).pages@ == old(st).pages@,
        final(st).segments@ == old(st).segments@,
        ({
            let rec = find_volume(old(st).volumes@, vid@)->Some_0;
            match rec.snapshot {
                Some(s) => r == Some((s.local, s.pages)) && (find_volume(final(st).volumes@, vid@)
                    matches Some(nrec) && nrec.watermarks.pending_sync == (Watermark::Mapped {
                    lsn: s.local,
                    pages: s.pages,
                }) && nrec.watermarks.checkpoint == rec.watermarks.checkpoint && nrec.snapshot
                    == rec.snapshot && nrec.status == rec.status && nrec.config == rec.config),
                None => r is None && *final(st) == *old(st),
            }
        }),
        forall|v: Seq<u8>|
            v != vid@ ==> #[trigger] find_volume(final(st).volumes@, v) == find_volume(
                old(st).volumes@,
                v,
            ),
{
    let rec = match st.get_volume(vid) {
        Some(rec) => rec,
        None => {
            proof {
                assert(false);
            }
            return None;
        },
    };
    proof {
        crate::storage::lemma_find_idx(st.volumes@, vid@);
        assert(record_wf(rec));
    }
    match &rec.snapshot {
        Some(s) => {
            let target = Watermark::new(s.local(), s.pages());
            let nrec = VolumeRecord {
                watermarks: rec.watermarks.with_pending_sync(target),
                ..rec
            };
            st.set_volume(vid, nrec);
            Some((s.local(), s.pages()))
        },
        None => None,
    }
}

/// Completes a successful push: the remote acknowledged the pushed
/// snapshot at `remote_lsn`, so the remote mapping advances to the
/// pushed local LSN; a checkpoint returned by the server moves the
/// checkpoint watermark.
pub fn complete_push(
    st: &mut Storage,
    vid: &VolumeId,
    remote_lsn: u64,
    checkpoint: Option<(u64, u32)>,
) -> (r: bool)
    requires
        old(st).wf(),
        find_volume(old(st).volumes@, vid@) is Some,
        (match find_volume(old(st).volumes@, vid@) {
            Some(rec) => rec.snapshot matches Some(s) && (rec.watermarks.pending_sync
                matches Watermark::Mapped { lsn: p, .. } && p <= s.local),
            None => false,
        }),
    ensures
        final(st).wf(),
        r,
        final(st).pages@ == old(st).pages@,
        final(st).segments@ == old(st).segments@,
        ({
            let rec = find_volume(old(st).volumes@, vid@)->Some_0;
            let s = rec.snapshot->Some_0;
            let pending = rec.watermarks.pending_sync->Mapped_lsn;
            find_volume(final(st).volumes@, vid@) matches Some(nrec) && (nrec.snapshot
                matches Some(ns) && ns.local == s.local && ns.pages == s.pages && ns.remote == (
            RemoteMapping::Mapped { remote: remote_lsn, local: pending })) && nrec.status
                == rec.status && nrec.config == rec.config
                && nrec.watermarks.pending_sync == rec.watermarks.pending_sync
                && nrec.watermarks.checkpoint == (match checkpoint {
                Some((l, p)) => Watermark::Mapped { lsn: l, pages: p },
                None => rec.watermarks.checkpoint,
            })
        }),
        forall|v: Seq<u8>|
            v != vid@ ==> #[trigger] find_volume(final(st).volumes@, v) == find_volume(
                old(st).volumes@,
                v,
            ),
{
    let rec = match st.get_volume(vid) {
        Some(rec) => rec,
        None => {
            proof {
                assert(false);
            }
            return false;
        },
    };
    proof {
        crate::storage::lemma_find_idx(st.volumes@, vid@);
        assert(record_wf(rec));
    }
    let s = match &rec.snapshot {
        Some(s) => *s,
        None => {
            proof {
                assert(false);
            }
            return false;
        },
    };
    let pending = match rec.watermarks.pending_sync().lsn() {
        Some(p) => p,
        None => {
            proof {
                assert(false);
            }
            return false;
        },
    };
    let ns = Snapshot::new(
        s.local(),
        RemoteMapping::Mapped { remote: remote_lsn, local: pending },
        s.pages(),
        s.timestamp(),
    );
    let wm = match checkpoint {
        Some((l, p)) => rec.watermarks.with_checkpoint(Watermark::new(l, p)),
        None => rec.watermarks,
    };
    let nrec = VolumeRecord { snapshot: Some(ns), watermarks: wm, ..rec };
    st.set_volume(vid, nrec);
    true
}

/// Records that the remote rejected the pushed commit: the status
/// sticks until an operator clears it, and the pending-sync watermark
/// is left in place for inspection.
pub fn reject_push(st: &mut Storage, vid: &VolumeId)
    requires
        old(st).wf(),
        find_volume(old(st).volumes@, vid@) is Some,
    ensures
        final(st).wf(),
        set_status_effect(*old(st), *final(st), vid@, VolumeStatus::RejectedCommit),
{
    set_status(st, vid, VolumeStatus::RejectedCommit);
}

/// Records that a push was interrupted between the page upload and the
/// metastore commit, and its segments may be dangling.
pub fn mark_interrupted_push(st: &mut Storage, vid: &VolumeId)
    requires
        old(st).wf(),
        find_volume(old(st).volumes@, vid@) is Some,
    ensures
        final(st).wf(),
        set_status_effect(*old(st), *final(st), vid@, VolumeStatus::InterruptedPush),
{
    set_status(st, vid, VolumeStatus::InterruptedPush);
}

/// Clears a sticky failure status after operator action.
pub fn clear_status(st: &mut Storage, vid: &VolumeId)
    requires
        old(st).wf(),
        find_volume(old(st).volumes@, vid@) is Some,
    ensures
        final(st).wf(),
        set_status_effect(*old(st), *final(st), vid@, VolumeStatus::Healthy),
{
    set_status(st, vid, VolumeStatus::Healthy);
}

/// What changing a volume's status and nothing else means.
pub open spec fn set_status_effect(
    pre: Storage,
    post: Storage,
    vid: Seq<u8>,
    status: VolumeStatus,
) -> bool {
    &&& post.pages@ == pre.pages@
    &&& post.segments@ == pre.segments@
    &&& (find_volume(post.volumes@, vid) matches Some(nrec) && nrec.status == status
        && Some(VolumeRecord { status, ..nrec }) == find_volume(post.volumes@, vid)
        && (find_volume(pre.volumes@, vid) matches Some(rec) && nrec.snapshot == rec.snapshot
        && nrec.watermarks == rec.watermarks && nrec.config == rec.config))
    &&& forall|v: Seq<u8>|
        v != vid ==> #[trigger] find_volume(post.volumes@, v) == find_volume(pre.volumes@, v)
}

fn set_status(st: &mut Storage, vid: &VolumeId, status: VolumeStatus)
    requires
        old(st).wf(),
        find_volume(old(st).volumes@, vid@) is Some,
    ensures
        final(st).wf(),
        set_status_effect(*old(st), *final(st), vid@, status),
{
    let rec = match st.get_volume(vid) {
        Some(rec) => rec,
        None => {
            proof {
                assert(false);
            }
            return ;
        },
    };
    proof {
        crate::storage::lemma_find_idx(st.volumes@, vid@);
        assert(record_wf(rec));
    }
    let nrec = VolumeRecord { status, ..rec };
    st.set_volume(vid, nrec);
}

} // verus!
