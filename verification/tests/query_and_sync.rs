//! The volume scan aggregation, the sync transitions, the metastore
//! pull-commits query, and the read-paging planner.

use graft::gid::{SegmentId, VolumeId};
use graft::commit::CommitMeta;
use graft::metastore::{pull_commits, ApiErr, CatalogEntry, LsnBound, LsnRange, VolumeCatalog};
use graft::page::Page;
use graft::pagestore::plan_reads;
use graft::splinter::Splinter;
use graft::storage::Storage;
use graft::sync::{
    apply_remote_commit, apply_remote_commits, complete_push, reject_push, update_pending_sync,
    PullOutcome, RemoteCommit,
};
use graft::volume::VolumeHandle;
use graft::volume_query::VolumeQueryIter;
use graft::volume_state::{
    SyncDirection, VolumeConfig, VolumeStatus, Watermark,
};

fn vid(b: u8) -> VolumeId {
    VolumeId::new([b; 16])
}

fn sid(b: u8) -> SegmentId {
    SegmentId::new([b; 16])
}

fn splinter_of(vals: &[u32]) -> Splinter {
    let mut s = Splinter::new();
    for v in vals {
        s.insert(*v);
    }
    s
}

#[test]
fn volume_query_iter_aggregates_in_order() {
    // Three volumes; the scan yields each exactly once, in ascending
    // identifier order, and then stays exhausted.
    let mut st = Storage::new();
    for b in [9u8, 1, 5] {
        st.add_volume(&vid(b), VolumeConfig::new(SyncDirection::Both));
    }
    let handle = VolumeHandle::new(vid(5));
    let mut w = handle.writer_at(None);
    w.write(1, Page::filled(1));
    w.commit(&mut st, 11).unwrap();

    let scan = st.state_scan();
    let mut it = VolumeQueryIter::new(scan);
    let mut seen: Vec<Vec<u8>> = Vec::new();
    while let Some(state) = it.next_inner().unwrap() {
        seen.push(state.vid().as_bytes().to_vec());
        if state.vid().as_bytes() == &[5u8; 16] {
            let snap = state.snapshot().unwrap();
            assert_eq!(snap.local(), 1);
            assert_eq!(snap.pages(), 1);
            assert!(state.is_syncing());
        } else {
            assert!(state.snapshot().is_none());
        }
        assert_eq!(state.config().sync(), SyncDirection::Both);
    }
    assert_eq!(seen, vec![vec![1u8; 16], vec![5u8; 16], vec![9u8; 16]]);
    // Fused: exhausted iterators keep yielding nothing.
    assert!(it.next_inner().unwrap().is_none());
    assert!(it.next_inner().unwrap().is_none());
}

#[test]
fn pull_applies_remote_commits() {
    // A pull of two remote commits advances the remote mapping and
    // fills the segment index.
    let mut st = Storage::new();
    let v = vid(1);
    st.add_volume(&v, VolumeConfig::new(SyncDirection::Pull));

    let rc1 = RemoteCommit {
        remote_lsn: 5,
        pages: 1,
        segments: vec![(sid(1), splinter_of(&[0]))],
    };
    let rc2 = RemoteCommit {
        remote_lsn: 6,
        pages: 2,
        segments: vec![(sid(2), splinter_of(&[1]))],
    };
    assert_eq!(apply_remote_commit(&mut st, &v, &rc1, 0, 100), PullOutcome::Applied);
    assert_eq!(apply_remote_commit(&mut st, &v, &rc2, 2, 101), PullOutcome::Applied);

    let rec = st.get_volume(&v).unwrap();
    let snap = rec.snapshot.unwrap();
    assert_eq!(snap.local(), 2);
    assert_eq!(snap.remote_lsn(), Some(6));
    assert_eq!(snap.remote_local(), Some(2));
    assert_eq!(snap.pages(), 2);
    assert_eq!(st.segments.len(), 2);
    assert_eq!(st.segments[0].lsn, 5);
    assert_eq!(st.segments[1].lsn, 6);
}

#[test]
fn pull_batch_applies_all_commits() {
    // A batch pull (remote LSNs 5..=10 on an empty volume) applies
    // every commit and maps the head.
    let mut st = Storage::new();
    let v = vid(7);
    st.add_volume(&v, VolumeConfig::new(SyncDirection::Pull));
    let commits: Vec<RemoteCommit> = (5u64..=10)
        .map(|lsn| RemoteCommit {
            remote_lsn: lsn,
            pages: 1,
            segments: vec![(sid(lsn as u8), splinter_of(&[0]))],
        })
        .collect();
    let applied = apply_remote_commits(&mut st, &v, &commits, 0);
    assert_eq!(applied, 6);
    let snap = st.get_volume(&v).unwrap().snapshot.unwrap();
    assert_eq!(snap.remote_lsn(), Some(10));
    assert_eq!(snap.local(), 6);
    assert_eq!(st.segments.len(), 6);
}

#[test]
fn pull_batch_stops_at_conflict() {
    // With an unpushed local commit on offset 0, a batch whose second
    // commit touches offset 0 applies only the first.
    let mut st = Storage::new();
    let v = vid(8);
    st.add_volume(&v, VolumeConfig::new(SyncDirection::Both));
    let handle = VolumeHandle::new(v);
    let mut w = handle.writer_at(None);
    w.write(1, Page::filled(1));
    w.commit(&mut st, 0).unwrap();

    let commits = vec![
        RemoteCommit { remote_lsn: 3, pages: 2, segments: vec![(sid(1), splinter_of(&[5]))] },
        RemoteCommit { remote_lsn: 4, pages: 2, segments: vec![(sid(2), splinter_of(&[0]))] },
    ];
    let applied = apply_remote_commits(&mut st, &v, &commits, 0);
    assert_eq!(applied, 1);
    assert_eq!(st.get_volume(&v).unwrap().status, VolumeStatus::Conflict);
}

#[test]
fn pull_conflict_marks_volume() {
    // A local unpushed commit touching offset 0 conflicts with a
    // remote commit covering the same offset.
    let mut st = Storage::new();
    let v = vid(2);
    st.add_volume(&v, VolumeConfig::new(SyncDirection::Both));
    let handle = VolumeHandle::new(v);
    let mut w = handle.writer_at(None);
    w.write(1, Page::filled(3));
    w.commit(&mut st, 0).unwrap();

    let rc = RemoteCommit {
        remote_lsn: 4,
        pages: 1,
        segments: vec![(sid(9), splinter_of(&[0]))],
    };
    assert_eq!(apply_remote_commit(&mut st, &v, &rc, 0, 0), PullOutcome::Conflict);
    let rec = st.get_volume(&v).unwrap();
    assert_eq!(rec.status, VolumeStatus::Conflict);
    // The mapping did not advance.
    assert_eq!(rec.snapshot.unwrap().remote_lsn(), None);
}

#[test]
fn push_cycle_updates_watermarks_and_mapping() {
    // Three local commits, then a push cycle: the pending watermark
    // moves to the head, and completing the push maps it remotely.
    let mut st = Storage::new();
    let v = vid(3);
    st.add_volume(&v, VolumeConfig::new(SyncDirection::Push));
    let handle = VolumeHandle::new(v);
    for n in 1u8..=3 {
        let base = st.snapshot(&v);
        let mut w = handle.writer_at(base);
        w.write(1, Page::filled(n));
        w.commit(&mut st, 0).unwrap();
    }

    let target = update_pending_sync(&mut st, &v);
    assert_eq!(target, Some((3, 1)));
    assert!(complete_push(&mut st, &v, 3, None));

    let rec = st.get_volume(&v).unwrap();
    let snap = rec.snapshot.unwrap();
    assert_eq!(snap.remote_local(), Some(3));
    assert_eq!(snap.remote_lsn(), Some(3));
    assert_eq!(rec.watermarks.pending_sync, Watermark::Mapped { lsn: 3, pages: 1 });

    // A rejected push marks the volume and leaves the watermark.
    reject_push(&mut st, &v);
    let rec = st.get_volume(&v).unwrap();
    assert_eq!(rec.status, VolumeStatus::RejectedCommit);
    assert_eq!(rec.watermarks.pending_sync, Watermark::Mapped { lsn: 3, pages: 1 });
}

#[test]
fn pull_commits_serves_window() {
    // Ten catalogued commits; a range asking for the last five returns
    // exactly those, ending at LSN 9.
    let mut catalog = VolumeCatalog::new();
    let v = vid(4);
    let offsets = splinter_of(&[0]).serialize();
    for lsn in 0u64..10 {
        catalog.update_volume(CatalogEntry {
            vid: v,
            meta: CommitMeta::new(lsn, 0, 0, 0),
            segments: vec![(sid(7), offsets.clone())],
        });
    }

    let range = LsnRange::from_bounds(
        Some(LsnBound::Included(5)),
        Some(LsnBound::Excluded(10)),
    );
    let commits = pull_commits(&catalog, &v, Some(range)).unwrap();
    assert_eq!(commits.len(), 5);
    assert_eq!(commits[0].meta.lsn(), 5);
    let last = commits.last().unwrap();
    assert_eq!(last.meta.lsn(), 9);
    for c in &commits {
        assert_eq!(c.segments.len(), 1);
        assert_eq!(c.segments[0].1, offsets);
    }

    // Without a range, everything from the checkpoint is returned.
    let commits = pull_commits(&catalog, &v, None).unwrap();
    assert_eq!(commits.len(), 10);

    // An unknown volume has no snapshot.
    assert!(matches!(
        pull_commits(&catalog, &vid(5), None),
        Err(ApiErr::SnapshotMissing)
    ));
}

#[test]
fn lsn_range_endpoints() {
    let r = LsnRange::from_bounds(Some(LsnBound::Excluded(4)), Some(LsnBound::Excluded(10)));
    assert_eq!(r.start(), Some(5));
    assert_eq!(r.end(), Some(9));
    assert_eq!(r.start_exclusive(), Some(4));
    let r = LsnRange::from_bounds(Some(LsnBound::Included(0)), Some(LsnBound::Excluded(0)));
    assert_eq!(r.start(), Some(0));
    assert_eq!(r.start_exclusive(), None);
    assert_eq!(r.end(), Some(0));
    let r = LsnRange::from_bounds(None, None);
    assert_eq!(r.start(), None);
    assert_eq!(r.end(), None);
}

#[test]
fn read_planner_covers_request() {
    // Segment A covers {0,1,2}, segment B covers {3,4}; requesting
    // 0..=4 loads both exactly once and leaves nothing outstanding.
    let segments = vec![
        (sid(0xA), splinter_of(&[0, 1, 2])),
        (sid(0xB), splinter_of(&[3, 4])),
        (sid(0xC), splinter_of(&[0, 4])),
    ];
    let mut requested = splinter_of(&[0, 1, 2, 3, 4]);
    let plans = plan_reads(&segments, &mut requested);
    assert!(requested.is_empty());
    assert_eq!(plans.len(), 2);
    assert_eq!(plans[0].0.as_bytes(), &[0xA; 16]);
    assert_eq!(plans[0].1.elems(), &vec![0, 1, 2]);
    assert_eq!(plans[1].0.as_bytes(), &[0xB; 16]);
    assert_eq!(plans[1].1.elems(), &vec![3, 4]);

    // Offsets no segment covers stay outstanding.
    let mut requested = splinter_of(&[2, 9]);
    let plans = plan_reads(&segments, &mut requested);
    assert_eq!(plans.len(), 1);
    assert_eq!(plans[0].1.elems(), &vec![2]);
    assert_eq!(requested.elems(), &vec![9]);
}

#[test]
fn pull_then_read_serves_remote_offsets() {
    // After a pull, the planner finds the pulled segment for its
    // offsets.
    let mut st = Storage::new();
    let v = vid(6);
    st.add_volume(&v, VolumeConfig::new(SyncDirection::Pull));
    let rc = RemoteCommit {
        remote_lsn: 7,
        pages: 1,
        segments: vec![(sid(1), splinter_of(&[0]))],
    };
    assert_eq!(apply_remote_commit(&mut st, &v, &rc, 0, 0), PullOutcome::Applied);

    let catalog: Vec<(SegmentId, Splinter)> = st
        .segments
        .iter()
        .map(|s| (s.sid, s.offsets.clone()))
        .collect();
    let mut requested = splinter_of(&[0]);
    let plans = plan_reads(&catalog, &mut requested);
    assert!(requested.is_empty());
    assert_eq!(plans.len(), 1);
    assert_eq!(plans[0].0.as_bytes(), &[1u8; 16]);
}
