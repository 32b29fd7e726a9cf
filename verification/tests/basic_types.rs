//! Volume-state types: the sync-direction matching relation, the byte
//! codecs of every record, and the snapshot invariant.

use graft::gid::{GidParseErr, VolumeId};
use graft::volume_state::{
    RemoteMapping, Snapshot, StorageErr, SyncDirection, VolumeConfig, VolumeState, VolumeStateKey,
    VolumeStateTag, VolumeStatus, Watermark, Watermarks,
};

fn vid(b: u8) -> VolumeId {
    VolumeId::new([b; 16])
}

#[test]
fn sync_direction_matches_table() {
    let all = [
        SyncDirection::Disabled,
        SyncDirection::Push,
        SyncDirection::Pull,
        SyncDirection::Both,
    ];
    for a in all {
        for b in all {
            // Symmetry.
            assert_eq!(a.matches(b), b.matches(a));
        }
        // Disabled matches exactly Disabled.
        assert_eq!(SyncDirection::Disabled.matches(a), a == SyncDirection::Disabled);
        // Both matches exactly the enabled directions.
        assert_eq!(SyncDirection::Both.matches(a), a != SyncDirection::Disabled);
    }
    assert!(SyncDirection::Push.matches(SyncDirection::Push));
    assert!(!SyncDirection::Push.matches(SyncDirection::Pull));
}

#[test]
fn config_roundtrip_and_errors() {
    for d in [
        SyncDirection::Disabled,
        SyncDirection::Push,
        SyncDirection::Pull,
        SyncDirection::Both,
    ] {
        let c = VolumeConfig::new(d);
        let bytes = c.to_bytes();
        assert_eq!(bytes.len(), 1);
        assert_eq!(VolumeConfig::from_bytes(&bytes).unwrap(), c);
    }
    assert_eq!(
        VolumeConfig::from_bytes(&[4]),
        Err(StorageErr::CorruptVolumeState(VolumeStateTag::Config))
    );
    assert_eq!(
        VolumeConfig::from_bytes(&[]),
        Err(StorageErr::CorruptVolumeState(VolumeStateTag::Config))
    );
    assert_eq!(VolumeConfig::default().sync(), SyncDirection::Disabled);
    assert_eq!(
        VolumeConfig::new(SyncDirection::Pull).with_sync(SyncDirection::Both).sync(),
        SyncDirection::Both
    );
}

#[test]
fn status_roundtrip_and_errors() {
    for s in [
        VolumeStatus::Healthy,
        VolumeStatus::RejectedCommit,
        VolumeStatus::Conflict,
        VolumeStatus::InterruptedPush,
    ] {
        let bytes = s.to_bytes();
        assert_eq!(VolumeStatus::from_bytes(&bytes).unwrap(), s);
    }
    assert_eq!(
        VolumeStatus::from_bytes(&[9]),
        Err(StorageErr::CorruptVolumeState(VolumeStateTag::Status))
    );
    assert_eq!(VolumeStatus::Healthy.name(), "ok");
    assert_eq!(VolumeStatus::RejectedCommit.name(), "rejected commit");
    assert_eq!(VolumeStatus::Conflict.name(), "conflict");
    assert_eq!(VolumeStatus::InterruptedPush.name(), "interrupted push");
}

#[test]
fn watermark_layout_is_sixteen_bytes() {
    let w = Watermark::new(7, 3);
    assert_eq!(w.lsn(), Some(7));
    assert_eq!(w.pages(), Some(3));
    assert_eq!(w.splat(), Some((7, 3)));
    let u = Watermark::default();
    assert_eq!(u.lsn(), None);
    assert_eq!(u.pages(), None);
    assert_eq!(u.splat(), None);

    let pair = Watermarks::default().with_pending_sync(w).with_checkpoint(Watermark::new(2, 1));
    let bytes = pair.to_bytes();
    assert_eq!(bytes.len(), 32);
    // tag | 3 pad | pages LE | lsn LE
    assert_eq!(&bytes[0..8], &[1, 0, 0, 0, 3, 0, 0, 0]);
    assert_eq!(&bytes[8..16], &[7, 0, 0, 0, 0, 0, 0, 0]);
    let back = Watermarks::from_bytes(&bytes).unwrap();
    assert_eq!(back, pair);
    // A bad tag byte is rejected.
    let mut bad = bytes.clone();
    bad[0] = 2;
    assert_eq!(
        Watermarks::from_bytes(&bad),
        Err(StorageErr::CorruptVolumeState(VolumeStateTag::Watermarks))
    );
}

#[test]
fn snapshot_roundtrip_and_invariant() {
    let s = Snapshot::new(9, RemoteMapping::Mapped { remote: 4, local: 6 }, 12, 1000);
    assert_eq!(s.local(), 9);
    assert_eq!(s.remote_local(), Some(6));
    assert_eq!(s.remote_lsn(), Some(4));
    assert_eq!(s.pages(), 12);
    assert_eq!(s.timestamp(), 1000);
    let bytes = s.to_bytes();
    assert_eq!(bytes.len(), 37);
    assert_eq!(Snapshot::from_bytes(&bytes).unwrap(), s);

    // The persisted invariant: a record whose synced local LSN exceeds
    // its own local LSN is corrupt.
    let bad = Snapshot::new(10, RemoteMapping::Mapped { remote: 4, local: 10 }, 1, 0);
    let mut bytes = bad.to_bytes();
    bytes[0] = 9; // local becomes 9, below the mapped local of 10
    assert_eq!(
        Snapshot::from_bytes(&bytes),
        Err(StorageErr::CorruptVolumeState(VolumeStateTag::Snapshot))
    );

    let unmapped = Snapshot::new(1, RemoteMapping::Unmapped, 2, 5);
    let bytes = unmapped.to_bytes();
    assert_eq!(Snapshot::from_bytes(&bytes).unwrap(), unmapped);
}

#[test]
fn state_key_roundtrip() {
    let k = VolumeStateKey::new(vid(0xAB), VolumeStateTag::Snapshot);
    let bytes = k.to_bytes();
    assert_eq!(bytes.len(), 17);
    assert_eq!(bytes[16], 3);
    let back = VolumeStateKey::ref_from_bytes(&bytes).unwrap();
    assert_eq!(back.vid().as_bytes(), &[0xAB; 16]);
    assert_eq!(back.tag(), VolumeStateTag::Snapshot);
    let k2 = k.with_tag(VolumeStateTag::Config);
    assert_eq!(k2.to_bytes()[16], 1);
    assert_eq!(
        VolumeStateKey::ref_from_bytes(&bytes[..16]),
        Err(StorageErr::CorruptKey)
    );
    let mut bad = bytes.clone();
    bad[16] = 7;
    assert_eq!(VolumeStateKey::ref_from_bytes(&bad), Err(StorageErr::CorruptKey));
}

#[test]
fn gid_pretty_roundtrip() {
    let v = vid(0x5C);
    let pretty = v.pretty();
    assert_eq!(pretty.len(), 32);
    assert_eq!(pretty, b"5c".repeat(16));
    let back = VolumeId::from_pretty(&pretty).unwrap();
    assert_eq!(back.as_bytes(), v.as_bytes());
    assert_eq!(VolumeId::from_pretty(b"abc"), Err(GidParseErr::Length));
    assert_eq!(
        VolumeId::from_pretty(&b"g".repeat(32)),
        Err(GidParseErr::Character)
    );
}

#[test]
fn volume_state_defaults_and_flags() {
    let mut st = VolumeState::new(vid(1));
    assert_eq!(st.config().sync(), SyncDirection::Disabled);
    assert_eq!(st.status(), VolumeStatus::Healthy);
    assert!(st.snapshot().is_none());
    assert!(!st.is_syncing());
    assert!(!st.has_pending_commits());

    // A snapshot without a remote mapping means everything is pending.
    let snap = Snapshot::new(3, RemoteMapping::Unmapped, 1, 0);
    st.accumulate(VolumeStateTag::Snapshot, &snap.to_bytes()).unwrap();
    assert!(st.has_pending_commits());

    // A mapped pending-sync watermark beyond the synced point means a
    // push is in flight.
    let wm = Watermarks::default().with_pending_sync(Watermark::new(3, 1));
    st.accumulate(VolumeStateTag::Watermarks, &wm.to_bytes()).unwrap();
    assert!(st.is_syncing());

    // Once the remote acknowledged local LSN 3, neither flag holds.
    let synced = Snapshot::new(3, RemoteMapping::Mapped { remote: 1, local: 3 }, 1, 0);
    st.accumulate(VolumeStateTag::Snapshot, &synced.to_bytes()).unwrap();
    assert!(!st.is_syncing());
    assert!(!st.has_pending_commits());

    // A corrupt value leaves the state unchanged and names the tag.
    assert_eq!(
        st.accumulate(VolumeStateTag::Config, &[9]),
        Err(StorageErr::CorruptVolumeState(VolumeStateTag::Config))
    );
    assert_eq!(st.status(), VolumeStatus::Healthy);
}
