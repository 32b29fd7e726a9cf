//! The volume runtime: write/read round trip through commit, the
//! conflict check, and the lock-level state machine.

use graft::page::Page;
use graft::storage::Storage;
use graft::vfs::{ErrCtx, LockLevel, ReservedLock, VolFile, VolFileState};
use graft::volume::VolumeHandle;
use graft::volume_state::{StorageErr, SyncDirection, VolumeConfig, Watermark};
use graft::gid::VolumeId;
use graft::PAGESIZE;

fn vid(b: u8) -> VolumeId {
    VolumeId::new([b; 16])
}

#[test]
fn write_read_roundtrip() {
    // A single-volume write/read round trip: two pages in, the same
    // bytes out, and the snapshot advances to LSN 1 with 2 pages.
    let mut st = Storage::new();
    let handle = VolumeHandle::new(vid(1));
    st.add_volume(handle.vid(), VolumeConfig::new(SyncDirection::Disabled));

    let mut writer = handle.writer_at(None);
    writer.write(1, Page::filled(0xAA));
    writer.write(2, Page::filled(0xBB));
    assert_eq!(writer.pages(), 2);

    let reader = writer.commit(&mut st, 777).unwrap();
    let snap = reader.snapshot().unwrap();
    assert_eq!(snap.local(), 1);
    assert_eq!(snap.pages(), 2);
    assert_eq!(snap.timestamp(), 777);

    let p1 = reader.read(&st, 1);
    let p2 = reader.read(&st, 2);
    assert!(p1.as_bytes().iter().all(|b| *b == 0xAA));
    assert!(p2.as_bytes().iter().all(|b| *b == 0xBB));
    // A page that was never written reads as zeroes... beyond the
    // volume size it reads as the zero page.
    let p3 = reader.read(&st, 3);
    assert!(p3.as_bytes().iter().all(|b| *b == 0));
}

#[test]
fn second_commit_increments_lsn() {
    let mut st = Storage::new();
    let handle = VolumeHandle::new(vid(2));
    st.add_volume(handle.vid(), VolumeConfig::new(SyncDirection::Disabled));

    let mut w = handle.writer_at(None);
    w.write(1, Page::filled(1));
    let r1 = w.commit(&mut st, 0).unwrap();
    assert_eq!(r1.snapshot().unwrap().local(), 1);

    let mut w = handle.writer_at(st.snapshot(handle.vid()));
    w.write(1, Page::filled(2));
    let r2 = w.commit(&mut st, 0).unwrap();
    assert_eq!(r2.snapshot().unwrap().local(), 2);

    // The newer reader sees the newer page; the older reader still
    // reads its own snapshot.
    assert_eq!(r2.read(&st, 1).as_bytes()[0], 2);
    assert_eq!(r1.read(&st, 1).as_bytes()[0], 1);
}

#[test]
fn interleaved_commit_conflicts() {
    let mut st = Storage::new();
    let handle = VolumeHandle::new(vid(3));
    st.add_volume(handle.vid(), VolumeConfig::new(SyncDirection::Disabled));

    // Two writers on the same (empty) base; the second commit fails.
    let mut w1 = handle.writer_at(None);
    let mut w2 = handle.writer_at(None);
    w1.write(1, Page::filled(1));
    w2.write(1, Page::filled(2));
    w1.commit(&mut st, 0).unwrap();
    assert!(matches!(w2.commit(&mut st, 0), Err(StorageErr::Conflict)));
}

#[test]
fn commit_with_push_sets_pending_sync() {
    let mut st = Storage::new();
    let handle = VolumeHandle::new(vid(4));
    st.add_volume(handle.vid(), VolumeConfig::new(SyncDirection::Push));

    let mut w = handle.writer_at(None);
    w.write(1, Page::filled(9));
    w.commit(&mut st, 0).unwrap();
    let rec = st.get_volume(handle.vid()).unwrap();
    assert_eq!(rec.watermarks.pending_sync, Watermark::Mapped { lsn: 1, pages: 1 });

    // Without push, the watermark stays unmapped.
    let mut st = Storage::new();
    let handle = VolumeHandle::new(vid(5));
    st.add_volume(handle.vid(), VolumeConfig::new(SyncDirection::Pull));
    let mut w = handle.writer_at(None);
    w.write(1, Page::filled(9));
    w.commit(&mut st, 0).unwrap();
    let rec = st.get_volume(handle.vid()).unwrap();
    assert_eq!(rec.watermarks.pending_sync, Watermark::Unmapped);
}

#[test]
fn truncate_drops_staged_pages() {
    let mut st = Storage::new();
    let handle = VolumeHandle::new(vid(6));
    st.add_volume(handle.vid(), VolumeConfig::new(SyncDirection::Disabled));
    let mut w = handle.writer_at(None);
    w.write(1, Page::filled(1));
    w.write(2, Page::filled(2));
    w.truncate(1);
    assert_eq!(w.pages(), 1);
    let reader = w.commit(&mut st, 0).unwrap();
    assert_eq!(reader.snapshot().unwrap().pages(), 1);
    // The truncated page reads as zeroes.
    assert!(reader.read(&st, 2).as_bytes().iter().all(|b| *b == 0));
    assert_eq!(reader.read(&st, 1).as_bytes()[0], 1);
}

#[test]
fn lock_state_machine_happy_path() {
    let mut st = Storage::new();
    let handle = VolumeHandle::new(vid(7));
    st.add_volume(handle.vid(), VolumeConfig::new(SyncDirection::Disabled));
    let mut reserved = ReservedLock::new();
    let mut file = VolFile::new(handle, false);

    file.lock(&st, &mut reserved, LockLevel::Shared).unwrap();
    file.lock(&st, &mut reserved, LockLevel::Reserved).unwrap();
    assert!(reserved.held);
    file.lock(&st, &mut reserved, LockLevel::Pending).unwrap();
    file.lock(&st, &mut reserved, LockLevel::Exclusive).unwrap();

    // Write one full page at offset 0, then a partial page.
    let data = vec![0x42u8; PAGESIZE];
    assert_eq!(file.write(&st, 0, &data).unwrap(), PAGESIZE);
    let patch = vec![7u8, 8, 9];
    assert_eq!(file.write(&st, 16, &patch).unwrap(), 3);

    // Downgrading to shared commits the overlay.
    file.unlock(&mut st, &mut reserved, LockLevel::Shared, 5).unwrap();
    assert!(!reserved.held);
    assert!(matches!(file.state, VolFileState::Shared { .. }));
    assert_eq!(file.file_size(&st).unwrap(), PAGESIZE as u64);

    let read = file.read(&st, 16, 3).unwrap();
    assert_eq!(read, vec![7, 8, 9]);
    let read = file.read(&st, 0, 4).unwrap();
    assert_eq!(read, vec![0x42; 4]);

    file.unlock(&mut st, &mut reserved, LockLevel::Unlocked, 0).unwrap();
    assert!(matches!(file.state, VolFileState::Idle));
    // An idle file still reads, from the latest snapshot.
    let read = file.read(&st, 17, 2).unwrap();
    assert_eq!(read, vec![8, 9]);
}

#[test]
fn reserved_lock_contention_is_busy() {
    // Two connections: the second reserved request fails Busy while
    // the first holds the flag, and succeeds after release.
    let mut st = Storage::new();
    let handle = VolumeHandle::new(vid(8));
    st.add_volume(handle.vid(), VolumeConfig::new(SyncDirection::Disabled));
    let mut reserved = ReservedLock::new();
    let mut a = VolFile::new(handle, false);
    let mut b = VolFile::new(handle, false);

    a.lock(&st, &mut reserved, LockLevel::Shared).unwrap();
    b.lock(&st, &mut reserved, LockLevel::Shared).unwrap();
    a.lock(&st, &mut reserved, LockLevel::Reserved).unwrap();
    assert_eq!(b.lock(&st, &mut reserved, LockLevel::Reserved), Err(ErrCtx::Busy));

    // The first connection commits and releases.
    a.unlock(&mut st, &mut reserved, LockLevel::Shared, 0).unwrap();
    assert!(!reserved.held);

    // The second connection's snapshot is stale now.
    assert_eq!(
        b.lock(&st, &mut reserved, LockLevel::Reserved),
        Err(ErrCtx::BusySnapshot)
    );

    // After re-opening its read view, it can reserve.
    b.unlock(&mut st, &mut reserved, LockLevel::Unlocked, 0).unwrap();
    b.lock(&st, &mut reserved, LockLevel::Shared).unwrap();
    b.lock(&st, &mut reserved, LockLevel::Reserved).unwrap();
    assert!(reserved.held);
}

#[test]
fn lock_transitions_rejected() {
    let mut st = Storage::new();
    let handle = VolumeHandle::new(vid(9));
    st.add_volume(handle.vid(), VolumeConfig::new(SyncDirection::Disabled));
    let mut reserved = ReservedLock::new();
    let mut file = VolFile::new(handle, false);

    // Reserved from idle is invalid.
    assert_eq!(
        file.lock(&st, &mut reserved, LockLevel::Reserved),
        Err(ErrCtx::InvalidLockTransition)
    );
    // A read-only file cannot reserve.
    let mut ro = VolFile::new(handle, true);
    ro.lock(&st, &mut reserved, LockLevel::Shared).unwrap();
    assert_eq!(
        ro.lock(&st, &mut reserved, LockLevel::Reserved),
        Err(ErrCtx::InvalidLockTransition)
    );
    // Writes and truncates need the reserved lock.
    assert_eq!(
        file.write(&st, 0, &vec![1]),
        Err(ErrCtx::InvalidVolumeState)
    );
    assert_eq!(file.truncate(0), Err(ErrCtx::InvalidVolumeState));
    // A full unlock from reserved is invalid: downgrade first.
    file.lock(&st, &mut reserved, LockLevel::Shared).unwrap();
    file.lock(&st, &mut reserved, LockLevel::Reserved).unwrap();
    assert_eq!(
        file.unlock(&mut st, &mut reserved, LockLevel::Unlocked, 0),
        Err(ErrCtx::InvalidLockTransition)
    );
}
