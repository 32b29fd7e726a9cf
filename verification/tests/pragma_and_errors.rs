//! The pragma surface and the client error taxonomy.

use graft::error::{ClientErr, GraftErrCode};
use graft::pragma::{parse_pragma, GraftPragma, PragmaErr, PragmaResult};
use graft::storage::Storage;
use graft::vfs::{ErrCtx, VolFile, VolFileState};
use graft::volume::VolumeHandle;
use graft::volume_state::{SyncDirection, VolumeConfig};
use graft::gid::VolumeId;

#[test]
fn pragma_parsing() {
    assert_eq!(
        parse_pragma(b"graft_status", None),
        Ok(GraftPragma::Status)
    );
    assert_eq!(
        parse_pragma(b"graft_snapshot", None),
        Ok(GraftPragma::Snapshot)
    );
    assert_eq!(
        parse_pragma(b"graft_sync", Some(&b"true".to_vec())),
        Ok(GraftPragma::SetAutosync(true))
    );
    assert_eq!(
        parse_pragma(b"graft_sync", Some(&b"false".to_vec())),
        Ok(GraftPragma::SetAutosync(false))
    );
    assert_eq!(parse_pragma(b"graft_sync", None), Err(PragmaErr::RequiredArg));
    assert_eq!(
        parse_pragma(b"graft_sync", Some(&b"maybe".to_vec())),
        Err(PragmaErr::BadArg)
    );
    assert_eq!(
        parse_pragma(b"graft_nonsense", None),
        Err(PragmaErr::UnknownPragma)
    );
    assert_eq!(parse_pragma(b"journal_mode", None), Err(PragmaErr::NotFound));
    assert_eq!(parse_pragma(b"graft", None), Err(PragmaErr::NotFound));
    assert_eq!(parse_pragma(b"grafty_status", None), Err(PragmaErr::NotFound));
}

#[test]
fn pragma_eval() {
    let mut st = Storage::new();
    let handle = VolumeHandle::new(VolumeId::new([7; 16]));
    st.add_volume(handle.vid(), VolumeConfig::new(SyncDirection::Disabled));
    let file = VolFile::new(handle, false);
    let mut autosync = false;

    let r = GraftPragma::SetAutosync(true).eval(&mut autosync, &file, &st).unwrap();
    assert_eq!(r, PragmaResult::Done);
    assert!(autosync);

    let r = GraftPragma::Status.eval(&mut autosync, &file, &st).unwrap();
    match r {
        PragmaResult::StatusReport { snapshot, autosync: a } => {
            assert!(snapshot.is_none());
            assert!(a);
        },
        _ => panic!("expected a status report"),
    }

    let r = GraftPragma::Snapshot.eval(&mut autosync, &file, &st).unwrap();
    assert_eq!(r, PragmaResult::SnapshotText { snapshot: None });
}

#[test]
fn pragma_eval_fails_mid_commit() {
    // A file stuck in the transient commit state cannot serve the
    // status pragmas.
    let mut st = Storage::new();
    let handle = VolumeHandle::new(VolumeId::new([8; 16]));
    st.add_volume(handle.vid(), VolumeConfig::new(SyncDirection::Disabled));
    let mut file = VolFile::new(handle, false);
    file.state = VolFileState::Committing;
    let mut autosync = false;
    assert_eq!(
        GraftPragma::Status.eval(&mut autosync, &file, &st),
        Err(ErrCtx::InvalidVolumeState)
    );
}

#[test]
fn client_error_predicates() {
    let e = ClientErr::GraftErr(GraftErrCode::SnapshotMissing);
    assert!(e.is_snapshot_missing());
    assert!(!e.is_commit_rejected());
    let e = ClientErr::GraftErr(GraftErrCode::CommitRejected);
    assert!(e.is_commit_rejected());
    assert!(!e.is_snapshot_missing());
    let e = ClientErr::HttpErr;
    assert!(!e.is_snapshot_missing());
    assert!(!e.is_commit_rejected());
}
