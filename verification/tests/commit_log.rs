//! Commit-log records: the payload round trip, validation errors, the
//! offsets-block iterator, and the key layout with its LSN ordering.

use graft::codec::bytes_lt;
use graft::commit::{
    commit_key, commit_key_prefix, parse_commit_key, Commit, CommitBuilder, CommitKeyParseErr,
    CommitMeta, CommitValidationErr,
};
use graft::gid::{SegmentId, VolumeId};
use graft::splinter::Splinter;

fn vid(b: u8) -> VolumeId {
    VolumeId::new([b; 16])
}

fn sid(b: u8) -> SegmentId {
    SegmentId::new([b; 16])
}

#[test]
fn commit_payload_roundtrip() {
    let meta = CommitMeta::new(9, 2, 4, 123_456);
    assert_eq!(meta.lsn(), 9);
    assert_eq!(meta.checkpoint(), 2);
    assert_eq!(meta.last_offset(), 4);
    assert_eq!(meta.timestamp(), 123_456);

    let mut offsets = Splinter::new();
    offsets.insert(0);
    offsets.insert(4);
    let mut builder = CommitBuilder::default();
    builder.write_offsets(sid(0x11), &offsets.serialize());
    builder.write_offsets(sid(0x22), &offsets.serialize());
    let commit = builder.build(vid(0xAA), meta);

    let payload = commit.into_payload();
    assert_eq!(&payload[0..4], &[0x31, 0x99, 0xBF, 0x00]);
    assert_eq!(payload.len(), 48 + 2 * (16 + 4 + 12));

    let back = Commit::from_bytes(&payload).unwrap();
    assert_eq!(back.vid().as_bytes(), &[0xAA; 16]);
    assert_eq!(*back.meta(), meta);

    // The offsets-block iterator yields the same entries in order.
    let mut it = back.iter_offsets();
    let (s1, o1) = it.next_inner().unwrap().unwrap();
    assert_eq!(s1.as_bytes(), &[0x11; 16]);
    assert_eq!(o1.elems(), &vec![0, 4]);
    let (s2, o2) = it.next_inner().unwrap().unwrap();
    assert_eq!(s2.as_bytes(), &[0x22; 16]);
    assert_eq!(o2.elems(), &vec![0, 4]);
    assert!(it.next_inner().unwrap().is_none());
    // The iterator is fused.
    assert!(it.next_inner().unwrap().is_none());
}

#[test]
fn commit_from_bytes_rejects_bad_input() {
    // Shorter than the header.
    assert!(matches!(
        Commit::from_bytes(&[0u8; 20]),
        Err(CommitValidationErr::TooSmall)
    ));
    // A full-size header with the wrong magic.
    let mut bytes = vec![0u8; 48];
    bytes[0] = 0x31;
    assert!(matches!(
        Commit::from_bytes(&bytes),
        Err(CommitValidationErr::Magic)
    ));
    // An empty offsets block is valid.
    let commit = CommitBuilder::default().build(vid(1), CommitMeta::new(1, 0, 0, 0));
    let payload = commit.into_payload();
    assert_eq!(payload.len(), 48);
    let back = Commit::from_bytes(&payload).unwrap();
    assert!(back.iter_offsets().next_inner().unwrap().is_none());
}

#[test]
fn commit_keys_layout() {
    let v = vid(0xAB);
    let prefix = commit_key_prefix(&v);
    let mut expected = b"volumes/".to_vec();
    expected.extend_from_slice(&b"ab".repeat(16));
    expected.push(b'/');
    assert_eq!(prefix, expected);

    let key = commit_key(&v, 0x1F);
    let mut expected_key = expected.clone();
    expected_key.extend_from_slice(b"00000000000000001f");
    assert_eq!(key, expected_key);

    let (pv, lsn) = parse_commit_key(&key).unwrap();
    assert_eq!(pv.as_bytes(), v.as_bytes());
    assert_eq!(lsn, 0x1F);
}

#[test]
fn commit_keys_sort_by_lsn() {
    // Fixed-width hexadecimal keys sort in ascending LSN order.
    let v = vid(3);
    let lsns = [0u64, 1, 15, 16, 255, 4096, u64::MAX - 1, u64::MAX];
    for w in lsns.windows(2) {
        let k1 = commit_key(&v, w[0]);
        let k2 = commit_key(&v, w[1]);
        assert!(bytes_lt(&k1, &k2), "keys of {} and {} out of order", w[0], w[1]);
        assert!(!bytes_lt(&k2, &k1));
    }
}

#[test]
fn parse_commit_key_errors() {
    assert_eq!(
        parse_commit_key(b"volume/abc"),
        Err(CommitKeyParseErr::Structure)
    );
    assert_eq!(
        parse_commit_key(b"volumes/deadbeef"),
        Err(CommitKeyParseErr::Structure)
    );
    // A malformed identifier part.
    let mut key = b"volumes/".to_vec();
    key.extend_from_slice(&b"zz".repeat(16));
    key.extend_from_slice(b"/000000000000000001");
    assert!(matches!(
        parse_commit_key(&key),
        Err(CommitKeyParseErr::VolumeId(_))
    ));
    // An LSN part of the wrong width.
    let mut key = b"volumes/".to_vec();
    key.extend_from_slice(&b"ab".repeat(16));
    key.extend_from_slice(b"/123");
    assert_eq!(parse_commit_key(&key), Err(CommitKeyParseErr::Lsn));
    // An LSN with a non-hex character.
    let mut key = b"volumes/".to_vec();
    key.extend_from_slice(&b"ab".repeat(16));
    key.extend_from_slice(b"/00000000000000000g");
    assert_eq!(parse_commit_key(&key), Err(CommitKeyParseErr::Lsn));
    // An LSN beyond the 64-bit range.
    let mut key = b"volumes/".to_vec();
    key.extend_from_slice(&b"ab".repeat(16));
    key.extend_from_slice(b"/ff0000000000000000");
    assert_eq!(parse_commit_key(&key), Err(CommitKeyParseErr::Lsn));
    // Parts following the LSN break the shape.
    let mut key = b"volumes/".to_vec();
    key.extend_from_slice(&b"ab".repeat(16));
    key.extend_from_slice(b"/000000000000000001/x");
    assert_eq!(parse_commit_key(&key), Err(CommitKeyParseErr::Structure));
}
