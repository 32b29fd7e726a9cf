//! The offset set: membership, cut and union laws, and the byte codec
//! round trip.

use graft::splinter::{DecodeErr, Splinter};

fn splinter_of(vals: &[u32]) -> Splinter {
    let mut s = Splinter::new();
    for v in vals {
        s.insert(*v);
    }
    s
}

#[test]
fn insert_keeps_order_and_dedups() {
    let s = splinter_of(&[5, 1, 3, 1, 5]);
    assert_eq!(s.cardinality(), 3);
    assert_eq!(s.elems(), &vec![1, 3, 5]);
    assert!(s.contains(3));
    assert!(!s.contains(2));
    assert!(!s.is_empty());
    assert!(Splinter::new().is_empty());
}

#[test]
fn serialize_parse_roundtrip() {
    // Round trip: parsing a serialized set yields the same set.
    for vals in [&[][..], &[0][..], &[0, 1, 2, 3, 4][..], &[7, 100, 4096][..]] {
        let s = splinter_of(vals);
        let bytes = s.serialize();
        let back = Splinter::parse(&bytes).unwrap();
        assert_eq!(back.elems(), s.elems());
    }
    // The layout is a 4-byte count then 4-byte offsets, ascending.
    let s = splinter_of(&[1, 258]);
    let bytes = s.serialize();
    assert_eq!(bytes, vec![2, 0, 0, 0, 1, 0, 0, 0, 2, 1, 0, 0]);
}

#[test]
fn parse_rejects_malformed_input() {
    assert!(matches!(Splinter::parse(&[1, 2]), Err(DecodeErr::TooSmall)));
    // Count says two offsets but only one follows.
    assert!(matches!(
        Splinter::parse(&[2, 0, 0, 0, 1, 0, 0, 0]),
        Err(DecodeErr::WrongLength)
    ));
    // Offsets out of order.
    assert!(matches!(
        Splinter::parse(&[2, 0, 0, 0, 5, 0, 0, 0, 5, 0, 0, 0]),
        Err(DecodeErr::OutOfOrder)
    ));
}

#[test]
fn cut_removes_and_returns_intersection() {
    let mut o = splinter_of(&[0, 1, 2, 3, 4]);
    let other = splinter_of(&[1, 3, 9]);
    let removed = o.cut(&other);
    assert_eq!(removed.elems(), &vec![1, 3]);
    assert_eq!(o.elems(), &vec![0, 2, 4]);
    // The removed part and the remainder reassemble the original set.
    let reunion = removed.union(&o);
    assert_eq!(reunion.elems(), &vec![0, 1, 2, 3, 4]);
}

#[test]
fn union_is_membership_or() {
    let a = splinter_of(&[1, 2]);
    let b = splinter_of(&[2, 7]);
    let u = a.union(&b);
    assert_eq!(u.elems(), &vec![1, 2, 7]);
    let e = Splinter::new().union(&Splinter::new());
    assert!(e.is_empty());
}
