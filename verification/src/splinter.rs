//! The offset set: an ordered set of 32-bit page offsets with `cut`,
//! `union`, membership, and a validated byte codec. `cut` removes and
//! returns the intersection with another set; it is the primitive the
//! read-paging path uses to subtract already-satisfied offsets from an
//! outstanding request.

use vstd::prelude::*;
use crate::codec::{le_bytes, le_val, lemma_le32_roundtrip, read_le_u32, push_le_bytes};

verus! {

/// Why a byte string is not a valid offset-set encoding.
#[derive(Clone, Copy, Debug, PartialEq, Eq, Structural)]
pub enum DecodeErr {
    /// Shorter than the count field.
    TooSmall,
    /// The length does not match the count field.
    WrongLength,
    /// The offsets are not strictly ascending.
    OutOfOrder,
}

/// Strictly ascending: the canonical order of an offset set.
pub open spec fn strictly_sorted(s: Seq<u32>) -> bool {
    forall|i: int, j: int| 0 <= i < j < s.len() ==> s[i] < s[j]
}

/// The members of an offset sequence, as a set.
pub open spec fn offsets_set(s: Seq<u32>) -> Set<u32> {
    Set::new(|x: u32| s.contains(x))
}

/// The payload encoding: each offset as a 4-byte little-endian field,
/// in order.
pub open spec fn payload_bytes(s: Seq<u32>) -> Seq<u8>
    decreases s.len(),
{
    if s.len() == 0 {
        Seq::empty()
    } else {
        le_bytes(s[0] as int, 4) + payload_bytes(s.skip(1))
    }
}

/// The full encoding: a 4-byte little-endian cardinality, then the
/// payload.
pub open spec fn serialize_spec(s: Seq<u32>) -> Seq<u8> {
    le_bytes(s.len() as int, 4) + payload_bytes(s)
}

/// The offsets a payload denotes.
pub open spec fn decode_payload(b: Seq<u8>) -> Seq<u32>
    decreases b.len(),
{
    if b.len() < 4 {
        Seq::empty()
    } else {
        seq![le_val(b.subrange(0, 4)) as u32] + decode_payload(b.skip(4))
    }
}

/// The offset set a byte string denotes, if it is a valid encoding.
pub open spec fn parse_spec(b: Seq<u8>) -> Option<Seq<u32>> {
    if b.len() >= 4 && b.len() == 4 + 4 * le_val(b.subrange(0, 4)) && strictly_sorted(
        decode_payload(b.skip(4)),
    ) {
        Some(decode_payload(b.skip(4)))
    } else {
        None
    }
}

pub proof fn lemma_payload_len(s: Seq<u32>)
    ensures
        payload_bytes(s).len() == 4 * s.len(),
    decreases s.len(),
{
    crate::codec::lemma_le_bytes_len(if s.len() == 0 {
        0
    } else {
        s[0] as int
    }, 4);
    if s.len() > 0 {
        lemma_payload_len(s.skip(1));
    }
}

/// Decoding inverts encoding of the payload.
pub proof fn lemma_payload_roundtrip(s: Seq<u32>)
    ensures
        decode_payload(payload_bytes(s)) == s,
    decreases s.len(),
{
    if s.len() == 0 {
        assert(payload_bytes(s).len() == 0);
        assert(decode_payload(payload_bytes(s)) =~= s);
    } else {
        lemma_le32_roundtrip(s[0]);
        lemma_payload_len(s.skip(1));
        let b = payload_bytes(s);
        assert(b.subrange(0, 4) =~= le_bytes(s[0] as int, 4));
        assert(b.skip(4) =~= payload_bytes(s.skip(1)));
        lemma_payload_roundtrip(s.skip(1));
        assert(decode_payload(b) =~= s);
    }
}

/// Round trip: parsing a serialized offset set yields it back. The set
/// must be in canonical (strictly ascending) order and its cardinality
/// must fit the 32-bit count field.
pub proof fn lemma_splinter_roundtrip(s: Seq<u32>)
    requires
        strictly_sorted(s),
        s.len() <= 0xFFFF_FFFF,
    ensures
        parse_spec(serialize_spec(s)) == Some(s),
{
    let b = serialize_spec(s);
    lemma_payload_len(s);
    crate::codec::lemma_le_bytes_len(s.len() as int, 4);
    lemma_le32_roundtrip(s.len() as u32);
    assert(b.subrange(0, 4) =~= le_bytes(s.len() as int, 4));
    assert(b.skip(4) =~= payload_bytes(s));
    lemma_payload_roundtrip(s);
}

/// Each decoded offset is the 4-byte field at its position.
pub proof fn lemma_decode_payload_index(b: Seq<u8>, i: int)
    requires
        b.len() % 4 == 0,
        0 <= i < b.len() / 4,
    ensures
        decode_payload(b).len() == b.len() / 4,
        decode_payload(b)[i] == le_val(b.subrange(4 * i, 4 * i + 4)) as u32,
    decreases b.len(),
{
    lemma_decode_payload_len(b);
    if i == 0 {
    } else {
        lemma_decode_payload_index(b.skip(4), i - 1);
        assert(b.skip(4).subrange(4 * (i - 1), 4 * (i - 1) + 4) =~= b.subrange(
            4 * i,
            4 * i + 4,
        ));
    }
}

pub proof fn lemma_decode_payload_len(b: Seq<u8>)
    requires
        b.len() % 4 == 0,
    ensures
        decode_payload(b).len() == b.len() / 4,
    decreases b.len(),
{
    if b.len() >= 4 {
        lemma_decode_payload_len(b.skip(4));
    }
}

/// A compressed, ordered set of 32-bit page offsets.
#[derive(Debug)]
pub struct Splinter {
    elems: Vec<u32>,
}

impl View for Splinter {
    type V = Seq<u32>;

    closed spec fn view(&self) -> Seq<u32> {
        self.elems@
    }
}

impl Clone for Splinter {
    /// Cloning keeps the members.
    fn clone(&self) -> (r: Self)
        ensures
            r@ == self@,
    {
        Splinter { elems: self.elems.clone() }
    }
}

impl Splinter {
    /// Offsets are kept strictly ascending.
    pub open spec fn wf(&self) -> bool {
        strictly_sorted(self@)
    }

    /// The members of the set.
    pub open spec fn set(&self) -> Set<u32> {
        offsets_set(self@)
    }

    /// The empty offset set.
    pub fn new() -> (r: Splinter)
        ensures
            r.wf(),
            r@ == Seq::<u32>::empty(),
    {
        Splinter { elems: Vec::new() }
    }

    /// Whether the set has no members.
    pub fn is_empty(&self) -> (r: bool)
        ensures
            r == (self@.len() == 0),
    {
        self.elems.len() == 0
    }

    /// The number of members.
    pub fn cardinality(&self) -> (r: usize)
        ensures
            r == self@.len(),
    {
        self.elems.len()
    }

    /// The members in ascending order.
    pub fn elems(&self) -> (r: &Vec<u32>)
        ensures
            r@ == self@,
    {
        &self.elems
    }

    /// Whether `x` is a member.
    pub fn contains(&self, x: u32) -> (r: bool)
        requires
            self.wf(),
        ensures
            r == self@.contains(x),
    {
        let n = self.elems.len();
        let mut i: usize = 0;
        while i < n
            invariant
                i <= n,
                n == self@.len(),
                forall|j: int| 0 <= j < i ==> self@[j] != x,
            decreases n - i,
        {
            if self.elems[i] == x {
                return true;
            }
            i = i + 1;
        }
        proof {
            assert(forall|j: int| 0 <= j < self@.len() ==> self@[j] != x);
            if self@.contains(x) {
                let j = choose|j: int| 0 <= j < self@.len() && self@[j] == x;
            }
        }
        false
    }

    /// Adds `x` to the set.
    pub fn insert(&mut self, x: u32)
        requires
            old(self).wf(),
        ensures
            final(self).wf(),
            forall|y: u32| final(self)@.contains(y) <==> old(self)@.contains(y) || y == x,
            final(self)@.len() <= old(self)@.len() + 1,
    {
        let n = self.elems.len();
        let mut i: usize = 0;
        while i < n && self.elems[i] < x
            invariant
                i <= n,
                n == self@.len(),
                self.wf(),
                forall|j: int| 0 <= j < i ==> self@[j] < x,
            decreases n - i,
        {
            i = i + 1;
        }
        if i < n && self.elems[i] == x {
            proof {
                assert(self@.contains(x));
            }
            return ;
        }
        // Insert at position i: everything before is < x, everything at
        // or after is > x.
        proof {
            assert(i < n ==> self@[i as int] > x);
        }
        self.elems.insert(i, x);
        proof {
            let s = self@;
            let o = old(self)@;
            assert forall|a: int, b: int| 0 <= a < b < s.len() implies s[a] < s[b] by {
                if a < i && b > i {
                    assert(s[a] == o[a] && s[b] == o[b - 1]);
                    assert(b - 1 >= i);
                    assert(o[b - 1] >= o[i as int] > x);
                } else if a < i && b == i {
                } else if a == i {
                    assert(s[b] == o[b - 1]);
                    assert(o[b - 1] >= o[i as int] > x);
                } else if b < i {
                } else {
                    assert(s[a] == o[a - 1] && s[b] == o[b - 1]);
                }
            }
            assert forall|y: u32| s.contains(y) <==> o.contains(y) || y == x by {
                if s.contains(y) {
                    let j = choose|j: int| 0 <= j < s.len() && s[j] == y;
                    if j < i {
                        assert(o[j] == y);
                        assert(o.contains(y));
                    } else if j == i {
                    } else {
                        assert(o[j - 1] == y);
                        assert(o.contains(y));
                    }
                }
                if o.contains(y) {
                    let j = choose|j: int| 0 <= j < o.len() && o[j] == y;
                    if j < i {
                        assert(s[j] == y);
                        assert(s.contains(y));
                    } else {
                        assert(s[j + 1] == y);
                        assert(s.contains(y));
                    }
                }
                if y == x {
                    assert(s[i as int] == x);
                    assert(s.contains(y));
                }
            }
        }
    }

    /// Removes and returns the intersection with `other`: afterwards
    /// this set holds exactly its members outside `other`, and the
    /// returned set exactly those inside. Together they reassemble the
    /// original set.
    pub fn cut(&mut self, other: &Splinter) -> (removed: Splinter)
        requires
            old(self).wf(),
            other.wf(),
        ensures
            final(self).wf(),
            removed.wf(),
            forall|y: u32| removed@.contains(y) <==> old(self)@.contains(y) && other@.contains(y),
            forall|y: u32|
                final(self)@.contains(y) <==> old(self)@.contains(y) && !other@.contains(y),
            removed.set().union(final(self).set()) == old(self).set(),
            removed.set().intersect(final(self).set()) == Set::<u32>::empty(),
    {
        let n = self.elems.len();
        let mut keep: Vec<u32> = Vec::new();
        let mut removed: Vec<u32> = Vec::new();
        let mut i: usize = 0;
        while i < n
            invariant
                i <= n,
                n == self@.len(),
                self.wf(),
                other.wf(),
                self@ == old(self)@,
                forall|a: int, b: int| 0 <= a < b < keep@.len() ==> keep@[a] < keep@[b],
                forall|a: int, b: int|
                    0 <= a < b < removed@.len() ==> removed@[a] < removed@[b],
                forall|y: u32|
                    keep@.contains(y) <==> self@.take(i as int).contains(y)
                        && !other@.contains(y),
                forall|y: u32|
                    removed@.contains(y) <==> self@.take(i as int).contains(y)
                        && other@.contains(y),
            decreases n - i,
        {
            let x = self.elems[i];
            proof {
                lemma_take_snoc_contains(self@, i as int);
                assert forall|a: int| 0 <= a < keep@.len() implies self@.take(i as int).contains(
                    #[trigger] keep@[a],
                ) by {
                    assert(keep@.contains(keep@[a]));
                }
                assert forall|a: int| 0 <= a < removed@.len() implies self@.take(
                    i as int,
                ).contains(#[trigger] removed@[a]) by {
                    assert(removed@.contains(removed@[a]));
                }
            }
            if other.contains(x) {
                proof {
                    lemma_collect_step(removed@, self@, i as int, x);
                    lemma_push_contains(removed@, x);
                }
                removed.push(x);
            } else {
                proof {
                    lemma_collect_step(keep@, self@, i as int, x);
                    lemma_push_contains(keep@, x);
                }
                keep.push(x);
            }
            i = i + 1;
        }
        proof {
            assert(self@.take(n as int) =~= self@);
        }
        let r = Splinter { elems: removed };
        self.elems = keep;
        proof {
            assert(r.set().union(self.set()) =~= old(self).set());
            assert(r.set().intersect(self.set()) =~= Set::<u32>::empty());
        }
        r
    }

    /// The union of two offset sets.
    pub fn union(&self, other: &Splinter) -> (r: Splinter)
        requires
            self.wf(),
            other.wf(),
        ensures
            r.wf(),
            forall|y: u32| r@.contains(y) <==> self@.contains(y) || other@.contains(y),
            r.set() == self.set().union(other.set()),
    {
        let mut out = self.clone_splinter();
        let n = other.elems.len();
        let mut i: usize = 0;
        while i < n
            invariant
                i <= n,
                n == other@.len(),
                out.wf(),
                forall|y: u32|
                    out@.contains(y) <==> self@.contains(y) || (exists|j: int|
                        0 <= j < i && other@[j] == y),
            decreases n - i,
        {
            out.insert(other.elems[i]);
            i = i + 1;
        }
        proof {
            assert(forall|y: u32| out@.contains(y) <==> self@.contains(y) || other@.contains(y));
            assert(out.set() =~= self.set().union(other.set()));
        }
        out
    }

    fn clone_splinter(&self) -> (r: Splinter)
        ensures
            r@ == self@,
    {
        Splinter { elems: self.elems.clone() }
    }

    /// Serializes the set: a 4-byte little-endian cardinality, then each
    /// offset as a 4-byte little-endian field, ascending.
    pub fn serialize(&self) -> (r: Vec<u8>)
        requires
            self.wf(),
            self@.len() <= 0xFFFF_FFFF,
        ensures
            r@ == serialize_spec(self@),
            parse_spec(r@) == Some(self@),
    {
        let n = self.elems.len();
        let mut out: Vec<u8> = Vec::new();
        push_le_bytes(&mut out, n as u64, 4);
        let mut i: usize = 0;
        while i < n
            invariant
                i <= n,
                n == self@.len(),
                n <= 0xFFFF_FFFF,
                self.wf(),
                out@ =~= le_bytes(n as int, 4) + payload_bytes(self@.take(i as int)),
                out@.len() == 4 + 4 * i,
            decreases n - i,
        {
            proof {
                lemma_payload_len(self@.take(i as int));
            }
            push_le_bytes(&mut out, self.elems[i] as u64, 4);
            proof {
                lemma_payload_snoc(self@, i as int);
            }
            i = i + 1;
        }
        proof {
            assert(self@.take(n as int) =~= self@);
            lemma_splinter_roundtrip(self@);
        }
        out
    }

    /// Parses an offset set, rejecting misformatted or unordered input.
    pub fn parse(bytes: &[u8]) -> (r: Result<Splinter, DecodeErr>)
        ensures
            r matches Ok(s) ==> parse_spec(bytes@) == Some(s@) && s.wf(),
            r is Err <==> parse_spec(bytes@) is None,
    {
        if bytes.len() < 4 {
            return Err(DecodeErr::TooSmall);
        }
        let count = read_le_u32(bytes, 0);
        let rest = bytes.len() - 4;
        proof {
            crate::codec::lemma_le_val_bound(bytes@.subrange(0, 4));
            assert(vstd::arithmetic::power::pow(256, 4) == 0x1_0000_0000) by {
                reveal_with_fuel(vstd::arithmetic::power::pow, 5);
            }
        }
        if rest % 4 != 0 || rest / 4 != count as usize {
            proof {
                if bytes@.len() == 4 + 4 * le_val(bytes@.subrange(0, 4)) {
                    assert((bytes@.len() - 4) % 4 == 0);
                }
            }
            return Err(DecodeErr::WrongLength);
        }
        let n = count as usize;
        let ghost payload = bytes@.skip(4);
        proof {
            assert(payload.len() % 4 == 0);
            lemma_decode_payload_len(payload);
        }
        let mut elems: Vec<u32> = Vec::new();
        let mut i: usize = 0;
        while i < n
            invariant
                i <= n,
                4 + 4 * n <= usize::MAX,
                bytes@.len() == 4 + 4 * n,
                payload == bytes@.skip(4),
                payload.len() == 4 * n,
                payload.len() % 4 == 0,
                decode_payload(payload).len() == n,
                elems@.len() == i,
                forall|j: int| 0 <= j < i ==> elems@[j] == decode_payload(payload)[j],
                forall|a: int, b: int| 0 <= a < b < i ==> elems@[a] < elems@[b],
            decreases n - i,
        {
            let v = read_le_u32(bytes, 4 + 4 * i);
            proof {
                lemma_decode_payload_index(payload, i as int);
                assert(payload.subrange(4 * i, 4 * i + 4) =~= bytes@.subrange(
                    4 + 4 * i,
                    4 + 4 * i + 4,
                ));
            }
            if i > 0 {
                let prev = elems[i - 1];
                if prev >= v {
                    proof {
                        assert(decode_payload(payload)[i - 1] >= decode_payload(
                            payload,
                        )[i as int]);
                    }
                    return Err(DecodeErr::OutOfOrder);
                }
            }
            elems.push(v);
            i = i + 1;
        }
        proof {
            assert(elems@ =~= decode_payload(payload));
        }
        Ok(Splinter { elems })
    }
}

/// Appending one offset to the payload appends its field.
proof fn lemma_payload_snoc(s: Seq<u32>, i: int)
    requires
        0 <= i < s.len(),
    ensures
        payload_bytes(s.take(i + 1)) == payload_bytes(s.take(i)) + le_bytes(s[i] as int, 4),
    decreases i,
{
    if i == 0 {
        assert(s.take(1).skip(1) =~= Seq::<u32>::empty());
        assert(s.take(0) =~= Seq::<u32>::empty());
        assert(payload_bytes(Seq::<u32>::empty()) == Seq::<u8>::empty());
        assert(s.take(1)[0] == s[0]);
        assert(payload_bytes(s.take(1)) =~= payload_bytes(s.take(0)) + le_bytes(s[0] as int, 4));
    } else {
        lemma_payload_snoc(s.skip(1), i - 1);
        assert(s.take(i + 1).skip(1) =~= s.skip(1).take(i));
        assert(s.take(i).skip(1) =~= s.skip(1).take(i - 1));
        assert(s.take(i + 1)[0] == s[0]);
        assert(s.take(i)[0] == s[0]);
        assert(s.skip(1)[i - 1] == s[i]);
        assert(payload_bytes(s.take(i + 1)) =~= payload_bytes(s.take(i)) + le_bytes(
            s[i] as int,
            4,
        ));
    }
}

/// Membership after a push: the old members plus the pushed element.
proof fn lemma_push_contains(c: Seq<u32>, x: u32)
    ensures
        forall|y: u32| c.push(x).contains(y) <==> c.contains(y) || y == x,
{
    assert forall|y: u32| c.push(x).contains(y) <==> c.contains(y) || y == x by {
        if c.push(x).contains(y) {
            let j = choose|j: int| 0 <= j < c.push(x).len() && #[trigger] c.push(x)[j] == y;
            if j < c.len() {
                assert(c[j] == y);
                assert(c.contains(y));
            }
        }
        if c.contains(y) {
            let j = choose|j: int| 0 <= j < c.len() && c[j] == y;
            assert(c.push(x)[j] == y);
            assert(c.push(x).contains(y));
        }
        if y == x {
            assert(c.push(x)[c.len() as int] == x);
            assert(c.push(x).contains(y));
        }
    }
}

/// Membership in one more element of a prefix.
proof fn lemma_take_snoc_contains(s: Seq<u32>, i: int)
    requires
        0 <= i < s.len(),
    ensures
        forall|y: u32| s.take(i + 1).contains(y) <==> s.take(i).contains(y) || y == s[i],
{
    assert forall|y: u32| s.take(i + 1).contains(y) <==> s.take(i).contains(y) || y == s[i] by {
        if s.take(i + 1).contains(y) {
            let j = choose|j: int| 0 <= j < s.take(i + 1).len() && #[trigger] s.take(i + 1)[j] == y;
            if j < i {
                assert(s.take(i)[j] == y);
                assert(s.take(i).contains(y));
            }
        }
        if s.take(i).contains(y) {
            let j = choose|j: int| 0 <= j < s.take(i).len() && #[trigger] s.take(i)[j] == y;
            assert(s.take(i + 1)[j] == y);
            assert(s.take(i + 1).contains(y));
        }
        if y == s[i] {
            assert(s.take(i + 1)[i] == s[i]);
            assert(s.take(i + 1).contains(y));
        }
    }
}

/// In a strictly sorted list, collecting entry `i` after elements drawn
/// from the first `i` entries keeps the collection strictly sorted and
/// drawn from the first `i + 1` entries.
proof fn lemma_collect_step(collected: Seq<u32>, s: Seq<u32>, i: int, x: u32)
    requires
        strictly_sorted(s),
        0 <= i < s.len(),
        s[i] == x,
        forall|a: int|
            0 <= a < collected.len() ==> s.take(i).contains(#[trigger] collected[a]),
        forall|a: int, b: int|
            0 <= a < b < collected.len() ==> collected[a] < collected[b],
    ensures
        forall|a: int, b: int|
            0 <= a < b < collected.push(x).len() ==> collected.push(x)[a] < collected.push(x)[b],
        forall|a: int|
            0 <= a < collected.push(x).len() ==> s.take(i + 1).contains(
                #[trigger] collected.push(x)[a],
            ),
{
    let c = collected.push(x);
    assert forall|a: int, b: int| 0 <= a < b < c.len() implies c[a] < c[b] by {
        if b == c.len() - 1 {
            let j = choose|j: int| 0 <= j < s.take(i).len() && s.take(i)[j] == collected[a];
            assert(s[j] < s[i]);
        }
    }
    assert forall|a: int| 0 <= a < c.len() implies s.take(i + 1).contains(#[trigger] c[a]) by {
        if a < c.len() - 1 {
            let j = choose|j: int| 0 <= j < s.take(i).len() && s.take(i)[j] == collected[a];
            assert(s.take(i + 1)[j] == c[a]);
        } else {
            assert(s.take(i + 1)[i] == x);
        }
    }
}

/// What was drawn from the first `i` entries was also drawn from the
/// first `i + 1`.
proof fn lemma_collect_mono(collected: Seq<u32>, s: Seq<u32>, i: int)
    requires
        0 <= i < s.len(),
        forall|a: int|
            0 <= a < collected.len() ==> s.take(i).contains(#[trigger] collected[a]),
    ensures
        forall|a: int|
            0 <= a < collected.len() ==> s.take(i + 1).contains(#[trigger] collected[a]),
{
    assert forall|a: int| 0 <= a < collected.len() implies s.take(i + 1).contains(
        #[trigger] collected[a],
    ) by {
        let j = choose|j: int| 0 <= j < s.take(i).len() && s.take(i)[j] == collected[a];
        assert(s.take(i + 1)[j] == collected[a]);
    }
}

} // verus!
