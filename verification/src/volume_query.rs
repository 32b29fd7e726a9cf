//! Aggregation of a raw key-value scan into one `VolumeState` per
//! volume. The underlying scan returns the volume-state key family in
//! ascending key order, so all records of one volume are adjacent; the
//! iterator accumulates them and emits a state whenever the identifier
//! changes. It is fused: after the last state it keeps returning
//! nothing.

use vstd::prelude::*;
use crate::codec::{lex_le, lex_lt, lemma_lex_connected, lemma_lex_irreflexive,
    lemma_lex_transitive};
use crate::volume_state::{StorageErr, VolumeState, VolumeStateKey, VolumeStateTag, parse_config,
    parse_status, parse_snapshot, parse_watermarks, tag_byte};

verus! {

/// The view of a scanned key-value list.
pub open spec fn kv_view(v: Seq<(Vec<u8>, Vec<u8>)>) -> Seq<(Seq<u8>, Seq<u8>)> {
    Seq::new(v.len(), |i: int| (v[i].0@, v[i].1@))
}

/// The volume identifier of a scanned entry: the first 16 key bytes.
pub open spec fn entry_vid(e: (Seq<u8>, Seq<u8>)) -> Seq<u8> {
    e.0.take(16)
}

/// The tag a key byte announces.
pub open spec fn tag_of_byte(b: u8) -> VolumeStateTag {
    if b == 1 {
        VolumeStateTag::Config
    } else if b == 2 {
        VolumeStateTag::Status
    } else if b == 3 {
        VolumeStateTag::Snapshot
    } else {
        VolumeStateTag::Watermarks
    }
}

/// The record tag of a scanned entry: the 17th key byte.
pub open spec fn entry_tag(e: (Seq<u8>, Seq<u8>)) -> VolumeStateTag {
    tag_of_byte(e.0[16])
}

/// Whether the entry's key is a valid volume-state key.
pub open spec fn entry_key_ok(e: (Seq<u8>, Seq<u8>)) -> bool {
    e.0.len() == 17 && 1 <= e.0[16] <= 4
}

/// Whether the entry's value parses as the record its tag announces.
pub open spec fn entry_value_ok(e: (Seq<u8>, Seq<u8>)) -> bool {
    match entry_tag(e) {
        VolumeStateTag::Config => parse_config(e.1) is Some,
        VolumeStateTag::Status => parse_status(e.1) is Some,
        VolumeStateTag::Snapshot => parse_snapshot(e.1) is Some,
        VolumeStateTag::Watermarks => parse_watermarks(e.1) is Some,
    }
}

/// What the iterator assumes of the scan it consumes: every entry is a
/// valid state record, keys come in ascending volume order, and no
/// (volume, tag) pair repeats.
pub open spec fn scan_wf(es: Seq<(Seq<u8>, Seq<u8>)>) -> bool {
    &&& forall|i: int| 0 <= i < es.len() ==> entry_key_ok(#[trigger] es[i])
    &&& forall|i: int| 0 <= i < es.len() ==> entry_value_ok(#[trigger] es[i])
    &&& forall|i: int, j: int|
        0 <= i < j < es.len() ==> lex_le(entry_vid(#[trigger] es[i]), entry_vid(#[trigger] es[j]))
    &&& forall|i: int, j: int|
        0 <= i < j < es.len() ==> !(entry_vid(#[trigger] es[i]) == entry_vid(#[trigger] es[j])
            && entry_tag(es[i]) == entry_tag(es[j]))
}

/// The volume identifiers of the scanned entries, in scan order.
pub open spec fn vids_of(es: Seq<(Seq<u8>, Seq<u8>)>) -> Seq<Seq<u8>> {
    Seq::new(es.len(), |i: int| entry_vid(es[i]))
}

/// Collapses adjacent duplicates: the distinct volume identifiers of an
/// ascending scan, in order.
pub open spec fn dedup(s: Seq<Seq<u8>>) -> Seq<Seq<u8>>
    decreases s.len(),
{
    if s.len() == 0 {
        Seq::empty()
    } else if s.len() == 1 {
        s
    } else if s[s.len() - 2] == s[s.len() - 1] {
        dedup(s.drop_last())
    } else {
        dedup(s.drop_last()).push(s.last())
    }
}

/// On an ascending list, deduplication yields a strictly ascending
/// list ending in the input's last element.
pub proof fn lemma_dedup_props(s: Seq<Seq<u8>>)
    requires
        forall|i: int, j: int| 0 <= i < j < s.len() ==> lex_le(#[trigger] s[i], #[trigger] s[j]),
    ensures
        forall|i: int, j: int|
            0 <= i < j < dedup(s).len() ==> lex_lt(#[trigger] dedup(s)[i], #[trigger] dedup(s)[j]),
        s.len() > 0 ==> dedup(s).len() >= 1 && dedup(s).last() == s.last(),
        s.len() == 0 ==> dedup(s).len() == 0,
    decreases s.len(),
{
    if s.len() <= 1 {
    } else {
        let d = s.drop_last();
        assert(forall|i: int, j: int|
            0 <= i < j < d.len() ==> lex_le(#[trigger] d[i], #[trigger] d[j]));
        lemma_dedup_props(d);
        if s[s.len() - 2] == s[s.len() - 1] {
        } else {
            let dd = dedup(d);
            assert(lex_le(s[s.len() - 2], s[s.len() - 1]));
            assert(lex_lt(dd.last(), s.last())) by {
                if !lex_lt(s[s.len() - 2], s[s.len() - 1]) {
                    lemma_lex_connected(s[s.len() - 2], s[s.len() - 1]);
                }
            }
            let r = dd.push(s.last());
            assert forall|i: int, j: int| 0 <= i < j < r.len() implies lex_lt(
                #[trigger] r[i],
                #[trigger] r[j],
            ) by {
                if j < r.len() - 1 {
                } else {
                    // j is the pushed element
                    if i < dd.len() - 1 {
                        lemma_lex_transitive(dd[i], dd.last(), s.last());
                    }
                }
            }
        }
    }
}

/// Deduplicating a prefix of an ascending list yields a prefix of the
/// deduplicated whole.
pub proof fn lemma_dedup_prefix(s: Seq<Seq<u8>>, i: int)
    requires
        forall|x: int, y: int| 0 <= x < y < s.len() ==> lex_le(#[trigger] s[x], #[trigger] s[y]),
        0 <= i <= s.len(),
    ensures
        dedup(s.take(i)).len() <= dedup(s).len(),
        dedup(s.take(i)) == dedup(s).take(dedup(s.take(i)).len() as int),
    decreases s.len() - i,
{
    if i == s.len() {
        assert(s.take(i) =~= s);
        assert(dedup(s) =~= dedup(s).take(dedup(s).len() as int));
    } else {
        // s.take(i) is also a prefix of s.take(i + 1); chain through it.
        let t1 = s.take(i + 1);
        assert(forall|x: int, y: int|
            0 <= x < y < t1.len() ==> lex_le(#[trigger] t1[x], #[trigger] t1[y]));
        assert(t1.drop_last() =~= s.take(i));
        lemma_dedup_prefix(s, i + 1);
        if i == 0 {
            assert(dedup(s.take(0)).len() == 0);
            assert(dedup(s.take(0)) =~= dedup(s).take(0));
        } else if t1[t1.len() - 2] == t1[t1.len() - 1] {
            assert(dedup(t1) == dedup(s.take(i)));
        } else {
            assert(dedup(t1) == dedup(s.take(i)).push(t1.last()));
            assert(dedup(s.take(i)) =~= dedup(t1).take(dedup(t1).len() - 1));
            assert(dedup(t1).take(dedup(t1).len() - 1) =~= dedup(s).take(
                dedup(s.take(i)).len() as int,
            ));
        }
    }
}

/// The emitted schedule of a well-formed scan is strictly ascending:
/// together with `next_inner`'s contract — each emitted state takes the
/// next slot of the deduplicated identifier list, and an exhausted
/// iterator stays exhausted — the aggregation yields volumes in strictly
/// ascending identifier order, each exactly once, and is fused.
pub proof fn lemma_query_schedule_ascending(es: Seq<(Seq<u8>, Seq<u8>)>)
    requires
        scan_wf(es),
    ensures
        forall|i: int, j: int|
            0 <= i < j < dedup(vids_of(es)).len() ==> lex_lt(
                #[trigger] dedup(vids_of(es))[i],
                #[trigger] dedup(vids_of(es))[j],
            ),
{
    lemma_dedup_props(vids_of(es));
}

/// The value stored for `(vid, tag)`, if the scan holds one: the last
/// matching entry decides (with unique keys there is at most one).
pub open spec fn find_value(
    es: Seq<(Seq<u8>, Seq<u8>)>,
    vid: Seq<u8>,
    tag: VolumeStateTag,
) -> Option<Seq<u8>>
    decreases es.len(),
{
    if es.len() == 0 {
        None
    } else if entry_vid(es.last()) == vid && entry_tag(es.last()) == tag {
        Some(es.last().1)
    } else {
        find_value(es.drop_last(), vid, tag)
    }
}

/// A scan without any entry of `vid` stores nothing for it.
pub proof fn lemma_find_value_none(es: Seq<(Seq<u8>, Seq<u8>)>, vid: Seq<u8>, tag: VolumeStateTag)
    requires
        forall|j: int| 0 <= j < es.len() ==> entry_vid(#[trigger] es[j]) != vid,
    ensures
        find_value(es, vid, tag) is None,
    decreases es.len(),
{
    if es.len() > 0 {
        lemma_find_value_none(es.drop_last(), vid, tag);
    }
}

/// Entries at or past `p` that do not belong to `vid` do not change what
/// the scan stores for `vid`.
pub proof fn lemma_find_value_extend(
    es: Seq<(Seq<u8>, Seq<u8>)>,
    p: int,
    vid: Seq<u8>,
    tag: VolumeStateTag,
)
    requires
        0 <= p <= es.len(),
        forall|j: int| p <= j < es.len() ==> entry_vid(#[trigger] es[j]) != vid,
    ensures
        find_value(es, vid, tag) == find_value(es.take(p), vid, tag),
    decreases es.len() - p,
{
    if p == es.len() {
        assert(es.take(p) =~= es);
    } else {
        let d = es.drop_last();
        assert(d.take(p) =~= es.take(p));
        lemma_find_value_extend(d, p, vid, tag);
    }
}

/// Whether `c` is exactly the state that the scan `es` stores for the
/// volume `vid`.
pub open spec fn state_matches(c: VolumeState, es: Seq<(Seq<u8>, Seq<u8>)>, vid: Seq<u8>) -> bool {
    &&& c.vid@ == vid
    &&& match find_value(es, vid, VolumeStateTag::Config) {
        None => c.config is None,
        Some(b) => c.config == parse_config(b),
    }
    &&& match find_value(es, vid, VolumeStateTag::Status) {
        None => c.status is None,
        Some(b) => c.status == parse_status(b),
    }
    &&& match find_value(es, vid, VolumeStateTag::Snapshot) {
        None => c.snapshot is None,
        Some(b) => c.snapshot == parse_snapshot(b),
    }
    &&& match find_value(es, vid, VolumeStateTag::Watermarks) {
        None => c.watermarks is None,
        Some(b) => c.watermarks == parse_watermarks(b),
    }
}

/// Aggregates an ascending volume-state scan into one `VolumeState` per
/// distinct volume identifier.
pub struct VolumeQueryIter {
    pub input: Vec<(Vec<u8>, Vec<u8>)>,
    pub pos: usize,
    pub current: Option<VolumeState>,
}

impl VolumeQueryIter {
    /// The scanned entries the iterator consumes.
    pub open spec fn entries(&self) -> Seq<(Seq<u8>, Seq<u8>)> {
        kv_view(self.input@)
    }

    /// The identifiers of the states emitted so far, in emission order.
    pub open spec fn emitted(&self) -> Seq<Seq<u8>> {
        if self.current is Some {
            dedup(vids_of(self.entries().take(self.pos as int))).drop_last()
        } else if self.pos == 0 {
            Seq::empty()
        } else {
            dedup(vids_of(self.entries().take(self.pos as int)))
        }
    }

    /// The iterator's invariant.
    pub open spec fn wf(&self) -> bool {
        &&& scan_wf(self.entries())
        &&& self.pos <= self.entries().len()
        &&& self.current is None ==> self.pos == 0 || self.pos == self.entries().len()
        &&& self.current matches Some(c) ==> 0 < self.pos && entry_vid(
            self.entries()[self.pos - 1],
        ) == c.vid@ && state_matches(c, self.entries().take(self.pos as int), c.vid@)
    }

    /// Starts aggregating a scan. The scan must satisfy `scan_wf`.
    pub fn new(input: Vec<(Vec<u8>, Vec<u8>)>) -> (r: Self)
        requires
            scan_wf(kv_view(input@)),
        ensures
            r.wf(),
            r.entries() == kv_view(input@),
            r.emitted() == Seq::<Seq<u8>>::empty(),
            r.pos == 0,
    {
        VolumeQueryIter { input, pos: 0, current: None }
    }

    /// The iterator's position, for contracts.
    pub open spec fn spec_pos(&self) -> int {
        self.pos as int
    }

    /// Emits the state of the next distinct volume of the scan, or
    /// nothing once every volume was emitted. States come in strictly
    /// ascending identifier order, one per distinct identifier, and the
    /// iterator is fused.
    pub fn next_inner(&mut self) -> (r: Result<Option<VolumeState>, StorageErr>)
        requires
            old(self).wf(),
        ensures
            final(self).wf(),
            final(self).entries() == old(self).entries(),
            r is Ok,
            (r == Ok::<Option<VolumeState>, StorageErr>(None::<VolumeState>)) <==> (old(self).emitted()
                == dedup(vids_of(old(self).entries())) && old(self).current is None),
            r == Ok::<Option<VolumeState>, StorageErr>(None::<VolumeState>) ==> final(self).emitted()
                == old(self).emitted() && final(self).current is None,
            r matches Ok(Some(st)) ==> st.vid@
                == dedup(vids_of(old(self).entries()))[old(self).emitted().len() as int]
                && state_matches(st, old(self).entries(), st.vid@)
                && final(self).emitted() == old(self).emitted().push(st.vid@),
    {
        let ghost es = self.entries();
        let len = self.input.len();
        proof {
            lemma_dedup_props(vids_of(es));
        }
        while self.pos < len
            invariant
                self.input@ == old(self).input@,
                es == self.entries(),
                len == self.entries().len(),
                self.wf(),
                self.emitted() == old(self).emitted(),
                old(self).emitted() == dedup(vids_of(es)) && old(self).current is None
                    ==> self.pos >= len && self.current is None,
                old(self).current is Some ==> self.current is Some,
            decreases len - self.pos,
        {
            let ghost pre = *self;
            let p = self.pos;
            let key_bytes = self.input[p].0.clone();
            let val_bytes = self.input[p].1.clone();
            proof {
                assert(key_bytes@ == es[p as int].0);
                assert(val_bytes@ == es[p as int].1);
            }
            let key = match VolumeStateKey::ref_from_bytes(key_bytes.as_slice()) {
                Ok(k) => k,
                Err(e) => {
                    proof {
                        assert(entry_key_ok(es[p as int]));
                        assert(false);
                    }
                    return Err(e);
                },
            };
            proof {
                assert(key.spec_vid() =~= entry_vid(es[p as int]));
                assert(key_bytes@[16] == tag_byte(key.spec_tag()));
                assert(entry_tag(es[p as int]) == key.spec_tag());
            }
            self.pos = p + 1;
            proof {
                assert(es.take(p + 1).drop_last() =~= es.take(p as int));
                assert(vids_of(es.take(p + 1)).drop_last() =~= vids_of(es.take(p as int)));
            }
            match self.current {
                None => {
                    let mut st = VolumeState::new(*key.vid());
                    proof {
                        assert forall|j: int| 0 <= j < es.take(p as int).len() implies entry_vid(
                            #[trigger] es.take(p as int)[j],
                        ) != st.vid@ by {
                            assert(p == 0);
                        }
                        lemma_find_value_none(
                            es.take(p as int),
                            st.vid@,
                            VolumeStateTag::Config,
                        );
                        lemma_find_value_none(
                            es.take(p as int),
                            st.vid@,
                            VolumeStateTag::Status,
                        );
                        lemma_find_value_none(
                            es.take(p as int),
                            st.vid@,
                            VolumeStateTag::Snapshot,
                        );
                        lemma_find_value_none(
                            es.take(p as int),
                            st.vid@,
                            VolumeStateTag::Watermarks,
                        );
                    }
                    let ghost st0 = st;
                    match st.accumulate(key.tag(), val_bytes.as_slice()) {
                        Ok(()) => {},
                        Err(e) => {
                            proof {
                                assert(entry_value_ok(es[p as int]));
                                assert(false);
                            }
                            return Err(e);
                        },
                    }
                    proof {
                        lemma_state_step(st0, st, es, p as int, st.vid@);
                        assert(vids_of(es.take(1)).len() == 1);
                    }
                    self.current = Some(st);
                },
                Some(cur) => {
                    if cur.vid.eq(key.vid()) {
                        let mut st = cur;
                        let ghost st0 = st;
                        match st.accumulate(key.tag(), val_bytes.as_slice()) {
                            Ok(()) => {},
                            Err(e) => {
                                proof {
                                    assert(entry_value_ok(es[p as int]));
                                    assert(false);
                                }
                                return Err(e);
                            },
                        }
                        proof {
                            lemma_state_step(st0, st, es, p as int, st.vid@);
                            assert(vids_of(es.take(p + 1))[p as int] == vids_of(
                                es.take(p + 1),
                            )[p - 1]);
                            assert(dedup(vids_of(es.take(p + 1))) == dedup(
                                vids_of(es.take(p as int)),
                            ));
                        }
                        self.current = Some(st);
                    } else {
                        // The identifier changed: start the next volume's
                        // state and emit the finished one.
                        let mut st = VolumeState::new(*key.vid());
                        proof {
                            assert(lex_le(entry_vid(es[p - 1]), entry_vid(es[p as int])));
                            assert(lex_lt(cur.vid@, st.vid@)) by {
                                if !lex_lt(cur.vid@, st.vid@) {
                                    lemma_lex_connected(cur.vid@, st.vid@);
                                }
                            }
                            assert forall|j: int| 0 <= j < es.take(p as int).len()
                                implies entry_vid(#[trigger] es.take(p as int)[j]) != st.vid@ by {
                                assert(lex_le(entry_vid(es[j]), entry_vid(es[p - 1])));
                                if entry_vid(es[j]) == st.vid@ {
                                    lemma_lex_transitive(cur.vid@, st.vid@, entry_vid(es[p - 1]));
                                    lemma_lex_irreflexive(cur.vid@);
                                    if entry_vid(es[p - 1]) != st.vid@ {
                                        if !lex_lt(st.vid@, entry_vid(es[p - 1])) {
                                            lemma_lex_connected(st.vid@, entry_vid(es[p - 1]));
                                        }
                                        lemma_lex_irreflexive(st.vid@);
                                    }
                                }
                            }
                            lemma_find_value_none(
                                es.take(p as int),
                                st.vid@,
                                VolumeStateTag::Config,
                            );
                            lemma_find_value_none(
                                es.take(p as int),
                                st.vid@,
                                VolumeStateTag::Status,
                            );
                            lemma_find_value_none(
                                es.take(p as int),
                                st.vid@,
                                VolumeStateTag::Snapshot,
                            );
                            lemma_find_value_none(
                                es.take(p as int),
                                st.vid@,
                                VolumeStateTag::Watermarks,
                            );
                        }
                        let ghost st0 = st;
                        match st.accumulate(key.tag(), val_bytes.as_slice()) {
                            Ok(()) => {},
                            Err(e) => {
                                proof {
                                    assert(entry_value_ok(es[p as int]));
                                    assert(false);
                                }
                                return Err(e);
                            },
                        }
                        proof {
                            lemma_state_step(st0, st, es, p as int, st.vid@);
                        }
                        self.current = Some(st);
                        proof {
                            lemma_emit_correct(pre, *self, cur, es, p as int);
                            lemma_dedup_props(vids_of(es));
                        }
                        return Ok(Some(cur));
                    }
                },
            }
        }
        // The scan is exhausted: emit the state in progress, if any.
        let r = self.current;
        self.current = None;
        proof {
            if r is None {
                assert(es.take(self.pos as int) =~= es);
                if self.pos > 0 {
                    assert(vids_of(es.take(self.pos as int)) =~= vids_of(es));
                } else {
                    assert(vids_of(es).len() == 0);
                    assert(dedup(vids_of(es)) =~= Seq::<Seq<u8>>::empty());
                }
            }
            if r is Some {
                let cur = r->Some_0;
                lemma_dedup_props(vids_of(es));
                lemma_dedup_prefix(vids_of(es), self.pos as int);
                assert(vids_of(es.take(self.pos as int)) =~= vids_of(es).take(self.pos as int));
                assert(vids_of(es).take(self.pos as int) =~= vids_of(es));
                assert forall|j: int| self.pos <= j < es.len() implies entry_vid(
                    #[trigger] es[j],
                ) != cur.vid@ by {}
                lemma_find_value_extend(es, self.pos as int, cur.vid@, VolumeStateTag::Config);
                lemma_find_value_extend(es, self.pos as int, cur.vid@, VolumeStateTag::Status);
                lemma_find_value_extend(es, self.pos as int, cur.vid@, VolumeStateTag::Snapshot);
                lemma_find_value_extend(es, self.pos as int, cur.vid@, VolumeStateTag::Watermarks);
                let dv = dedup(vids_of(es));
                assert(cur.vid@ == vids_of(es).last());
                assert(dv.last() == cur.vid@);
                assert(dv.drop_last().push(cur.vid@) =~= dv);
            }
        }
        Ok(r)
    }
}

/// One accumulation step extends the matched prefix by one entry.
proof fn lemma_state_step(
    c0: VolumeState,
    c: VolumeState,
    es: Seq<(Seq<u8>, Seq<u8>)>,
    p: int,
    vid: Seq<u8>,
)
    requires
        0 <= p < es.len(),
        entry_vid(es[p]) == vid,
        entry_key_ok(es[p]),
        state_matches(c0, es.take(p), vid),
        accumulate_matches(c0, c, es[p]),
    ensures
        state_matches(c, es.take(p + 1), vid),
{
    assert(es.take(p + 1).drop_last() =~= es.take(p));
    assert(es.take(p + 1).last() == es[p]);
}

/// How `VolumeState::accumulate` relates the state before and after one
/// entry.
pub open spec fn accumulate_matches(c0: VolumeState, c: VolumeState, e: (Seq<u8>, Seq<u8>)) -> bool {
    &&& c.vid@ == c0.vid@
    &&& Some(c) == crate::volume_state::accumulate_spec(c0, entry_tag(e), e.1)
}

/// Emitting on an identifier change yields exactly the scan's state for
/// the finished volume, and advances the schedule by one.
proof fn lemma_emit_correct(
    pre: VolumeQueryIter,
    post: VolumeQueryIter,
    cur: VolumeState,
    es: Seq<(Seq<u8>, Seq<u8>)>,
    p: int,
)
    requires
        pre.wf(),
        pre.entries() == es,
        post.entries() == es,
        0 < p < es.len(),
        pre.spec_pos() == p,
        post.spec_pos() == p + 1,
        pre.current == Some(cur),
        post.current matches Some(st) && st.vid@ == entry_vid(es[p]),
        entry_vid(es[p]) != cur.vid@,
        state_matches(cur, es.take(p), cur.vid@),
    ensures
        state_matches(cur, es, cur.vid@),
        cur.vid@ == dedup(vids_of(es))[pre.emitted().len() as int],
        post.emitted() == pre.emitted().push(cur.vid@),
{
    let vs = vids_of(es);
    assert forall|j: int| p <= j < es.len() implies entry_vid(#[trigger] es[j]) != cur.vid@ by {
        assert(lex_le(entry_vid(es[p]), entry_vid(es[j])));
        assert(lex_le(entry_vid(es[p - 1]), entry_vid(es[p])));
        assert(lex_lt(cur.vid@, entry_vid(es[p]))) by {
            if !lex_lt(cur.vid@, entry_vid(es[p])) {
                lemma_lex_connected(cur.vid@, entry_vid(es[p]));
            }
        }
        if entry_vid(es[j]) == cur.vid@ {
            if entry_vid(es[j]) == entry_vid(es[p]) {
                lemma_lex_irreflexive(cur.vid@);
            } else {
                if !lex_lt(entry_vid(es[p]), entry_vid(es[j])) {
                    lemma_lex_connected(entry_vid(es[p]), entry_vid(es[j]));
                }
                lemma_lex_transitive(cur.vid@, entry_vid(es[p]), entry_vid(es[j]));
                lemma_lex_irreflexive(cur.vid@);
            }
        }
    }
    lemma_find_value_extend(es, p, cur.vid@, VolumeStateTag::Config);
    lemma_find_value_extend(es, p, cur.vid@, VolumeStateTag::Status);
    lemma_find_value_extend(es, p, cur.vid@, VolumeStateTag::Snapshot);
    lemma_find_value_extend(es, p, cur.vid@, VolumeStateTag::Watermarks);

    // Schedule bookkeeping.
    assert(forall|x: int, y: int|
        0 <= x < y < vs.len() ==> lex_le(#[trigger] vs[x], #[trigger] vs[y]));
    lemma_dedup_props(vs.take(p));
    lemma_dedup_props(vs.take(p + 1));
    assert(vids_of(es.take(p)) =~= vs.take(p));
    assert(vids_of(es.take(p + 1)) =~= vs.take(p + 1));
    assert(vs.take(p + 1).drop_last() =~= vs.take(p));
    assert(forall|x: int, y: int|
        0 <= x < y < vs.take(p).len() ==> lex_le(#[trigger] vs.take(p)[x], #[trigger] vs.take(
            p,
        )[y]));
    // The last two vids of the (p + 1)-prefix differ, so dedup pushes.
    assert(vs.take(p + 1)[p] == entry_vid(es[p]));
    assert(vs.take(p + 1)[p - 1] == entry_vid(es[p - 1]));
    assert(entry_vid(es[p - 1]) == cur.vid@);
    assert(dedup(vs.take(p + 1)) == dedup(vs.take(p)).push(entry_vid(es[p])));
    assert(dedup(vs.take(p)).last() == cur.vid@);
    assert(dedup(vs.take(p)).drop_last().push(cur.vid@) =~= dedup(vs.take(p)));
    assert(post.emitted() == dedup(vs.take(p + 1)).drop_last());
    assert(dedup(vs.take(p + 1)).drop_last() =~= dedup(vs.take(p)));
    // The emitted vid sits at its schedule slot.
    lemma_dedup_prefix(vs, p);
    assert(dedup(vs)[pre.emitted().len() as int] == dedup(vs.take(p)).last());
}

} // verus!
