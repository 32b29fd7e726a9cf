//! Serializes the store's volume-state records into the raw key-value
//! form that the aggregation iterator consumes: the tagged key family
//! of every volume, in ascending key order.

use vstd::prelude::*;
use crate::codec::{lex_lt, lex_le};
use crate::storage::{Storage, VolumeRecord};
use crate::volume_state::{VolumeStateKey, VolumeStateTag, state_key_bytes, tag_byte,
    parse_config, parse_status, parse_snapshot, parse_watermarks, config_bytes, status_byte,
    snapshot_bytes, watermarks_bytes};
use crate::volume_query::{scan_wf, kv_view, entry_vid, entry_tag, entry_key_ok, entry_value_ok,
    find_value, lemma_find_value_none, state_matches};
use crate::volume_state::{lemma_config_roundtrip, lemma_status_roundtrip,
    lemma_watermarks_roundtrip, lemma_snapshot_bytes_parse, snapshot_wf};
use crate::volume_state::VolumeState;

verus! {

/// Whether the scan stores exactly one volume's records: its
/// configuration, status and watermarks under their tags, and its
/// snapshot exactly when one was persisted.
pub open spec fn volume_entries_match(es: Seq<(Seq<u8>, Seq<u8>)>, rec: VolumeRecord) -> bool {
    &&& find_value(es, rec.vid@, VolumeStateTag::Config) == Some(config_bytes(rec.config))
    &&& find_value(es, rec.vid@, VolumeStateTag::Status) == Some(seq![status_byte(rec.status)])
    &&& find_value(es, rec.vid@, VolumeStateTag::Snapshot) == (match rec.snapshot {
        Some(s) => Some(snapshot_bytes(s)),
        None => None::<Seq<u8>>,
    })
    &&& find_value(es, rec.vid@, VolumeStateTag::Watermarks) == Some(
        watermarks_bytes(rec.watermarks),
    )
}

/// Whether entry `k` of the scan belongs to one of the first `n`
/// volumes.
pub open spec fn entry_known(
    es: Seq<(Seq<u8>, Seq<u8>)>,
    k: int,
    volumes: Seq<VolumeRecord>,
    n: int,
) -> bool {
    exists|j: int| 0 <= j < n && entry_vid(es[k]) == (#[trigger] volumes[j]).vid@
}

/// Whether the scan is exactly the serialized state of the given
/// volumes: each volume's records, and no entry of any other volume.
pub open spec fn scan_represents(es: Seq<(Seq<u8>, Seq<u8>)>, volumes: Seq<VolumeRecord>) -> bool {
    &&& forall|i: int|
        0 <= i < volumes.len() ==> volume_entries_match(es, #[trigger] volumes[i])
    &&& forall|k: int| 0 <= k < es.len() ==> entry_known(es, k, volumes, volumes.len() as int)
}

/// Law: aggregating the serialized scan of a store recovers the
/// stored records. A state that the aggregation contract ties to the
/// scan for a stored volume carries exactly that volume's
/// configuration, status, snapshot and watermarks.
pub proof fn lemma_scan_state_exact(
    es: Seq<(Seq<u8>, Seq<u8>)>,
    rec: VolumeRecord,
    c: VolumeState,
)
    requires
        volume_entries_match(es, rec),
        state_matches(c, es, rec.vid@),
        rec.snapshot matches Some(s) ==> snapshot_wf(s),
    ensures
        c.vid@ == rec.vid@,
        c.config == Some(rec.config),
        c.status == Some(rec.status),
        c.snapshot == rec.snapshot,
        c.watermarks == Some(rec.watermarks),
{
    lemma_config_roundtrip(rec.config);
    lemma_status_roundtrip(rec.status);
    lemma_watermarks_roundtrip(rec.watermarks);
    match rec.snapshot {
        Some(s) => {
            lemma_snapshot_bytes_parse(s, crate::volume_state::snapshot_bytes(s));
        },
        None => {},
    }
}

impl Storage {
    /// Serializes the volume-state key family of every volume, in
    /// ascending key order: the scan that `VolumeQueryIter` aggregates
    /// back into one state per volume. The scan holds exactly the
    /// stored records.
    pub fn state_scan(&self) -> (r: Vec<(Vec<u8>, Vec<u8>)>)
        requires
            self.wf(),
        ensures
            scan_wf(kv_view(r@)),
            scan_represents(kv_view(r@), self.volumes@),
    {
        let vn = self.volumes.len();
        let mut out: Vec<(Vec<u8>, Vec<u8>)> = Vec::new();
        let mut i: usize = 0;
        while i < vn
            invariant
                i <= vn,
                vn == self.volumes@.len(),
                self.wf(),
                scan_wf(kv_view(out@)),
                forall|jj: int|
                    0 <= jj < i ==> volume_entries_match(kv_view(out@), #[trigger] self.volumes@[jj]),
                forall|k: int|
                    0 <= k < out@.len() ==> #[trigger] entry_known(
                        kv_view(out@),
                        k,
                        self.volumes@,
                        i as int,
                    ),
            decreases vn - i,
        {
            let rec = &self.volumes[i];
            let ghost vid = rec.vid@;
            let ghost out0 = kv_view(out@);
            proof {
                crate::gid::VolumeId::lemma_len(&rec.vid);
                // Every existing entry's volume sorts strictly before
                // this one, so no existing entry belongs to it.
                assert forall|k: int| 0 <= k < out0.len() implies lex_le(
                    entry_vid(#[trigger] out0[k]),
                    vid,
                ) && entry_vid(out0[k]) != vid by {
                    assert(entry_known(out0, k, self.volumes@, i as int));
                    let j = choose|j: int|
                        0 <= j < i && entry_vid(out0[k]) == (#[trigger] self.volumes@[j]).vid@;
                    assert(lex_lt(self.volumes@[j].vid@, self.volumes@[i as int].vid@));
                    if entry_vid(out0[k]) == vid {
                        crate::codec::lemma_lex_irreflexive(vid);
                    }
                }
                // This volume has no entries yet.
                lemma_find_value_none(out0, vid, VolumeStateTag::Config);
                lemma_find_value_none(out0, vid, VolumeStateTag::Status);
                lemma_find_value_none(out0, vid, VolumeStateTag::Snapshot);
                lemma_find_value_none(out0, vid, VolumeStateTag::Watermarks);
                // Existing entries also belong to the first i + 1 volumes.
                assert forall|k: int| 0 <= k < out0.len() implies #[trigger] entry_known(
                    out0,
                    k,
                    self.volumes@,
                    i + 1,
                ) by {
                    assert(entry_known(out0, k, self.volumes@, i as int));
                    let j = choose|j: int|
                        0 <= j < i && entry_vid(out0[k]) == (#[trigger] self.volumes@[j]).vid@;
                    assert(0 <= j < i + 1 && entry_vid(out0[k]) == (
                    #[trigger] self.volumes@[j]).vid@);
                }
                // Earlier volumes are untouched by this volume's pushes.
                assert forall|jj: int| 0 <= jj < i implies self.volumes@[jj].vid@ != vid by {
                    assert(lex_lt(self.volumes@[jj].vid@, self.volumes@[i as int].vid@));
                    if self.volumes@[jj].vid@ == vid {
                        crate::codec::lemma_lex_irreflexive(vid);
                    }
                }
            }
            // The config record.
            let key = VolumeStateKey::new(rec.vid, VolumeStateTag::Config);
            let kb = key.to_bytes();
            let vb = rec.config.to_bytes();
            push_entry(&mut out, kb, vb, Ghost(vid), Ghost(VolumeStateTag::Config), Ghost(i as int), self);
            // The status record.
            let key = VolumeStateKey::new(rec.vid, VolumeStateTag::Status);
            let kb = key.to_bytes();
            let vb = rec.status.to_bytes();
            push_entry(&mut out, kb, vb, Ghost(vid), Ghost(VolumeStateTag::Status), Ghost(i as int), self);
            // The snapshot record, when one was persisted.
            match &rec.snapshot {
                Some(s) => {
                    proof {
                        crate::storage::lemma_find_idx(self.volumes@, vid);
                        assert(crate::storage::record_wf(self.volumes@[i as int]));
                    }
                    let key = VolumeStateKey::new(rec.vid, VolumeStateTag::Snapshot);
                    let kb = key.to_bytes();
                    let vb = s.to_bytes();
                    push_entry(&mut out, kb, vb, Ghost(vid), Ghost(VolumeStateTag::Snapshot), Ghost(i as int), self);
                },
                None => {},
            }
            // The watermarks record.
            let key = VolumeStateKey::new(rec.vid, VolumeStateTag::Watermarks);
            let kb = key.to_bytes();
            let vb = rec.watermarks.to_bytes();
            push_entry(&mut out, kb, vb, Ghost(vid), Ghost(VolumeStateTag::Watermarks), Ghost(i as int), self);
            proof {
                assert(volume_entries_match(kv_view(out@), self.volumes@[i as int]));
            }
            i = i + 1;
            proof {
                assert forall|k: int| 0 <= k < out@.len() implies #[trigger] entry_known(
                    kv_view(out@),
                    k,
                    self.volumes@,
                    i as int,
                ) by {}
            }
        }
        proof {
            assert(i as int == self.volumes@.len() as int);
        }
        out
    }
}

/// Appends one serialized state record, keeping the scan well formed.
/// The key must sort after every present key, and the value must parse
/// as the record its tag announces.
fn push_entry(
    out: &mut Vec<(Vec<u8>, Vec<u8>)>,
    kb: Vec<u8>,
    vb: Vec<u8>,
    Ghost(vid): Ghost<Seq<u8>>,
    Ghost(tag): Ghost<VolumeStateTag>,
    Ghost(volidx): Ghost<int>,
    st: &Storage,
)
    requires
        scan_wf(kv_view(old(out)@)),
        st.wf(),
        0 <= volidx < st.volumes@.len(),
        vid == st.volumes@[volidx].vid@,
        vid.len() == 16,
        kb@ == state_key_bytes(vid, tag),
        match tag {
            VolumeStateTag::Config => parse_config(vb@) is Some,
            VolumeStateTag::Status => parse_status(vb@) is Some,
            VolumeStateTag::Snapshot => parse_snapshot(vb@) is Some,
            VolumeStateTag::Watermarks => parse_watermarks(vb@) is Some,
        },
        forall|k: int|
            0 <= k < kv_view(old(out)@).len() ==> lex_le(
                entry_vid(#[trigger] kv_view(old(out)@)[k]),
                vid,
            ) && (entry_vid(kv_view(old(out)@)[k]) == vid ==> tag_byte(
                entry_tag(kv_view(old(out)@)[k]),
            ) < tag_byte(tag)),
        forall|k: int|
            0 <= k < kv_view(old(out)@).len() ==> #[trigger] entry_known(
                kv_view(old(out)@),
                k,
                st.volumes@,
                volidx + 1,
            ),
    ensures
        scan_wf(kv_view(final(out)@)),
        kv_view(final(out)@).len() == kv_view(old(out)@).len() + 1,
        forall|k: int|
            0 <= k < kv_view(old(out)@).len() ==> #[trigger] kv_view(final(out)@)[k] == kv_view(
                old(out)@,
            )[k],
        entry_vid(kv_view(final(out)@)[kv_view(final(out)@).len() - 1]) == vid,
        entry_tag(kv_view(final(out)@)[kv_view(final(out)@).len() - 1]) == tag,
        forall|k: int|
            0 <= k < kv_view(final(out)@).len() ==> lex_le(
                entry_vid(#[trigger] kv_view(final(out)@)[k]),
                vid,
            ) && (entry_vid(kv_view(final(out)@)[k]) == vid ==> tag_byte(
                entry_tag(kv_view(final(out)@)[k]),
            ) <= tag_byte(tag)),
        forall|k: int|
            0 <= k < kv_view(final(out)@).len() ==> #[trigger] entry_known(
                kv_view(final(out)@),
                k,
                st.volumes@,
                volidx + 1,
            ),
        find_value(kv_view(final(out)@), vid, tag) == Some(vb@),
        forall|v: Seq<u8>, t: VolumeStateTag|
            !(v == vid && t == tag) ==> #[trigger] find_value(kv_view(final(out)@), v, t)
                == find_value(kv_view(old(out)@), v, t),
{
    let ghost pre = kv_view(out@);
    out.push((kb, vb));
    proof {
        let post = kv_view(out@);
        assert(post.len() == pre.len() + 1);
        assert forall|k: int| 0 <= k < pre.len() implies #[trigger] post[k] == pre[k] by {}
        let e = post[post.len() - 1];
        assert(e.0 == state_key_bytes(vid, tag));
        assert(entry_vid(e) =~= vid);
        assert(e.0[16] == tag_byte(tag));
        assert(entry_key_ok(e));
        assert(entry_tag(e) == tag);
        assert(entry_value_ok(e));
        assert forall|a: int, b: int| 0 <= a < b < post.len() implies lex_le(
            entry_vid(#[trigger] post[a]),
            entry_vid(#[trigger] post[b]),
        ) by {
            if b == post.len() - 1 {
                assert(lex_le(entry_vid(pre[a]), vid));
            }
        }
        assert forall|a: int, b: int| 0 <= a < b < post.len() implies !(entry_vid(
            #[trigger] post[a],
        ) == entry_vid(#[trigger] post[b]) && entry_tag(post[a]) == entry_tag(post[b])) by {
            if b == post.len() - 1 {
                assert(post[a] == pre[a]);
                if entry_vid(pre[a]) == vid {
                    assert(tag_byte(entry_tag(pre[a])) < tag_byte(tag));
                }
            }
        }
        assert(scan_wf(post));
        assert forall|k: int| 0 <= k < post.len() implies lex_le(
            entry_vid(#[trigger] post[k]),
            vid,
        ) && (entry_vid(post[k]) == vid ==> tag_byte(entry_tag(post[k])) <= tag_byte(tag)) by {
            if k < post.len() - 1 {
                assert(post[k] == pre[k]);
            }
        }
        assert forall|k: int| 0 <= k < post.len() implies #[trigger] entry_known(
            post,
            k,
            st.volumes@,
            volidx + 1,
        ) by {
            if k == post.len() - 1 {
                assert(entry_vid(post[k]) == (#[trigger] st.volumes@[volidx]).vid@);
            } else {
                assert(entry_known(pre, k, st.volumes@, volidx + 1));
                let j = choose|j: int|
                    0 <= j < volidx + 1 && entry_vid(pre[k]) == (#[trigger] st.volumes@[j]).vid@;
                assert(entry_vid(post[k]) == st.volumes@[j].vid@);
            }
        }
        // The pushed record is now stored, and nothing else moved.
        assert(e.1 == vb@);
        assert(find_value(post, vid, tag) == Some(vb@));
        assert(post.drop_last() =~= pre);
        assert forall|v: Seq<u8>, t: VolumeStateTag|
            !(v == vid && t == tag) implies #[trigger] find_value(post, v, t) == find_value(
            pre,
            v,
            t,
        ) by {
            assert(!(entry_vid(e) == v && entry_tag(e) == t));
        }
    }
}

} // verus!
