//! The local store: per-volume state records, materialized pages keyed
//! by `(volume, page index, LSN)`, and the segment index filled by
//! pulls. All mutations happen through `&mut` methods, so each call is
//! one atomic batch; the well-formedness predicate is the cross-record
//! invariant those batches maintain.

use vstd::prelude::*;
use crate::codec::{lex_lt, bytes_lt, lemma_lex_connected, lemma_lex_irreflexive};
use crate::gid::{VolumeId, SegmentId};
use crate::page::Page;
use crate::splinter::Splinter;
use crate::volume_state::{Snapshot, snapshot_wf, RemoteMapping, VolumeConfig, VolumeStatus,
    Watermark, Watermarks, SyncDirection};

verus! {

/// One materialized page: the content of `pageidx` as of commit `lsn`.
pub struct PageRecord {
    pub vid: VolumeId,
    pub pageidx: u32,
    pub lsn: u64,
    pub page: Page,
}

/// One segment-index entry: a remote segment holding the given page
/// offsets for commit `lsn` of the volume.
pub struct SegmentRecord {
    pub vid: VolumeId,
    pub lsn: u64,
    pub sid: SegmentId,
    pub offsets: Splinter,
}

/// The state family of one volume.
#[derive(Clone, Copy, Debug)]
pub struct VolumeRecord {
    pub vid: VolumeId,
    pub config: VolumeConfig,
    pub status: VolumeStatus,
    pub snapshot: Option<Snapshot>,
    pub watermarks: Watermarks,
}

/// The per-volume invariant: the snapshot invariant, and the
/// pending-sync watermark never lies below the local LSN the remote has
/// already acknowledged.
pub open spec fn record_wf(r: VolumeRecord) -> bool {
    &&& r.snapshot matches Some(s) ==> snapshot_wf(s)
    &&& match (r.watermarks.pending_sync, r.snapshot) {
        (Watermark::Mapped { lsn: pending, .. }, Some(s)) => match s.remote {
            RemoteMapping::Mapped { local, .. } => local <= pending,
            RemoteMapping::Unmapped => true,
        },
        _ => true,
    }
}

/// The local store.
pub struct Storage {
    pub volumes: Vec<VolumeRecord>,
    pub pages: Vec<PageRecord>,
    pub segments: Vec<SegmentRecord>,
}

/// Index of the record of `vid`, or a negative value if none exists.
pub open spec fn find_idx(vs: Seq<VolumeRecord>, vid: Seq<u8>) -> int
    decreases vs.len(),
{
    if vs.len() == 0 {
        -1
    } else if vs[0].vid@ == vid {
        0
    } else {
        let r = find_idx(vs.skip(1), vid);
        if r < 0 {
            -1
        } else {
            r + 1
        }
    }
}

/// The record of `vid`, if one exists.
pub open spec fn find_volume(vs: Seq<VolumeRecord>, vid: Seq<u8>) -> Option<VolumeRecord> {
    if find_idx(vs, vid) >= 0 {
        Some(vs[find_idx(vs, vid)])
    } else {
        None
    }
}

pub proof fn lemma_find_idx(vs: Seq<VolumeRecord>, vid: Seq<u8>)
    ensures
        find_idx(vs, vid) >= 0 ==> 0 <= find_idx(vs, vid) < vs.len() && vs[find_idx(
            vs,
            vid,
        )].vid@ == vid,
        find_idx(vs, vid) < 0 ==> forall|i: int| 0 <= i < vs.len() ==> (#[trigger] vs[i]).vid@
            != vid,
    decreases vs.len(),
{
    if vs.len() > 0 && vs[0].vid@ != vid {
        lemma_find_idx(vs.skip(1), vid);
        if find_idx(vs.skip(1), vid) < 0 {
            assert forall|i: int| 0 <= i < vs.len() implies (#[trigger] vs[i]).vid@ != vid by {
                if i > 0 {
                    assert(vs.skip(1)[i - 1] == vs[i]);
                }
            }
        } else {
            assert(vs.skip(1)[find_idx(vs.skip(1), vid)] == vs[find_idx(vs, vid)]);
        }
    }
}

/// The most recent materialized page for `(vid, idx)` at or below
/// `bound`, if one exists.
pub open spec fn best_page(
    pages: Seq<PageRecord>,
    vid: Seq<u8>,
    idx: u32,
    bound: u64,
) -> Option<PageRecord>
    decreases pages.len(),
{
    if pages.len() == 0 {
        None
    } else {
        let rest = best_page(pages.drop_last(), vid, idx, bound);
        let e = pages.last();
        if e.vid@ == vid && e.pageidx == idx && e.lsn <= bound {
            match rest {
                None => Some(e),
                Some(b) => if e.lsn > b.lsn {
                    Some(e)
                } else {
                    Some(b)
                },
            }
        } else {
            rest
        }
    }
}

impl Storage {
    /// The cross-record invariant: volume records are sorted by
    /// identifier and individually well formed; every materialized page
    /// belongs to a known volume and lies within its local history; no
    /// page position repeats.
    pub open spec fn wf(&self) -> bool {
        &&& forall|i: int| 0 <= i < self.volumes@.len() ==> record_wf(#[trigger] self.volumes@[i])
        &&& forall|i: int, j: int|
            0 <= i < j < self.volumes@.len() ==> lex_lt(
                (#[trigger] self.volumes@[i]).vid@,
                (#[trigger] self.volumes@[j]).vid@,
            )
        &&& forall|i: int|
            0 <= i < self.pages@.len() ==> page_linked(self.volumes@, #[trigger] self.pages@[i])
        &&& forall|i: int, j: int|
            0 <= i < j < self.pages@.len() ==> !((#[trigger] self.pages@[i]).vid@
                == (#[trigger] self.pages@[j]).vid@ && self.pages@[i].pageidx
                == self.pages@[j].pageidx && self.pages@[i].lsn == self.pages@[j].lsn)
        &&& forall|i: int| 0 <= i < self.pages@.len() ==> (#[trigger] self.pages@[i]).page.wf()
    }

    /// An empty store.
    pub fn new() -> (r: Storage)
        ensures
            r.wf(),
            r.volumes@.len() == 0,
            r.pages@.len() == 0,
            r.segments@.len() == 0,
    {
        Storage { volumes: Vec::new(), pages: Vec::new(), segments: Vec::new() }
    }

    /// The record of `vid`, if the volume is known.
    pub fn get_volume(&self, vid: &VolumeId) -> (r: Option<VolumeRecord>)
        ensures
            r == find_volume(self.volumes@, vid@),
    {
        let n = self.volumes.len();
        let mut i: usize = 0;
        while i < n
            invariant
                i <= n,
                n == self.volumes@.len(),
                find_idx(self.volumes@, vid@) >= 0 ==> find_idx(self.volumes@, vid@) >= i,
                forall|j: int| 0 <= j < i ==> (#[trigger] self.volumes@[j]).vid@ != vid@,
            decreases n - i,
        {
            proof {
                lemma_find_idx(self.volumes@, vid@);
            }
            if self.volumes[i].vid.eq(vid) {
                proof {
                    lemma_find_idx_at(self.volumes@, vid@, i as int);
                }
                return Some(self.volumes[i]);
            }
            i = i + 1;
        }
        proof {
            lemma_find_idx(self.volumes@, vid@);
            if find_idx(self.volumes@, vid@) >= 0 {
                assert(self.volumes@[find_idx(self.volumes@, vid@)].vid@ == vid@);
            }
        }
        None
    }

    /// The latest persisted snapshot of `vid`.
    pub fn snapshot(&self, vid: &VolumeId) -> (r: Option<Snapshot>)
        ensures
            r == match find_volume(self.volumes@, vid@) {
                Some(rec) => rec.snapshot,
                None => None::<Snapshot>,
            },
    {
        match self.get_volume(vid) {
            Some(rec) => rec.snapshot,
            None => None,
        }
    }

    /// Registers a volume with the given configuration, or replaces the
    /// configuration of a known volume.
    pub fn add_volume(&mut self, vid: &VolumeId, config: VolumeConfig)
        requires
            old(self).wf(),
        ensures
            final(self).wf(),
            final(self).pages@ == old(self).pages@,
            final(self).segments@ == old(self).segments@,
            find_volume(final(self).volumes@, vid@) matches Some(rec) && rec.config == config
                && rec.vid@ == vid@ && rec.snapshot == (match find_volume(
                old(self).volumes@,
                vid@,
            ) {
                Some(o) => o.snapshot,
                None => None::<Snapshot>,
            }) && rec.status == (match find_volume(old(self).volumes@, vid@) {
                Some(o) => o.status,
                None => VolumeStatus::Healthy,
            }) && rec.watermarks == (match find_volume(old(self).volumes@, vid@) {
                Some(o) => o.watermarks,
                None => Watermarks {
                    pending_sync: Watermark::Unmapped,
                    checkpoint: Watermark::Unmapped,
                },
            }),
            forall|v: Seq<u8>|
                v != vid@ ==> #[trigger] find_volume(final(self).volumes@, v) == find_volume(
                    old(self).volumes@,
                    v,
                ),
    {
        let n = self.volumes.len();
        let mut i: usize = 0;
        while i < n && bytes_lt(self.volumes[i].vid.as_bytes().as_slice(), vid.as_bytes().as_slice())
            invariant
                i <= n,
                n == self.volumes@.len(),
                self.wf(),
                *self == *old(self),
                forall|j: int| 0 <= j < i ==> lex_lt((#[trigger] self.volumes@[j]).vid@, vid@),
            decreases n - i,
        {
            i = i + 1;
        }
        if i < n && self.volumes[i].vid.eq(vid) {
            // Known volume: replace the configuration.
            let old_rec = self.volumes[i];
            let rec = VolumeRecord { config, ..old_rec };
            proof {
                assert forall|j: int| 0 <= j < i implies (#[trigger] self.volumes@[j]).vid@
                    != vid@ by {
                    if self.volumes@[j].vid@ == vid@ {
                        lemma_lex_irreflexive(vid@);
                    }
                }
                lemma_find_idx_at(self.volumes@, vid@, i as int);
                assert(record_wf(old(self).volumes@[i as int]));
            }
            self.volumes.set(i, rec);
            proof {
                lemma_update_keeps_find(old(self).volumes@, self.volumes@, i as int);
                lemma_same_find_after_update(old(self).volumes@, self.volumes@, i as int, vid@);
                assert forall|k: int| 0 <= k < self.pages@.len() implies page_linked(
                    self.volumes@,
                    #[trigger] self.pages@[k],
                ) by {
                    assert(page_linked(old(self).volumes@, self.pages@[k]));
                    let v = self.pages@[k].vid@;
                    lemma_find_idx(old(self).volumes@, v);
                    lemma_find_idx(self.volumes@, v);
                }
            }
            return ;
        }
        // New volume: insert in identifier order.
        let rec = VolumeRecord {
            vid: *vid,
            config,
            status: VolumeStatus::Healthy,
            snapshot: None,
            watermarks: Watermarks::default(),
        };
        proof {
            assert forall|j: int| 0 <= j < i implies (#[trigger] self.volumes@[j]).vid@
                != vid@ by {
                if self.volumes@[j].vid@ == vid@ {
                    lemma_lex_irreflexive(vid@);
                }
            }
            if i < n {
                assert(lex_lt(vid@, self.volumes@[i as int].vid@)) by {
                    if !lex_lt(vid@, self.volumes@[i as int].vid@) {
                        lemma_lex_connected(self.volumes@[i as int].vid@, vid@);
                    }
                }
            }
            assert forall|j: int| 0 <= j < self.volumes@.len() implies (
            #[trigger] self.volumes@[j]).vid@ != vid@ by {
                if j >= i && self.volumes@[j].vid@ == vid@ {
                    if j > i {
                        crate::codec::lemma_lex_transitive(
                            vid@,
                            self.volumes@[i as int].vid@,
                            self.volumes@[j].vid@,
                        );
                    }
                    lemma_lex_irreflexive(vid@);
                }
            }
        }
        self.volumes.insert(i, rec);
        proof {
            let s = self.volumes@;
            let o = old(self).volumes@;
            assert forall|a: int, b: int| 0 <= a < b < s.len() implies lex_lt(
                (#[trigger] s[a]).vid@,
                (#[trigger] s[b]).vid@,
            ) by {
                if a < i && b > i {
                    assert(s[a] == o[a] && s[b] == o[b - 1]);
                } else if a < i && b == i {
                } else if a == i {
                    assert(s[b] == o[b - 1]);
                    assert(b - 1 >= i);
                    if b - 1 > i {
                        crate::codec::lemma_lex_transitive(
                            vid@,
                            o[i as int].vid@,
                            o[b - 1].vid@,
                        );
                    }
                } else if b < i {
                } else {
                    assert(s[a] == o[a - 1] && s[b] == o[b - 1]);
                }
            }
            lemma_insert_find(o, s, i as int, rec);
            lemma_find_idx(o, vid@);
            assert(find_volume(o, vid@) is None);
            assert forall|k: int| 0 <= k < self.pages@.len() implies page_linked(
                s,
                #[trigger] self.pages@[k],
            ) by {
                assert(page_linked(o, self.pages@[k]));
                let v = self.pages@[k].vid@;
                lemma_find_idx(o, v);
                if find_idx(o, v) >= 0 {
                    assert(find_volume(s, v) == find_volume(o, v));
                }
            }
        }
    }

    /// Replaces the record of a known volume. The new record must keep
    /// the identifier and the per-volume invariant.
    pub fn set_volume(&mut self, vid: &VolumeId, rec: VolumeRecord)
        requires
            old(self).wf(),
            rec.vid@ == vid@,
            record_wf(rec),
            find_volume(old(self).volumes@, vid@) is Some,
            match find_volume(old(self).volumes@, vid@) {
                Some(o) => match o.snapshot {
                    Some(s0) => rec.snapshot matches Some(s1) && s0.local <= s1.local,
                    None => true,
                },
                None => true,
            },
        ensures
            final(self).wf(),
            final(self).pages@ == old(self).pages@,
            final(self).segments@ == old(self).segments@,
            find_volume(final(self).volumes@, vid@) == Some(rec),
            forall|v: Seq<u8>|
                v != vid@ ==> #[trigger] find_volume(final(self).volumes@, v) == find_volume(
                    old(self).volumes@,
                    v,
                ),
    {
        let n = self.volumes.len();
        let mut i: usize = 0;
        proof {
            lemma_find_idx(self.volumes@, vid@);
        }
        while i < n
            invariant
                i <= n,
                n == self.volumes@.len(),
                self.wf(),
                *self == *old(self),
                rec.vid@ == vid@,
                record_wf(rec),
                match find_volume(old(self).volumes@, vid@) {
                    Some(o) => match o.snapshot {
                        Some(s0) => rec.snapshot matches Some(s1) && s0.local <= s1.local,
                        None => true,
                    },
                    None => true,
                },
                find_idx(self.volumes@, vid@) >= i,
                find_idx(self.volumes@, vid@) < n,
                self.volumes@[find_idx(self.volumes@, vid@)].vid@ == vid@,
                forall|j: int| 0 <= j < i ==> (#[trigger] self.volumes@[j]).vid@ != vid@,
            decreases n - i,
        {
            if self.volumes[i].vid.eq(vid) {
                proof {
                    lemma_find_idx_at(self.volumes@, vid@, i as int);
                }
                self.volumes.set(i, rec);
                proof {
                    lemma_update_keeps_find(old(self).volumes@, self.volumes@, i as int);
                    lemma_same_find_after_update(
                        old(self).volumes@,
                        self.volumes@,
                        i as int,
                        vid@,
                    );
                    assert forall|k: int| 0 <= k < self.pages@.len() implies page_linked(
                        self.volumes@,
                        #[trigger] self.pages@[k],
                    ) by {
                        assert(page_linked(old(self).volumes@, self.pages@[k]));
                        let v = self.pages@[k].vid@;
                        lemma_find_idx(old(self).volumes@, v);
                        lemma_find_idx(self.volumes@, v);
                    }
                }
                return ;
            }
            proof {
                lemma_find_idx_not_at(self.volumes@, vid@, i as int);
            }
            i = i + 1;
        }
        proof {
            assert(false);
        }
    }
}

/// A page record belongs to a known volume and lies within its local
/// history.
pub open spec fn page_linked(vs: Seq<VolumeRecord>, p: PageRecord) -> bool {
    match find_volume(vs, p.vid@) {
        Some(rec) => match rec.snapshot {
            Some(s) => p.lsn <= s.local,
            None => false,
        },
        None => false,
    }
}

/// If the record at `i` matches, `find_idx` returns `i` (identifiers
/// are unique before `i`).
proof fn lemma_find_idx_at(vs: Seq<VolumeRecord>, vid: Seq<u8>, i: int)
    requires
        0 <= i < vs.len(),
        vs[i].vid@ == vid,
        forall|j: int| 0 <= j < i ==> (#[trigger] vs[j]).vid@ != vid,
    ensures
        find_idx(vs, vid) == i,
    decreases i,
{
    if i > 0 {
        assert forall|j: int| 0 <= j < i - 1 implies (#[trigger] vs.skip(1)[j]).vid@ != vid by {
            assert(vs.skip(1)[j] == vs[j + 1]);
        }
        lemma_find_idx_at(vs.skip(1), vid, i - 1);
    }
}

/// Advancing past a non-matching record keeps the found index ahead.
proof fn lemma_find_idx_not_at(vs: Seq<VolumeRecord>, vid: Seq<u8>, i: int)
    requires
        0 <= i < vs.len(),
        vs[i].vid@ != vid,
        find_idx(vs, vid) >= i,
    ensures
        find_idx(vs, vid) != i,
{
    lemma_find_idx(vs, vid);
}

/// Replacing the record at the found index (keeping its identifier)
/// moves `find_volume` pointwise.
/// After replacing the record at `i` (keeping its identifier), lookups
/// of every other identifier yield the same record as before.
proof fn lemma_same_find_after_update(o: Seq<VolumeRecord>, s: Seq<VolumeRecord>, i: int, vid: Seq<u8>)
    requires
        0 <= i < o.len(),
        s.len() == o.len(),
        s[i].vid@ == o[i].vid@,
        o[i].vid@ == vid,
        forall|j: int| 0 <= j < o.len() && j != i ==> s[j] == o[j],
        forall|j: int| 0 <= j < i ==> (#[trigger] o[j]).vid@ != vid,
    ensures
        forall|v: Seq<u8>|
            v != vid ==> #[trigger] find_volume(s, v) == find_volume(o, v),
        find_volume(s, vid) == Some(s[i]),
{
    lemma_update_keeps_find(o, s, i);
    assert forall|v: Seq<u8>| v != vid implies #[trigger] find_volume(s, v) == find_volume(
        o,
        v,
    ) by {
        lemma_find_idx(o, v);
        lemma_find_idx(s, v);
        if find_idx(o, v) >= 0 {
            assert(find_idx(o, v) != i);
        }
    }
    assert forall|j: int| 0 <= j < i implies (#[trigger] s[j]).vid@ != vid by {
        assert(s[j] == o[j]);
    }
    lemma_find_idx_at_s(s, vid, i);
}

/// `find_idx` never returns an index past a match.
proof fn lemma_find_idx_at_most(vs: Seq<VolumeRecord>, vid: Seq<u8>, j: int)
    requires
        0 <= j < vs.len(),
        vs[j].vid@ == vid,
    ensures
        0 <= find_idx(vs, vid) <= j,
    decreases vs.len(),
{
    if vs[0].vid@ != vid {
        assert(vs.skip(1)[j - 1] == vs[j]);
        lemma_find_idx_at_most(vs.skip(1), vid, j - 1);
    }
}

proof fn lemma_find_idx_at_s(vs: Seq<VolumeRecord>, vid: Seq<u8>, i: int)
    requires
        0 <= i < vs.len(),
        vs[i].vid@ == vid,
        forall|j: int| 0 <= j < i ==> (#[trigger] vs[j]).vid@ != vid,
    ensures
        find_volume(vs, vid) == Some(vs[i]),
{
    lemma_find_idx_at(vs, vid, i);
}

proof fn lemma_update_keeps_find(o: Seq<VolumeRecord>, s: Seq<VolumeRecord>, i: int)
    requires
        0 <= i < o.len(),
        s.len() == o.len(),
        s[i].vid@ == o[i].vid@,
        forall|j: int| 0 <= j < o.len() && j != i ==> s[j] == o[j],
    ensures
        forall|v: Seq<u8>|
            #[trigger] find_idx(s, v) == find_idx(o, v),
    decreases o.len(),
{
    assert forall|v: Seq<u8>| #[trigger] find_idx(s, v) == find_idx(o, v) by {
        lemma_find_idx_update_one(o, s, i, v);
    }
}

proof fn lemma_find_idx_update_one(o: Seq<VolumeRecord>, s: Seq<VolumeRecord>, i: int, v: Seq<u8>)
    requires
        0 <= i < o.len(),
        s.len() == o.len(),
        s[i].vid@ == o[i].vid@,
        forall|j: int| 0 <= j < o.len() && j != i ==> s[j] == o[j],
    ensures
        find_idx(s, v) == find_idx(o, v),
    decreases o.len(),
{
    if o.len() > 0 {
        if i == 0 {
            if s[0].vid@ != v {
                assert(s.skip(1) =~= o.skip(1));
            }
        } else {
            assert(s[0] == o[0]);
            if s[0].vid@ != v {
                assert forall|j: int|
                    0 <= j < o.skip(1).len() && j != i - 1 implies o.skip(1)[j] == s.skip(
                    1,
                )[j] by {
                    assert(o.skip(1)[j] == o[j + 1] && s.skip(1)[j] == s[j + 1]);
                }
                lemma_find_idx_update_one(o.skip(1), s.skip(1), i - 1, v);
            }
        }
    }
}

/// Inserting a new identifier at `i` leaves other lookups unchanged and
/// finds the new record.
proof fn lemma_insert_find(o: Seq<VolumeRecord>, s: Seq<VolumeRecord>, i: int, rec: VolumeRecord)
    requires
        0 <= i <= o.len(),
        s == o.insert(i, rec),
        forall|j: int| 0 <= j < o.len() ==> (#[trigger] o[j]).vid@ != rec.vid@,
    ensures
        find_volume(s, rec.vid@) == Some(rec),
        forall|v: Seq<u8>|
            v != rec.vid@ ==> #[trigger] find_volume(s, v) == find_volume(o, v),
    decreases o.len() + i,
{
    if i == 0 {
        assert(s[0] == rec);
        assert(s.skip(1) =~= o);
        assert forall|v: Seq<u8>| v != rec.vid@ implies #[trigger] find_volume(s, v)
            == find_volume(o, v) by {
            lemma_find_idx(o, v);
            lemma_find_idx(s, v);
            if find_idx(o, v) >= 0 {
                assert(s[find_idx(o, v) + 1] == o[find_idx(o, v)]);
            }
        }
    } else {
        assert(s[0] == o[0]);
        assert(s.skip(1) =~= o.skip(1).insert(i - 1, rec));
        assert forall|j: int| 0 <= j < o.skip(1).len() implies (#[trigger] o.skip(1)[j]).vid@
            != rec.vid@ by {
            assert(o.skip(1)[j] == o[j + 1]);
        }
        lemma_insert_find(o.skip(1), s.skip(1), i - 1, rec);
        lemma_find_idx(s.skip(1), rec.vid@);
        assert forall|v: Seq<u8>| v != rec.vid@ implies #[trigger] find_volume(s, v)
            == find_volume(o, v) by {
            if s[0].vid@ != v {
                assert(find_volume(s.skip(1), v) == find_volume(o.skip(1), v));
                lemma_find_idx(s.skip(1), v);
                lemma_find_idx(o.skip(1), v);
            }
        }
    }
}

/// Law: every snapshot a well-formed store holds satisfies the
/// snapshot invariant — the local LSN the remote acknowledged never
/// exceeds the volume's own local LSN.
pub proof fn lemma_stored_snapshot_wf(st: Storage, vid: Seq<u8>)
    requires
        st.wf(),
    ensures
        find_volume(st.volumes@, vid) matches Some(rec) ==> (rec.snapshot matches Some(s)
            ==> snapshot_wf(s)),
{
    lemma_find_idx(st.volumes@, vid);
}

/// Law: in a well-formed store, a mapped pending-sync watermark never
/// lies below the local LSN the remote acknowledged for the same
/// volume.
pub proof fn lemma_pending_sync_dominates(st: Storage, vid: Seq<u8>)
    requires
        st.wf(),
    ensures
        find_volume(st.volumes@, vid) matches Some(rec) ==> (match (
            rec.watermarks.pending_sync,
            rec.snapshot,
        ) {
            (Watermark::Mapped { lsn: pending, .. }, Some(s)) => match s.remote {
                RemoteMapping::Mapped { local, .. } => local <= pending,
                RemoteMapping::Unmapped => true,
            },
            _ => true,
        }),
{
    lemma_find_idx(st.volumes@, vid);
}

} // verus!
