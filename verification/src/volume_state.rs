//! Per-volume local state: configuration, status, snapshots and sync
//! watermarks, together with their fixed little-endian byte layouts and
//! the tagged key family used to store them.
//!
//! Each volume owns a small family of keys: the 16 identifier bytes
//! followed by a one-byte tag. Values are fixed-layout little-endian
//! records, validated on every read.

use vstd::prelude::*;
use crate::codec::{le_bytes, le_val, lemma_le32_roundtrip, lemma_le64_roundtrip, read_le_u32,
    read_le_u64, push_le_bytes};
use crate::gid::VolumeId;

verus! {

/// Errors of the local storage layer.
#[derive(Clone, Copy, Debug, PartialEq, Eq, Structural)]
pub enum StorageErr {
    /// A stored key does not parse as a volume-state key.
    CorruptKey,
    /// A stored value does not parse as the record its tag announces.
    CorruptVolumeState(VolumeStateTag),
    /// The underlying store failed.
    Io,
    /// Another commit interleaved at the same base snapshot.
    Conflict,
}

/// The tag byte that selects one record of a volume's state family.
#[derive(Clone, Copy, Debug, PartialEq, Eq, Structural)]
pub enum VolumeStateTag {
    Config,
    Status,
    Snapshot,
    Watermarks,
}

/// The byte that encodes a tag on disk.
pub open spec fn tag_byte(tag: VolumeStateTag) -> u8 {
    match tag {
        VolumeStateTag::Config => 1,
        VolumeStateTag::Status => 2,
        VolumeStateTag::Snapshot => 3,
        VolumeStateTag::Watermarks => 4,
    }
}

impl VolumeStateTag {
    /// The on-disk encoding of the tag.
    pub fn to_byte(self) -> (r: u8)
        ensures
            r == tag_byte(self),
    {
        match self {
            VolumeStateTag::Config => 1,
            VolumeStateTag::Status => 2,
            VolumeStateTag::Snapshot => 3,
            VolumeStateTag::Watermarks => 4,
        }
    }

    /// Decodes a tag byte.
    pub fn from_byte(b: u8) -> (r: Option<VolumeStateTag>)
        ensures
            r matches Some(t) ==> tag_byte(t) == b,
            r is None <==> !(1 <= b <= 4),
    {
        match b {
            1 => Some(VolumeStateTag::Config),
            2 => Some(VolumeStateTag::Status),
            3 => Some(VolumeStateTag::Snapshot),
            4 => Some(VolumeStateTag::Watermarks),
            _ => None,
        }
    }
}

/// The 17-byte key of one state record: identifier bytes, then the tag.
#[derive(Clone, Copy, Debug, PartialEq, Eq)]
pub struct VolumeStateKey {
    pub vid: VolumeId,
    pub tag: VolumeStateTag,
}

/// The byte layout of a state key.
pub open spec fn state_key_bytes(vid: Seq<u8>, tag: VolumeStateTag) -> Seq<u8> {
    vid + seq![tag_byte(tag)]
}

impl VolumeStateKey {
    pub fn new(vid: VolumeId, tag: VolumeStateTag) -> (r: Self)
        ensures
            r.vid@ == vid@,
            r.tag == tag,
    {
        VolumeStateKey { vid, tag }
    }

    /// The volume the key belongs to.
    pub fn vid(&self) -> (r: &VolumeId)
        ensures
            r@ == self.vid@,
    {
        &self.vid
    }

    /// The record the key selects.
    pub fn tag(&self) -> (r: VolumeStateTag)
        ensures
            r == self.tag,
    {
        self.tag
    }

    /// The same volume's key for another record.
    pub fn with_tag(self, tag: VolumeStateTag) -> (r: Self)
        ensures
            r.vid@ == self.vid@,
            r.tag == tag,
    {
        VolumeStateKey { tag, ..self }
    }

    /// The key's field values, for contracts.
    pub open spec fn spec_vid(&self) -> Seq<u8> {
        self.vid@
    }

    pub open spec fn spec_tag(&self) -> VolumeStateTag {
        self.tag
    }

    /// The on-disk form of the key.
    pub fn to_bytes(&self) -> (r: Vec<u8>)
        ensures
            r@ == state_key_bytes(self.vid@, self.tag),
    {
        let mut out: Vec<u8> = Vec::new();
        self.vid.push_bytes(&mut out);
        out.push(self.tag.to_byte());
        proof {
            assert(out@ =~= state_key_bytes(self.vid@, self.tag));
        }
        out
    }

    /// Parses an on-disk key. Every valid key is 17 bytes: the volume
    /// identifier followed by a known tag byte.
    pub fn ref_from_bytes(bytes: &[u8]) -> (r: Result<VolumeStateKey, StorageErr>)
        ensures
            r matches Ok(k) ==> bytes@ == state_key_bytes(k.spec_vid(), k.spec_tag())
                && k.spec_vid().len() == 16,
            r is Err ==> r == Err::<VolumeStateKey, StorageErr>(StorageErr::CorruptKey),
            r is Err <==> !(bytes@.len() == 17 && 1 <= bytes@[16] <= 4),
    {
        if bytes.len() != 17 {
            return Err(StorageErr::CorruptKey);
        }
        let mut data: [u8; 16] = [0; 16];
        let mut i: usize = 0;
        while i < 16
            invariant
                i <= 16,
                bytes@.len() == 17,
                forall|j: int| 0 <= j < i ==> data@[j] == bytes@[j],
            decreases 16 - i,
        {
            data[i] = bytes[i];
            i = i + 1;
        }
        let tag = match VolumeStateTag::from_byte(bytes[16]) {
            Some(t) => t,
            None => {
                return Err(StorageErr::CorruptKey);
            },
        };
        let vid = VolumeId::new(data);
        let key = VolumeStateKey { vid, tag };
        proof {
            assert(bytes@ =~= state_key_bytes(key.spec_vid(), key.spec_tag()));
        }
        Ok(key)
    }
}

/// Which directions a volume synchronizes with the remote.
#[derive(Clone, Copy, Debug, PartialEq, Eq, Structural)]
pub enum SyncDirection {
    Disabled,
    Push,
    Pull,
    Both,
}

/// Whether two sync directions overlap: either side being `Both` matches
/// anything enabled, `Disabled` matches only `Disabled`, and otherwise
/// the directions must be equal.
pub open spec fn sync_matches(a: SyncDirection, b: SyncDirection) -> bool {
    match (a, b) {
        (SyncDirection::Disabled, SyncDirection::Disabled) => true,
        (SyncDirection::Disabled, _) => false,
        (_, SyncDirection::Disabled) => false,
        (SyncDirection::Both, _) => true,
        (_, SyncDirection::Both) => true,
        (x, y) => x == y,
    }
}

/// The byte that encodes a sync direction on disk.
pub open spec fn sync_byte(d: SyncDirection) -> u8 {
    match d {
        SyncDirection::Disabled => 0,
        SyncDirection::Push => 1,
        SyncDirection::Pull => 2,
        SyncDirection::Both => 3,
    }
}

impl SyncDirection {
    /// Whether this direction overlaps `other`.
    pub fn matches(self, other: SyncDirection) -> (r: bool)
        ensures
            r == sync_matches(self, other),
    {
        match (self, other) {
            (SyncDirection::Disabled, SyncDirection::Disabled) => true,
            (SyncDirection::Disabled, _) | (_, SyncDirection::Disabled) => false,
            (SyncDirection::Both, _) | (_, SyncDirection::Both) => true,
            (a, b) => a == b,
        }
    }

    /// The on-disk encoding of the direction.
    pub fn to_byte(self) -> (r: u8)
        ensures
            r == sync_byte(self),
    {
        match self {
            SyncDirection::Disabled => 0,
            SyncDirection::Push => 1,
            SyncDirection::Pull => 2,
            SyncDirection::Both => 3,
        }
    }

    /// Decodes a sync direction byte.
    pub fn from_byte(b: u8) -> (r: Option<SyncDirection>)
        ensures
            r matches Some(d) ==> sync_byte(d) == b,
            r is None <==> b > 3,
    {
        match b {
            0 => Some(SyncDirection::Disabled),
            1 => Some(SyncDirection::Push),
            2 => Some(SyncDirection::Pull),
            3 => Some(SyncDirection::Both),
            _ => None,
        }
    }
}

/// The matching relation is symmetric; `Disabled` matches exactly
/// `Disabled`; `Both` matches exactly the enabled directions.
pub proof fn lemma_sync_matches(a: SyncDirection, b: SyncDirection)
    ensures
        sync_matches(a, b) == sync_matches(b, a),
        sync_matches(SyncDirection::Disabled, a) <==> a == SyncDirection::Disabled,
        sync_matches(SyncDirection::Both, a) <==> a != SyncDirection::Disabled,
{
}

/// A volume's durable configuration.
#[derive(Clone, Copy, Debug, PartialEq, Eq, Structural)]
pub struct VolumeConfig {
    pub sync: SyncDirection,
}

/// The byte layout of a configuration record.
pub open spec fn config_bytes(c: VolumeConfig) -> Seq<u8> {
    seq![sync_byte(c.sync)]
}

/// The configuration a byte string denotes, if any.
pub open spec fn parse_config(b: Seq<u8>) -> Option<VolumeConfig> {
    if b.len() == 1 && sync_byte_valid(b[0]) {
        Some(VolumeConfig { sync: sync_of_byte(b[0]) })
    } else {
        None
    }
}

pub open spec fn sync_byte_valid(b: u8) -> bool {
    b <= 3
}

pub open spec fn sync_of_byte(b: u8) -> SyncDirection {
    if b == 0 {
        SyncDirection::Disabled
    } else if b == 1 {
        SyncDirection::Push
    } else if b == 2 {
        SyncDirection::Pull
    } else {
        SyncDirection::Both
    }
}

impl VolumeConfig {
    pub fn new(sync: SyncDirection) -> (r: Self)
        ensures
            r.sync == sync,
    {
        VolumeConfig { sync }
    }

    /// The configured sync direction.
    pub fn sync(&self) -> (r: SyncDirection)
        ensures
            r == self.sync,
    {
        self.sync
    }

    /// The direction, as a spec-level field.
    pub open spec fn spec_sync(&self) -> SyncDirection {
        self.sync
    }

    /// The same configuration with another sync direction.
    pub fn with_sync(self, sync: SyncDirection) -> (r: Self)
        ensures
            r.sync == sync,
    {
        VolumeConfig { sync }
    }

    /// The on-disk form of the configuration.
    pub fn to_bytes(&self) -> (r: Vec<u8>)
        ensures
            r@ == config_bytes(*self),
            parse_config(r@) == Some(*self),
    {
        let mut out: Vec<u8> = Vec::new();
        out.push(self.sync.to_byte());
        proof {
            assert(out@ =~= config_bytes(*self));
        }
        out
    }

    /// Parses a configuration record.
    pub fn from_bytes(bytes: &[u8]) -> (r: Result<VolumeConfig, StorageErr>)
        ensures
            r matches Ok(c) ==> parse_config(bytes@) == Some(c),
            r is Err <==> parse_config(bytes@) is None,
            r is Err ==> r == Err::<VolumeConfig, StorageErr>(
                StorageErr::CorruptVolumeState(VolumeStateTag::Config)),
    {
        if bytes.len() != 1 {
            return Err(StorageErr::CorruptVolumeState(VolumeStateTag::Config));
        }
        match SyncDirection::from_byte(bytes[0]) {
            Some(d) => Ok(VolumeConfig { sync: d }),
            None => Err(StorageErr::CorruptVolumeState(VolumeStateTag::Config)),
        }
    }
}

impl Default for VolumeConfig {
    /// The default configuration leaves sync disabled.
    fn default() -> (r: Self)
        ensures
            r.spec_sync() == SyncDirection::Disabled,
    {
        VolumeConfig { sync: SyncDirection::Disabled }
    }
}

/// The durable record of a volume's last non-transient failure.
#[derive(Clone, Copy, Debug, PartialEq, Eq, Structural)]
pub enum VolumeStatus {
    /// No failure is recorded.
    Healthy,
    /// The last commit pushed to the server was rejected.
    RejectedCommit,
    /// The local and remote volume state have diverged.
    Conflict,
    /// The volume was interrupted in the middle of a push.
    InterruptedPush,
}

/// The byte that encodes a status on disk.
pub open spec fn status_byte(s: VolumeStatus) -> u8 {
    match s {
        VolumeStatus::Healthy => 0,
        VolumeStatus::RejectedCommit => 1,
        VolumeStatus::Conflict => 2,
        VolumeStatus::InterruptedPush => 3,
    }
}

/// The status a byte string denotes, if any.
pub open spec fn parse_status(b: Seq<u8>) -> Option<VolumeStatus> {
    if b.len() == 1 && b[0] <= 3 {
        Some(status_of_byte(b[0]))
    } else {
        None
    }
}

pub open spec fn status_of_byte(b: u8) -> VolumeStatus {
    if b == 0 {
        VolumeStatus::Healthy
    } else if b == 1 {
        VolumeStatus::RejectedCommit
    } else if b == 2 {
        VolumeStatus::Conflict
    } else {
        VolumeStatus::InterruptedPush
    }
}

impl VolumeStatus {
    /// The on-disk form of the status.
    pub fn to_bytes(&self) -> (r: Vec<u8>)
        ensures
            r@ == seq![status_byte(*self)],
            parse_status(r@) == Some(*self),
    {
        let b: u8 = match self {
            VolumeStatus::Healthy => 0,
            VolumeStatus::RejectedCommit => 1,
            VolumeStatus::Conflict => 2,
            VolumeStatus::InterruptedPush => 3,
        };
        let mut out: Vec<u8> = Vec::new();
        out.push(b);
        proof {
            assert(out@ =~= seq![status_byte(*self)]);
        }
        out
    }

    /// Parses a status record.
    pub fn from_bytes(bytes: &[u8]) -> (r: Result<VolumeStatus, StorageErr>)
        ensures
            r matches Ok(s) ==> parse_status(bytes@) == Some(s),
            r is Err <==> parse_status(bytes@) is None,
            r is Err ==> r == Err::<VolumeStatus, StorageErr>(
                StorageErr::CorruptVolumeState(VolumeStateTag::Status)),
    {
        if bytes.len() != 1 {
            return Err(StorageErr::CorruptVolumeState(VolumeStateTag::Status));
        }
        match bytes[0] {
            0 => Ok(VolumeStatus::Healthy),
            1 => Ok(VolumeStatus::RejectedCommit),
            2 => Ok(VolumeStatus::Conflict),
            3 => Ok(VolumeStatus::InterruptedPush),
            _ => Err(StorageErr::CorruptVolumeState(VolumeStateTag::Status)),
        }
    }

    /// A short human-readable name for the status.
    pub fn name(&self) -> (r: &'static str)
        ensures
            r@ == match *self {
                VolumeStatus::Healthy => "ok"@,
                VolumeStatus::RejectedCommit => "rejected commit"@,
                VolumeStatus::Conflict => "conflict"@,
                VolumeStatus::InterruptedPush => "interrupted push"@,
            },
    {
        match self {
            VolumeStatus::Healthy => "ok",
            VolumeStatus::RejectedCommit => "rejected commit",
            VolumeStatus::Conflict => "conflict",
            VolumeStatus::InterruptedPush => "interrupted push",
        }
    }
}

/// Progress of one sync phase: either nothing is mapped yet, or a local
/// LSN with its page count.
#[derive(Clone, Copy, Debug, PartialEq, Eq, Structural)]
pub enum Watermark {
    Unmapped,
    Mapped { lsn: u64, pages: u32 },
}

/// The fixed 16-byte layout of a watermark: a tag byte, three bytes of
/// padding, the page count, then the LSN, keeping both variants the same
/// width.
pub open spec fn watermark_bytes(w: Watermark) -> Seq<u8> {
    match w {
        Watermark::Unmapped => seq![0u8] + Seq::new(15, |i: int| 0u8),
        Watermark::Mapped { lsn, pages } => seq![1u8] + Seq::new(3, |i: int| 0u8) + le_bytes(
            pages as int,
            4,
        ) + le_bytes(lsn as int, 8),
    }
}

/// The watermark a byte string denotes, if any. Padding bytes are
/// ignored on read.
pub open spec fn parse_watermark(b: Seq<u8>) -> Option<Watermark> {
    if b.len() == 16 {
        if b[0] == 0 {
            Some(Watermark::Unmapped)
        } else if b[0] == 1 {
            Some(
                Watermark::Mapped {
                    lsn: le_val(b.subrange(8, 16)) as u64,
                    pages: le_val(b.subrange(4, 8)) as u32,
                },
            )
        } else {
            None
        }
    } else {
        None
    }
}

impl Watermark {
    pub fn new(lsn: u64, pages: u32) -> (r: Self)
        ensures
            r == (Watermark::Mapped { lsn, pages }),
    {
        Watermark::Mapped { lsn, pages }
    }

    /// The mapped page count, if any.
    pub fn pages(&self) -> (r: Option<u32>)
        ensures
            r == match *self {
                Watermark::Mapped { pages, .. } => Some(pages),
                Watermark::Unmapped => None::<u32>,
            },
    {
        match self {
            Watermark::Mapped { pages, .. } => Some(*pages),
            Watermark::Unmapped => None,
        }
    }

    /// The mapped LSN, if any.
    pub fn lsn(&self) -> (r: Option<u64>)
        ensures
            r == match *self {
                Watermark::Mapped { lsn, .. } => Some(lsn),
                Watermark::Unmapped => None::<u64>,
            },
    {
        match self {
            Watermark::Mapped { lsn, .. } => Some(*lsn),
            Watermark::Unmapped => None,
        }
    }

    /// Both mapped fields at once, if any.
    pub fn splat(&self) -> (r: Option<(u64, u32)>)
        ensures
            r == match *self {
                Watermark::Mapped { lsn, pages } => Some((lsn, pages)),
                Watermark::Unmapped => None::<(u64, u32)>,
            },
    {
        match self {
            Watermark::Mapped { lsn, pages } => Some((*lsn, *pages)),
            Watermark::Unmapped => None,
        }
    }

    /// The spec-level LSN of the watermark.
    pub open spec fn spec_lsn(&self) -> Option<u64> {
        match *self {
            Watermark::Mapped { lsn, .. } => Some(lsn),
            Watermark::Unmapped => None,
        }
    }

    /// Appends the fixed 16-byte layout of the watermark to `out`.
    pub fn push_bytes(&self, out: &mut Vec<u8>)
        ensures
            final(out)@ == old(out)@ + watermark_bytes(*self),
            parse_watermark(watermark_bytes(*self)) == Some(*self),
    {
        match self {
            Watermark::Unmapped => {
                out.push(0);
                let mut i: usize = 0;
                while i < 15
                    invariant
                        i <= 15,
                        out@ =~= old(out)@ + seq![0u8] + Seq::new(i as nat, |j: int| 0u8),
                    decreases 15 - i,
                {
                    out.push(0);
                    proof {
                        assert(Seq::new((i + 1) as nat, |j: int| 0u8) =~= Seq::new(
                            i as nat,
                            |j: int| 0u8,
                        ).push(0u8));
                    }
                    i = i + 1;
                }
                proof {
                    assert(out@ =~= old(out)@ + watermark_bytes(*self));
                    assert(watermark_bytes(*self)[0] == 0);
                }
            },
            Watermark::Mapped { lsn, pages } => {
                out.push(1);
                out.push(0);
                out.push(0);
                out.push(0);
                push_le_bytes(out, *pages as u64, 4);
                push_le_bytes(out, *lsn, 8);
                proof {
                    lemma_le32_roundtrip(*pages);
                    lemma_le64_roundtrip(*lsn);
                    assert(out@ =~= old(out)@ + watermark_bytes(*self));
                    let wb = watermark_bytes(*self);
                    assert(wb.subrange(4, 8) =~= le_bytes(*pages as int, 4));
                    assert(wb.subrange(8, 16) =~= le_bytes(*lsn as int, 8));
                }
            },
        }
    }

    /// Parses a watermark at offset `off` of `bytes` (16 bytes).
    pub fn from_bytes_at(bytes: &[u8], off: usize) -> (r: Result<Watermark, StorageErr>)
        requires
            off + 16 <= bytes@.len(),
        ensures
            r matches Ok(w) ==> parse_watermark(bytes@.subrange(off as int, off + 16)) == Some(w),
            r is Err <==> parse_watermark(bytes@.subrange(off as int, off + 16)) is None,
    {
        let ghost sub = bytes@.subrange(off as int, off + 16);
        let tag = bytes[off];
        proof {
            assert(sub[0] == bytes@[off as int]);
        }
        if tag == 0 {
            Ok(Watermark::Unmapped)
        } else if tag == 1 {
            let pages = read_le_u32(bytes, off + 4);
            let lsn = read_le_u64(bytes, off + 8);
            proof {
                assert(sub.subrange(4, 8) =~= bytes@.subrange(off + 4, off + 8));
                assert(sub.subrange(8, 16) =~= bytes@.subrange(off + 8, off + 16));
                crate::codec::lemma_le_val_bound(bytes@.subrange(off + 4, off + 8));
                crate::codec::lemma_le_val_bound(bytes@.subrange(off + 8, off + 16));
                assert(vstd::arithmetic::power::pow(256, 4) == 0x1_0000_0000) by {
                    reveal_with_fuel(vstd::arithmetic::power::pow, 5);
                }
            }
            Ok(Watermark::Mapped { lsn, pages })
        } else {
            Err(StorageErr::CorruptVolumeState(VolumeStateTag::Watermarks))
        }
    }
}

impl Default for Watermark {
    /// A fresh watermark is unmapped.
    fn default() -> (r: Self)
        ensures
            r == Watermark::Unmapped,
    {
        Watermark::Unmapped
    }
}

/// The two watermarks of a volume: the snapshot being pushed, and the
/// last local snapshot known to be a checkpoint.
#[derive(Clone, Copy, Debug, PartialEq, Eq, Structural)]
pub struct Watermarks {
    /// A local snapshot in the process of syncing to the server.
    pub pending_sync: Watermark,
    /// The last local snapshot that represents a volume checkpoint.
    pub checkpoint: Watermark,
}

/// The fixed 32-byte layout of the watermark pair.
pub open spec fn watermarks_bytes(w: Watermarks) -> Seq<u8> {
    watermark_bytes(w.pending_sync) + watermark_bytes(w.checkpoint)
}

/// The watermark pair a byte string denotes, if any.
pub open spec fn parse_watermarks(b: Seq<u8>) -> Option<Watermarks> {
    if b.len() == 32 {
        match (parse_watermark(b.subrange(0, 16)), parse_watermark(b.subrange(16, 32))) {
            (Some(p), Some(c)) => Some(Watermarks { pending_sync: p, checkpoint: c }),
            _ => None,
        }
    } else {
        None
    }
}

impl Watermarks {
    /// The watermark of the in-flight push, if one is mapped.
    pub fn pending_sync(&self) -> (r: Watermark)
        ensures
            r == self.pending_sync,
    {
        self.pending_sync
    }

    pub fn with_pending_sync(self, pending_sync: Watermark) -> (r: Self)
        ensures
            r.pending_sync == pending_sync,
            r.checkpoint == self.checkpoint,
    {
        Watermarks { pending_sync, ..self }
    }

    /// The last checkpointed local snapshot.
    pub fn checkpoint(&self) -> (r: Watermark)
        ensures
            r == self.checkpoint,
    {
        self.checkpoint
    }

    pub fn with_checkpoint(self, checkpoint: Watermark) -> (r: Self)
        ensures
            r.checkpoint == checkpoint,
            r.pending_sync == self.pending_sync,
    {
        Watermarks { checkpoint, ..self }
    }

    /// The spec-level fields.
    pub open spec fn spec_pending_sync(&self) -> Watermark {
        self.pending_sync
    }

    pub open spec fn spec_checkpoint(&self) -> Watermark {
        self.checkpoint
    }

    /// The on-disk form of the watermark pair.
    pub fn to_bytes(&self) -> (r: Vec<u8>)
        ensures
            r@ == watermarks_bytes(*self),
            parse_watermarks(r@) == Some(*self),
    {
        let mut out: Vec<u8> = Vec::new();
        self.pending_sync.push_bytes(&mut out);
        self.checkpoint.push_bytes(&mut out);
        proof {
            assert(out@.subrange(0, 16) =~= watermark_bytes(self.pending_sync));
            assert(out@.subrange(16, 32) =~= watermark_bytes(self.checkpoint));
        }
        out
    }

    /// Parses a watermark-pair record.
    pub fn from_bytes(bytes: &[u8]) -> (r: Result<Watermarks, StorageErr>)
        ensures
            r matches Ok(w) ==> parse_watermarks(bytes@) == Some(w),
            r is Err <==> parse_watermarks(bytes@) is None,
            r is Err ==> r == Err::<Watermarks, StorageErr>(
                StorageErr::CorruptVolumeState(VolumeStateTag::Watermarks)),
    {
        if bytes.len() != 32 {
            return Err(StorageErr::CorruptVolumeState(VolumeStateTag::Watermarks));
        }
        let pending_sync = match Watermark::from_bytes_at(bytes, 0) {
            Ok(w) => w,
            Err(_) => {
                return Err(StorageErr::CorruptVolumeState(VolumeStateTag::Watermarks));
            },
        };
        let checkpoint = match Watermark::from_bytes_at(bytes, 16) {
            Ok(w) => w,
            Err(_) => {
                return Err(StorageErr::CorruptVolumeState(VolumeStateTag::Watermarks));
            },
        };
        Ok(Watermarks { pending_sync, checkpoint })
    }
}

impl Default for Watermarks {
    /// Both watermarks start unmapped.
    fn default() -> (r: Self)
        ensures
            r.spec_pending_sync() == Watermark::Unmapped,
            r.spec_checkpoint() == Watermark::Unmapped,
    {
        Watermarks { pending_sync: Watermark::Unmapped, checkpoint: Watermark::Unmapped }
    }
}

/// Spec-level round trip of the configuration layout.
pub proof fn lemma_config_roundtrip(c: VolumeConfig)
    ensures
        config_bytes(c).len() == 1,
        parse_config(config_bytes(c)) == Some(c),
{
}

/// Spec-level round trip of the status layout.
pub proof fn lemma_status_roundtrip(s: VolumeStatus)
    ensures
        parse_status(seq![status_byte(s)]) == Some(s),
{
}

/// Spec-level round trip of the watermark layout.
pub proof fn lemma_watermark_roundtrip(w: Watermark)
    ensures
        watermark_bytes(w).len() == 16,
        parse_watermark(watermark_bytes(w)) == Some(w),
{
    match w {
        Watermark::Unmapped => {
            assert(watermark_bytes(w).len() == 16);
            assert(watermark_bytes(w)[0] == 0);
        },
        Watermark::Mapped { lsn, pages } => {
            lemma_le32_roundtrip(pages);
            lemma_le64_roundtrip(lsn);
            let b = watermark_bytes(w);
            assert(b.len() == 16);
            assert(b[0] == 1);
            assert(b.subrange(4, 8) =~= le_bytes(pages as int, 4));
            assert(b.subrange(8, 16) =~= le_bytes(lsn as int, 8));
        },
    }
}

/// Spec-level round trip of the watermark-pair layout.
pub proof fn lemma_watermarks_roundtrip(w: Watermarks)
    ensures
        watermarks_bytes(w).len() == 32,
        parse_watermarks(watermarks_bytes(w)) == Some(w),
{
    lemma_watermark_roundtrip(w.pending_sync);
    lemma_watermark_roundtrip(w.checkpoint);
    let b = watermarks_bytes(w);
    assert(b.subrange(0, 16) =~= watermark_bytes(w.pending_sync));
    assert(b.subrange(16, 32) =~= watermark_bytes(w.checkpoint));
}

/// How far the local history is mapped onto the remote history: nothing
/// yet, or the remote LSN a local LSN was synced at.
#[derive(Clone, Copy, Debug, PartialEq, Eq, Structural)]
pub enum RemoteMapping {
    Unmapped,
    Mapped { remote: u64, local: u64 },
}

impl RemoteMapping {
    /// The local LSN of the mapping, if any.
    pub open spec fn spec_local(&self) -> Option<u64> {
        match *self {
            RemoteMapping::Mapped { local, .. } => Some(local),
            RemoteMapping::Unmapped => None,
        }
    }

    /// The remote LSN of the mapping, if any.
    pub open spec fn spec_remote(&self) -> Option<u64> {
        match *self {
            RemoteMapping::Mapped { remote, .. } => Some(remote),
            RemoteMapping::Unmapped => None,
        }
    }
}

/// A volume's read view: the latest local LSN, how far that history is
/// mapped onto the remote, the page count, and a timestamp in
/// milliseconds.
///
/// Invariant: the mapped local LSN never exceeds the snapshot's own
/// local LSN. Constructors establish it and `from_bytes` rejects bytes
/// that violate it, so every persisted snapshot satisfies it.
#[derive(Clone, Copy, Debug, PartialEq, Eq, Structural)]
pub struct Snapshot {
    pub local: u64,
    pub remote: RemoteMapping,
    pub pages: u32,
    pub timestamp: u64,
}

/// The snapshot invariant: the synced prefix of the local history is
/// never longer than the local history itself.
pub open spec fn snapshot_wf(s: Snapshot) -> bool {
    s.remote matches RemoteMapping::Mapped { local, .. } ==> local <= s.local
}

/// The fixed 37-byte layout of a snapshot record: local LSN, page
/// count, timestamp, then the remote mapping as a tagged pair.
pub open spec fn snapshot_bytes(s: Snapshot) -> Seq<u8> {
    le_bytes(s.local as int, 8) + le_bytes(s.pages as int, 4) + le_bytes(s.timestamp as int, 8)
        + (match s.remote {
        RemoteMapping::Unmapped => seq![0u8] + Seq::new(16, |i: int| 0u8),
        RemoteMapping::Mapped { remote, local } => seq![1u8] + le_bytes(remote as int, 8)
            + le_bytes(local as int, 8),
    })
}

/// The snapshot a byte string denotes, if it is well formed.
pub open spec fn parse_snapshot(b: Seq<u8>) -> Option<Snapshot> {
    if b.len() == 37 && (b[20] == 0 || b[20] == 1) {
        let local = le_val(b.subrange(0, 8)) as u64;
        let remote = if b[20] == 0 {
            RemoteMapping::Unmapped
        } else {
            RemoteMapping::Mapped {
                remote: le_val(b.subrange(21, 29)) as u64,
                local: le_val(b.subrange(29, 37)) as u64,
            }
        };
        let s = Snapshot {
            local,
            remote,
            pages: le_val(b.subrange(8, 12)) as u32,
            timestamp: le_val(b.subrange(12, 20)) as u64,
        };
        if snapshot_wf(s) {
            Some(s)
        } else {
            None
        }
    } else {
        None
    }
}

/// Every snapshot that parses from persisted bytes satisfies the
/// snapshot invariant.
pub proof fn lemma_persisted_snapshot_wf(b: Seq<u8>)
    ensures
        parse_snapshot(b) matches Some(s) ==> snapshot_wf(s),
{
}

impl Snapshot {
    /// Builds a snapshot. The mapped local LSN must not exceed the
    /// snapshot's local LSN.
    pub fn new(local: u64, remote: RemoteMapping, pages: u32, timestamp: u64) -> (r: Snapshot)
        requires
            snapshot_wf(Snapshot { local, remote, pages, timestamp }),
        ensures
            r == (Snapshot { local, remote, pages, timestamp }),
            snapshot_wf(r),
    {
        Snapshot { local, remote, pages, timestamp }
    }

    /// The latest local LSN of the snapshot.
    pub fn local(&self) -> (r: u64)
        ensures
            r == self.local,
    {
        self.local
    }

    /// The local LSN at which the volume was last synced, if ever.
    pub fn remote_local(&self) -> (r: Option<u64>)
        ensures
            r == self.remote.spec_local(),
    {
        match self.remote {
            RemoteMapping::Mapped { local, .. } => Some(local),
            RemoteMapping::Unmapped => None,
        }
    }

    /// The remote LSN the volume was last synced to, if ever.
    pub fn remote_lsn(&self) -> (r: Option<u64>)
        ensures
            r == self.remote.spec_remote(),
    {
        match self.remote {
            RemoteMapping::Mapped { remote, .. } => Some(remote),
            RemoteMapping::Unmapped => None,
        }
    }

    /// The page count of the snapshot.
    pub fn pages(&self) -> (r: u32)
        ensures
            r == self.pages,
    {
        self.pages
    }

    /// The snapshot's timestamp, in milliseconds.
    pub fn timestamp(&self) -> (r: u64)
        ensures
            r == self.timestamp,
    {
        self.timestamp
    }

    /// The on-disk form of the snapshot.
    pub fn to_bytes(&self) -> (r: Vec<u8>)
        requires
            snapshot_wf(*self),
        ensures
            r@ == snapshot_bytes(*self),
            parse_snapshot(r@) == Some(*self),
    {
        let mut out: Vec<u8> = Vec::new();
        push_le_bytes(&mut out, self.local, 8);
        push_le_bytes(&mut out, self.pages as u64, 4);
        push_le_bytes(&mut out, self.timestamp, 8);
        match self.remote {
            RemoteMapping::Unmapped => {
                let mut i: usize = 0;
                out.push(0);
                while i < 16
                    invariant
                        i <= 16,
                        out@ =~= le_bytes(self.local as int, 8) + le_bytes(self.pages as int, 4)
                            + le_bytes(self.timestamp as int, 8) + seq![0u8] + Seq::new(
                            i as nat,
                            |j: int| 0u8,
                        ),
                    decreases 16 - i,
                {
                    out.push(0);
                    proof {
                        assert(Seq::new((i + 1) as nat, |j: int| 0u8) =~= Seq::new(
                            i as nat,
                            |j: int| 0u8,
                        ).push(0u8));
                    }
                    i = i + 1;
                }
            },
            RemoteMapping::Mapped { remote, local } => {
                out.push(1);
                push_le_bytes(&mut out, remote, 8);
                push_le_bytes(&mut out, local, 8);
            },
        }
        proof {
            assert(out@ =~= snapshot_bytes(*self));
            lemma_snapshot_bytes_parse(*self, out@);
        }
        out
    }

    /// Parses a snapshot record; rejects records that violate the
    /// snapshot invariant.
    pub fn from_bytes(bytes: &[u8]) -> (r: Result<Snapshot, StorageErr>)
        ensures
            r matches Ok(s) ==> parse_snapshot(bytes@) == Some(s) && snapshot_wf(s),
            r is Err <==> parse_snapshot(bytes@) is None,
            r is Err ==> r == Err::<Snapshot, StorageErr>(
                StorageErr::CorruptVolumeState(VolumeStateTag::Snapshot)),
    {
        if bytes.len() != 37 {
            return Err(StorageErr::CorruptVolumeState(VolumeStateTag::Snapshot));
        }
        let flag = bytes[20];
        if flag > 1 {
            return Err(StorageErr::CorruptVolumeState(VolumeStateTag::Snapshot));
        }
        let local = read_le_u64(bytes, 0);
        let pages = read_le_u32(bytes, 8);
        let timestamp = read_le_u64(bytes, 12);
        let remote = if flag == 0 {
            RemoteMapping::Unmapped
        } else {
            let remote = read_le_u64(bytes, 21);
            let rlocal = read_le_u64(bytes, 29);
            if rlocal > local {
                return Err(StorageErr::CorruptVolumeState(VolumeStateTag::Snapshot));
            }
            RemoteMapping::Mapped { remote, local: rlocal }
        };
        proof {
            crate::codec::lemma_le_val_bound(bytes@.subrange(8, 12));
            assert(vstd::arithmetic::power::pow(256, 4) == 0x1_0000_0000) by {
                reveal_with_fuel(vstd::arithmetic::power::pow, 5);
            }
        }
        Ok(Snapshot { local, remote, pages, timestamp })
    }
}

/// The serialized form of a well-formed snapshot parses back to it.
pub proof fn lemma_snapshot_bytes_parse(s: Snapshot, b: Seq<u8>)
    requires
        snapshot_wf(s),
        b == snapshot_bytes(s),
    ensures
        parse_snapshot(b) == Some(s),
{
    lemma_le64_roundtrip(s.local);
    lemma_le32_roundtrip(s.pages);
    lemma_le64_roundtrip(s.timestamp);
    assert(b.subrange(0, 8) =~= le_bytes(s.local as int, 8));
    assert(b.subrange(8, 12) =~= le_bytes(s.pages as int, 4));
    assert(b.subrange(12, 20) =~= le_bytes(s.timestamp as int, 8));
    match s.remote {
        RemoteMapping::Unmapped => {
            assert(b.len() == 37);
            assert(b[20] == 0);
        },
        RemoteMapping::Mapped { remote, local } => {
            lemma_le64_roundtrip(remote);
            lemma_le64_roundtrip(local);
            assert(b.len() == 37);
            assert(b[20] == 1);
            assert(b.subrange(21, 29) =~= le_bytes(remote as int, 8));
            assert(b.subrange(29, 37) =~= le_bytes(local as int, 8));
        },
    }
}

/// The aggregated state of one volume, reconstructed from its key
/// family. Records that were never written are `None`.
#[derive(Clone, Copy, Debug)]
pub struct VolumeState {
    pub vid: VolumeId,
    pub config: Option<VolumeConfig>,
    pub status: Option<VolumeStatus>,
    pub snapshot: Option<Snapshot>,
    pub watermarks: Option<Watermarks>,
}

/// Accumulating a tagged value into a state: parse the value as the
/// record its tag announces and replace that field.
pub open spec fn accumulate_spec(s: VolumeState, tag: VolumeStateTag, b: Seq<u8>) -> Option<
    VolumeState,
> {
    match tag {
        VolumeStateTag::Config => match parse_config(b) {
            Some(c) => Some(VolumeState { config: Some(c), ..s }),
            None => None,
        },
        VolumeStateTag::Status => match parse_status(b) {
            Some(c) => Some(VolumeState { status: Some(c), ..s }),
            None => None,
        },
        VolumeStateTag::Snapshot => match parse_snapshot(b) {
            Some(c) => Some(VolumeState { snapshot: Some(c), ..s }),
            None => None,
        },
        VolumeStateTag::Watermarks => match parse_watermarks(b) {
            Some(c) => Some(VolumeState { watermarks: Some(c), ..s }),
            None => None,
        },
    }
}

/// Whether a volume is mid-sync: a push is pending beyond the last
/// local LSN known to have reached the remote.
pub open spec fn is_syncing_spec(s: VolumeState) -> bool {
    match spec_or_default_watermarks(s.watermarks).pending_sync {
        Watermark::Mapped { lsn, .. } => match s.snapshot {
            None => true,
            Some(snap) => match snap.remote {
                RemoteMapping::Unmapped => true,
                RemoteMapping::Mapped { local, .. } => local < lsn,
            },
        },
        Watermark::Unmapped => false,
    }
}

/// Whether local commits exist that the remote has not seen.
pub open spec fn has_pending_commits_spec(s: VolumeState) -> bool {
    match s.snapshot {
        None => false,
        Some(snap) => match snap.remote {
            RemoteMapping::Unmapped => true,
            RemoteMapping::Mapped { local, .. } => local < snap.local,
        },
    }
}

pub open spec fn spec_or_default_watermarks(w: Option<Watermarks>) -> Watermarks {
    match w {
        Some(w) => w,
        None => Watermarks { pending_sync: Watermark::Unmapped, checkpoint: Watermark::Unmapped },
    }
}

impl VolumeState {
    /// A fresh state with no records yet.
    pub fn new(vid: VolumeId) -> (r: Self)
        ensures
            r.vid@ == vid@,
            r.config is None,
            r.status is None,
            r.snapshot is None,
            r.watermarks is None,
    {
        VolumeState { vid, config: None, status: None, snapshot: None, watermarks: None }
    }

    /// The volume this state describes.
    pub fn vid(&self) -> (r: &VolumeId)
        ensures
            r@ == self.vid@,
    {
        &self.vid
    }

    /// The volume's configuration; a volume without a stored
    /// configuration record is treated as sync-disabled.
    pub fn config(&self) -> (r: VolumeConfig)
        ensures
            r == match self.config {
                Some(c) => c,
                None => VolumeConfig { sync: SyncDirection::Disabled },
            },
    {
        match self.config {
            Some(c) => c,
            None => VolumeConfig { sync: SyncDirection::Disabled },
        }
    }

    /// The volume's status; a volume without a stored status record is
    /// healthy.
    pub fn status(&self) -> (r: VolumeStatus)
        ensures
            r == match self.status {
                Some(s) => s,
                None => VolumeStatus::Healthy,
            },
    {
        match self.status {
            Some(s) => s,
            None => VolumeStatus::Healthy,
        }
    }

    /// The volume's latest snapshot, if one was ever persisted.
    pub fn snapshot(&self) -> (r: Option<&Snapshot>)
        ensures
            r matches Some(s) ==> self.snapshot == Some(*s),
            r is Some <==> self.snapshot is Some,
    {
        match &self.snapshot {
            Some(s) => Some(s),
            None => None,
        }
    }

    /// The volume's watermarks; unmapped if never written.
    pub fn watermarks(&self) -> (r: Watermarks)
        ensures
            r == spec_or_default_watermarks(self.watermarks),
    {
        match self.watermarks {
            Some(w) => w,
            None => Watermarks { pending_sync: Watermark::Unmapped, checkpoint: Watermark::Unmapped },
        }
    }

    /// Whether a push is in flight: the pending-sync watermark lies
    /// beyond the last local LSN the remote has acknowledged.
    pub fn is_syncing(&self) -> (r: bool)
        ensures
            r == is_syncing_spec(*self),
    {
        match self.watermarks().pending_sync().lsn() {
            Some(pending) => {
                let last_sync = match self.snapshot() {
                    Some(s) => s.remote_local(),
                    None => None,
                };
                match last_sync {
                    Some(l) => l < pending,
                    None => true,
                }
            },
            None => false,
        }
    }

    /// Whether local commits exist beyond the synced prefix.
    pub fn has_pending_commits(&self) -> (r: bool)
        ensures
            r == has_pending_commits_spec(*self),
    {
        match self.snapshot() {
            Some(s) => match s.remote_local() {
                Some(l) => l < s.local(),
                None => true,
            },
            None => false,
        }
    }

    /// Parses a tagged value into this state, replacing the record the
    /// tag selects. Fails exactly when the value does not parse, and
    /// leaves the state unchanged in that case.
    pub fn accumulate(&mut self, tag: VolumeStateTag, value: &[u8]) -> (r: Result<
        (),
        StorageErr,
    >)
        ensures
            r is Ok <==> accumulate_spec(*old(self), tag, value@) is Some,
            r is Ok ==> Some(*final(self)) == accumulate_spec(*old(self), tag, value@),
            r is Err ==> *final(self) == *old(self) && r == Err::<(), StorageErr>(
                StorageErr::CorruptVolumeState(tag)),
    {
        match tag {
            VolumeStateTag::Config => match VolumeConfig::from_bytes(value) {
                Ok(c) => {
                    self.config = Some(c);
                    Ok(())
                },
                Err(_) => Err(StorageErr::CorruptVolumeState(tag)),
            },
            VolumeStateTag::Status => match VolumeStatus::from_bytes(value) {
                Ok(c) => {
                    self.status = Some(c);
                    Ok(())
                },
                Err(_) => Err(StorageErr::CorruptVolumeState(tag)),
            },
            VolumeStateTag::Snapshot => match Snapshot::from_bytes(value) {
                Ok(c) => {
                    self.snapshot = Some(c);
                    Ok(())
                },
                Err(_) => Err(StorageErr::CorruptVolumeState(tag)),
            },
            VolumeStateTag::Watermarks => match Watermarks::from_bytes(value) {
                Ok(c) => {
                    self.watermarks = Some(c);
                    Ok(())
                },
                Err(_) => Err(StorageErr::CorruptVolumeState(tag)),
            },
        }
    }
}

} // verus!
