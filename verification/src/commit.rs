//! Remote commit-log records and their object-store keys.
//!
//! A record is `magic | vid | meta | offsets-block`, all little-endian:
//! a 4-byte magic, the 16 identifier bytes, a 28-byte metadata block,
//! and a sequence of `{ sid, size, offsets }` entries (possibly empty).
//! Keys are `volumes/{vid_pretty}/{lsn:018x}`; the fixed-width
//! hexadecimal LSN makes keys sort in ascending LSN order.

use vstd::prelude::*;
use crate::codec::{le_bytes, le_val, lemma_le32_roundtrip, lemma_le64_roundtrip, read_le_u32,
    read_le_u64, push_le_bytes, hex_msf, hex_msf_val, is_hex_digit, lex_lt,
    lemma_hex_msf_pad, lemma_hex_msf_digits, lemma_hex_msf_inverse,
    lemma_hex_msf_val_bound, lemma_hex_msf_val_leading_zero, lemma_hex_msf_order,
    lemma_lex_common_prefix, push_hex_msf, parse_hex_val};
use crate::gid::{VolumeId, SegmentId, GidParseErr, hex_of};
use crate::splinter::{Splinter, DecodeErr, parse_spec};
use vstd::arithmetic::power::pow;

verus! {

/// The little-endian byte serialization of the commit magic number.
pub open spec fn magic_bytes() -> Seq<u8> {
    seq![0x31u8, 0x99u8, 0xBFu8, 0x00u8]
}

/// Metadata of one commit: its LSN, the checkpoint LSN at or below it,
/// the last page offset the commit touches, and a timestamp in
/// milliseconds.
#[derive(Clone, Copy, Debug, PartialEq, Eq, Structural)]
pub struct CommitMeta {
    pub lsn: u64,
    pub checkpoint_lsn: u64,
    pub last_offset: u32,
    pub timestamp: u64,
}

/// The commit-metadata invariant: the checkpoint never lies beyond the
/// commit itself.
pub open spec fn meta_wf(m: CommitMeta) -> bool {
    m.checkpoint_lsn <= m.lsn
}

/// The fixed 28-byte layout of the metadata block.
pub open spec fn meta_bytes(m: CommitMeta) -> Seq<u8> {
    le_bytes(m.lsn as int, 8) + le_bytes(m.checkpoint_lsn as int, 8) + le_bytes(
        m.last_offset as int,
        4,
    ) + le_bytes(m.timestamp as int, 8)
}

/// The metadata a 28-byte block denotes.
pub open spec fn meta_of_bytes(b: Seq<u8>) -> CommitMeta {
    CommitMeta {
        lsn: le_val(b.subrange(0, 8)) as u64,
        checkpoint_lsn: le_val(b.subrange(8, 16)) as u64,
        last_offset: le_val(b.subrange(16, 20)) as u32,
        timestamp: le_val(b.subrange(20, 28)) as u64,
    }
}

impl CommitMeta {
    /// Builds commit metadata; the checkpoint must not exceed the LSN,
    /// and every value built here satisfies that invariant.
    pub fn new(lsn: u64, checkpoint: u64, last_offset: u32, timestamp: u64) -> (r: CommitMeta)
        requires
            checkpoint <= lsn,
        ensures
            r == (CommitMeta { lsn, checkpoint_lsn: checkpoint, last_offset, timestamp }),
            meta_wf(r),
    {
        CommitMeta { lsn, checkpoint_lsn: checkpoint, last_offset, timestamp }
    }

    pub fn lsn(&self) -> (r: u64)
        ensures
            r == self.lsn,
    {
        self.lsn
    }

    pub fn checkpoint(&self) -> (r: u64)
        ensures
            r == self.checkpoint_lsn,
    {
        self.checkpoint_lsn
    }

    pub fn last_offset(&self) -> (r: u32)
        ensures
            r == self.last_offset,
    {
        self.last_offset
    }

    pub fn timestamp(&self) -> (r: u64)
        ensures
            r == self.timestamp,
    {
        self.timestamp
    }

    /// Appends the 28-byte metadata block to `out`.
    pub fn push_bytes(&self, out: &mut Vec<u8>)
        ensures
            final(out)@ == old(out)@ + meta_bytes(*self),
            meta_of_bytes(meta_bytes(*self)) == *self,
    {
        push_le_bytes(out, self.lsn, 8);
        push_le_bytes(out, self.checkpoint_lsn, 8);
        push_le_bytes(out, self.last_offset as u64, 4);
        push_le_bytes(out, self.timestamp, 8);
        proof {
            assert(out@ =~= old(out)@ + meta_bytes(*self));
            lemma_meta_roundtrip(*self);
        }
    }
}

/// Metadata round trip: the 28-byte block reproduces its fields.
pub proof fn lemma_meta_roundtrip(m: CommitMeta)
    ensures
        meta_bytes(m).len() == 28,
        meta_of_bytes(meta_bytes(m)) == m,
{
    lemma_le64_roundtrip(m.lsn);
    lemma_le64_roundtrip(m.checkpoint_lsn);
    lemma_le32_roundtrip(m.last_offset);
    lemma_le64_roundtrip(m.timestamp);
    let b = meta_bytes(m);
    assert(b.subrange(0, 8) =~= le_bytes(m.lsn as int, 8));
    assert(b.subrange(8, 16) =~= le_bytes(m.checkpoint_lsn as int, 8));
    assert(b.subrange(16, 20) =~= le_bytes(m.last_offset as int, 4));
    assert(b.subrange(20, 28) =~= le_bytes(m.timestamp as int, 8));
}

/// The 48-byte header of a commit record: magic, identifier, metadata.
pub open spec fn header_bytes(vid: Seq<u8>, meta: CommitMeta) -> Seq<u8> {
    magic_bytes() + vid + meta_bytes(meta)
}

/// The header of a 16-byte identifier is exactly 48 bytes.
pub proof fn lemma_header_len(vid: Seq<u8>, meta: CommitMeta)
    requires
        vid.len() == 16,
    ensures
        header_bytes(vid, meta).len() == 48,
{
    lemma_meta_roundtrip(meta);
}

/// Why a byte string is not a commit record.
#[derive(Clone, Copy, Debug, PartialEq, Eq, Structural)]
pub enum CommitValidationErr {
    /// Shorter than the fixed header.
    TooSmall,
    /// The magic number does not match.
    Magic,
}

/// One entry of the offsets block: a segment and the page offsets it
/// holds for this commit.
pub open spec fn offsets_entry_bytes(sid: Seq<u8>, spl: Seq<u8>) -> Seq<u8> {
    sid + le_bytes(spl.len() as int, 4) + spl
}

/// A block entry holding a serialized offset set steps the iterator
/// exactly: at a suffix `offsets_entry_bytes(sid, serialize(o)) +
/// rest`, the entry header is well formed, the entry's set decodes
/// back to `o`, and the remaining tail is `rest`. Together with the
/// contract of `OffsetsIter::next_inner`, a block built from entries
/// `(sid_i, serialize(o_i))` yields back exactly the pairs `(sid_i,
/// o_i)`, in order.
pub proof fn lemma_offsets_entry_step(sid: Seq<u8>, o: Seq<u32>, rest: Seq<u8>)
    requires
        sid.len() == 16,
        crate::splinter::strictly_sorted(o),
        4 + 4 * o.len() <= 0xFFFF_FFFF,
    ensures
        ({
            let sb = crate::splinter::serialize_spec(o);
            let suffix = offsets_entry_bytes(sid, sb) + rest;
            &&& sb.len() == 4 + 4 * o.len()
            &&& suffix.len() == 20 + sb.len() + rest.len()
            &&& suffix.subrange(0, 16) == sid
            &&& le_val(suffix.subrange(16, 20)) == sb.len()
            &&& parse_spec(suffix.subrange(20, 20 + sb.len() as int)) == Some(o)
            &&& suffix.skip(20 + sb.len() as int) == rest
        }),
{
    let sb = crate::splinter::serialize_spec(o);
    crate::splinter::lemma_payload_len(o);
    crate::codec::lemma_le_bytes_len(o.len() as int, 4);
    assert(sb.len() == 4 + 4 * o.len());
    crate::codec::lemma_le_bytes_len(sb.len() as int, 4);
    let suffix = offsets_entry_bytes(sid, sb) + rest;
    assert(suffix.subrange(0, 16) =~= sid);
    assert(suffix.subrange(16, 20) =~= le_bytes(sb.len() as int, 4));
    assert(le_val(suffix.subrange(16, 20)) == sb.len()) by {
        crate::codec::lemma_le32_roundtrip(sb.len() as u32);
    }
    assert(suffix.subrange(20, 20 + sb.len() as int) =~= sb);
    crate::splinter::lemma_splinter_roundtrip(o);
    assert(suffix.skip(20 + sb.len() as int) =~= rest);
}

/// Accumulates the offsets block of a commit under construction.
#[derive(Debug)]
pub struct CommitBuilder {
    offsets: Vec<u8>,
}

impl View for CommitBuilder {
    type V = Seq<u8>;

    closed spec fn view(&self) -> Seq<u8> {
        self.offsets@
    }
}

impl Default for CommitBuilder {
    /// A builder starts with an empty offsets block.
    fn default() -> (r: Self)
        ensures
            r@ == Seq::<u8>::empty(),
    {
        CommitBuilder { offsets: Vec::new() }
    }
}

impl CommitBuilder {
    /// Appends one `{ sid, size, offsets }` entry to the block.
    pub fn write_offsets(&mut self, sid: SegmentId, splinter: &Vec<u8>)
        requires
            splinter@.len() <= 0xFFFF_FFFF,
        ensures
            final(self)@ == old(self)@ + offsets_entry_bytes(sid@, splinter@),
    {
        sid.push_bytes(&mut self.offsets);
        push_le_bytes(&mut self.offsets, splinter.len() as u64, 4);
        let mut i: usize = 0;
        let n = splinter.len();
        while i < n
            invariant
                i <= n,
                n == splinter@.len(),
                self@ =~= old(self)@ + sid@ + le_bytes(n as int, 4) + splinter@.take(i as int),
            decreases n - i,
        {
            self.offsets.push(splinter[i]);
            proof {
                assert(splinter@.take(i + 1) =~= splinter@.take(i as int).push(
                    splinter@[i as int],
                ));
            }
            i = i + 1;
        }
        proof {
            assert(splinter@.take(n as int) =~= splinter@);
            assert(self@ =~= old(self)@ + offsets_entry_bytes(sid@, splinter@));
        }
    }

    /// Seals the record with its identifier and metadata.
    pub fn build(self, vid: VolumeId, meta: CommitMeta) -> (r: Commit)
        ensures
            r.vid@ == vid@,
            r.meta == meta,
            r.offsets@ == self@,
    {
        Commit { vid, meta, offsets: self.offsets }
    }
}

/// A commit-log record: identifier, metadata, and the raw offsets
/// block.
#[derive(Debug)]
pub struct Commit {
    pub vid: VolumeId,
    pub meta: CommitMeta,
    pub offsets: Vec<u8>,
}

impl Clone for Commit {
    /// Cloning keeps the identifier, metadata and offsets block.
    fn clone(&self) -> (r: Self)
        ensures
            r.vid@ == self.vid@,
            r.meta == self.meta,
            r.offsets@ == self.offsets@,
    {
        Commit { vid: self.vid, meta: self.meta, offsets: self.offsets.clone() }
    }
}

impl Commit {
    /// Validates and splits a commit record: the payload must cover the
    /// fixed header and start with the magic number; everything after
    /// the header is the offsets block.
    pub fn from_bytes(data: &[u8]) -> (r: Result<Commit, CommitValidationErr>)
        ensures
            r is Ok <==> data@.len() >= 48 && data@.subrange(0, 4) == magic_bytes(),
            r matches Ok(c) ==> c.vid@ == data@.subrange(4, 20) && c.meta == meta_of_bytes(
                data@.subrange(20, 48),
            ) && c.offsets@ == data@.skip(48),
            r == Err::<Commit, CommitValidationErr>(CommitValidationErr::TooSmall) <==> data@.len()
                < 48,
            r == Err::<Commit, CommitValidationErr>(CommitValidationErr::Magic) <==> data@.len()
                >= 48 && data@.subrange(0, 4) != magic_bytes(),
    {
        if data.len() < 48 {
            return Err(CommitValidationErr::TooSmall);
        }
        if data[0] != 0x31 || data[1] != 0x99 || data[2] != 0xBF || data[3] != 0x00 {
            proof {
                assert(data@.subrange(0, 4) != magic_bytes());
            }
            return Err(CommitValidationErr::Magic);
        }
        proof {
            assert(data@.subrange(0, 4) =~= magic_bytes());
        }
        let mut vid_bytes: [u8; 16] = [0; 16];
        let mut i: usize = 0;
        while i < 16
            invariant
                i <= 16,
                data@.len() >= 48,
                forall|j: int| 0 <= j < i ==> vid_bytes@[j] == data@[4 + j],
            decreases 16 - i,
        {
            vid_bytes[i] = data[4 + i];
            i = i + 1;
        }
        let vid = VolumeId::new(vid_bytes);
        let lsn = read_le_u64(data, 20);
        let checkpoint_lsn = read_le_u64(data, 28);
        let last_offset = read_le_u32(data, 36);
        let timestamp = read_le_u64(data, 40);
        let meta = CommitMeta { lsn, checkpoint_lsn, last_offset, timestamp };
        let mut offsets: Vec<u8> = Vec::new();
        let mut j: usize = 48;
        let n = data.len();
        while j < n
            invariant
                48 <= j <= n,
                n == data@.len(),
                offsets@ =~= data@.subrange(48, j as int),
            decreases n - j,
        {
            offsets.push(data[j]);
            proof {
                assert(data@.subrange(48, j + 1) =~= data@.subrange(48, j as int).push(
                    data@[j as int],
                ));
            }
            j = j + 1;
        }
        proof {
            assert(vid@ =~= data@.subrange(4, 20));
            let mb = data@.subrange(20, 48);
            assert(mb.subrange(0, 8) =~= data@.subrange(20, 28));
            assert(mb.subrange(8, 16) =~= data@.subrange(28, 36));
            assert(mb.subrange(16, 20) =~= data@.subrange(36, 40));
            assert(mb.subrange(20, 28) =~= data@.subrange(40, 48));
            crate::codec::lemma_le_val_bound(data@.subrange(36, 40));
            assert(pow(256, 4) == 0x1_0000_0000) by {
                reveal_with_fuel(pow, 5);
            }
            assert(offsets@ =~= data@.skip(48));
        }
        Ok(Commit { vid, meta, offsets })
    }

    /// The volume the commit belongs to.
    pub fn vid(&self) -> (r: &VolumeId)
        ensures
            r@ == self.vid@,
    {
        &self.vid
    }

    /// The commit's metadata.
    pub fn meta(&self) -> (r: &CommitMeta)
        ensures
            *r == self.meta,
    {
        &self.meta
    }

    /// Iterates over the `{ sid, offsets }` entries of the block.
    pub fn iter_offsets(&self) -> (r: OffsetsIter)
        ensures
            r.offsets@ == self.offsets@,
            r.spec_pos() == 0,
    {
        OffsetsIter { offsets: self.offsets.clone(), pos: 0 }
    }

    /// Serializes the record: header, then the offsets block.
    pub fn into_payload(self) -> (r: Vec<u8>)
        ensures
            r@ == header_bytes(self.vid@, self.meta) + self.offsets@,
            r@.len() == 48 + self.offsets@.len(),
    {
        let mut out: Vec<u8> = Vec::new();
        out.push(0x31);
        out.push(0x99);
        out.push(0xBF);
        out.push(0x00);
        self.vid.push_bytes(&mut out);
        self.meta.push_bytes(&mut out);
        let n = self.offsets.len();
        let mut i: usize = 0;
        proof {
            crate::gid::VolumeId::lemma_len(&self.vid);
            lemma_header_len(self.vid@, self.meta);
            assert(out@ =~= header_bytes(self.vid@, self.meta));
        }
        while i < n
            invariant
                i <= n,
                n == self.offsets@.len(),
                out@ =~= header_bytes(self.vid@, self.meta) + self.offsets@.take(i as int),
                out@.len() == 48 + i,
            decreases n - i,
        {
            out.push(self.offsets[i]);
            proof {
                assert(self.offsets@.take(i + 1) =~= self.offsets@.take(i as int).push(
                    self.offsets@[i as int],
                ));
            }
            i = i + 1;
        }
        proof {
            assert(self.offsets@.take(n as int) =~= self.offsets@);
        }
        out
    }
}

/// Round trip: a record assembled from a 16-byte identifier, metadata
/// and an offsets block parses back to exactly those parts.
pub proof fn lemma_commit_roundtrip(vid: Seq<u8>, meta: CommitMeta, offsets: Seq<u8>)
    requires
        vid.len() == 16,
    ensures
        (header_bytes(vid, meta) + offsets).len() == 48 + offsets.len(),
        (header_bytes(vid, meta) + offsets).subrange(0, 4) == magic_bytes(),
        (header_bytes(vid, meta) + offsets).subrange(4, 20) == vid,
        meta_of_bytes((header_bytes(vid, meta) + offsets).subrange(20, 48)) == meta,
        (header_bytes(vid, meta) + offsets).skip(48) == offsets,
{
    lemma_header_len(vid, meta);
    lemma_meta_roundtrip(meta);
    let b = header_bytes(vid, meta) + offsets;
    assert(b.subrange(0, 4) =~= magic_bytes());
    assert(b.subrange(4, 20) =~= vid);
    assert(b.subrange(20, 48) =~= meta_bytes(meta));
    assert(b.skip(48) =~= offsets);
}

/// Why an offsets block is malformed.
#[derive(Clone, Copy, Debug, PartialEq, Eq, Structural)]
pub enum OffsetsValidationErr {
    /// An entry header or its payload is cut short.
    TooSmall,
    /// An entry's offset set does not decode.
    SplinterDecodeErr(DecodeErr),
}

/// Walks the `{ sid, size, offsets }` entries of an offsets block.
#[derive(Debug)]
pub struct OffsetsIter {
    pub offsets: Vec<u8>,
    pub pos: usize,
}

impl OffsetsIter {
    pub open spec fn spec_pos(&self) -> int {
        self.pos as int
    }

    /// The block bytes not yet consumed.
    pub open spec fn suffix(&self) -> Seq<u8> {
        self.offsets@.skip(self.pos as int)
    }

    pub open spec fn wf(&self) -> bool {
        self.pos <= self.offsets@.len()
    }

    /// Parses the next entry of the block. Returns the segment and its
    /// decoded offset set, nothing at the end of the block, and an
    /// error exactly when the entry at the current position is
    /// malformed.
    pub fn next_inner(&mut self) -> (r: Result<Option<(SegmentId, Splinter)>, OffsetsValidationErr>)
        requires
            old(self).wf(),
        ensures
            final(self).wf(),
            final(self).offsets@ == old(self).offsets@,
            old(self).suffix().len() == 0 ==> r == Ok::<Option<(SegmentId, Splinter)>,
                OffsetsValidationErr>(None) && *final(self) == *old(self),
            0 < old(self).suffix().len() < 20 ==> r == Err::<Option<(SegmentId, Splinter)>,
                OffsetsValidationErr>(OffsetsValidationErr::TooSmall),
            old(self).suffix().len() >= 20 && 20 + le_val(old(self).suffix().subrange(16, 20))
                > old(self).suffix().len() ==> r == Err::<Option<(SegmentId, Splinter)>,
                OffsetsValidationErr>(OffsetsValidationErr::TooSmall),
            old(self).suffix().len() >= 20 && 20 + le_val(old(self).suffix().subrange(16, 20))
                <= old(self).suffix().len() ==> {
                let size = le_val(old(self).suffix().subrange(16, 20));
                let block = old(self).suffix().subrange(20, 20 + size);
                match parse_spec(block) {
                    Some(s) => r matches Ok(Some(p)) && p.0@ == old(self).suffix().subrange(0, 16)
                        && p.1@ == s && p.1.wf() && final(self).spec_pos() == old(self).spec_pos()
                        + 20 + size,
                    None => r is Err && !(r == Err::<Option<(SegmentId, Splinter)>,
                        OffsetsValidationErr>(OffsetsValidationErr::TooSmall)),
                }
            },
    {
        let ghost suf = self.suffix();
        let len = self.offsets.len();
        if self.pos == len {
            return Ok(None);
        }
        let remaining = len - self.pos;
        if remaining < 20 {
            return Err(OffsetsValidationErr::TooSmall);
        }
        let p = self.pos;
        let mut sid_bytes: [u8; 16] = [0; 16];
        let mut i: usize = 0;
        while i < 16
            invariant
                i <= 16,
                p + 20 <= self.offsets@.len(),
                self.offsets@.len() <= usize::MAX,
                forall|j: int| 0 <= j < i ==> sid_bytes@[j] == self.offsets@[p + j],
            decreases 16 - i,
        {
            sid_bytes[i] = self.offsets[p + i];
            i = i + 1;
        }
        let sid = SegmentId::new(sid_bytes);
        let size = read_le_u32(self.offsets.as_slice(), p + 16);
        proof {
            assert(suf.subrange(16, 20) =~= self.offsets@.subrange(p + 16, p + 20));
            crate::codec::lemma_le_val_bound(suf.subrange(16, 20));
            assert(pow(256, 4) == 0x1_0000_0000) by {
                reveal_with_fuel(pow, 5);
            }
        }
        if size as usize > remaining - 20 {
            return Err(OffsetsValidationErr::TooSmall);
        }
        let size = size as usize;
        let mut block: Vec<u8> = Vec::new();
        let mut i: usize = 0;
        while i < size
            invariant
                i <= size,
                p + 20 + size <= self.offsets@.len(),
                self.offsets@.len() <= usize::MAX,
                block@ =~= self.offsets@.subrange(p + 20, p + 20 + i),
            decreases size - i,
        {
            block.push(self.offsets[p + 20 + i]);
            proof {
                assert(self.offsets@.subrange(p + 20, p + 20 + i + 1) =~= self.offsets@.subrange(
                    p + 20,
                    p + 20 + i,
                ).push(self.offsets@[p + 20 + i]));
            }
            i = i + 1;
        }
        proof {
            assert(block@ =~= suf.subrange(20, 20 + size));
            assert(sid@ =~= suf.subrange(0, 16));
        }
        let splinter = match Splinter::parse(block.as_slice()) {
            Ok(s) => s,
            Err(e) => {
                return Err(OffsetsValidationErr::SplinterDecodeErr(e));
            },
        };
        self.pos = p + 20 + size;
        Ok(Some((sid, splinter)))
    }
}

// ---------------------------------------------------------------------------
// Commit-log keys
// ---------------------------------------------------------------------------

/// The key prefix of a volume's commits: `volumes/{vid_pretty}/`.
pub open spec fn commit_key_prefix_spec(vid: Seq<u8>) -> Seq<u8> {
    seq![118u8, 111u8, 108u8, 117u8, 109u8, 101u8, 115u8, 47u8] + hex_of(vid) + seq![47u8]
}

/// The key of one commit: the volume prefix, then the LSN as an
/// 18-character zero-padded lowercase hexadecimal numeral.
pub open spec fn commit_key_spec(vid: Seq<u8>, lsn: u64) -> Seq<u8> {
    commit_key_prefix_spec(vid) + hex_msf(lsn as int, 18)
}

/// Builds the key prefix under which a volume's commits are stored.
pub fn commit_key_prefix(vid: &VolumeId) -> (r: Vec<u8>)
    ensures
        r@ == commit_key_prefix_spec(vid@),
{
    let mut out: Vec<u8> = Vec::new();
    out.push(118);  // 'v'
    out.push(111);  // 'o'
    out.push(108);  // 'l'
    out.push(117);  // 'u'
    out.push(109);  // 'm'
    out.push(101);  // 'e'
    out.push(115);  // 's'
    out.push(47);  // '/'
    let pretty = vid.pretty();
    let n = pretty.len();
    let mut i: usize = 0;
    while i < n
        invariant
            i <= n,
            n == pretty@.len(),
            out@ =~= seq![118u8, 111u8, 108u8, 117u8, 109u8, 101u8, 115u8, 47u8] + pretty@.take(
                i as int,
            ),
        decreases n - i,
    {
        out.push(pretty[i]);
        proof {
            assert(pretty@.take(i + 1) =~= pretty@.take(i as int).push(pretty@[i as int]));
        }
        i = i + 1;
    }
    out.push(47);  // '/'
    proof {
        assert(pretty@.take(n as int) =~= pretty@);
        assert(out@ =~= commit_key_prefix_spec(vid@));
    }
    out
}

/// Builds the object-store key of one commit.
pub fn commit_key(vid: &VolumeId, lsn: u64) -> (r: Vec<u8>)
    ensures
        r@ == commit_key_spec(vid@, lsn),
{
    let mut out = commit_key_prefix(vid);
    out.push(48);  // the two pad digits: an LSN has at most 16 hex digits
    out.push(48);
    proof {
        lemma_pow16_64();
    }
    push_hex_msf(&mut out, lsn, 16);
    proof {
        lemma_hex_msf_pad(lsn as int, 18);
        lemma_hex_msf_pad(lsn as int, 17);
        assert(out@ =~= commit_key_spec(vid@, lsn));
    }
    out
}

/// `16^16` is the bound of a 64-bit LSN, and `16^17` lies above it.
proof fn lemma_pow16_64()
    ensures
        pow(16, 16) == 0x1_0000_0000_0000_0000,
        pow(16, 17) == 0x10_0000_0000_0000_0000,
{
    assert(pow(16, 16) == 0x1_0000_0000_0000_0000 && pow(16, 17)
        == 0x10_0000_0000_0000_0000) by {
        reveal_with_fuel(pow, 18);
    }
}

/// Keys of one volume sort in ascending LSN order: the fixed-width
/// hexadecimal numeral makes the lexicographic order of the keys agree
/// with the numeric order of the LSNs.
pub proof fn lemma_commit_keys_sorted(vid: Seq<u8>, lsn1: u64, lsn2: u64)
    requires
        lsn1 < lsn2,
    ensures
        lex_lt(commit_key_spec(vid, lsn1), commit_key_spec(vid, lsn2)),
{
    lemma_pow16_64();
    vstd::arithmetic::power::lemma_pow_strictly_increases(16, 16, 18);
    lemma_hex_msf_order(lsn1 as int, lsn2 as int, 18);
    lemma_lex_common_prefix(
        commit_key_prefix_spec(vid),
        hex_msf(lsn1 as int, 18),
        hex_msf(lsn2 as int, 18),
    );
}

/// Why a key is not a commit key.
#[derive(Clone, Copy, Debug, PartialEq, Eq, Structural)]
pub enum CommitKeyParseErr {
    /// The key is not `volumes/{vid}/{lsn}`: the prefix is wrong, a
    /// part is missing, or parts follow the LSN.
    Structure,
    /// The identifier part does not parse.
    VolumeId(GidParseErr),
    /// The LSN part is not an 18-digit hexadecimal numeral of a 64-bit
    /// value.
    Lsn,
}

/// The fixed first segment of every commit key, with its slash.
pub open spec fn volumes_prefix() -> Seq<u8> {
    seq![118u8, 111u8, 108u8, 117u8, 109u8, 101u8, 115u8, 47u8]
}

/// Index of the first slash at or after position `i`, or a negative
/// value if none follows.
pub open spec fn first_slash_from(b: Seq<u8>, i: int) -> int
    decreases b.len() - i when 0 <= i <= b.len()
{
    if i >= b.len() {
        -1
    } else if b[i] == 47 {
        i
    } else {
        first_slash_from(b, i + 1)
    }
}

/// Splits a key of the shape `volumes/{vid}/{lsn}` — the fixed prefix,
/// exactly one further slash, nothing after the LSN part — into its
/// identifier and LSN parts.
pub open spec fn key_parts(b: Seq<u8>) -> Option<(Seq<u8>, Seq<u8>)> {
    if b.len() >= 8 && b.subrange(0, 8) == volumes_prefix() {
        let j = first_slash_from(b, 8);
        if j >= 0 && first_slash_from(b, j + 1) < 0 {
            Some((b.subrange(8, j), b.skip(j + 1)))
        } else {
            None
        }
    } else {
        None
    }
}

/// Whether the identifier part is a pretty identifier: 32 hex digits.
pub open spec fn gid_part_ok(p: Seq<u8>) -> bool {
    p.len() == 32 && (forall|i: int| 0 <= i < 32 ==> is_hex_digit(#[trigger] p[i]))
}

/// Whether the LSN part is the fixed-width numeral of a 64-bit value:
/// 18 hex digits whose two leading digits are the zero pads.
pub open spec fn lsn_part_ok(p: Seq<u8>) -> bool {
    &&& p.len() == 18
    &&& forall|i: int| 0 <= i < 18 ==> is_hex_digit(#[trigger] p[i])
    &&& p[0] == 48
    &&& p[1] == 48
}

/// Parses a commit key back into its volume and LSN. Succeeds exactly
/// on the keys that `commit_key` builds; a malformed key names the
/// first part that fails: the shape, the identifier, or the LSN.
pub fn parse_commit_key(key: &[u8]) -> (r: Result<(VolumeId, u64), CommitKeyParseErr>)
    ensures
        r matches Ok(p) ==> key@ == commit_key_spec(p.0@, p.1) && p.0@.len() == 16,
        r is Ok <==> (key_parts(key@) matches Some(p) && gid_part_ok(p.0) && lsn_part_ok(p.1)),
        (r == Err::<(VolumeId, u64), CommitKeyParseErr>(CommitKeyParseErr::Structure)) <==> key_parts(
            key@,
        ) is None,
        (r matches Err(CommitKeyParseErr::VolumeId(_))) <==> (key_parts(key@) matches Some(p)
            && !gid_part_ok(p.0)),
        r matches Err(CommitKeyParseErr::VolumeId(e)) ==> (key_parts(key@) matches Some(p) && (
        e is Length <==> p.0.len() != 32)),
        (r == Err::<(VolumeId, u64), CommitKeyParseErr>(CommitKeyParseErr::Lsn)) <==> (key_parts(
            key@,
        ) matches Some(p) && gid_part_ok(p.0) && !lsn_part_ok(p.1)),
        forall|v: Seq<u8>, l: u64|
            v.len() == 16 && key@ == commit_key_spec(v, l) ==> r is Ok,
{
    let n = key.len();
    // The fixed prefix `volumes/`.
    if n < 8 {
        proof {
            lemma_no_built_key(key@);
        }
        return Err(CommitKeyParseErr::Structure);
    }
    let lit: [u8; 8] = [118, 111, 108, 117, 109, 101, 115, 47];
    let mut i: usize = 0;
    while i < 8
        invariant
            i <= 8,
            n == key@.len() >= 8,
            lit@ == volumes_prefix(),
            forall|j: int| 0 <= j < i ==> key@[j] == lit@[j],
        decreases 8 - i,
    {
        if key[i] != lit[i] {
            proof {
                assert(key@.subrange(0, 8)[i as int] != volumes_prefix()[i as int]);
                lemma_no_built_key(key@);
            }
            return Err(CommitKeyParseErr::Structure);
        }
        i = i + 1;
    }
    proof {
        assert(key@.subrange(0, 8) =~= volumes_prefix());
    }
    // The identifier part runs to the next slash.
    let mut j: usize = 8;
    while j < n && key[j] != 47
        invariant
            8 <= j <= n,
            n == key@.len(),
            forall|k: int| 8 <= k < j ==> key@[k] != 47,
        decreases n - j,
    {
        j = j + 1;
    }
    proof {
        lemma_first_slash(key@, 8, j as int);
    }
    if j == n {
        proof {
            lemma_no_built_key(key@);
        }
        return Err(CommitKeyParseErr::Structure);
    }
    // Nothing may follow the LSN part.
    let mut k2: usize = j + 1;
    while k2 < n && key[k2] != 47
        invariant
            j + 1 <= k2 <= n,
            n == key@.len(),
            forall|m: int| j + 1 <= m < k2 ==> key@[m] != 47,
        decreases n - k2,
    {
        k2 = k2 + 1;
    }
    proof {
        lemma_first_slash(key@, j + 1, k2 as int);
    }
    if k2 < n {
        proof {
            lemma_no_built_key(key@);
        }
        return Err(CommitKeyParseErr::Structure);
    }
    let ghost p1 = key@.subrange(8, j as int);
    let ghost p2 = key@.skip(j + 1);
    proof {
        assert(key_parts(key@) == Some((p1, p2)));
    }
    let vid = match VolumeId::from_pretty(slice_range(key, 8, j).as_slice()) {
        Ok(v) => v,
        Err(e) => {
            proof {
                assert(!gid_part_ok(p1));
                lemma_no_built_key(key@);
            }
            return Err(CommitKeyParseErr::VolumeId(e));
        },
    };
    proof {
        assert(gid_part_ok(p1));
    }
    // The LSN part: exactly 18 hex digits, within the 64-bit range.
    if n - (j + 1) != 18 {
        proof {
            assert(!lsn_part_ok(p2));
            lemma_no_built_key(key@);
        }
        return Err(CommitKeyParseErr::Lsn);
    }
    let mut k: usize = j + 1;
    while k < n
        invariant
            8 <= j < n,
            key@[j as int] == 47,
            forall|m: int| 8 <= m < j ==> key@[m] != 47,
            j + 1 <= k <= n,
            n == key@.len(),
            n - (j + 1) == 18,
            p2 == key@.skip(j + 1),
            key_parts(key@) == Some((p1, p2)),
            gid_part_ok(p1),
            forall|m: int| j + 1 <= m < k ==> is_hex_digit(#[trigger] key@[m]),
        decreases n - k,
    {
        match crate::codec::hex_val_of(key[k]) {
            Some(_) => {},
            None => {
                proof {
                    assert(p2[k - (j + 1)] == key@[k as int]);
                    assert(!lsn_part_ok(p2));
                    lemma_no_built_key(key@);
                }
                return Err(CommitKeyParseErr::Lsn);
            },
        }
        k = k + 1;
    }
    if key[j + 1] != 48 || key[j + 2] != 48 {
        proof {
            assert(p2[0] == key@[j + 1] && p2[1] == key@[j + 2]);
            assert(!lsn_part_ok(p2));
            lemma_no_built_key(key@);
        }
        return Err(CommitKeyParseErr::Lsn);
    }
    proof {
        lemma_pow16_64();
        assert forall|m: int| 0 <= m < 18 implies is_hex_digit(#[trigger] p2[m]) by {
            assert(p2[m] == key@[j + 1 + m]);
        }
        assert(lsn_part_ok(p2));
    }
    let lsn = parse_hex_val(key, j + 3, 16);
    proof {
        lemma_hex_msf_val_bound(key@.subrange(j + 3, n as int));
        lemma_parse_key_exact(key@, j as int, vid@, lsn);
    }
    Ok((vid, lsn))
}

/// Copies `bytes[from..to]` out of a slice.
pub fn slice_range(key: &[u8], from: usize, to: usize) -> (r: Vec<u8>)
    requires
        from <= to <= key@.len(),
    ensures
        r@ == key@.subrange(from as int, to as int),
{
    let mut out: Vec<u8> = Vec::new();
    let mut i: usize = from;
    while i < to
        invariant
            from <= i <= to <= key@.len(),
            out@ =~= key@.subrange(from as int, i as int),
        decreases to - i,
    {
        out.push(key[i]);
        proof {
            assert(key@.subrange(from as int, i + 1) =~= key@.subrange(from as int, i as int).push(
                key@[i as int],
            ));
        }
        i = i + 1;
    }
    out
}

// Helper lemmas tying the exec scans to the spec decomposition of a
// key, and showing that a key that fails it was not built.

/// The first slash at or after `lo` is where a scan stops.
proof fn lemma_first_slash(b: Seq<u8>, lo: int, j: int)
    requires
        0 <= lo <= j <= b.len(),
        forall|k: int| lo <= k < j ==> b[k] != 47,
        j < b.len() ==> b[j] == 47,
    ensures
        first_slash_from(b, lo) == if j < b.len() {
            j
        } else {
            -1
        },
    decreases j - lo,
{
    if lo < j {
        lemma_first_slash(b, lo + 1, j);
    }
}

/// A built key decomposes into its pretty identifier and fixed-width
/// LSN numeral, both well formed.
proof fn lemma_built_key_parts(v: Seq<u8>, l: u64)
    ensures
        v.len() == 16 ==> (key_parts(commit_key_spec(v, l)) matches Some(p) && p.0 == hex_of(v)
            && p.1 == hex_msf(l as int, 18) && gid_part_ok(p.0) && lsn_part_ok(p.1)),
{
    if v.len() == 16 {
        let key = commit_key_spec(v, l);
        lemma_key_hex_part(key, v, l);
        assert(key.subrange(0, 8) =~= volumes_prefix());
        lemma_first_slash(key, 8, 40);
        lemma_first_slash(key, 41, 59);
        assert(key.skip(41) =~= key.subrange(41, 59));
        lemma_pow16_64();
        vstd::arithmetic::power::lemma_pow_strictly_increases(16, 16, 17);
        lemma_hex_msf_pad(l as int, 18);
        lemma_hex_msf_pad(l as int, 17);
        crate::codec::lemma_hex_msf_len(l as int, 16);
        assert(hex_msf(l as int, 18)[0] == 48);
        assert(hex_msf(l as int, 18)[1] == hex_msf(l as int, 17)[0]);
        assert(hex_msf(l as int, 18)[1] == 48);
        assert forall|i: int| 0 <= i < 32 implies is_hex_digit(#[trigger] hex_of(v)[i]) by {
            assert(hex_of(v)[i] == key[8 + i]);
        }
    }
}

/// A key whose decomposition fails where the parser stopped was not
/// built: built keys decompose into well-formed parts.
proof fn lemma_no_built_key(key: Seq<u8>)
    requires
        !(key_parts(key) matches Some(p) && gid_part_ok(p.0) && lsn_part_ok(p.1)),
    ensures
        forall|v: Seq<u8>, l: u64| v.len() == 16 ==> key != commit_key_spec(v, l),
{
    assert forall|v: Seq<u8>, l: u64| v.len() == 16 implies key != commit_key_spec(v, l) by {
        if key == commit_key_spec(v, l) {
            lemma_built_key_parts(v, l);
        }
    }
}

/// In a built key the identifier part is exactly the 32 pretty/// In a built key the identifier part is exactly the 32 pretty
/// characters, which hold no slash.
proof fn lemma_key_hex_part(key: Seq<u8>, v: Seq<u8>, l: u64)
    requires
        v.len() == 16,
        key == commit_key_spec(v, l),
    ensures
        key.len() == 59,
        forall|k: int| 8 <= k < 40 ==> is_hex_digit(#[trigger] key[k]) && key[k] != 47,
        key[40] == 47,
        forall|k: int| 41 <= k < 59 ==> is_hex_digit(#[trigger] key[k]),
        key.subrange(8, 40) == hex_of(v),
        key.subrange(41, 59) == hex_msf(l as int, 18),
{
    lemma_pow16_64();
    vstd::arithmetic::power::lemma_pow_strictly_increases(16, 16, 18);
    crate::codec::lemma_hex_msf_len(l as int, 18);
    lemma_hex_msf_digits(l as int, 18);
    assert(hex_of(v).len() == 32);
    assert forall|k: int| 8 <= k < 40 implies is_hex_digit(#[trigger] key[k]) && key[k] != 47 by {
        assert(key[k] == hex_of(v)[k - 8]);
        let b = v[(k - 8) / 2];
        vstd::arithmetic::div_mod::lemma_mod_bound(b as int, 16);
        vstd::arithmetic::div_mod::lemma_mod_bound(k - 8, 2);
    }
    assert forall|k: int| 41 <= k < 59 implies is_hex_digit(#[trigger] key[k]) by {
        assert(key[k] == hex_msf(l as int, 18)[k - 41]);
    }
    assert(key.subrange(8, 40) =~= hex_of(v));
    assert(key.subrange(41, 59) =~= hex_msf(l as int, 18));
}

/// If the identifier part does not parse, the key was not built.
proof fn lemma_key_gid_part(key: Seq<u8>, j: int)
    requires
        8 <= j < key.len(),
        key[j] == 47,
        forall|k: int| 8 <= k < j ==> key[k] != 47,
        !(key.subrange(8, j).len() == 32 && (forall|i: int|
            0 <= i < 32 ==> is_hex_digit(#[trigger] key.subrange(8, j)[i]))),
    ensures
        forall|v: Seq<u8>, l: u64| v.len() == 16 ==> key != commit_key_spec(v, l),
{
    assert forall|v: Seq<u8>, l: u64| v.len() == 16 implies key != commit_key_spec(v, l) by {
        if key == commit_key_spec(v, l) {
            lemma_key_hex_part(key, v, l);
            assert(j == 40);
            assert(key.subrange(8, 40) =~= hex_of(v));
            assert forall|i: int| 0 <= i < 32 implies is_hex_digit(
                #[trigger] key.subrange(8, 40)[i],
            ) by {
                assert(key.subrange(8, 40)[i] == key[8 + i]);
            }
        }
    }
}

/// If the LSN part is not 18 characters, the key was not built.
proof fn lemma_key_lsn_len(key: Seq<u8>, j: int)
    requires
        8 <= j < key.len(),
        key[j] == 47,
        forall|k: int| 8 <= k < j ==> key[k] != 47,
        key.len() - (j + 1) != 18,
    ensures
        forall|v: Seq<u8>, l: u64| v.len() == 16 ==> key != commit_key_spec(v, l),
{
    assert forall|v: Seq<u8>, l: u64| v.len() == 16 implies key != commit_key_spec(v, l) by {
        if key == commit_key_spec(v, l) {
            lemma_key_hex_part(key, v, l);
            assert(j == 40);
        }
    }
}

/// If an LSN character is not a hex digit, the key was not built.
proof fn lemma_key_lsn_digits(key: Seq<u8>, j: int, k: int)
    requires
        8 <= j < key.len(),
        key[j] == 47,
        forall|m: int| 8 <= m < j ==> key[m] != 47,
        j + 1 <= k < key.len(),
        !is_hex_digit(key[k]),
    ensures
        forall|v: Seq<u8>, l: u64| v.len() == 16 ==> key != commit_key_spec(v, l),
{
    assert forall|v: Seq<u8>, l: u64| v.len() == 16 implies key != commit_key_spec(v, l) by {
        if key == commit_key_spec(v, l) {
            lemma_key_hex_part(key, v, l);
            assert(j == 40);
        }
    }
}

/// A 64-bit LSN starts with two zero pad digits.
proof fn lemma_key_lsn_pad(key: Seq<u8>, j: int)
    requires
        8 <= j,
        j + 3 <= key.len(),
        key[j] == 47,
        forall|m: int| 8 <= m < j ==> key[m] != 47,
        key[j + 1] != 48 || key[j + 2] != 48,
    ensures
        forall|v: Seq<u8>, l: u64| v.len() == 16 ==> key != commit_key_spec(v, l),
{
    assert forall|v: Seq<u8>, l: u64| v.len() == 16 implies key != commit_key_spec(v, l) by {
        if key == commit_key_spec(v, l) {
            lemma_key_hex_part(key, v, l);
            assert(j == 40);
            lemma_pow16_64();
            vstd::arithmetic::power::lemma_pow_strictly_increases(16, 16, 17);
            lemma_hex_msf_pad(l as int, 18);
            lemma_hex_msf_pad(l as int, 17);
            crate::codec::lemma_hex_msf_len(l as int, 16);
            assert(key[41] == hex_msf(l as int, 18)[0]);
            assert(hex_msf(l as int, 18)[0] == 48);
            assert(hex_msf(l as int, 18)[1] == hex_msf(l as int, 17)[0]);
        }
    }
}

/// A structurally valid key parses back to exactly the parts that
/// build it.
proof fn lemma_parse_key_exact(key: Seq<u8>, j: int, vid: Seq<u8>, lsn: u64)
    requires
        key.len() >= 8,
        forall|i: int| 0 <= i < 8 ==> key[i] == commit_key_prefix_spec(Seq::empty())[i],
        8 <= j < key.len(),
        key[j] == 47,
        forall|k: int| 8 <= k < j ==> key[k] != 47,
        key.len() - (j + 1) == 18,
        forall|m: int| j + 1 <= m < key.len() ==> is_hex_digit(#[trigger] key[m]),
        key[j + 1] == 48,
        key[j + 2] == 48,
        vid.len() == 16,
        hex_of(vid) == key.subrange(8, j),
        lsn == hex_msf_val(key.subrange(j + 3, key.len() as int)),
    ensures
        key == commit_key_spec(vid, lsn),
{
    assert(hex_of(vid).len() == 32);
    assert(j == 40);
    let tail18 = key.subrange(41, 59);
    let tail16 = key.subrange(43, 59);
    assert forall|i: int| 0 <= i < 18 implies is_hex_digit(#[trigger] tail18[i]) by {
        assert(tail18[i] == key[41 + i]);
    }
    lemma_hex_msf_val_bound(tail16);
    lemma_hex_msf_inverse(tail18);
    assert(tail18.skip(1) =~= key.subrange(42, 59));
    lemma_hex_msf_val_leading_zero(tail18);
    let tail17 = key.subrange(42, 59);
    assert(tail17.skip(1) =~= tail16);
    lemma_hex_msf_val_leading_zero(tail17);
    assert(hex_msf_val(tail18) == lsn);
    assert(hex_msf(lsn as int, 18) == tail18);
    assert(key =~= commit_key_spec(vid, lsn));
}

} // verus!
