//! Globally unique identifiers for volumes and segments: sixteen raw bytes
//! with a lowercase hexadecimal "pretty" rendering whose lexicographic
//! order agrees with the byte order.

use vstd::prelude::*;
use crate::codec::{hex_digit, hex_val, is_hex_digit, hex_digit_of, hex_val_of};

verus! {

/// Number of raw bytes in an identifier.
pub const GID_LEN: usize = 16;

/// Number of characters in the pretty rendering.
pub const GID_PRETTY_LEN: usize = 32;

/// Why a pretty identifier failed to parse.
#[derive(Clone, Copy, Debug, PartialEq, Eq, Structural)]
pub enum GidParseErr {
    /// The input is not exactly 32 characters long.
    Length,
    /// The input holds a character that is not a lowercase hex digit.
    Character,
}

/// The pretty rendering of a byte string: two lowercase hex digits per
/// byte, most significant nibble first.
pub open spec fn hex_of(s: Seq<u8>) -> Seq<u8> {
    Seq::new(2 * s.len(), |i: int| {
        if i % 2 == 0 {
            hex_digit(s[i / 2] as int / 16)
        } else {
            hex_digit(s[i / 2] as int % 16)
        }
    })
}

/// The bytes denoted by a string of hex digit pairs.
pub open spec fn unhex_pairs(s: Seq<u8>) -> Seq<u8> {
    Seq::new(s.len() / 2, |i: int| (hex_val(s[2 * i]) * 16 + hex_val(s[2 * i + 1])) as u8)
}

/// A 16-byte globally unique volume identifier.
#[derive(Clone, Copy, Debug, PartialEq, Eq)]
pub struct VolumeId {
    data: [u8; 16],
}

/// A 16-byte globally unique segment identifier.
#[derive(Clone, Copy, Debug, PartialEq, Eq)]
pub struct SegmentId {
    data: [u8; 16],
}

impl View for VolumeId {
    type V = Seq<u8>;

    closed spec fn view(&self) -> Seq<u8> {
        self.data@
    }
}

impl View for SegmentId {
    type V = Seq<u8>;

    closed spec fn view(&self) -> Seq<u8> {
        self.data@
    }
}

impl VolumeId {
    pub fn new(data: [u8; 16]) -> (r: Self)
        ensures
            r@ == data@,
    {
        VolumeId { data }
    }

    /// The identifier's length never varies.
    pub proof fn lemma_len(&self)
        ensures
            self@.len() == 16,
    {
    }

    /// The raw bytes of the identifier.
    pub fn as_bytes(&self) -> (r: &[u8; 16])
        ensures
            r@ == self@,
    {
        &self.data
    }

    /// Appends the raw bytes of the identifier to `out`.
    pub fn push_bytes(&self, out: &mut Vec<u8>)
        ensures
            final(out)@ == old(out)@ + self@,
    {
        push_all_16(out, &self.data);
    }

    /// Tests two identifiers for equality.
    pub fn eq(&self, other: &VolumeId) -> (r: bool)
        ensures
            r == (self@ == other@),
    {
        crate::codec::bytes_eq(self.data.as_slice(), other.data.as_slice())
    }

    /// The pretty rendering: 32 lowercase hex characters whose
    /// lexicographic order agrees with the raw byte order.
    pub fn pretty(&self) -> (r: Vec<u8>)
        ensures
            r@ == hex_of(self@),
    {
        hex_encode_16(&self.data)
    }

    /// Parses a pretty rendering back into an identifier.
    pub fn from_pretty(s: &[u8]) -> (r: Result<VolumeId, GidParseErr>)
        ensures
            r is Ok <==> s@.len() == 32 && (forall|i: int|
                0 <= i < 32 ==> is_hex_digit(#[trigger] s@[i])),
            r matches Ok(v) ==> v@ == unhex_pairs(s@) && hex_of(v@) == s@,
            r matches Err(e) ==> (e is Length <==> s@.len() != 32),
    {
        match hex_decode_16(s) {
            Ok(data) => Ok(VolumeId { data }),
            Err(e) => Err(e),
        }
    }
}

impl SegmentId {
    pub fn new(data: [u8; 16]) -> (r: Self)
        ensures
            r@ == data@,
    {
        SegmentId { data }
    }

    /// The identifier's length never varies.
    pub proof fn lemma_len(&self)
        ensures
            self@.len() == 16,
    {
    }

    /// The raw bytes of the identifier.
    pub fn as_bytes(&self) -> (r: &[u8; 16])
        ensures
            r@ == self@,
    {
        &self.data
    }

    /// Appends the raw bytes of the identifier to `out`.
    pub fn push_bytes(&self, out: &mut Vec<u8>)
        ensures
            final(out)@ == old(out)@ + self@,
    {
        push_all_16(out, &self.data);
    }

    /// Tests two identifiers for equality.
    pub fn eq(&self, other: &SegmentId) -> (r: bool)
        ensures
            r == (self@ == other@),
    {
        crate::codec::bytes_eq(self.data.as_slice(), other.data.as_slice())
    }

    /// The pretty rendering: 32 lowercase hex characters.
    pub fn pretty(&self) -> (r: Vec<u8>)
        ensures
            r@ == hex_of(self@),
    {
        hex_encode_16(&self.data)
    }

    /// Parses a pretty rendering back into an identifier.
    pub fn from_pretty(s: &[u8]) -> (r: Result<SegmentId, GidParseErr>)
        ensures
            r is Ok <==> s@.len() == 32 && (forall|i: int|
                0 <= i < 32 ==> is_hex_digit(#[trigger] s@[i])),
            r matches Ok(v) ==> v@ == unhex_pairs(s@) && hex_of(v@) == s@,
            r matches Err(e) ==> (e is Length <==> s@.len() != 32),
    {
        match hex_decode_16(s) {
            Ok(data) => Ok(SegmentId { data }),
            Err(e) => Err(e),
        }
    }
}

/// Appends all 16 bytes of `data` to `out`.
fn push_all_16(out: &mut Vec<u8>, data: &[u8; 16])
    ensures
        final(out)@ == old(out)@ + data@,
{
    let mut i: usize = 0;
    while i < 16
        invariant
            i <= 16,
            out@ =~= old(out)@ + data@.take(i as int),
        decreases 16 - i,
    {
        out.push(data[i]);
        proof {
            assert(data@.take(i + 1) =~= data@.take(i as int).push(data@[i as int]));
        }
        i = i + 1;
    }
    proof {
        assert(data@.take(16) =~= data@);
    }
}

/// Renders 16 bytes as 32 lowercase hex characters.
fn hex_encode_16(data: &[u8; 16]) -> (r: Vec<u8>)
    ensures
        r@ == hex_of(data@),
{
    let mut out: Vec<u8> = Vec::new();
    let mut i: usize = 0;
    while i < 16
        invariant
            i <= 16,
            out@.len() == 2 * i,
            forall|j: int| 0 <= j < 2 * i ==> out@[j] == hex_of(data@)[j],
        decreases 16 - i,
    {
        let b = data[i];
        out.push(hex_digit_of((b / 16) as u64));
        out.push(hex_digit_of((b % 16) as u64));
        i = i + 1;
    }
    proof {
        assert(out@ =~= hex_of(data@));
    }
    out
}

/// Splits a byte into nibbles: the quotient and remainder by 16 are the
/// unique pair that reassembles to the byte.
proof fn lemma_nibbles(hi: int, lo: int)
    requires
        0 <= hi < 16,
        0 <= lo < 16,
    ensures
        (hi * 16 + lo) / 16 == hi,
        (hi * 16 + lo) % 16 == lo,
        hi * 16 + lo < 256,
{
    vstd::arithmetic::div_mod::lemma_fundamental_div_mod_converse(hi * 16 + lo, 16, hi, lo);
}

/// Parses 32 hex characters into 16 bytes.
fn hex_decode_16(s: &[u8]) -> (r: Result<[u8; 16], GidParseErr>)
    ensures
        r is Ok <==> s@.len() == 32 && (forall|i: int|
            0 <= i < 32 ==> is_hex_digit(#[trigger] s@[i])),
        r matches Ok(data) ==> data@ == unhex_pairs(s@) && hex_of(data@) == s@,
        r matches Err(e) ==> (e is Length <==> s@.len() != 32),
{
    if s.len() != 32 {
        return Err(GidParseErr::Length);
    }
    let mut data: [u8; 16] = [0; 16];
    let mut i: usize = 0;
    while i < 16
        invariant
            i <= 16,
            s@.len() == 32,
            forall|j: int| 0 <= j < 2 * i ==> is_hex_digit(#[trigger] s@[j]),
            forall|j: int| 0 <= j < i ==> data@[j] == unhex_pairs(s@)[j],
            forall|j: int| 0 <= j < 2 * i ==> hex_of(data@)[j] == s@[j],
        decreases 16 - i,
    {
        let hi = match hex_val_of(s[2 * i]) {
            Some(v) => v,
            None => {
                return Err(GidParseErr::Character);
            },
        };
        let lo = match hex_val_of(s[2 * i + 1]) {
            Some(v) => v,
            None => {
                return Err(GidParseErr::Character);
            },
        };
        let b = hi * 16 + lo;
        proof {
            lemma_nibbles(hi as int, lo as int);
        }
        data[i] = b;
        proof {
            lemma_nibbles(hi as int, lo as int);
            assert(data@[i as int] == unhex_pairs(s@)[i as int]);
            assert(hex_of(data@)[2 * i] == s@[2 * i]);
            assert(hex_of(data@)[2 * i + 1] == s@[2 * i + 1]);
        }
        i = i + 1;
    }
    proof {
        assert(data@ =~= unhex_pairs(s@));
        assert(hex_of(data@) =~= s@);
    }
    Ok(data)
}

} // verus!
