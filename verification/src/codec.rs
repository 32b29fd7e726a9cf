//! Byte-level building blocks shared by the on-disk and on-wire layouts:
//! little-endian integer fields, lowercase hexadecimal digits, and the
//! lexicographic order on byte strings that the key layouts rely on.

use vstd::prelude::*;
use vstd::arithmetic::div_mod::{
    lemma_div_is_ordered, lemma_fundamental_div_mod, lemma_mod_bound, lemma_div_pos_is_pos,
};
use vstd::arithmetic::power::{pow, lemma_pow_positive, lemma_pow_increases};

verus! {

// ---------------------------------------------------------------------------
// Little-endian integer fields
// ---------------------------------------------------------------------------

/// The `n`-byte little-endian encoding of `v` (truncating above `256^n`).
pub open spec fn le_bytes(v: int, n: nat) -> Seq<u8>
    decreases n,
{
    if n == 0 {
        Seq::empty()
    } else {
        seq![(v % 256) as u8] + le_bytes(v / 256, (n - 1) as nat)
    }
}

/// The integer denoted by a little-endian byte string.
pub open spec fn le_val(b: Seq<u8>) -> int
    decreases b.len(),
{
    if b.len() == 0 {
        0
    } else {
        b[0] + 256 * le_val(b.skip(1))
    }
}

pub proof fn lemma_le_bytes_len(v: int, n: nat)
    ensures
        le_bytes(v, n).len() == n,
    decreases n,
{
    if n > 0 {
        lemma_le_bytes_len(v / 256, (n - 1) as nat);
    }
}

/// Little-endian round trip: decoding the encoding of `v` yields `v` back.
pub proof fn lemma_le_roundtrip(v: int, n: nat)
    requires
        0 <= v < pow(256, n),
    ensures
        le_bytes(v, n).len() == n,
        le_val(le_bytes(v, n)) == v,
    decreases n,
{
    reveal(pow);
    lemma_le_bytes_len(v, n);
    if n == 0 {
    } else {
        lemma_fundamental_div_mod(v, 256);
        lemma_mod_bound(v, 256);
        assert(pow(256, n) == 256 * pow(256, (n - 1) as nat));
        assert(v / 256 < pow(256, (n - 1) as nat)) by {
            lemma_pow_positive(256, (n - 1) as nat);
            if v / 256 >= pow(256, (n - 1) as nat) {
                assert(256 * (v / 256) >= 256 * pow(256, (n - 1) as nat))
                    by (nonlinear_arith)
                    requires v / 256 >= pow(256, (n - 1) as nat) > 0;
            }
        }
        assert(v / 256 >= 0) by {
            lemma_div_pos_is_pos(v, 256);
        }
        lemma_le_roundtrip(v / 256, (n - 1) as nat);
        assert(le_bytes(v, n).skip(1) =~= le_bytes(v / 256, (n - 1) as nat));
    }
}

/// `le_val` of an `n`-byte string is below `256^n`.
pub proof fn lemma_le_val_bound(b: Seq<u8>)
    ensures
        0 <= le_val(b) < pow(256, b.len()),
    decreases b.len(),
{
    reveal(pow);
    if b.len() == 0 {
    } else {
        lemma_le_val_bound(b.skip(1));
        assert(pow(256, b.len()) == 256 * pow(256, (b.len() - 1) as nat));
    }
}

/// Appends the `n`-byte little-endian encoding of `v` to `out`.
pub fn push_le_bytes(out: &mut Vec<u8>, v: u64, n: usize)
    ensures
        final(out)@ == old(out)@ + le_bytes(v as int, n as nat),
        final(out)@.len() == old(out)@.len() + n,
    decreases n,
{
    proof {
        lemma_le_bytes_len(v as int, n as nat);
    }
    if n == 0 {
        assert(out@ =~= out@ + le_bytes(v as int, 0));
    } else {
        out.push((v % 256) as u8);
        push_le_bytes(out, v / 256, n - 1);
        assert(out@ =~= old(out)@ + le_bytes(v as int, n as nat));
    }
}

/// Reads the `n`-byte little-endian field at `off` in `b`.
pub fn read_le_bytes(b: &[u8], off: usize, n: usize) -> (r: u64)
    requires
        off + n <= b@.len(),
        n <= 8,
    ensures
        r == le_val(b@.subrange(off as int, off + n)),
    decreases n,
{
    if n == 0 {
        0
    } else {
        let lo = b[off];
        let rest = read_le_bytes(b, off + 1, n - 1);
        proof {
            lemma_le_val_bound(b@.subrange(off + 1, off + n));
            assert(b@.subrange(off as int, off + n).skip(1) =~= b@.subrange(off + 1, off + n));
            assert(pow(256, 7) == 0x100_0000_0000_0000) by {
                reveal_with_fuel(pow, 8);
            }
            if ((n - 1) as nat) < 7 {
                vstd::arithmetic::power::lemma_pow_increases(256, (n - 1) as nat, 7);
            }
        }
        lo as u64 + 256 * rest
    }
}

/// Round trip at the width of a `u32` field.
pub proof fn lemma_le32_roundtrip(v: u32)
    ensures
        le_bytes(v as int, 4).len() == 4,
        le_val(le_bytes(v as int, 4)) == v,
{
    assert(pow(256, 4) == 0x1_0000_0000) by {
        reveal_with_fuel(pow, 5);
    }
    lemma_le_roundtrip(v as int, 4);
}

/// Round trip at the width of a `u64` field.
pub proof fn lemma_le64_roundtrip(v: u64)
    ensures
        le_bytes(v as int, 8).len() == 8,
        le_val(le_bytes(v as int, 8)) == v,
{
    assert(pow(256, 8) == 0x1_0000_0000_0000_0000) by {
        reveal_with_fuel(pow, 9);
    }
    lemma_le_roundtrip(v as int, 8);
}

/// Reads the 4-byte little-endian field at `off` in `b`.
pub fn read_le_u32(b: &[u8], off: usize) -> (r: u32)
    requires
        off + 4 <= b@.len(),
    ensures
        r == le_val(b@.subrange(off as int, off + 4)),
{
    let v = read_le_bytes(b, off, 4);
    proof {
        lemma_le_val_bound(b@.subrange(off as int, off + 4));
        assert(pow(256, 4) == 0x1_0000_0000) by {
            reveal_with_fuel(pow, 5);
        }
    }
    v as u32
}

/// Reads the 8-byte little-endian field at `off` in `b`.
pub fn read_le_u64(b: &[u8], off: usize) -> (r: u64)
    requires
        off + 8 <= b@.len(),
    ensures
        r == le_val(b@.subrange(off as int, off + 8)),
{
    read_le_bytes(b, off, 8)
}

// ---------------------------------------------------------------------------
// Lowercase hexadecimal digits
// ---------------------------------------------------------------------------

/// The ASCII code of the lowercase hexadecimal digit for `d` in `0..16`.
pub open spec fn hex_digit(d: int) -> u8 {
    if d < 10 {
        (48 + d) as u8
    } else {
        (87 + d) as u8
    }
}

/// Whether `c` is an ASCII lowercase hexadecimal digit.
pub open spec fn is_hex_digit(c: u8) -> bool {
    (48 <= c <= 57) || (97 <= c <= 102)
}

/// The value in `0..16` denoted by the hexadecimal digit `c`.
pub open spec fn hex_val(c: u8) -> int {
    if c <= 57 {
        c - 48
    } else {
        c - 87
    }
}

/// Hex digits order the same way as the values they denote.
pub proof fn lemma_hex_digit_monotone(d1: int, d2: int)
    requires
        0 <= d1 < d2 < 16,
    ensures
        hex_digit(d1) < hex_digit(d2),
{
}

/// The executable form of `hex_digit`.
pub fn hex_digit_of(d: u64) -> (r: u8)
    requires
        d < 16,
    ensures
        r == hex_digit(d as int),
{
    if d < 10 {
        48 + (d as u8)
    } else {
        87 + (d as u8)
    }
}

/// The value of an executable hexadecimal digit, if it is one.
pub fn hex_val_of(c: u8) -> (r: Option<u8>)
    ensures
        r is Some <==> is_hex_digit(c),
        r matches Some(v) ==> v == hex_val(c) && v < 16,
{
    if 48 <= c && c <= 57 {
        Some(c - 48)
    } else if 97 <= c && c <= 102 {
        Some(c - 87)
    } else {
        None
    }
}

// ---------------------------------------------------------------------------
// Fixed-width, most-significant-first hexadecimal numerals
// ---------------------------------------------------------------------------

/// The `n`-digit lowercase hexadecimal numeral of `v`, most significant
/// digit first (the fixed-width zero-padded rendering of `v`).
pub open spec fn hex_msf(v: int, n: nat) -> Seq<u8>
    decreases n,
{
    if n == 0 {
        Seq::empty()
    } else {
        seq![hex_digit((v / pow(16, (n - 1) as nat)) % 16)]
            + hex_msf(v % pow(16, (n - 1) as nat), (n - 1) as nat)
    }
}

pub proof fn lemma_hex_msf_len(v: int, n: nat)
    ensures
        hex_msf(v, n).len() == n,
    decreases n,
{
    if n > 0 {
        lemma_hex_msf_len(v % pow(16, (n - 1) as nat), (n - 1) as nat);
    }
}

/// A value below `16^(n-1)` pads with a leading `'0'`.
pub proof fn lemma_hex_msf_pad(v: int, n: nat)
    requires
        n > 0,
        0 <= v < pow(16, (n - 1) as nat),
    ensures
        hex_msf(v, n) == seq![48u8] + hex_msf(v, (n - 1) as nat),
{
    lemma_pow_positive(16, (n - 1) as nat);
    vstd::arithmetic::div_mod::lemma_basic_div(v, pow(16, (n - 1) as nat));
    vstd::arithmetic::div_mod::lemma_small_mod(v as nat, pow(16, (n - 1) as nat) as nat);
    assert(hex_msf(v, n) =~= seq![48u8] + hex_msf(v, (n - 1) as nat));
}

/// `16^k`, executable, for exponents that fit in a `u64`.
pub fn pow16(k: usize) -> (r: u64)
    requires
        k <= 15,
    ensures
        r == pow(16, k as nat),
        r >= 1,
    decreases k,
{
    proof {
        reveal_with_fuel(pow, 17);
    }
    if k == 0 {
        1
    } else {
        let rest = pow16(k - 1);
        proof {
            vstd::arithmetic::power::lemma_pow_increases(16, (k - 1) as nat, 14);
        }
        16 * rest
    }
}

/// Appends the `n`-digit zero-padded hexadecimal numeral of `v` to `out`,
/// most significant digit first.
pub fn push_hex_msf(out: &mut Vec<u8>, v: u64, n: usize)
    requires
        n <= 16,
        v < pow(16, n as nat),
    ensures
        final(out)@ == old(out)@ + hex_msf(v as int, n as nat),
    decreases n,
{
    proof {
        lemma_hex_msf_len(v as int, n as nat);
    }
    if n == 0 {
        assert(out@ =~= out@ + hex_msf(v as int, 0));
    } else {
        let p = pow16(n - 1);
        let d = v / p;
        let rest = v % p;
        proof {
            reveal(pow);
            lemma_fundamental_div_mod(v as int, p as int);
            lemma_mod_bound(v as int, p as int);
            lemma_div_pos_is_pos(v as int, p as int);
            vstd::arithmetic::div_mod::lemma_multiply_divide_lt(v as int, p as int, 16);
            vstd::arithmetic::div_mod::lemma_small_mod((d as nat) % 16, 16);
            vstd::arithmetic::div_mod::lemma_small_mod(d as nat, 16);
        }
        let digit = hex_digit_of(d);
        out.push(digit);
        push_hex_msf(out, rest, n - 1);
        assert(out@ =~= old(out)@ + hex_msf(v as int, n as nat));
    }
}

/// Every character of a fixed-width numeral is a hex digit.
pub proof fn lemma_hex_msf_digits(v: int, n: nat)
    requires
        0 <= v < pow(16, n),
    ensures
        hex_msf(v, n).len() == n,
        forall|i: int| 0 <= i < n ==> is_hex_digit(#[trigger] hex_msf(v, n)[i]),
    decreases n,
{
    reveal(pow);
    lemma_hex_msf_len(v, n);
    if n > 0 {
        let p = pow(16, (n - 1) as nat);
        lemma_pow_positive(16, (n - 1) as nat);
        lemma_mod_bound(v, p);
        lemma_div_pos_is_pos(v, p);
        lemma_mod_bound(v / p, 16);
        lemma_hex_msf_digits(v % p, (n - 1) as nat);
        let s = hex_msf(v, n);
        assert(s[0] == hex_digit((v / p) % 16));
        assert(is_hex_digit(s[0]));
        assert forall|i: int| 0 <= i < n implies is_hex_digit(#[trigger] s[i]) by {
            if i > 0 {
                assert(s[i] == hex_msf(v % p, (n - 1) as nat)[i - 1]);
            }
        }
    }
}

/// The value a fixed-width numeral denotes, most significant digit
/// first.
pub open spec fn hex_msf_val(s: Seq<u8>) -> int
    decreases s.len(),
{
    if s.len() == 0 {
        0
    } else {
        hex_val(s[0]) * pow(16, (s.len() - 1) as nat) + hex_msf_val(s.skip(1))
    }
}

/// A numeral of hex digits denotes a value below `16^len`.
pub proof fn lemma_hex_msf_val_bound(s: Seq<u8>)
    requires
        forall|i: int| 0 <= i < s.len() ==> is_hex_digit(#[trigger] s[i]),
    ensures
        0 <= hex_msf_val(s) < pow(16, s.len()),
    decreases s.len(),
{
    reveal(pow);
    if s.len() == 0 {
    } else {
        let p = pow(16, (s.len() - 1) as nat);
        lemma_pow_positive(16, (s.len() - 1) as nat);
        lemma_hex_msf_val_bound(s.skip(1));
        assert(0 <= hex_val(s[0]) <= 15);
        assert(hex_val(s[0]) * p <= 15 * p) by (nonlinear_arith)
            requires 0 <= hex_val(s[0]) <= 15 && p > 0;
        assert(hex_val(s[0]) * p >= 0) by (nonlinear_arith)
            requires 0 <= hex_val(s[0]) && p > 0;
        assert(pow(16, s.len()) == 16 * p);
    }
}

/// Rendering the value of a hex numeral reproduces the numeral.
pub proof fn lemma_hex_msf_inverse(s: Seq<u8>)
    requires
        forall|i: int| 0 <= i < s.len() ==> is_hex_digit(#[trigger] s[i]),
    ensures
        hex_msf(hex_msf_val(s), s.len()) == s,
    decreases s.len(),
{
    reveal(pow);
    if s.len() == 0 {
        assert(hex_msf(hex_msf_val(s), 0) =~= s);
    } else {
        let n = s.len();
        let p = pow(16, (n - 1) as nat);
        lemma_pow_positive(16, (n - 1) as nat);
        let d = hex_val(s[0]);
        let rest = hex_msf_val(s.skip(1));
        lemma_hex_msf_val_bound(s.skip(1));
        let v = hex_msf_val(s);
        assert(v == d * p + rest);
        vstd::arithmetic::div_mod::lemma_fundamental_div_mod_converse(v, p, d, rest);
        assert(v / p == d && v % p == rest);
        vstd::arithmetic::div_mod::lemma_small_mod(d as nat, 16);
        lemma_hex_msf_inverse(s.skip(1));
        assert(hex_digit(d) == s[0]);
        assert(hex_msf(v, n) =~= s);
    }
}

/// A leading zero digit does not change a numeral's value.
pub proof fn lemma_hex_msf_val_leading_zero(s: Seq<u8>)
    requires
        s.len() > 0,
        s[0] == 48,
    ensures
        hex_msf_val(s) == hex_msf_val(s.skip(1)),
{
    assert(hex_val(48u8) == 0);
    assert(0 * pow(16, (s.len() - 1) as nat) == 0) by (nonlinear_arith);
}

/// Reads the value of the `n`-digit hex numeral at `off` in `s`.
pub fn parse_hex_val(s: &[u8], off: usize, n: usize) -> (r: u64)
    requires
        off + n <= s@.len(),
        n <= 16,
        forall|i: int| off <= i < off + n ==> is_hex_digit(#[trigger] s@[i]),
    ensures
        r == hex_msf_val(s@.subrange(off as int, off + n)),
    decreases n,
{
    let ghost sub = s@.subrange(off as int, off + n);
    if n == 0 {
        0
    } else {
        let d = match hex_val_of(s[off]) {
            Some(v) => v,
            None => {
                proof {
                    assert(is_hex_digit(s@[off as int]));
                    assert(false);
                }
                0
            },
        };
        let p = pow16(n - 1);
        let rest = parse_hex_val(s, off + 1, n - 1);
        proof {
            assert(sub.skip(1) =~= s@.subrange(off + 1, off + n));
            lemma_hex_msf_val_bound(sub.skip(1));
            assert(pow(16, 15) == 0x1000_0000_0000_0000) by {
                reveal_with_fuel(pow, 16);
            }
            if ((n - 1) as nat) < 15 {
                lemma_pow_increases(16, (n - 1) as nat, 15);
            }
            assert(d * p <= 15 * p) by (nonlinear_arith)
                requires 0 <= d <= 15 && p > 0;
        }
        d as u64 * p + rest
    }
}

// ---------------------------------------------------------------------------
// Lexicographic order on byte strings
// ---------------------------------------------------------------------------

/// Strict lexicographic order on byte strings: a proper prefix sorts
/// before its extensions, and otherwise the first differing byte decides.
pub open spec fn lex_lt(a: Seq<u8>, b: Seq<u8>) -> bool
    decreases b.len(),
{
    if b.len() == 0 {
        false
    } else if a.len() == 0 {
        true
    } else if a[0] < b[0] {
        true
    } else if a[0] == b[0] {
        lex_lt(a.skip(1), b.skip(1))
    } else {
        false
    }
}

/// Reflexive closure of `lex_lt`.
pub open spec fn lex_le(a: Seq<u8>, b: Seq<u8>) -> bool {
    lex_lt(a, b) || a == b
}

/// Byte strings that are ordered neither way are equal.
pub proof fn lemma_lex_connected(a: Seq<u8>, b: Seq<u8>)
    requires
        !lex_lt(a, b),
        !lex_lt(b, a),
    ensures
        a == b,
    decreases b.len(),
{
    if a.len() == 0 || b.len() == 0 {
        assert(a =~= b);
    } else {
        lemma_lex_connected(a.skip(1), b.skip(1));
        assert(a =~= seq![a[0]] + a.skip(1));
        assert(b =~= seq![b[0]] + b.skip(1));
    }
}

/// The order is irreflexive.
pub proof fn lemma_lex_irreflexive(a: Seq<u8>)
    ensures
        !lex_lt(a, a),
    decreases a.len(),
{
    if a.len() > 0 {
        lemma_lex_irreflexive(a.skip(1));
    }
}

/// The order is transitive.
pub proof fn lemma_lex_transitive(a: Seq<u8>, b: Seq<u8>, c: Seq<u8>)
    requires
        lex_lt(a, b),
        lex_lt(b, c),
    ensures
        lex_lt(a, c),
    decreases c.len(),
{
    if a.len() > 0 && b.len() > 0 && c.len() > 0 && a[0] == b[0] && b[0] == c[0] {
        lemma_lex_transitive(a.skip(1), b.skip(1), c.skip(1));
    }
}

/// A shared prefix neither creates nor hides an ordering.
pub proof fn lemma_lex_common_prefix(p: Seq<u8>, a: Seq<u8>, b: Seq<u8>)
    ensures
        lex_lt(p + a, p + b) == lex_lt(a, b),
    decreases p.len(),
{
    if p.len() == 0 {
        assert(p + a =~= a);
        assert(p + b =~= b);
    } else {
        lemma_lex_common_prefix(p.skip(1), a, b);
        assert((p + a).skip(1) =~= p.skip(1) + a);
        assert((p + b).skip(1) =~= p.skip(1) + b);
    }
}

/// Fixed-width numerals sort exactly as the values they denote (this is
/// why zero-padded keys enumerate in value order).
pub proof fn lemma_hex_msf_order(v1: int, v2: int, n: nat)
    requires
        0 <= v1 < v2 < pow(16, n),
    ensures
        lex_lt(hex_msf(v1, n), hex_msf(v2, n)),
    decreases n,
{
    reveal(pow);
    if n == 0 {
        // impossible: 0 <= v1 < v2 < 1
    } else {
        let p = pow(16, (n - 1) as nat);
        lemma_pow_positive(16, (n - 1) as nat);
        let d1 = v1 / p;
        let d2 = v2 / p;
        lemma_fundamental_div_mod(v1, p);
        lemma_fundamental_div_mod(v2, p);
        lemma_mod_bound(v1, p);
        lemma_mod_bound(v2, p);
        lemma_div_pos_is_pos(v1, p);
        lemma_div_is_ordered(v1, v2, p);
        vstd::arithmetic::div_mod::lemma_multiply_divide_lt(v2, p, 16);
        vstd::arithmetic::div_mod::lemma_small_mod(d1 as nat, 16);
        vstd::arithmetic::div_mod::lemma_small_mod(d2 as nat, 16);
        lemma_hex_msf_len(v1 % p, (n - 1) as nat);
        lemma_hex_msf_len(v2 % p, (n - 1) as nat);
        let s1 = hex_msf(v1, n);
        let s2 = hex_msf(v2, n);
        if d1 < d2 {
            lemma_hex_digit_monotone(d1, d2);
            assert(s1[0] == hex_digit(d1));
            assert(s2[0] == hex_digit(d2));
        } else {
            assert(d1 == d2);
            assert(v1 % p < v2 % p) by {
                assert(v1 == p * d1 + v1 % p);
                assert(v2 == p * d1 + v2 % p);
            }
            lemma_hex_msf_order(v1 % p, v2 % p, (n - 1) as nat);
            assert(s1[0] == s2[0]);
            assert(s1.skip(1) =~= hex_msf(v1 % p, (n - 1) as nat));
            assert(s2.skip(1) =~= hex_msf(v2 % p, (n - 1) as nat));
        }
    }
}

/// Compares two byte strings in lexicographic order.
pub fn bytes_lt(a: &[u8], b: &[u8]) -> (r: bool)
    ensures
        r == lex_lt(a@, b@),
{
    let mut i: usize = 0;
    let alen = a.len();
    let blen = b.len();
    proof {
        assert(a@.skip(0) =~= a@);
        assert(b@.skip(0) =~= b@);
    }
    loop
        invariant
            i <= alen <= a@.len(),
            i <= blen <= b@.len(),
            alen == a@.len(),
            blen == b@.len(),
            lex_lt(a@, b@) == lex_lt(a@.skip(i as int), b@.skip(i as int)),
        decreases alen - i,
    {
        if i == alen {
            return blen > alen;
        }
        if i == blen {
            return false;
        }
        let x = a[i];
        let y = b[i];
        if x < y {
            return true;
        }
        if x > y {
            return false;
        }
        proof {
            assert(a@.skip(i as int).skip(1) =~= a@.skip(i + 1));
            assert(b@.skip(i as int).skip(1) =~= b@.skip(i + 1));
        }
        i = i + 1;
    }
}

/// Tests two byte strings for equality.
pub fn bytes_eq(a: &[u8], b: &[u8]) -> (r: bool)
    ensures
        r == (a@ == b@),
{
    if a.len() != b.len() {
        proof {
            assert(a@.len() != b@.len());
        }
        return false;
    }
    let n = a.len();
    let mut i: usize = 0;
    while i < n
        invariant
            i <= n,
            n == a@.len() == b@.len(),
            forall|j: int| 0 <= j < i ==> a@[j] == b@[j],
        decreases n - i,
    {
        if a[i] != b[i] {
            return false;
        }
        i = i + 1;
    }
    proof {
        assert(a@ =~= b@);
    }
    true
}

} // verus!
