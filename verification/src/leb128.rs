//! Variable-length (LEB128) integer codecs over a [`ByteReader`].
//!
//! Each encoded byte carries 7 payload bits; a set high bit continues the
//! number. Unsigned decoding caps the byte count at `ceil(bits/7)` for the
//! target width and reports `DecodeOverflow` past it; input that ends while
//! the high bit is still set reports `DecodeTruncated`. Signed decoding
//! sign-extends from bit 6 of the terminating byte.

use vstd::prelude::*;

use crate::reader::ByteReader;
use crate::reader::ByteReaderError;

verus! {

/// 128 raised to `n`: the weight of the `n`-th payload byte.
pub open spec fn pow128(n: nat) -> int
    decreases n,
{
    if n == 0 {
        1
    } else {
        128 * pow128((n - 1) as nat)
    }
}

/// The value carried by the 7-bit payloads of the first `n` bytes of `s`.
pub open spec fn uleb_value(s: Seq<u8>, n: int) -> int
    decreases n,
{
    if n <= 0 {
        0
    } else {
        uleb_value(s, n - 1) + (s[n - 1] % 0x80) * pow128((n - 1) as nat)
    }
}

/// The first `n` bytes of `s` all have their continuation bit set.
pub open spec fn all_continued(s: Seq<u8>, n: int) -> bool {
    forall|i: int| 0 <= i < n ==> s[i] >= 0x80
}

/// Bit 6 of `b`, the sign bit of a terminating signed-LEB128 byte.
pub open spec fn sign_bit_set(b: u8) -> bool {
    (b / 0x40) % 2 == 1
}

/// The number of bytes an unsigned LEB128 parse limited to `max_bytes`
/// consumes from `s` on success: the least index with a clear high bit,
/// plus one. None when the input ends or the cap is reached first.
pub open spec fn uleb_ok_len(s: Seq<u8>, max_bytes: int) -> Option<int>
    decreases max_bytes,
{
    if s.len() == 0 || max_bytes <= 0 {
        None
    } else if s[0] < 0x80 {
        Some(1)
    } else {
        match uleb_ok_len(s.skip(1), max_bytes - 1) {
            Some(n) => Some(n + 1),
            None => None,
        }
    }
}

/// The error an unsigned LEB128 decode reports when it fails: overflow once
/// a full cap's worth of continued bytes is present, truncated when the
/// input ends first. Meaningful when `uleb_ok_len` is none.
pub open spec fn uleb_fail(s: Seq<u8>, max_bytes: int) -> ByteReaderError {
    if s.len() >= max_bytes {
        ByteReaderError::DecodeOverflow
    } else {
        ByteReaderError::DecodeTruncated
    }
}

/// The signed value of an `n`-byte LEB128 sequence read at 32-bit width:
/// the payload, sign-extended from bit `7n - 1` when that bit lies inside
/// the width, truncated to 32 bits otherwise.
pub open spec fn sleb_value32(s: Seq<u8>, n: int) -> int {
    let u = uleb_value(s, n);
    if n <= 4 {
        if sign_bit_set(s[n - 1]) {
            u - pow128(n as nat)
        } else {
            u
        }
    } else {
        crate::reader::as_signed32(u % 0x1_0000_0000)
    }
}

/// The signed value of an `n`-byte LEB128 sequence read at 64-bit width.
pub open spec fn sleb_value64(s: Seq<u8>, n: int) -> int {
    let u = uleb_value(s, n);
    if n <= 9 {
        if sign_bit_set(s[n - 1]) {
            u - pow128(n as nat)
        } else {
            u
        }
    } else {
        crate::reader::as_signed64(u % 0x1_0000_0000_0000_0000)
    }
}

/// The canonical (shortest) unsigned LEB128 encoding of `v >= 0`.
pub open spec fn uleb_encode(v: int) -> Seq<u8>
    decreases v,
{
    if v < 0x80 {
        seq![v as u8]
    } else {
        seq![((v % 0x80) + 0x80) as u8] + uleb_encode(v / 0x80)
    }
}

/// The canonical (shortest) signed LEB128 encoding of `v`.
pub open spec fn sleb_encode(v: int) -> Seq<u8>
    decreases (if v >= 0 { v } else { -v }),
{
    if -0x40 <= v < 0x40 {
        seq![(v % 0x80) as u8]
    } else {
        seq![((v % 0x80) + 0x80) as u8] + sleb_encode(v / 0x80)
    }
}

/// The payload value of `n` bytes is below the weight of byte `n`.
pub proof fn lemma_uleb_value_bound(s: Seq<u8>, n: int)
    requires
        n >= 0,
    ensures
        0 <= uleb_value(s, n) < pow128(n as nat),
    decreases n,
{
    if n == 0 {
        assert(pow128(0) == 1);
    } else {
        lemma_uleb_value_bound(s, n - 1);
        assert(pow128(n as nat) == 128 * pow128((n - 1) as nat));
        assert((s[n - 1] % 0x80) * pow128((n - 1) as nat) <= 127 * pow128((n - 1) as nat))
            by (nonlinear_arith)
            requires
                0 <= s[n - 1] % 0x80 <= 127,
                pow128((n - 1) as nat) >= 0,
        ;
    }
}

/// A terminator at index `n - 1`, after `n - 1` continued bytes, makes the
/// parse succeed with exactly `n` bytes.
pub proof fn lemma_uleb_ok_len_some(s: Seq<u8>, max_bytes: int, n: int)
    requires
        1 <= n <= max_bytes,
        n <= s.len(),
        all_continued(s, n - 1),
        s[n - 1] < 0x80,
    ensures
        uleb_ok_len(s, max_bytes) == Some(n),
    decreases n,
{
    if n == 1 {
    } else {
        assert(s[0] >= 0x80);
        assert(all_continued(s.skip(1), n - 2));
        assert(s.skip(1)[n - 2] == s[n - 1]);
        lemma_uleb_ok_len_some(s.skip(1), max_bytes - 1, n - 1);
    }
}

/// When every byte up to the cap (or the end of input) is continued, the
/// parse does not succeed.
pub proof fn lemma_uleb_ok_len_none(s: Seq<u8>, max_bytes: int)
    requires
        all_continued(s, if max_bytes <= s.len() {
            max_bytes
        } else {
            s.len() as int
        }),
    ensures
        uleb_ok_len(s, max_bytes) is None,
    decreases max_bytes,
{
    if s.len() == 0 || max_bytes <= 0 {
    } else {
        assert(s[0] >= 0x80);
        assert(all_continued(s.skip(1), if max_bytes - 1 <= s.skip(1).len() {
            max_bytes - 1
        } else {
            s.skip(1).len() as int
        }));
        lemma_uleb_ok_len_none(s.skip(1), max_bytes - 1);
    }
}

/// A successful parse consumes between 1 byte and the cap, never more than
/// the input, its last byte is the terminator and the earlier ones continue.
pub proof fn lemma_uleb_ok_len_shape(s: Seq<u8>, max_bytes: int)
    ensures
        uleb_ok_len(s, max_bytes) matches Some(n) ==> {
            &&& 1 <= n <= max_bytes
            &&& n <= s.len()
            &&& all_continued(s, n - 1)
            &&& s[n - 1] < 0x80
        },
    decreases max_bytes,
{
    if s.len() == 0 || max_bytes <= 0 {
    } else if s[0] < 0x80 {
    } else {
        lemma_uleb_ok_len_shape(s.skip(1), max_bytes - 1);
        match uleb_ok_len(s.skip(1), max_bytes - 1) {
            Some(m) => {
                assert(s.skip(1)[m - 1] == s[m]);
                assert forall|i: int| 0 <= i < m + 1 - 1 implies s[i] >= 0x80 by {
                    if i > 0 {
                        assert(s.skip(1)[i - 1] >= 0x80);
                    }
                }
            },
            None => {},
        }
    }
}

/// The values of `pow128` up to the largest weight any decoder here uses.
pub proof fn lemma_pow128_vals()
    ensures
        pow128(0) == 1,
        pow128(1) == 0x80,
        pow128(2) == 0x4000,
        pow128(3) == 0x20_0000,
        pow128(4) == 0x1000_0000,
        pow128(5) == 0x8_0000_0000,
        pow128(6) == 0x400_0000_0000,
        pow128(7) == 0x2_0000_0000_0000,
        pow128(8) == 0x100_0000_0000_0000,
        pow128(9) == 0x8000_0000_0000_0000,
{
    assert(pow128(0) == 1);
    assert(pow128(1) == 0x80);
    assert(pow128(2) == 0x4000);
    assert(pow128(3) == 0x20_0000);
    assert(pow128(4) == 0x1000_0000);
    assert(pow128(5) == 0x8_0000_0000);
    assert(pow128(6) == 0x400_0000_0000);
    assert(pow128(7) == 0x2_0000_0000_0000);
    assert(pow128(8) == 0x100_0000_0000_0000);
    assert(pow128(9) == 0x8000_0000_0000_0000);
}

/// The whole `n`-byte payload is at or above the weight of the last byte's
/// sign bit exactly when that sign bit is set.
pub proof fn lemma_uleb_last_byte(s: Seq<u8>, n: int)
    requires
        1 <= n,
    ensures
        (s[n - 1] % 0x80) < 0x40 ==> uleb_value(s, n) < 0x40 * pow128((n - 1) as nat),
        (s[n - 1] % 0x80) >= 0x40 ==> uleb_value(s, n) >= 0x40 * pow128((n - 1) as nat),
{
    lemma_uleb_value_bound(s, n - 1);
    let low = uleb_value(s, n - 1);
    let p = s[n - 1] % 0x80;
    let base = pow128((n - 1) as nat);
    assert(uleb_value(s, n) == low + p * base);
    if p < 0x40 {
        assert(low + p * base < 0x40 * base) by (nonlinear_arith)
            requires
                0 <= low < base,
                0 <= p < 0x40,
        ;
    } else {
        assert(low + p * base >= 0x40 * base) by (nonlinear_arith)
            requires
                low >= 0,
                p >= 0x40,
                base >= 1,
        ;
    }
}

/// Prepending a byte scales the payload of the tail by one weight step.
pub proof fn lemma_uleb_value_cons(b: u8, t: Seq<u8>, n: int)
    requires
        0 <= n <= t.len(),
    ensures
        uleb_value(seq![b] + t, n + 1) == (b % 0x80) + 128 * uleb_value(t, n),
    decreases n,
{
    let s = seq![b] + t;
    if n == 0 {
        assert(uleb_value(s, 0) == 0);
        assert(uleb_value(t, 0) == 0);
        assert(pow128(0) == 1);
        assert(s[0] == b);
        assert(uleb_value(s, 1) == uleb_value(s, 0) + (s[0] % 0x80) * pow128(0));
    } else {
        lemma_uleb_value_cons(b, t, n - 1);
        assert(s[n] == t[n - 1]);
        assert(pow128(n as nat) == 128 * pow128((n - 1) as nat));
        assert((t[n - 1] % 0x80) * pow128(n as nat) == 128 * ((t[n - 1] % 0x80) * pow128(
            (n - 1) as nat,
        ))) by (nonlinear_arith)
            requires
                pow128(n as nat) == 128 * pow128((n - 1) as nat),
        ;
    }
}

/// The payload value depends only on the first `n` bytes.
pub proof fn lemma_uleb_value_prefix(s1: Seq<u8>, s2: Seq<u8>, n: int)
    requires
        forall|i: int| 0 <= i < n ==> s1[i] == s2[i],
    ensures
        uleb_value(s1, n) == uleb_value(s2, n),
    decreases n,
{
    if n > 0 {
        lemma_uleb_value_prefix(s1, s2, n - 1);
    }
}

/// The canonical unsigned encoding is well formed and carries its value:
/// every byte before the last is continued, the last terminates, and the
/// payload equals the encoded value.
pub proof fn lemma_uleb_encode_props(v: int)
    requires
        0 <= v,
    ensures
        1 <= uleb_encode(v).len(),
        all_continued(uleb_encode(v), uleb_encode(v).len() - 1),
        uleb_encode(v).last() < 0x80,
        uleb_value(uleb_encode(v), uleb_encode(v).len() as int) == v,
    decreases v,
{
    let s = uleb_encode(v);
    if v < 0x80 {
        assert(uleb_value(s, 0) == 0);
        assert(pow128(0) == 1);
    } else {
        lemma_uleb_encode_props(v / 0x80);
        let t = uleb_encode(v / 0x80);
        assert(s == seq![((v % 0x80) + 0x80) as u8] + t);
        assert forall|i: int| 0 <= i < s.len() - 1 implies s[i] >= 0x80 by {
            if i > 0 {
                assert(s[i] == t[i - 1]);
            }
        }
        assert(s.last() == t.last());
        lemma_uleb_value_cons(((v % 0x80) + 0x80) as u8, t, t.len() as int);
        assert((((v % 0x80) + 0x80) as u8) % 0x80 == v % 0x80);
        assert(v == 0x80 * (v / 0x80) + v % 0x80) by {
            vstd::arithmetic::div_mod::lemma_fundamental_div_mod(v, 0x80);
        }
    }
}

/// A value below the `k`-byte capacity encodes in at most `k` bytes.
pub proof fn lemma_uleb_encode_len(v: int, k: int)
    requires
        0 <= v,
        1 <= k,
        v < pow128(k as nat),
    ensures
        uleb_encode(v).len() <= k,
    decreases k,
{
    if v < 0x80 {
    } else {
        lemma_pow128_vals();
        if k == 1 {
            assert(v < 128);
        }
        assert(pow128(k as nat) == 128 * pow128((k - 1) as nat));
        assert(v / 0x80 < pow128((k - 1) as nat)) by (nonlinear_arith)
            requires
                v < 128 * pow128((k - 1) as nat),
                0 <= v,
        ;
        lemma_uleb_encode_len(v / 0x80, k - 1);
    }
}

/// Any well-formed unsigned encoding of at most `max_bytes` bytes parses in
/// full, whatever follows it, and the parse sees exactly its payload. This
/// covers padded (non-minimal) encodings as well as canonical ones.
pub proof fn lemma_uleb_parse_valid(s: Seq<u8>, rest: Seq<u8>, max_bytes: int)
    requires
        1 <= s.len() <= max_bytes,
        all_continued(s, s.len() - 1),
        s.last() < 0x80,
    ensures
        uleb_ok_len(s + rest, max_bytes) == Some(s.len() as int),
        uleb_value(s + rest, s.len() as int) == uleb_value(s, s.len() as int),
{
    let n = s.len() as int;
    assert(forall|i: int| 0 <= i < n ==> (s + rest)[i] == s[i]);
    lemma_uleb_ok_len_some(s + rest, max_bytes, n);
    lemma_uleb_value_prefix(s + rest, s, n);
}

/// Law: unsigned decoding inverts encoding. For any 32-bit value, a parse
/// capped at 5 bytes of `uleb_encode(v)` followed by anything yields `v`
/// and consumes exactly the encoding.
pub proof fn lemma_uleb128_roundtrip(v: u32, rest: Seq<u8>)
    ensures
        1 <= uleb_encode(v as int).len() <= 5,
        uleb_ok_len(uleb_encode(v as int) + rest, 5) == Some(uleb_encode(v as int).len() as int),
        uleb_value(uleb_encode(v as int) + rest, uleb_encode(v as int).len() as int)
            % 0x1_0000_0000 == v,
{
    lemma_uleb_encode_props(v as int);
    lemma_pow128_vals();
    lemma_uleb_encode_len(v as int, 5);
    lemma_uleb_parse_valid(uleb_encode(v as int), rest, 5);
}

/// The canonical signed encoding is well formed: every byte before the last
/// is continued, the last terminates and holds the sign in bit 6, and the
/// payload is the value's two's-complement residue at the encoded width.
pub proof fn lemma_sleb_encode_props(v: int)
    ensures
        1 <= sleb_encode(v).len(),
        all_continued(sleb_encode(v), sleb_encode(v).len() - 1),
        sleb_encode(v).last() < 0x80,
        sign_bit_set(sleb_encode(v).last()) <==> v < 0,
        v >= 0 ==> uleb_value(sleb_encode(v), sleb_encode(v).len() as int) == v,
        v < 0 ==> uleb_value(sleb_encode(v), sleb_encode(v).len() as int) == v + pow128(
            sleb_encode(v).len() as nat,
        ),
    decreases (if v >= 0 {
        v
    } else {
        -v
    }),
{
    let s = sleb_encode(v);
    if -0x40 <= v < 0x40 {
        assert(uleb_value(s, 0) == 0);
        assert(pow128(0) == 1);
        if v < 0 {
            lemma_pow128_vals();
            assert(v % 0x80 == v + 0x80);
        }
    } else {
        lemma_sleb_encode_props(v / 0x80);
        let t = sleb_encode(v / 0x80);
        assert(s == seq![((v % 0x80) + 0x80) as u8] + t);
        assert forall|i: int| 0 <= i < s.len() - 1 implies s[i] >= 0x80 by {
            if i > 0 {
                assert(s[i] == t[i - 1]);
            }
        }
        assert(s.last() == t.last());
        assert(v / 0x80 < 0 <==> v < 0) by (nonlinear_arith)
            requires
                v < -0x40 || v >= 0x40,
        ;
        lemma_uleb_value_cons(((v % 0x80) + 0x80) as u8, t, t.len() as int);
        assert((((v % 0x80) + 0x80) as u8) % 0x80 == v % 0x80);
        assert(v == 0x80 * (v / 0x80) + v % 0x80) by {
            vstd::arithmetic::div_mod::lemma_fundamental_div_mod(v, 0x80);
        }
        assert(pow128(s.len() as nat) == 128 * pow128(t.len() as nat));
    }
}

/// A value within the signed `k`-byte capacity encodes in at most `k` bytes.
pub proof fn lemma_sleb_encode_len(v: int, k: int)
    requires
        1 <= k,
        -0x40 * pow128((k - 1) as nat) <= v < 0x40 * pow128((k - 1) as nat),
    ensures
        sleb_encode(v).len() <= k,
    decreases k,
{
    if -0x40 <= v < 0x40 {
    } else {
        assert(k >= 2) by {
            assert(pow128(0) == 1);
        }
        assert(pow128((k - 1) as nat) == 128 * pow128((k - 2) as nat));
        assert(-0x40 * pow128((k - 2) as nat) <= v / 0x80 < 0x40 * pow128((k - 2) as nat))
            by (nonlinear_arith)
            requires
                -0x40 * (128 * pow128((k - 2) as nat)) <= v < 0x40 * (128 * pow128(
                    (k - 2) as nat,
                )),
                pow128((k - 2) as nat) >= 1,
        ;
        lemma_sleb_encode_len(v / 0x80, k - 1);
    }
}

/// Law: signed decoding inverts encoding at 32-bit width, negative values
/// included. A parse capped at 5 bytes of `sleb_encode(v)` followed by
/// anything yields `v` and consumes exactly the encoding.
pub proof fn lemma_sleb128_i32_roundtrip(v: i32, rest: Seq<u8>)
    ensures
        1 <= sleb_encode(v as int).len() <= 5,
        uleb_ok_len(sleb_encode(v as int) + rest, 5) == Some(sleb_encode(v as int).len() as int),
        sleb_value32(sleb_encode(v as int) + rest, sleb_encode(v as int).len() as int) == v as int,
{
    let s = sleb_encode(v as int);
    let n = s.len() as int;
    lemma_sleb_encode_props(v as int);
    lemma_pow128_vals();
    lemma_sleb_encode_len(v as int, 5);
    lemma_uleb_parse_valid(s, rest, 5);
    assert((s + rest)[n - 1] == s[n - 1]);
    let u = uleb_value(s + rest, n);
    lemma_uleb_value_bound(s + rest, n);
    if n <= 4 {
        if v >= 0 {
            assert(u == v as int);
        } else {
            assert(u == v + pow128(n as nat));
        }
    } else {
        assert(n == 5);
        if v >= 0 {
            assert(u == v as int);
            assert(u % 0x1_0000_0000 == u);
        } else {
            assert(u == v + 0x8_0000_0000);
            assert(u % 0x1_0000_0000 == v + 0x1_0000_0000) by (nonlinear_arith)
                requires
                    u == v + 0x8_0000_0000,
                    -0x8000_0000 <= v < 0,
            ;
        }
    }
}

/// Law: signed decoding inverts encoding at 64-bit width, negative values
/// included. A parse capped at 10 bytes of `sleb_encode(v)` followed by
/// anything yields `v` and consumes exactly the encoding.
pub proof fn lemma_sleb128_i64_roundtrip(v: i64, rest: Seq<u8>)
    ensures
        1 <= sleb_encode(v as int).len() <= 10,
        uleb_ok_len(sleb_encode(v as int) + rest, 10) == Some(sleb_encode(v as int).len() as int),
        sleb_value64(sleb_encode(v as int) + rest, sleb_encode(v as int).len() as int)
            == v as int,
{
    let s = sleb_encode(v as int);
    let n = s.len() as int;
    lemma_sleb_encode_props(v as int);
    lemma_pow128_vals();
    assert(pow128(9) == 0x8000_0000_0000_0000);
    lemma_sleb_encode_len(v as int, 10);
    lemma_uleb_parse_valid(s, rest, 10);
    assert((s + rest)[n - 1] == s[n - 1]);
    let u = uleb_value(s + rest, n);
    lemma_uleb_value_bound(s + rest, n);
    if n <= 9 {
        if v >= 0 {
            assert(u == v as int);
        } else {
            assert(u == v + pow128(n as nat));
        }
    } else {
        assert(n == 10);
        assert(pow128(10) == 0x4_0000_0000_0000_0000_0) by {
            assert(pow128(10) == 128 * pow128(9));
        }
        if v >= 0 {
            assert(u == v as int);
            assert(u % 0x1_0000_0000_0000_0000 == u);
        } else {
            assert(u == v + 0x4_0000_0000_0000_0000_0);
            assert(u % 0x1_0000_0000_0000_0000 == v + 0x1_0000_0000_0000_0000)
                by (nonlinear_arith)
                requires
                    u == v + 0x4_0000_0000_0000_0000_0,
                    -0x8000_0000_0000_0000 <= v < 0,
            ;
        }
    }
}

/// The weight of payload byte `i` for a 32-bit target, as a machine value.
fn pow128_u32(i: usize) -> (r: u32)
    requires
        i < 5,
    ensures
        r == pow128(i as nat),
{
    proof {
        assert(pow128(0) == 1);
        assert(pow128(1) == 0x80);
        assert(pow128(2) == 0x4000);
        assert(pow128(3) == 0x20_0000);
        assert(pow128(4) == 0x1000_0000);
    }
    match i {
        0 => 1,
        1 => 0x80,
        2 => 0x4000,
        3 => 0x20_0000,
        _ => 0x1000_0000,
    }
}

/// The weight of payload byte `i` for a 64-bit target, as a machine value.
fn pow128_u64(i: usize) -> (r: u64)
    requires
        i < 10,
    ensures
        r == pow128(i as nat),
{
    proof {
        lemma_pow128_vals();
    }
    match i {
        0 => 1,
        1 => 0x80,
        2 => 0x4000,
        3 => 0x20_0000,
        4 => 0x1000_0000,
        5 => 0x8_0000_0000,
        6 => 0x400_0000_0000,
        7 => 0x2_0000_0000_0000,
        8 => 0x100_0000_0000_0000,
        _ => 0x8000_0000_0000_0000,
    }
}

/// The weight of the sign bit of an `n`-byte payload at 32-bit width.
fn sign_weight_u32(n: usize) -> (r: u32)
    requires
        1 <= n <= 4,
    ensures
        r == 0x40 * pow128((n - 1) as nat),
{
    proof {
        lemma_pow128_vals();
    }
    match n {
        1 => 0x40,
        2 => 0x2000,
        3 => 0x10_0000,
        _ => 0x800_0000,
    }
}

/// The weight of the sign bit of an `n`-byte payload at 64-bit width.
fn sign_weight_u64(n: usize) -> (r: u64)
    requires
        1 <= n <= 9,
    ensures
        r == 0x40 * pow128((n - 1) as nat),
{
    proof {
        lemma_pow128_vals();
    }
    match n {
        1 => 0x40,
        2 => 0x2000,
        3 => 0x10_0000,
        4 => 0x800_0000,
        5 => 0x4_0000_0000,
        6 => 0x200_0000_0000,
        7 => 0x1_0000_0000_0000,
        8 => 0x80_0000_0000_0000,
        _ => 0x4000_0000_0000_0000,
    }
}

/// The 32-bit sign-extension mask for an `n`-byte payload.
fn sign_extension_u32(n: usize) -> (r: u32)
    requires
        1 <= n <= 4,
    ensures
        r == 0x1_0000_0000 - pow128(n as nat),
{
    proof {
        lemma_pow128_vals();
    }
    match n {
        1 => 0xFFFF_FF80,
        2 => 0xFFFF_C000,
        3 => 0xFFE0_0000,
        _ => 0xF000_0000,
    }
}

/// The 64-bit sign-extension mask for an `n`-byte payload.
fn sign_extension_u64(n: usize) -> (r: u64)
    requires
        1 <= n <= 9,
    ensures
        r == 0x1_0000_0000_0000_0000 - pow128(n as nat),
{
    proof {
        lemma_pow128_vals();
    }
    match n {
        1 => 0xFFFF_FFFF_FFFF_FF80,
        2 => 0xFFFF_FFFF_FFFF_C000,
        3 => 0xFFFF_FFFF_FFE0_0000,
        4 => 0xFFFF_FFFF_F000_0000,
        5 => 0xFFFF_FFF8_0000_0000,
        6 => 0xFFFF_FC00_0000_0000,
        7 => 0xFFFE_0000_0000_0000,
        8 => 0xFF00_0000_0000_0000,
        _ => 0x8000_0000_0000_0000,
    }
}

/// Reading LEB128-coded integers off a [`ByteReader`].
pub trait Leb128Readers: Sized + View<V = crate::reader::ReaderView> {
    /// Decode an unsigned LEB128 value into 32 bits, consuming at most
    /// `ceil(32 / 7) == 5` bytes. Payload bits of the fifth byte beyond bit
    /// 31 are discarded. A fifth continued byte fails with `DecodeOverflow`;
    /// input that ends while the high bit is set fails with
    /// `DecodeTruncated`.
    fn read_uleb128_u32(&mut self) -> (r: Result<u32, ByteReaderError>)
        ensures
            final(self)@.same_except_pos(old(self)@),
            old(self)@.in_bounds() ==> final(self)@.in_bounds(),
            final(self)@.pos >= old(self)@.pos,
            match uleb_ok_len(old(self)@.rest(), 5) {
                Some(n) => {
                    &&& r == Ok::<u32, ByteReaderError>(
                        (uleb_value(old(self)@.rest(), n) % 0x1_0000_0000) as u32,
                    )
                    &&& final(self)@.pos == old(self)@.pos + n
                },
                None => {
                    &&& old(self)@.rest().len() >= 5 ==> {
                        &&& r == Err::<u32, ByteReaderError>(ByteReaderError::DecodeOverflow)
                        &&& final(self)@.pos == old(self)@.pos + 5
                    }
                    &&& old(self)@.rest().len() < 5 ==> {
                        &&& r == Err::<u32, ByteReaderError>(ByteReaderError::DecodeTruncated)
                        &&& final(self)@.pos == old(self)@.pos + old(self)@.rest().len()
                    }
                },
            },
    ;

    /// Decode an unsigned LEB128 value into 64 bits, consuming at most
    /// `ceil(64 / 7) == 10` bytes; payload bits of the tenth byte beyond bit
    /// 63 are discarded. Failures are as in [`Self::read_uleb128_u32`].
    fn read_uleb128_u64(&mut self) -> (r: Result<u64, ByteReaderError>)
        ensures
            final(self)@.same_except_pos(old(self)@),
            old(self)@.in_bounds() ==> final(self)@.in_bounds(),
            final(self)@.pos >= old(self)@.pos,
            match uleb_ok_len(old(self)@.rest(), 10) {
                Some(n) => {
                    &&& r == Ok::<u64, ByteReaderError>(
                        (uleb_value(old(self)@.rest(), n) % 0x1_0000_0000_0000_0000) as u64,
                    )
                    &&& final(self)@.pos == old(self)@.pos + n
                },
                None => {
                    &&& old(self)@.rest().len() >= 10 ==> {
                        &&& r == Err::<u64, ByteReaderError>(ByteReaderError::DecodeOverflow)
                        &&& final(self)@.pos == old(self)@.pos + 10
                    }
                    &&& old(self)@.rest().len() < 10 ==> {
                        &&& r == Err::<u64, ByteReaderError>(ByteReaderError::DecodeTruncated)
                        &&& final(self)@.pos == old(self)@.pos + old(self)@.rest().len()
                    }
                },
            },
    ;

    /// Decode a signed LEB128 value into 32 bits: at most 5 bytes, the
    /// result sign-extended from bit 6 of the terminating byte when that
    /// sign bit lies inside the width. Failures are as in
    /// [`Self::read_uleb128_u32`].
    fn read_leb128_i32(&mut self) -> (r: Result<i32, ByteReaderError>)
        ensures
            final(self)@.same_except_pos(old(self)@),
            old(self)@.in_bounds() ==> final(self)@.in_bounds(),
            final(self)@.pos >= old(self)@.pos,
            match uleb_ok_len(old(self)@.rest(), 5) {
                Some(n) => {
                    &&& r == Ok::<i32, ByteReaderError>(
                        sleb_value32(old(self)@.rest(), n) as i32,
                    )
                    &&& final(self)@.pos == old(self)@.pos + n
                },
                None => {
                    &&& old(self)@.rest().len() >= 5 ==> {
                        &&& r == Err::<i32, ByteReaderError>(ByteReaderError::DecodeOverflow)
                        &&& final(self)@.pos == old(self)@.pos + 5
                    }
                    &&& old(self)@.rest().len() < 5 ==> {
                        &&& r == Err::<i32, ByteReaderError>(ByteReaderError::DecodeTruncated)
                        &&& final(self)@.pos == old(self)@.pos + old(self)@.rest().len()
                    }
                },
            },
    ;

    /// Decode a signed LEB128 value into 64 bits: at most 10 bytes, the
    /// result sign-extended from bit 6 of the terminating byte when that
    /// sign bit lies inside the width. Failures are as in
    /// [`Self::read_uleb128_u32`].
    fn read_leb128_i64(&mut self) -> (r: Result<i64, ByteReaderError>)
        ensures
            final(self)@.same_except_pos(old(self)@),
            old(self)@.in_bounds() ==> final(self)@.in_bounds(),
            final(self)@.pos >= old(self)@.pos,
            match uleb_ok_len(old(self)@.rest(), 10) {
                Some(n) => {
                    &&& r == Ok::<i64, ByteReaderError>(
                        sleb_value64(old(self)@.rest(), n) as i64,
                    )
                    &&& final(self)@.pos == old(self)@.pos + n
                },
                None => {
                    &&& old(self)@.rest().len() >= 10 ==> {
                        &&& r == Err::<i64, ByteReaderError>(ByteReaderError::DecodeOverflow)
                        &&& final(self)@.pos == old(self)@.pos + 10
                    }
                    &&& old(self)@.rest().len() < 10 ==> {
                        &&& r == Err::<i64, ByteReaderError>(ByteReaderError::DecodeTruncated)
                        &&& final(self)@.pos == old(self)@.pos + old(self)@.rest().len()
                    }
                },
            },
    ;

    /// As [`Self::read_uleb128_u32`], but the cursor and the save stack are
    /// restored whether the decode succeeded or failed.
    fn peak_uleb128_u32(&mut self) -> (r: Result<u32, ByteReaderError>)
        ensures
            final(self)@ == old(self)@,
            match uleb_ok_len(old(self)@.rest(), 5) {
                Some(n) => r == Ok::<u32, ByteReaderError>(
                    (uleb_value(old(self)@.rest(), n) % 0x1_0000_0000) as u32,
                ),
                None => {
                    &&& old(self)@.rest().len() >= 5 ==> r == Err::<u32, ByteReaderError>(
                        ByteReaderError::DecodeOverflow,
                    )
                    &&& old(self)@.rest().len() < 5 ==> r == Err::<u32, ByteReaderError>(
                        ByteReaderError::DecodeTruncated,
                    )
                },
            },
    ;

    /// As [`Self::read_uleb128_u64`], but the cursor and the save stack are
    /// restored whether the decode succeeded or failed.
    fn peak_uleb128_u64(&mut self) -> (r: Result<u64, ByteReaderError>)
        ensures
            final(self)@ == old(self)@,
            match uleb_ok_len(old(self)@.rest(), 10) {
                Some(n) => r == Ok::<u64, ByteReaderError>(
                    (uleb_value(old(self)@.rest(), n) % 0x1_0000_0000_0000_0000) as u64,
                ),
                None => {
                    &&& old(self)@.rest().len() >= 10 ==> r == Err::<u64, ByteReaderError>(
                        ByteReaderError::DecodeOverflow,
                    )
                    &&& old(self)@.rest().len() < 10 ==> r == Err::<u64, ByteReaderError>(
                        ByteReaderError::DecodeTruncated,
                    )
                },
            },
    ;

    /// As [`Self::read_leb128_i32`], but the cursor and the save stack are
    /// restored whether the decode succeeded or failed.
    fn peak_leb128_i32(&mut self) -> (r: Result<i32, ByteReaderError>)
        ensures
            final(self)@ == old(self)@,
            match uleb_ok_len(old(self)@.rest(), 5) {
                Some(n) => r == Ok::<i32, ByteReaderError>(
                    sleb_value32(old(self)@.rest(), n) as i32,
                ),
                None => {
                    &&& old(self)@.rest().len() >= 5 ==> r == Err::<i32, ByteReaderError>(
                        ByteReaderError::DecodeOverflow,
                    )
                    &&& old(self)@.rest().len() < 5 ==> r == Err::<i32, ByteReaderError>(
                        ByteReaderError::DecodeTruncated,
                    )
                },
            },
    ;

    /// As [`Self::read_leb128_i64`], but the cursor and the save stack are
    /// restored whether the decode succeeded or failed.
    fn peak_leb128_i64(&mut self) -> (r: Result<i64, ByteReaderError>)
        ensures
            final(self)@ == old(self)@,
            match uleb_ok_len(old(self)@.rest(), 10) {
                Some(n) => r == Ok::<i64, ByteReaderError>(
                    sleb_value64(old(self)@.rest(), n) as i64,
                ),
                None => {
                    &&& old(self)@.rest().len() >= 10 ==> r == Err::<i64, ByteReaderError>(
                        ByteReaderError::DecodeOverflow,
                    )
                    &&& old(self)@.rest().len() < 10 ==> r == Err::<i64, ByteReaderError>(
                        ByteReaderError::DecodeTruncated,
                    )
                },
            },
    ;
}

impl Leb128Readers for ByteReader {
    fn read_uleb128_u32(&mut self) -> (r: Result<u32, ByteReaderError>) {
        let ghost rest0 = old(self)@.rest();
        let mut result: u32 = 0;
        let mut i: usize = 0;
        loop
            invariant
                i <= 4,
                self@.same_except_pos(old(self)@),
                self@.pos == old(self)@.pos + i,
                old(self)@.in_bounds() ==> self@.in_bounds(),
                !old(self)@.in_bounds() ==> i == 0,
                rest0 == old(self)@.rest(),
                i <= rest0.len(),
                all_continued(rest0, i as int),
                result == uleb_value(rest0, i as int),
            decreases 5 - i,
        {
            proof {
                lemma_uleb_value_bound(rest0, i as int);
                assert(pow128(0) == 1);
                assert(pow128(1) == 0x80);
                assert(pow128(2) == 0x4000);
                assert(pow128(3) == 0x20_0000);
                assert(pow128(4) == 0x1000_0000);
                if old(self)@.in_bounds() {
                    crate::reader::lemma_skip_skip(
                        old(self)@.bytes,
                        old(self)@.pos as int,
                        i as int,
                    );
                    assert(self@.rest() =~= rest0.skip(i as int));
                } else {
                    assert(self@.rest() =~= rest0.skip(i as int));
                }
            }
            let byte = match self.read::<u8>() {
                Ok(b) => b,
                Err(_) => {
                    proof {
                        assert(rest0.len() == i);
                        lemma_uleb_ok_len_none(rest0, 5);
                    }
                    return Err(ByteReaderError::DecodeTruncated);
                },
            };
            proof {
                assert(rest0.skip(i as int)[0] == rest0[i as int]);
            }
            let payload = byte % 0x80;
            if i == 4 {
                proof {
                    let u5 = uleb_value(rest0, 5);
                    let p = rest0[4] % 0x80;
                    assert(u5 == result + p * 0x1000_0000);
                    assert(p * 0x1000_0000 == (p % 16) * 0x1000_0000 + (p / 16) * 0x1_0000_0000)
                        by (nonlinear_arith);
                    assert((p % 16) * 0x1000_0000 <= 15 * 0x1000_0000) by (nonlinear_arith)
                        requires
                            0 <= p % 16 <= 15,
                    ;
                    assert(u5 % 0x1_0000_0000 == result + (p % 16) * 0x1000_0000)
                        by (nonlinear_arith)
                        requires
                            u5 == result + (p % 16) * 0x1000_0000 + (p / 16) * 0x1_0000_0000,
                            0 <= result < 0x1000_0000,
                            0 <= (p % 16) * 0x1000_0000 <= 15 * 0x1000_0000,
                            0 <= p / 16,
                    ;
                }
                result = result + ((payload % 16) as u32) * 0x1000_0000;
                if byte < 0x80 {
                    proof {
                        lemma_uleb_ok_len_some(rest0, 5, 5);
                    }
                    return Ok(result);
                }
                proof {
                    lemma_uleb_ok_len_none(rest0, 5);
                }
                return Err(ByteReaderError::DecodeOverflow);
            }
            proof {
                assert((rest0[i as int] % 0x80) * pow128(i as nat) <= 127 * 0x20_0000)
                    by (nonlinear_arith)
                    requires
                        0 <= rest0[i as int] % 0x80 <= 127,
                        0 < pow128(i as nat) <= 0x20_0000,
                ;
            }
            result = result + (payload as u32) * pow128_u32(i);
            if byte < 0x80 {
                proof {
                    lemma_uleb_ok_len_some(rest0, 5, i + 1);
                }
                return Ok(result);
            }
            i = i + 1;
        }
    }

    fn read_uleb128_u64(&mut self) -> (r: Result<u64, ByteReaderError>) {
        let ghost rest0 = old(self)@.rest();
        let mut result: u64 = 0;
        let mut i: usize = 0;
        loop
            invariant
                i <= 9,
                self@.same_except_pos(old(self)@),
                self@.pos == old(self)@.pos + i,
                old(self)@.in_bounds() ==> self@.in_bounds(),
                !old(self)@.in_bounds() ==> i == 0,
                rest0 == old(self)@.rest(),
                i <= rest0.len(),
                all_continued(rest0, i as int),
                result == uleb_value(rest0, i as int),
            decreases 10 - i,
        {
            proof {
                lemma_uleb_value_bound(rest0, i as int);
                lemma_pow128_vals();
                if old(self)@.in_bounds() {
                    crate::reader::lemma_skip_skip(old(self)@.bytes, old(self)@.pos as int, i as int);
                    assert(self@.rest() =~= rest0.skip(i as int));
                } else {
                    assert(self@.rest() =~= rest0.skip(i as int));
                }
            }
            let byte = match self.read::<u8>() {
                Ok(b) => b,
                Err(_) => {
                    proof {
                        assert(rest0.len() == i);
                        lemma_uleb_ok_len_none(rest0, 10);
                    }
                    return Err(ByteReaderError::DecodeTruncated);
                },
            };
            proof {
                assert(rest0.skip(i as int)[0] == rest0[i as int]);
            }
            let payload = byte % 0x80;
            if i == 9 {
                proof {
                    let u10 = uleb_value(rest0, 10);
                    let p = rest0[9] % 0x80;
                    assert(u10 == result + p * 0x8000_0000_0000_0000);
                    assert(p * 0x8000_0000_0000_0000 == (p % 2) * 0x8000_0000_0000_0000 + (p / 2)
                        * 0x1_0000_0000_0000_0000) by (nonlinear_arith);
                    assert(u10 % 0x1_0000_0000_0000_0000 == result + (p % 2)
                        * 0x8000_0000_0000_0000) by (nonlinear_arith)
                        requires
                            u10 == result + (p % 2) * 0x8000_0000_0000_0000 + (p / 2)
                                * 0x1_0000_0000_0000_0000,
                            0 <= result < 0x8000_0000_0000_0000,
                            0 <= (p % 2) * 0x8000_0000_0000_0000 <= 0x8000_0000_0000_0000,
                            (p % 2) < 2,
                            0 <= p / 2,
                    ;
                }
                result = result + ((payload % 2) as u64) * 0x8000_0000_0000_0000;
                if byte < 0x80 {
                    proof {
                        lemma_uleb_ok_len_some(rest0, 10, 10);
                    }
                    return Ok(result);
                }
                proof {
                    lemma_uleb_ok_len_none(rest0, 10);
                }
                return Err(ByteReaderError::DecodeOverflow);
            }
            proof {
                assert((rest0[i as int] % 0x80) * pow128(i as nat) <= 127
                    * 0x100_0000_0000_0000) by (nonlinear_arith)
                    requires
                        0 <= rest0[i as int] % 0x80 <= 127,
                        0 < pow128(i as nat) <= 0x100_0000_0000_0000,
                ;
            }
            result = result + (payload as u64) * pow128_u64(i);
            if byte < 0x80 {
                proof {
                    lemma_uleb_ok_len_some(rest0, 10, i + 1);
                }
                return Ok(result);
            }
            i = i + 1;
        }
    }

    fn read_leb128_i32(&mut self) -> (r: Result<i32, ByteReaderError>) {
        let ghost rest0 = old(self)@.rest();
        let start = self.get_current_offset();
        let u = match self.read_uleb128_u32() {
            Ok(u) => u,
            Err(e) => {
                return Err(e);
            },
        };
        let ghost n_spec = uleb_ok_len(rest0, 5)->Some_0;
        proof {
            lemma_uleb_ok_len_shape(rest0, 5);
            lemma_uleb_value_bound(rest0, n_spec);
            lemma_pow128_vals();
        }
        let n = self.get_current_offset() - start;
        if n <= 4 {
            proof {
                // Case split over the byte count so the recursive weight
                // unfolds to a concrete bound at each possible count.
                if n_spec == 1 {
                } else if n_spec == 2 {
                } else if n_spec == 3 {
                } else {
                    assert(n_spec == 4);
                }
                assert(pow128(n_spec as nat) <= 0x1000_0000);
                assert(uleb_value(rest0, n_spec) % 0x1_0000_0000 == uleb_value(rest0, n_spec));
                lemma_uleb_last_byte(rest0, n_spec);
                assert(rest0[n_spec - 1] % 0x80 == rest0[n_spec - 1]);
            }
            if u >= sign_weight_u32(n) {
                let v = u + sign_extension_u32(n);
                proof {
                    assert(sign_bit_set(rest0[n_spec - 1]));
                    assert(sleb_value32(rest0, n_spec) == uleb_value(rest0, n_spec) - pow128(
                        n_spec as nat,
                    ));
                }
                Ok(-((0xFFFF_FFFFu32 - v) as i32) - 1)
            } else {
                proof {
                    assert(!sign_bit_set(rest0[n_spec - 1]));
                }
                Ok(u as i32)
            }
        } else {
            if u < 0x8000_0000 {
                Ok(u as i32)
            } else {
                Ok(-((0xFFFF_FFFFu32 - u) as i32) - 1)
            }
        }
    }

    fn read_leb128_i64(&mut self) -> (r: Result<i64, ByteReaderError>) {
        let ghost rest0 = old(self)@.rest();
        let start = self.get_current_offset();
        let u = match self.read_uleb128_u64() {
            Ok(u) => u,
            Err(e) => {
                return Err(e);
            },
        };
        let ghost n_spec = uleb_ok_len(rest0, 10)->Some_0;
        proof {
            lemma_uleb_ok_len_shape(rest0, 10);
            lemma_uleb_value_bound(rest0, n_spec);
            lemma_pow128_vals();
        }
        let n = self.get_current_offset() - start;
        if n <= 9 {
            proof {
                // Case split over the byte count so the recursive weight
                // unfolds to a concrete bound at each possible count.
                if n_spec == 1 {
                } else if n_spec == 2 {
                } else if n_spec == 3 {
                } else if n_spec == 4 {
                } else if n_spec == 5 {
                } else if n_spec == 6 {
                } else if n_spec == 7 {
                } else if n_spec == 8 {
                } else {
                    assert(n_spec == 9);
                }
                assert(pow128(n_spec as nat) <= 0x8000_0000_0000_0000);
                assert(uleb_value(rest0, n_spec) % 0x1_0000_0000_0000_0000 == uleb_value(
                    rest0,
                    n_spec,
                ));
                lemma_uleb_last_byte(rest0, n_spec);
                assert(rest0[n_spec - 1] % 0x80 == rest0[n_spec - 1]);
            }
            if u >= sign_weight_u64(n) {
                let v = u + sign_extension_u64(n);
                proof {
                    assert(sign_bit_set(rest0[n_spec - 1]));
                    assert(sleb_value64(rest0, n_spec) == uleb_value(rest0, n_spec) - pow128(
                        n_spec as nat,
                    ));
                }
                Ok(-((0xFFFF_FFFF_FFFF_FFFFu64 - v) as i64) - 1)
            } else {
                proof {
                    assert(!sign_bit_set(rest0[n_spec - 1]));
                }
                Ok(u as i64)
            }
        } else {
            if u < 0x8000_0000_0000_0000 {
                Ok(u as i64)
            } else {
                Ok(-((0xFFFF_FFFF_FFFF_FFFFu64 - u) as i64) - 1)
            }
        }
    }

    fn peak_uleb128_u32(&mut self) -> (r: Result<u32, ByteReaderError>) {
        self.push_index();
        let r = self.read_uleb128_u32();
        self.pop_index();
        proof {
            assert(self@ =~= old(self)@);
        }
        r
    }

    fn peak_uleb128_u64(&mut self) -> (r: Result<u64, ByteReaderError>) {
        self.push_index();
        let r = self.read_uleb128_u64();
        self.pop_index();
        proof {
            assert(self@ =~= old(self)@);
        }
        r
    }

    fn peak_leb128_i32(&mut self) -> (r: Result<i32, ByteReaderError>) {
        self.push_index();
        let r = self.read_leb128_i32();
        self.pop_index();
        proof {
            assert(self@ =~= old(self)@);
        }
        r
    }

    fn peak_leb128_i64(&mut self) -> (r: Result<i64, ByteReaderError>) {
        self.push_index();
        let r = self.read_leb128_i64();
        self.pop_index();
        proof {
            assert(self@ =~= old(self)@);
        }
        r
    }
}

/// The byte count of an LEB128 encoding for a type of the given bit width:
/// one byte per started group of 7 bits.
pub fn leb128_size(bits: usize) -> (r: usize)
    requires
        bits + 6 <= usize::MAX,
    ensures
        r == (bits + 6) / 7,
{
    (bits + 6) / 7
}

/// The canonical unsigned LEB128 encoding of `v`, as bytes.
pub fn encode_uleb128(v: u32) -> (r: Vec<u8>)
    ensures
        r@ == uleb_encode(v as int),
{
    let mut out: Vec<u8> = Vec::new();
    let mut cur = v;
    loop
        invariant
            uleb_encode(v as int) == out@ + uleb_encode(cur as int),
        decreases cur,
    {
        if cur < 0x80 {
            let ghost prev = out@;
            out.push(cur as u8);
            proof {
                assert(uleb_encode(cur as int) == seq![cur as u8]);
                assert(uleb_encode(v as int) =~= out@);
            }
            return out;
        }
        let ghost prev = out@;
        let ghost c = cur as int;
        out.push((cur % 0x80 + 0x80) as u8);
        cur = cur / 0x80;
        proof {
            assert(uleb_encode(c) == seq![((c % 0x80) + 0x80) as u8] + uleb_encode(c / 0x80));
            assert(prev + uleb_encode(c) =~= out@ + uleb_encode(cur as int));
        }
    }
}

/// The canonical signed LEB128 encoding of a 32-bit value, as bytes.
pub fn encode_leb128_i32(v: i32) -> (r: Vec<u8>)
    ensures
        r@ == sleb_encode(v as int),
{
    let mut out: Vec<u8> = Vec::new();
    let mut cur = v;
    loop
        invariant
            sleb_encode(v as int) == out@ + sleb_encode(cur as int),
        decreases (if cur >= 0 {
            cur as int
        } else {
            -(cur as int)
        }),
    {
        let ghost c = cur as int;
        if -0x40 <= cur && cur < 0x40 {
            let b: u8 = if cur >= 0 {
                cur as u8
            } else {
                (cur + 0x80) as u8
            };
            proof {
                assert(b == c % 0x80);
                assert(sleb_encode(c) == seq![(c % 0x80) as u8]);
            }
            out.push(b);
            proof {
                assert(sleb_encode(v as int) =~= out@);
            }
            return out;
        }
        let (b, next): (u8, i32) = if cur >= 0 {
            ((cur % 0x80 + 0x80) as u8, cur / 0x80)
        } else {
            let neg = -(cur + 1);
            let digit = neg % 0x80;
            let quot = neg / 0x80;
            proof {
                vstd::arithmetic::div_mod::lemma_fundamental_div_mod_converse(
                    c,
                    0x80,
                    -quot - 1,
                    0x7F - digit,
                );
            }
            ((0x7F - digit + 0x80) as u8, -quot - 1)
        };
        let ghost prev = out@;
        out.push(b);
        cur = next;
        proof {
            assert(b == (c % 0x80) + 0x80);
            assert(next == c / 0x80);
            assert(sleb_encode(c) == seq![((c % 0x80) + 0x80) as u8] + sleb_encode(c / 0x80));
            assert(prev + sleb_encode(c) =~= out@ + sleb_encode(cur as int));
        }
    }
}

/// The canonical signed LEB128 encoding of a 64-bit value, as bytes.
pub fn encode_leb128_i64(v: i64) -> (r: Vec<u8>)
    ensures
        r@ == sleb_encode(v as int),
{
    let mut out: Vec<u8> = Vec::new();
    let mut cur = v;
    loop
        invariant
            sleb_encode(v as int) == out@ + sleb_encode(cur as int),
        decreases (if cur >= 0 {
            cur as int
        } else {
            -(cur as int)
        }),
    {
        let ghost c = cur as int;
        if -0x40 <= cur && cur < 0x40 {
            let b: u8 = if cur >= 0 {
                cur as u8
            } else {
                (cur + 0x80) as u8
            };
            proof {
                assert(b == c % 0x80);
                assert(sleb_encode(c) == seq![(c % 0x80) as u8]);
            }
            out.push(b);
            proof {
                assert(sleb_encode(v as int) =~= out@);
            }
            return out;
        }
        let (b, next): (u8, i64) = if cur >= 0 {
            ((cur % 0x80 + 0x80) as u8, cur / 0x80)
        } else {
            let neg = -(cur + 1);
            let digit = neg % 0x80;
            let quot = neg / 0x80;
            proof {
                vstd::arithmetic::div_mod::lemma_fundamental_div_mod_converse(
                    c,
                    0x80,
                    -quot - 1,
                    0x7F - digit,
                );
            }
            ((0x7F - digit + 0x80) as u8, -quot - 1)
        };
        let ghost prev = out@;
        out.push(b);
        cur = next;
        proof {
            assert(b == (c % 0x80) + 0x80);
            assert(next == c / 0x80);
            assert(sleb_encode(c) == seq![((c % 0x80) + 0x80) as u8] + sleb_encode(c / 0x80));
            assert(prev + sleb_encode(c) =~= out@ + sleb_encode(cur as int));
        }
    }
}

} // verus!
