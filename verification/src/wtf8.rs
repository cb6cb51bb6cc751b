//! Byte-level string storage for OS paths and symbol names.
//!
//! Module paths coming from the OS are not guaranteed to be valid UTF-8; the
//! storage here keeps them as bytes in the WTF-8 encoding: the same shape as
//! UTF-8, except that lone codepoints in the surrogate range are allowed.  A
//! lead surrogate directly followed by a trail surrogate is not well-formed:
//! that pair must be the one supplementary codepoint it names, and
//! concatenation ([`Buf::push_slice`]) performs exactly that join at the
//! boundary.  Every valid UTF-8 sequence is valid WTF-8, so ordinary strings
//! embed losslessly.
//!
//! [`Buf`] owns such a byte string and [`Slice`] is the borrowed-content
//! counterpart.  Both carry the well-formedness invariant
//! [`valid_wtf8`]; the contracts state each operation exactly over the
//! underlying byte sequence.

use vstd::prelude::*;
use vstd::slice::slice_to_vec;
use vstd::string::StringSliceAdditionalSpecFns;
use vstd::string::StrSliceExecFns;
use vstd::utf8::codepoint_width_3;
use vstd::utf8::codepoint_width_4;
use vstd::utf8::decode_first_codepoint;
use vstd::utf8::decode_utf8;
use vstd::utf8::encode_utf8;
use vstd::utf8::encode_utf8_valid_utf8;
use vstd::utf8::is_continuation_byte;
use vstd::utf8::is_leading_byte_width_1;
use vstd::utf8::is_leading_byte_width_2;
use vstd::utf8::is_leading_byte_width_3;
use vstd::utf8::is_leading_byte_width_4;
use vstd::utf8::length_of_first_codepoint;
use vstd::utf8::length_of_first_scalar;
use vstd::utf8::not_overlong_encoding;
use vstd::utf8::not_surrogate;
use vstd::utf8::pop_first_scalar;
use vstd::utf8::valid_first_scalar;
use vstd::utf8::valid_leading_and_continuation_bytes_first_codepoint;
use vstd::utf8::valid_utf8;
use std::collections::TryReserveError;

verus! {

/// True when the byte sequence begins with a well-formed WTF-8 encoding of
/// one codepoint: the UTF-8 bit patterns and overlong-encoding rules, with
/// the surrogate range allowed.
pub open spec fn valid_first_wtf8_codepoint(bytes: Seq<u8>) -> bool {
    &&& valid_leading_and_continuation_bytes_first_codepoint(bytes)
    &&& not_overlong_encoding(decode_first_codepoint(bytes), length_of_first_codepoint(bytes))
}

/// The byte sequence with its first encoded codepoint removed.
pub open spec fn pop_first_wtf8_codepoint(bytes: Seq<u8>) -> Seq<u8>
    recommends
        valid_first_wtf8_codepoint(bytes),
{
    bytes.subrange(length_of_first_codepoint(bytes), bytes.len() as int)
}

/// True when the bytes begin with the encoding of a lead surrogate
/// (a codepoint in `U+D800..=U+DBFF`): `ED A0..AF` and a continuation byte.
pub open spec fn starts_with_lead_surrogate(bytes: Seq<u8>) -> bool {
    &&& bytes.len() >= 3
    &&& bytes[0] == 0xED
    &&& 0xA0 <= bytes[1] <= 0xAF
    &&& is_continuation_byte(bytes[2])
}

/// True when the bytes begin with the encoding of a trail surrogate
/// (a codepoint in `U+DC00..=U+DFFF`): `ED B0..BF` and a continuation byte.
pub open spec fn starts_with_trail_surrogate(bytes: Seq<u8>) -> bool {
    &&& bytes.len() >= 3
    &&& bytes[0] == 0xED
    &&& 0xB0 <= bytes[1] <= 0xBF
    &&& is_continuation_byte(bytes[2])
}

/// True when the bytes end with the encoding of a lead surrogate.
pub open spec fn ends_with_lead_surrogate(bytes: Seq<u8>) -> bool {
    &&& bytes.len() >= 3
    &&& bytes[bytes.len() - 3] == 0xED
    &&& 0xA0 <= bytes[bytes.len() - 2] <= 0xAF
    &&& is_continuation_byte(bytes[bytes.len() - 1])
}

/// True when the bytes form well-formed WTF-8: a sequence of well-formed,
/// non-overlong codepoint encodings in which lone surrogates may appear,
/// but a lead surrogate is never followed directly by a trail surrogate —
/// that pair must be encoded as the one supplementary codepoint it names.
pub open spec fn valid_wtf8(bytes: Seq<u8>) -> bool
    decreases bytes.len(),
{
    bytes.len() != 0 ==> {
        &&& valid_first_wtf8_codepoint(bytes)
        &&& !(starts_with_lead_surrogate(bytes) && starts_with_trail_surrogate(
            pop_first_wtf8_codepoint(bytes),
        ))
        &&& valid_wtf8(pop_first_wtf8_codepoint(bytes))
    }
}

/// True when `index` sits between two codepoint encodings (or at either
/// end) of a valid WTF-8 sequence: it does not point into the middle of a
/// multi-byte encoding.
pub open spec fn is_codepoint_boundary(bytes: Seq<u8>, index: int) -> bool {
    ||| index == 0
    ||| index == bytes.len()
    ||| (0 <= index < bytes.len() && !is_continuation_byte(bytes[index]))
}

/// True when every byte is ASCII.
pub open spec fn is_ascii_bytes(bytes: Seq<u8>) -> bool {
    forall|i: int| 0 <= i < bytes.len() ==> bytes[i] < 0x80
}

/// The ASCII-lowercase image of one byte: letters `A`..`Z` map to
/// `a`..`z`, everything else is unchanged.
pub open spec fn spec_ascii_lower(b: u8) -> u8 {
    if 0x41 <= b <= 0x5a {
        (b + 0x20) as u8
    } else {
        b
    }
}

/// The ASCII-uppercase image of one byte: letters `a`..`z` map to
/// `A`..`Z`, everything else is unchanged.
pub open spec fn spec_ascii_upper(b: u8) -> u8 {
    if 0x61 <= b <= 0x7a {
        (b - 0x20) as u8
    } else {
        b
    }
}

/// A byte sequence starting `ED A0..BF cont` encodes a surrogate
/// codepoint.
pub proof fn lemma_ed_pattern_is_surrogate(bytes: Seq<u8>)
    requires
        bytes.len() >= 3,
        bytes[0] == 0xED,
        0xA0 <= bytes[1] <= 0xBF,
        is_continuation_byte(bytes[2]),
    ensures
        is_leading_byte_width_3(bytes[0]),
        0xD800 <= decode_first_codepoint(bytes) <= 0xDFFF,
{
    let b1 = bytes[1];
    let b2 = bytes[2];
    assert(0xD800 <= ((((0xEDu8 & 0x0F) as u32) << 12) | (((b1 & 0x3F) as u32) << 6) | ((b2
        & 0x3F) as u32)) <= 0xDFFF) by (bit_vector)
        requires
            0xA0 <= b1 <= 0xBF,
            0x80 <= b2 <= 0xBF,
    ;
    assert(decode_first_codepoint(bytes) == codepoint_width_3(bytes[0], bytes[1], bytes[2]));
}

/// Valid UTF-8 never starts with a surrogate encoding.
pub proof fn lemma_valid_utf8_no_surrogate_start(bytes: Seq<u8>)
    requires
        valid_utf8(bytes),
    ensures
        !starts_with_lead_surrogate(bytes),
        !starts_with_trail_surrogate(bytes),
{
    if bytes.len() != 0 {
        if starts_with_lead_surrogate(bytes) || starts_with_trail_surrogate(bytes) {
            lemma_ed_pattern_is_surrogate(bytes);
        }
    }
}

/// Every valid UTF-8 sequence is valid WTF-8: UTF-8 holds no surrogate
/// encoding at all, so both the per-codepoint conditions and the
/// no-adjacent-surrogate-pair condition hold.
pub proof fn lemma_valid_utf8_is_valid_wtf8(bytes: Seq<u8>)
    requires
        valid_utf8(bytes),
    ensures
        valid_wtf8(bytes),
    decreases bytes.len(),
{
    if bytes.len() != 0 {
        assert(valid_first_scalar(bytes));
        assert(length_of_first_scalar(bytes) == length_of_first_codepoint(bytes));
        assert(pop_first_scalar(bytes) =~= pop_first_wtf8_codepoint(bytes));
        lemma_valid_utf8_no_surrogate_start(bytes);
        lemma_valid_utf8_is_valid_wtf8(pop_first_scalar(bytes));
    }
}

/// Concatenating two valid WTF-8 sequences whose boundary does not put a
/// trail surrogate after a lead surrogate yields a valid WTF-8 sequence.
pub proof fn lemma_valid_wtf8_concat(b1: Seq<u8>, b2: Seq<u8>)
    requires
        valid_wtf8(b1),
        valid_wtf8(b2),
        !(ends_with_lead_surrogate(b1) && starts_with_trail_surrogate(b2)),
    ensures
        valid_wtf8(b1 + b2),
    decreases b1.len(),
{
    if b1.len() == 0 {
        assert(b1 + b2 =~= b2);
    } else {
        let w = length_of_first_codepoint(b1);
        let rest = pop_first_wtf8_codepoint(b1);
        assert(valid_first_wtf8_codepoint(b1 + b2));
        assert(pop_first_wtf8_codepoint(b1 + b2) =~= rest + b2);
        if rest.len() == 0 {
            // the whole of b1 is one codepoint
            if starts_with_lead_surrogate(b1 + b2) {
                // that codepoint starts with 0xED, so it is 3 bytes long
                assert(b1.len() == 3);
                assert(ends_with_lead_surrogate(b1));
                assert(!starts_with_trail_surrogate(b2));
            }
            assert(rest + b2 =~= b2);
            assert(valid_wtf8(b1 + b2));
        } else {
            if ends_with_lead_surrogate(rest) {
                // the last three bytes of rest are the last three of b1
                assert(rest.len() >= 3);
                assert(ends_with_lead_surrogate(b1));
            }
            lemma_valid_wtf8_concat(rest, b2);
            if starts_with_lead_surrogate(b1 + b2) && starts_with_trail_surrogate(rest + b2) {
                assert(starts_with_lead_surrogate(b1));
                // rest starts with 0xED, so its first codepoint is 3 bytes
                assert(rest[0] == 0xED);
                assert(rest.len() >= 3);
                assert(starts_with_trail_surrogate(rest));
                assert(false);
            }
            assert(valid_wtf8(b1 + b2));
        }
    }
}

/// Dropping a trailing lead-surrogate encoding from a valid WTF-8 sequence
/// leaves a valid WTF-8 sequence: the pattern `ED A0..AF cont` at the end
/// can only be the last codepoint itself.
pub proof fn lemma_valid_wtf8_drop_last_lead(s: Seq<u8>)
    requires
        valid_wtf8(s),
        ends_with_lead_surrogate(s),
    ensures
        valid_wtf8(s.take(s.len() - 3)),
    decreases s.len(),
{
    let w = length_of_first_codepoint(s);
    let rest = pop_first_wtf8_codepoint(s);
    if s.len() <= 3 {
        // the pattern needs three bytes, and 0xED first means width 3:
        // the sequence is exactly the lead-surrogate codepoint
        assert(s[0] == 0xED);
        assert(w == 3);
        assert(s.take(s.len() - 3) =~= Seq::<u8>::empty());
    } else {
        // the 0xED of the pattern cannot sit inside the first codepoint:
        // positions 1.. of a codepoint are continuation bytes
        if rest.len() < 3 {
            let p = s.len() - 3;
            assert(1 <= p < w);
            assert(is_continuation_byte(s[p]));
            assert(false);
        }
        assert(ends_with_lead_surrogate(rest));
        lemma_valid_wtf8_drop_last_lead(rest);
        let s1 = s.take(s.len() - 3);
        assert(s1.len() >= w);
        assert(forall|i: int| 0 <= i < s1.len() ==> s1[i] == s[i]);
        assert(length_of_first_codepoint(s1) == w);
        assert(valid_first_wtf8_codepoint(s1));
        let rest1 = pop_first_wtf8_codepoint(s1);
        assert(rest1 =~= rest.take(rest.len() - 3));
        if starts_with_lead_surrogate(s1) && starts_with_trail_surrogate(rest1) {
            assert(starts_with_lead_surrogate(s));
            assert(starts_with_trail_surrogate(rest));
            assert(false);
        }
        assert(valid_wtf8(s1));
    }
}

/// Mapping each byte through an ASCII-to-ASCII function that leaves
/// non-ASCII bytes alone preserves WTF-8 validity: multi-byte encodings —
/// surrogate encodings among them — consist entirely of bytes at or above
/// `0x80` and pass through untouched, and one-byte encodings stay one-byte
/// encodings.
pub proof fn lemma_wtf8_ascii_map(s: Seq<u8>, f: spec_fn(u8) -> u8)
    requires
        valid_wtf8(s),
        forall|b: u8| b >= 0x80 ==> #[trigger] f(b) == b,
        forall|b: u8| b < 0x80 ==> #[trigger] f(b) < 0x80,
    ensures
        valid_wtf8(s.map_values(f)),
    decreases s.len(),
{
    if s.len() != 0 {
        let m = s.map_values(f);
        assert(forall|i: int| 0 <= i < s.len() ==> m[i] == #[trigger] f(s[i]));
        if is_leading_byte_width_1(s[0]) {
            assert(is_leading_byte_width_1(m[0]));
            assert(length_of_first_codepoint(m) == 1);
            assert(valid_first_wtf8_codepoint(m));
        } else {
            assert(s[0] >= 0x80);
            assert(m[0] == s[0]);
            if is_leading_byte_width_2(s[0]) {
                assert(m[1] == s[1]);
            } else if is_leading_byte_width_3(s[0]) {
                assert(m[1] == s[1] && m[2] == s[2]);
            } else {
                assert(is_leading_byte_width_4(s[0]));
                assert(m[1] == s[1] && m[2] == s[2] && m[3] == s[3]);
            }
            assert(length_of_first_codepoint(m) == length_of_first_codepoint(s));
            assert(decode_first_codepoint(m) == decode_first_codepoint(s));
            assert(valid_first_wtf8_codepoint(m));
        }
        let tail = pop_first_wtf8_codepoint(s);
        assert(pop_first_wtf8_codepoint(m) =~= tail.map_values(f));
        if starts_with_lead_surrogate(m) && starts_with_trail_surrogate(tail.map_values(f)) {
            // a surrogate encoding's bytes all lie at or above 0x80 and so
            // are untouched by the map
            assert(s[0] == m[0] && s[1] == m[1] && s[2] == m[2]);
            assert(starts_with_lead_surrogate(s));
            let tm = tail.map_values(f);
            assert(tail[0] == tm[0] && tail[1] == tm[1] && tail[2] == tm[2]);
            assert(starts_with_trail_surrogate(tail));
            assert(false);
        }
        lemma_wtf8_ascii_map(tail, f);
    }
}

/// The lossy UTF-8 decoding of a well-formed WTF-8 sequence, at the byte
/// level: every surrogate codepoint's 3-byte encoding is replaced by the
/// encoding of the replacement character `U+FFFD`, and every other
/// codepoint is copied unchanged.  (Bytes that are not well-formed WTF-8
/// are left as they are; the operations below never produce such bytes.)
pub open spec fn lossy_wtf8_bytes(s: Seq<u8>) -> Seq<u8>
    decreases s.len(),
{
    if s.len() == 0 {
        Seq::empty()
    } else if !valid_first_wtf8_codepoint(s) {
        s
    } else {
        let head = if s[0] == 0xED && 0xA0 <= s[1] <= 0xBF {
            seq![0xEFu8, 0xBFu8, 0xBDu8]
        } else {
            s.take(length_of_first_codepoint(s))
        };
        head + lossy_wtf8_bytes(pop_first_wtf8_codepoint(s))
    }
}

/// The lossy decoding of well-formed WTF-8 is valid UTF-8: surrogates are
/// the only codepoints WTF-8 allows beyond UTF-8, and each is replaced by
/// the replacement character.
pub proof fn lemma_lossy_wtf8_valid_utf8(s: Seq<u8>)
    requires
        valid_wtf8(s),
    ensures
        valid_utf8(lossy_wtf8_bytes(s)),
    decreases s.len(),
{
    if s.len() != 0 {
        let w = length_of_first_codepoint(s);
        let rest = pop_first_wtf8_codepoint(s);
        lemma_lossy_wtf8_valid_utf8(rest);
        let head: Seq<u8> = if s[0] == 0xED && 0xA0 <= s[1] <= 0xBF {
            seq![0xEFu8, 0xBFu8, 0xBDu8]
        } else {
            s.take(w)
        };
        if s[0] == 0xED && 0xA0 <= s[1] <= 0xBF {
            assert(valid_utf8(head)) by {
                assert(head.len() == 3 && head[0] == 0xEF && head[1] == 0xBF && head[2] == 0xBD);
                assert((((0xEFu8 & 0x0F) as u32) << 12) | (((0xBFu8 & 0x3F) as u32) << 6) | ((
                0xBDu8 & 0x3F) as u32) == 0xFFFD) by (bit_vector);
                assert(decode_first_codepoint(head) == codepoint_width_3(0xEF, 0xBF, 0xBD));
                assert(valid_first_scalar(head));
                assert(pop_first_scalar(head) =~= Seq::<u8>::empty());
                assert(valid_utf8(Seq::<u8>::empty()));
            }
        } else {
            assert(valid_utf8(head)) by {
                assert(head.len() == w);
                assert(forall|i: int| 0 <= i < w ==> head[i] == s[i]);
                assert(length_of_first_codepoint(head) == w);
                assert(decode_first_codepoint(head) == decode_first_codepoint(s));
                assert(valid_first_wtf8_codepoint(head));
                let b0 = s[0];
                if w == 1 {
                    assert(((b0 & 0x7F) as u32) <= 0x7F) by (bit_vector);
                } else if w == 2 {
                    let b1 = s[1];
                    assert(((((b0 & 0x1F) as u32) << 6) | ((b1 & 0x3F) as u32)) <= 0x7FF)
                        by (bit_vector);
                } else if w == 3 {
                    let b1 = s[1];
                    let b2 = s[2];
                    assert(!(0xD800 <= (((((b0 & 0x0F) as u32) << 12) | (((b1
                        & 0x3F) as u32) << 6) | ((b2 & 0x3F) as u32))) <= 0xDFFF)) by (bit_vector)
                        requires
                            0xE0 <= b0 <= 0xEF,
                            0x80 <= b1 <= 0xBF,
                            !(b0 == 0xED && 0xA0 <= b1 <= 0xBF),
                    ;
                } else {
                    assert(decode_first_codepoint(s) >= 0x10000);
                }
                assert(valid_first_scalar(head));
                assert(pop_first_scalar(head) =~= Seq::<u8>::empty());
                assert(valid_utf8(Seq::<u8>::empty()));
            }
        }
        vstd::utf8::valid_utf8_concat(head, lossy_wtf8_bytes(rest));
    }
}

/// Cutting a well-formed WTF-8 sequence at a codepoint boundary leaves a
/// well-formed prefix.
pub proof fn lemma_valid_wtf8_take_boundary(s: Seq<u8>, k: int)
    requires
        valid_wtf8(s),
        0 <= k <= s.len(),
        is_codepoint_boundary(s, k),
    ensures
        valid_wtf8(s.take(k)),
    decreases s.len(),
{
    if k == 0 {
        assert(s.take(0) =~= Seq::<u8>::empty());
    } else if k == s.len() {
        assert(s.take(k) =~= s);
    } else {
        let w = length_of_first_codepoint(s);
        let rest = pop_first_wtf8_codepoint(s);
        // the cut cannot land inside the first codepoint: its inner bytes
        // are continuations
        assert(k >= w);
        assert(is_codepoint_boundary(rest, k - w));
        lemma_valid_wtf8_take_boundary(rest, k - w);
        let s1 = s.take(k);
        assert(forall|i: int| 0 <= i < k ==> s1[i] == s[i]);
        assert(length_of_first_codepoint(s1) == w);
        assert(valid_first_wtf8_codepoint(s1));
        let rest1 = pop_first_wtf8_codepoint(s1);
        assert(rest1 =~= rest.take(k - w));
        if starts_with_lead_surrogate(s1) && starts_with_trail_surrogate(rest1) {
            assert(starts_with_lead_surrogate(s));
            assert(starts_with_trail_surrogate(rest));
            assert(false);
        }
        assert(valid_wtf8(s1));
    }
}

/// The supplementary codepoint a lead/trail surrogate pair names, from
/// the payload bytes of the two 3-byte encodings (`ED l1 l2` and
/// `ED t1 t2`).
pub open spec fn joined_codepoint(l1: u8, l2: u8, t1: u8, t2: u8) -> u32
    recommends
        0xA0 <= l1 <= 0xAF,
        is_continuation_byte(l2),
        0xB0 <= t1 <= 0xBF,
        is_continuation_byte(t2),
{
    (0x10000 + (((l1 & 0x0F) as u32) << 16) + (((l2 & 0x3F) as u32) << 10) + (((t1
        & 0x0F) as u32) << 6) + ((t2 & 0x3F) as u32)) as u32
}

/// The 4-byte encoding of a supplementary codepoint.
pub open spec fn encode_supplementary(c: u32) -> Seq<u8>
    recommends
        0x10000 <= c <= 0x10FFFF,
{
    seq![
        ((c >> 18) + 0xF0) as u8,
        (((c >> 12) & 0x3F) + 0x80) as u8,
        (((c >> 6) & 0x3F) + 0x80) as u8,
        ((c & 0x3F) + 0x80) as u8,
    ]
}

/// WTF-8 concatenation: plain byte concatenation, except that a lead
/// surrogate ending the left side and a trail surrogate starting the right
/// side combine into the one supplementary codepoint they name.
pub open spec fn spec_wtf8_concat(a: Seq<u8>, b: Seq<u8>) -> Seq<u8> {
    if ends_with_lead_surrogate(a) && starts_with_trail_surrogate(b) {
        a.take(a.len() - 3) + encode_supplementary(
            joined_codepoint(a[a.len() - 2], a[a.len() - 1], b[1], b[2]),
        ) + b.skip(3)
    } else {
        a + b
    }
}

/// A surrogate pair names a supplementary codepoint: one in
/// `U+10000..=U+10FFFF`.
pub proof fn lemma_joined_codepoint_range(l1: u8, l2: u8, t1: u8, t2: u8)
    requires
        0xA0 <= l1 <= 0xAF,
        is_continuation_byte(l2),
        0xB0 <= t1 <= 0xBF,
        is_continuation_byte(t2),
    ensures
        0x10000 <= joined_codepoint(l1, l2, t1, t2) <= 0x10FFFF,
{
    assert(0x10000 <= (0x10000 + (((l1 & 0x0F) as u32) << 16) + (((l2 & 0x3F) as u32) << 10) + (((
    t1 & 0x0F) as u32) << 6) + ((t2 & 0x3F) as u32)) as u32 <= 0x10FFFF) by (bit_vector)
        requires
            0xA0 <= l1 <= 0xAF,
            0x80 <= l2 <= 0xBF,
            0xB0 <= t1 <= 0xBF,
            0x80 <= t2 <= 0xBF,
    ;
}

/// The 4-byte encoding of a supplementary codepoint, followed by anything,
/// is a well-formed first codepoint of width 4 that is no surrogate
/// encoding, and popping it leaves the tail.
pub proof fn lemma_encode_supplementary_valid(c: u32, tail: Seq<u8>)
    requires
        0x10000 <= c <= 0x10FFFF,
    ensures
        ({
            let e = encode_supplementary(c);
            &&& e.len() == 4
            &&& valid_first_wtf8_codepoint(e + tail)
            &&& length_of_first_codepoint(e + tail) == 4
            &&& decode_first_codepoint(e + tail) == c
            &&& !starts_with_lead_surrogate(e + tail)
            &&& !starts_with_trail_surrogate(e + tail)
            &&& pop_first_wtf8_codepoint(e + tail) =~= tail
        }),
{
    let e = encode_supplementary(c);
    let b0 = ((c >> 18) + 0xF0) as u8;
    let b1 = (((c >> 12) & 0x3F) + 0x80) as u8;
    let b2 = (((c >> 6) & 0x3F) + 0x80) as u8;
    let b3 = ((c & 0x3F) + 0x80) as u8;
    assert(0xF0 <= b0 <= 0xF4 && 0x80 <= b1 <= 0xBF && 0x80 <= b2 <= 0xBF && 0x80 <= b3 <= 0xBF)
        by (bit_vector)
        requires
            0x10000 <= c <= 0x10FFFF,
            b0 == ((c >> 18) + 0xF0) as u8,
            b1 == (((c >> 12) & 0x3F) + 0x80) as u8,
            b2 == (((c >> 6) & 0x3F) + 0x80) as u8,
            b3 == ((c & 0x3F) + 0x80) as u8,
    ;
    assert((((b0 & 0x07) as u32) << 18) | (((b1 & 0x3F) as u32) << 12) | (((b2
        & 0x3F) as u32) << 6) | ((b3 & 0x3F) as u32) == c) by (bit_vector)
        requires
            0x10000 <= c <= 0x10FFFF,
            b0 == ((c >> 18) + 0xF0) as u8,
            b1 == (((c >> 12) & 0x3F) + 0x80) as u8,
            b2 == (((c >> 6) & 0x3F) + 0x80) as u8,
            b3 == ((c & 0x3F) + 0x80) as u8,
    ;
    let m = e + tail;
    assert(m[0] == b0 && m[1] == b1 && m[2] == b2 && m[3] == b3);
    assert(is_leading_byte_width_4(m[0]));
    assert(decode_first_codepoint(m) == codepoint_width_4(m[0], m[1], m[2], m[3]));
    assert(valid_first_wtf8_codepoint(m));
}

/// WTF-8 concatenation of two well-formed sequences is well-formed: the
/// boundary join removes the one adjacency the encoding forbids.
pub proof fn lemma_wtf8_concat_valid(a: Seq<u8>, b: Seq<u8>)
    requires
        valid_wtf8(a),
        valid_wtf8(b),
    ensures
        valid_wtf8(spec_wtf8_concat(a, b)),
{
    if ends_with_lead_surrogate(a) && starts_with_trail_surrogate(b) {
        let a1 = a.take(a.len() - 3);
        lemma_valid_wtf8_drop_last_lead(a);
        let c = joined_codepoint(a[a.len() - 2], a[a.len() - 1], b[1], b[2]);
        lemma_joined_codepoint_range(a[a.len() - 2], a[a.len() - 1], b[1], b[2]);
        let e = encode_supplementary(c);
        let tail = b.skip(3);
        lemma_encode_supplementary_valid(c, tail);
        // the trail surrogate is b's whole first codepoint
        assert(b[0] == 0xED);
        assert(length_of_first_codepoint(b) == 3);
        assert(pop_first_wtf8_codepoint(b) =~= tail);
        assert(valid_wtf8(tail));
        assert(valid_wtf8(e + tail)) by {
            assert(valid_first_wtf8_codepoint(e + tail));
            assert(!starts_with_lead_surrogate(e + tail));
            assert(pop_first_wtf8_codepoint(e + tail) =~= tail);
        }
        assert(!starts_with_trail_surrogate(e + tail));
        lemma_valid_wtf8_concat(a1, e + tail);
        assert(spec_wtf8_concat(a, b) =~= a1 + (e + tail));
    } else {
        lemma_valid_wtf8_concat(a, b);
    }
}

/// An owned WTF-8 byte string.
#[derive(Clone, Debug)]
pub struct Buf {
    /// The encoded bytes.
    pub inner: Vec<u8>,
}

/// A WTF-8 byte string with slice-style operations.
#[derive(Debug)]
pub struct Slice {
    /// The encoded bytes.
    pub inner: Vec<u8>,
}

impl View for Buf {
    type V = Seq<u8>;

    open spec fn view(&self) -> Seq<u8> {
        self.inner@
    }
}

impl View for Slice {
    type V = Seq<u8>;

    open spec fn view(&self) -> Seq<u8> {
        self.inner@
    }
}

/// Relies on `String::from_utf8`: it succeeds exactly on valid UTF-8,
/// returns the string decoded from those bytes, and on failure
/// `FromUtf8Error::into_bytes` gives the input back unchanged.
#[verifier::external_body]
pub(crate) fn vec_into_string(v: Vec<u8>) -> (r: Result<String, Vec<u8>>)
    ensures
        r is Ok <==> valid_utf8(v@),
        r matches Ok(s) ==> s@ == decode_utf8(v@) && encode_utf8(s@) == v@,
        r matches Err(w) ==> w@ == v@,
{
    match String::from_utf8(v) {
        Ok(s) => Ok(s),
        Err(e) => Err(e.into_bytes()),
    }
}

/// Declares `core::str::Utf8Error`, the error type of `core::str::from_utf8`,
/// so that it can stand in result types; it is carried through opaquely.
#[verifier::external_type_specification]
#[verifier::external_body]
pub struct ExUtf8Error(core::str::Utf8Error);

/// Relies on `core::str::from_utf8`: it succeeds exactly on valid UTF-8
/// and returns the string view of those same bytes.
#[verifier::external_body]
fn bytes_as_str(v: &[u8]) -> (r: Result<&str, core::str::Utf8Error>)
    ensures
        r is Ok <==> valid_utf8(v@),
        r matches Ok(s) ==> s@ == decode_utf8(v@) && encode_utf8(s@) == v@,
{
    core::str::from_utf8(v)
}

/// The lossy decoding of valid UTF-8 replaces nothing.
pub proof fn lemma_lossy_utf8_identity(s: Seq<u8>)
    requires
        valid_utf8(s),
    ensures
        lossy_wtf8_bytes(s) == s,
    decreases s.len(),
{
    if s.len() != 0 {
        lemma_valid_utf8_is_valid_wtf8(s);
        let w = length_of_first_codepoint(s);
        if s[0] == 0xED && 0xA0 <= s[1] <= 0xBF {
            lemma_ed_pattern_is_surrogate(s);
            assert(!not_surrogate(decode_first_codepoint(s)));
            assert(false);
        }
        assert(pop_first_scalar(s) =~= pop_first_wtf8_codepoint(s));
        lemma_lossy_utf8_identity(pop_first_scalar(s));
        assert(lossy_wtf8_bytes(s) =~= s.take(w) + pop_first_wtf8_codepoint(s));
        assert(s.take(w) + pop_first_wtf8_codepoint(s) =~= s);
    }
}

/// Compute the lossy UTF-8 decoding of well-formed WTF-8 bytes: each
/// surrogate encoding becomes the replacement character, everything else
/// is copied.
#[verifier::rlimit(100)]
fn lossy_bytes(v: &[u8]) -> (r: Vec<u8>)
    requires
        valid_wtf8(v@),
    ensures
        r@ == lossy_wtf8_bytes(v@),
{
    let n = v.len();
    let mut out: Vec<u8> = Vec::new();
    let mut pos: usize = 0;
    proof {
        assert(v@.skip(0) =~= v@);
    }
    while pos < n
        invariant
            pos <= n,
            n == v@.len(),
            valid_wtf8(v@.skip(pos as int)),
            lossy_wtf8_bytes(v@) =~= out@ + lossy_wtf8_bytes(v@.skip(pos as int)),
        decreases n - pos,
    {
        let ghost suf = v@.skip(pos as int);
        let b0 = v[pos];
        let w: usize = if b0 < 0x80 {
            1
        } else if b0 < 0xE0 {
            2
        } else if b0 < 0xF0 {
            3
        } else {
            4
        };
        proof {
            assert(suf[0] == b0);
            assert(valid_first_wtf8_codepoint(suf));
            assert(w as int == length_of_first_codepoint(suf));
            assert(pos + w <= n);
            assert(v@.skip(pos + w) =~= pop_first_wtf8_codepoint(suf));
        }
        let ghost pre = out@;
        if b0 == 0xED && 0xA0 <= v[pos + 1] && v[pos + 1] <= 0xBF {
            out.push(0xEF);
            out.push(0xBF);
            out.push(0xBD);
            proof {
                assert(out@ =~= pre + seq![0xEFu8, 0xBFu8, 0xBDu8]);
                assert(lossy_wtf8_bytes(suf) =~= seq![0xEFu8, 0xBFu8, 0xBDu8]
                    + lossy_wtf8_bytes(pop_first_wtf8_codepoint(suf)));
            }
        } else {
            let mut j: usize = 0;
            while j < w
                invariant
                    j <= w,
                    pos + w <= n,
                    n == v@.len(),
                    out@ =~= pre + v@.subrange(pos as int, pos + j),
                decreases w - j,
            {
                let b = v[pos + j];
                out.push(b);
                proof {
                    assert(out@ =~= pre + v@.subrange(pos as int, pos + j + 1));
                }
                j = j + 1;
            }
            proof {
                assert(v@.subrange(pos as int, pos + w) =~= suf.take(w as int));
                assert(lossy_wtf8_bytes(suf) =~= suf.take(w as int) + lossy_wtf8_bytes(
                    pop_first_wtf8_codepoint(suf),
                ));
            }
        }
        pos = pos + w;
    }
    proof {
        assert(v@.skip(n as int) =~= Seq::<u8>::empty());
    }
    out
}

/// Relies on `Vec::capacity`: a vector's capacity is at least its length.
#[verifier::external_body]
fn vec_capacity(v: &Vec<u8>) -> (r: usize)
    ensures
        r >= v@.len(),
{
    v.capacity()
}

/// Relies on `Vec::reserve_exact`: it only changes capacity, never the
/// contents.
#[verifier::external_body]
fn vec_reserve_exact(v: &mut Vec<u8>, additional: usize)
    ensures
        final(v)@ == old(v)@,
{
    v.reserve_exact(additional)
}

/// Relies on `Vec::try_reserve_exact`: it only changes capacity, never the
/// contents, whether or not the allocation succeeds.
#[verifier::external_body]
fn vec_try_reserve_exact(v: &mut Vec<u8>, additional: usize) -> (r: Result<(), TryReserveError>)
    ensures
        final(v)@ == old(v)@,
{
    v.try_reserve_exact(additional)
}

/// Relies on `Vec::shrink_to_fit`: it only changes capacity, never the
/// contents.
#[verifier::external_body]
fn vec_shrink_to_fit(v: &mut Vec<u8>)
    ensures
        final(v)@ == old(v)@,
{
    v.shrink_to_fit()
}

/// Relies on `Vec::shrink_to`: it only changes capacity, never the
/// contents.
#[verifier::external_body]
fn vec_shrink_to(v: &mut Vec<u8>, min_capacity: usize)
    ensures
        final(v)@ == old(v)@,
{
    v.shrink_to(min_capacity)
}

/// The ASCII-lowercase image of one byte.
fn ascii_lower(b: u8) -> (r: u8)
    ensures
        r == spec_ascii_lower(b),
{
    if 0x41 <= b && b <= 0x5a {
        b + 0x20
    } else {
        b
    }
}

/// The ASCII-uppercase image of one byte.
fn ascii_upper(b: u8) -> (r: u8)
    ensures
        r == spec_ascii_upper(b),
{
    if 0x61 <= b && b <= 0x7a {
        b - 0x20
    } else {
        b
    }
}

impl Buf {
    /// Well-formedness: the bytes are valid WTF-8.
    pub open spec fn well_formed(&self) -> bool {
        valid_wtf8(self@)
    }

    /// An empty buffer.
    pub fn new() -> (r: Buf)
        ensures
            r@ == Seq::<u8>::empty(),
            r.well_formed(),
    {
        Buf { inner: Vec::new() }
    }

    /// Adopt already-encoded bytes.  The caller owes the well-formedness
    /// proof; where the bytes come from outside, validate them first.
    pub fn from_encoded_bytes(inner: Vec<u8>) -> (r: Buf)
        requires
            valid_wtf8(inner@),
        ensures
            r@ == inner@,
            r.well_formed(),
    {
        Buf { inner }
    }

    /// Hand out the encoded bytes.
    pub fn into_encoded_bytes(self) -> (r: Vec<u8>)
        ensures
            r@ == self@,
    {
        self.inner
    }

    /// Convert to a `String` when the bytes are valid UTF-8; otherwise hand
    /// the buffer back unchanged.  Succeeds if and only if the bytes hold no
    /// surrogate codepoint, i.e. they are valid UTF-8.
    pub fn into_string(self) -> (r: Result<String, Buf>)
        ensures
            r is Ok <==> valid_utf8(self@),
            r matches Ok(s) ==> s@ == decode_utf8(self@),
            r matches Err(b) ==> b@ == self@,
    {
        match vec_into_string(self.inner) {
            Ok(s) => Ok(s),
            Err(w) => Err(Buf { inner: w }),
        }
    }

    /// Store a `String`'s bytes; UTF-8 embeds into WTF-8 unchanged.
    pub fn from_string(s: String) -> (r: Buf)
        ensures
            r@ == encode_utf8(s@),
            r.well_formed(),
    {
        let v = s.as_str().as_bytes_vec();
        proof {
            encode_utf8_valid_utf8(s@);
            lemma_valid_utf8_is_valid_wtf8(v@);
        }
        Buf { inner: v }
    }

    /// An empty buffer with room for `capacity` bytes.
    pub fn with_capacity(capacity: usize) -> (r: Buf)
        ensures
            r@ == Seq::<u8>::empty(),
            r.well_formed(),
    {
        Buf { inner: Vec::with_capacity(capacity) }
    }

    /// Drop the contents, keeping the allocation.
    pub fn clear(&mut self)
        ensures
            final(self)@ == Seq::<u8>::empty(),
            final(self).well_formed(),
    {
        self.inner.clear()
    }

    /// How many bytes fit without reallocating; at least the length.
    pub fn capacity(&self) -> (r: usize)
        ensures
            r >= self@.len(),
    {
        vec_capacity(&self.inner)
    }

    /// Append a slice: WTF-8 concatenation.  The bytes are concatenated,
    /// except that a lead surrogate ending the buffer and a trail
    /// surrogate starting the slice join into the one supplementary
    /// codepoint they name, keeping the buffer well-formed.
    pub fn push_slice(&mut self, s: &Slice)
        ensures
            final(self)@ == spec_wtf8_concat(old(self)@, s@),
            old(self).well_formed() && s.well_formed() ==> final(self).well_formed(),
    {
        proof {
            if old(self).well_formed() && s.well_formed() {
                lemma_wtf8_concat_valid(old(self)@, s@);
            }
        }
        let n = self.inner.len();
        let m = s.inner.len();
        let join = n >= 3 && m >= 3 && self.inner[n - 3] == 0xED && 0xA0 <= self.inner[n - 2]
            && self.inner[n - 2] <= 0xAF && 0x80 <= self.inner[n - 1] && self.inner[n - 1] <= 0xBF
            && s.inner[0] == 0xED && 0xB0 <= s.inner[1] && s.inner[1] <= 0xBF && 0x80 <= s.inner[2]
            && s.inner[2] <= 0xBF;
        proof {
            assert(join == (ends_with_lead_surrogate(old(self)@) && starts_with_trail_surrogate(
                s@,
            )));
        }
        if join {
            let l1 = self.inner[n - 2];
            let l2 = self.inner[n - 1];
            let t1 = s.inner[1];
            let t2 = s.inner[2];
            proof {
                lemma_joined_codepoint_range(l1, l2, t1, t2);
                assert((((l1 & 0x0F) as u32) << 16u32) <= 0xF0000 && (((l2
                    & 0x3F) as u32) << 10u32) <= 0xFC00 && (((t1 & 0x0F) as u32) << 6u32) <= 0x3C0
                    && ((t2 & 0x3F) as u32) <= 0x3F) by (bit_vector);
            }
            self.inner.truncate(n - 3);
            let c: u32 = 0x10000 + (((l1 & 0x0F) as u32) << 16u32) + (((l2
                & 0x3F) as u32) << 10u32) + (((t1 & 0x0F) as u32) << 6u32) + ((t2 & 0x3F) as u32);
            proof {
                assert(c == joined_codepoint(l1, l2, t1, t2)) by (bit_vector)
                    requires
                        c == (0x10000 + (((l1 & 0x0F) as u32) << 16u32) + (((l2
                            & 0x3F) as u32) << 10u32) + (((t1 & 0x0F) as u32) << 6u32) + ((t2
                            & 0x3F) as u32)) as u32,
                        joined_codepoint(l1, l2, t1, t2) == (0x10000 + (((l1
                            & 0x0F) as u32) << 16u32) + (((l2 & 0x3F) as u32) << 10u32) + (((t1
                            & 0x0F) as u32) << 6u32) + ((t2 & 0x3F) as u32)) as u32,
                ;
            }
            proof {
                assert((c >> 18u32) + 0xF0 <= 0xF4 && ((c >> 12u32) & 0x3F) + 0x80 <= 0xBF && ((c
                    >> 6u32) & 0x3F) + 0x80 <= 0xBF && (c & 0x3F) + 0x80 <= 0xBF) by (bit_vector)
                    requires
                        c <= 0x10FFFF,
                ;
            }
            self.inner.push(((c >> 18u32) + 0xF0) as u8);
            self.inner.push(((((c >> 12u32) & 0x3F) + 0x80) as u8));
            self.inner.push(((((c >> 6u32) & 0x3F) + 0x80) as u8));
            self.inner.push(((c & 0x3F) + 0x80) as u8);
            proof {
                assert(self@ =~= old(self)@.take(n - 3) + encode_supplementary(c));
            }
            let mut i: usize = 3;
            while i < m
                invariant
                    3 <= i <= m,
                    m == s@.len(),
                    s@ == s.inner@,
                    self@ =~= old(self)@.take(n as int - 3) + encode_supplementary(
                        joined_codepoint(l1, l2, t1, t2),
                    ) + s@.subrange(3, i as int),
                    c == joined_codepoint(l1, l2, t1, t2),
                decreases m - i,
            {
                let b = s.inner[i];
                self.inner.push(b);
                proof {
                    assert(self@ =~= old(self)@.take(n as int - 3) + encode_supplementary(c)
                        + s@.subrange(3, i + 1));
                }
                i = i + 1;
            }
            proof {
                assert(s@.subrange(3, m as int) =~= s@.skip(3));
                assert(self@ =~= spec_wtf8_concat(old(self)@, s@));
            }
        } else {
            let ghost pre = self@;
            self.inner.extend_from_slice(s.inner.as_slice());
            proof {
                assert(self@ =~= pre + s@);
            }
        }
    }

    /// Append a string's UTF-8 bytes.  A string never starts with a trail
    /// surrogate, so this is plain byte concatenation and keeps the buffer
    /// well-formed.
    pub fn push_str(&mut self, s: &str)
        ensures
            final(self)@ == old(self)@ + encode_utf8(s@),
            old(self).well_formed() ==> final(self).well_formed(),
    {
        proof {
            if old(self).well_formed() {
                encode_utf8_valid_utf8(s@);
                lemma_valid_utf8_is_valid_wtf8(encode_utf8(s@));
                lemma_valid_utf8_no_surrogate_start(encode_utf8(s@));
                lemma_valid_wtf8_concat(old(self)@, encode_utf8(s@));
            }
        }
        let ghost pre = self@;
        self.inner.extend_from_slice(s.as_bytes());
        proof {
            assert(self@ =~= pre + encode_utf8(s@));
        }
    }

    /// Truncate to `len` bytes.  The cut must land on a codepoint
    /// boundary; an index inside a multi-byte encoding is a caller error
    /// and is excluded by contract, as [`Slice::check_public_boundary`]
    /// asserts it.
    pub fn truncate(&mut self, len: usize)
        requires
            len <= old(self)@.len(),
            is_codepoint_boundary(old(self)@, len as int),
        ensures
            final(self)@ == old(self)@.take(len as int),
            old(self).well_formed() ==> final(self).well_formed(),
    {
        proof {
            if old(self).well_formed() {
                lemma_valid_wtf8_take_boundary(old(self)@, len as int);
            }
        }
        self.inner.truncate(len);
    }

    /// Append raw well-formed bytes.  The buffer must not end with a lead
    /// surrogate and the bytes must not start with a trail surrogate:
    /// this append bypasses the surrogate joining of [`Buf::push_slice`],
    /// so such a boundary is excluded by contract.
    pub fn extend_from_slice(&mut self, other: &[u8])
        requires
            valid_wtf8(other@),
            !ends_with_lead_surrogate(old(self)@),
            !starts_with_trail_surrogate(other@),
        ensures
            final(self)@ == old(self)@ + other@,
            old(self).well_formed() ==> final(self).well_formed(),
    {
        proof {
            if old(self).well_formed() {
                lemma_valid_wtf8_concat(old(self)@, other@);
            }
        }
        let ghost pre = self@;
        self.inner.extend_from_slice(other);
        proof {
            assert(self@ =~= pre + other@);
        }
    }

    /// Ask for room for `additional` more bytes; the contents are
    /// unchanged.
    pub fn reserve(&mut self, additional: usize)
        ensures
            final(self)@ == old(self)@,
    {
        self.inner.reserve(additional)
    }

    /// Fallible [`Buf::reserve`]; the contents are unchanged either way.
    pub fn try_reserve(&mut self, additional: usize) -> (r: Result<(), TryReserveError>)
        ensures
            final(self)@ == old(self)@,
    {
        self.inner.try_reserve(additional)
    }

    /// Ask for exactly `additional` more bytes of room; the contents are
    /// unchanged.
    pub fn reserve_exact(&mut self, additional: usize)
        ensures
            final(self)@ == old(self)@,
    {
        vec_reserve_exact(&mut self.inner, additional)
    }

    /// Fallible [`Buf::reserve_exact`]; the contents are unchanged either
    /// way.
    pub fn try_reserve_exact(&mut self, additional: usize) -> (r: Result<(), TryReserveError>)
        ensures
            final(self)@ == old(self)@,
    {
        vec_try_reserve_exact(&mut self.inner, additional)
    }

    /// Give surplus capacity back; the contents are unchanged.
    pub fn shrink_to_fit(&mut self)
        ensures
            final(self)@ == old(self)@,
    {
        vec_shrink_to_fit(&mut self.inner)
    }

    /// Shrink the capacity towards `min_capacity`; the contents are
    /// unchanged.
    pub fn shrink_to(&mut self, min_capacity: usize)
        ensures
            final(self)@ == old(self)@,
    {
        vec_shrink_to(&mut self.inner, min_capacity)
    }

    /// The contents as a boxed slice.
    pub fn into_box(self) -> (r: Box<Slice>)
        ensures
            r@ == self@,
    {
        Box::new(Slice { inner: self.inner })
    }

    /// A buffer taking over a boxed slice's contents.
    pub fn from_box(boxed: Box<Slice>) -> (r: Buf)
        ensures
            r@ == boxed@,
    {
        let s = *boxed;
        Buf { inner: s.inner }
    }

    /// The contents as a freshly allocated shared slice.
    pub fn into_arc(&self) -> (r: std::sync::Arc<Slice>)
        ensures
            r@ == self@,
    {
        std::sync::Arc::new(Slice { inner: slice_to_vec(self.inner.as_slice()) })
    }

    /// The contents as a freshly allocated reference-counted slice.
    pub fn into_rc(&self) -> (r: std::rc::Rc<Slice>)
        ensures
            r@ == self@,
    {
        std::rc::Rc::new(Slice { inner: slice_to_vec(self.inner.as_slice()) })
    }
}

impl Slice {
    /// Well-formedness: the bytes are valid WTF-8.
    pub open spec fn well_formed(&self) -> bool {
        valid_wtf8(self@)
    }

    /// The encoded bytes.
    pub fn as_encoded_bytes(&self) -> (r: &[u8])
        ensures
            r@ == self@,
    {
        self.inner.as_slice()
    }

    /// Assert that `index` may be handed to slicing operations: it must lie
    /// on a codepoint boundary.  An index inside a multi-byte encoding is a
    /// caller error and is excluded by contract.
    pub fn check_public_boundary(&self, index: usize)
        requires
            index <= self@.len(),
            is_codepoint_boundary(self@, index as int),
    {
    }

    /// A slice holding a string's UTF-8 bytes.
    pub fn from_str(s: &str) -> (r: Slice)
        ensures
            r@ == encode_utf8(s@),
            r.well_formed(),
    {
        let v = s.as_bytes_vec();
        proof {
            encode_utf8_valid_utf8(s@);
            lemma_valid_utf8_is_valid_wtf8(v@);
        }
        Slice { inner: v }
    }

    /// View as a `str` when the bytes are valid UTF-8, i.e. hold no
    /// surrogate codepoint.
    pub fn to_str(&self) -> (r: Result<&str, core::str::Utf8Error>)
        ensures
            r is Ok <==> valid_utf8(self@),
            r matches Ok(s) ==> s@ == decode_utf8(self@),
    {
        bytes_as_str(self.inner.as_slice())
    }

    /// Decode to a `String`: each surrogate codepoint becomes one
    /// replacement character, everything else decodes exactly; on valid
    /// UTF-8 nothing is replaced.
    pub fn to_string_lossy(&self) -> (r: String)
        requires
            self.well_formed(),
        ensures
            encode_utf8(r@) == lossy_wtf8_bytes(self@),
            r@ == decode_utf8(lossy_wtf8_bytes(self@)),
            valid_utf8(self@) ==> r@ == decode_utf8(self@),
    {
        proof {
            lemma_lossy_wtf8_valid_utf8(self@);
            if valid_utf8(self@) {
                lemma_lossy_utf8_identity(self@);
            }
        }
        let bytes = lossy_bytes(self.inner.as_slice());
        match vec_into_string(bytes) {
            Ok(st) => st,
            Err(_) => {
                // unreachable: the lossy bytes are valid UTF-8
                proof {
                    assert(false);
                }
                String::new()
            },
        }
    }


    /// An owned copy of the contents.
    pub fn to_owned(&self) -> (r: Buf)
        ensures
            r@ == self@,
            self.well_formed() ==> r.well_formed(),
    {
        Buf { inner: slice_to_vec(self.inner.as_slice()) }
    }

    /// Copy the contents into an existing buffer, replacing it.
    pub fn clone_into(&self, buf: &mut Buf)
        ensures
            final(buf)@ == self@,
            self.well_formed() ==> final(buf).well_formed(),
    {
        buf.inner = slice_to_vec(self.inner.as_slice());
    }

    /// The contents as a boxed slice.
    pub fn into_box(&self) -> (r: Box<Slice>)
        ensures
            r@ == self@,
    {
        Box::new(Slice { inner: slice_to_vec(self.inner.as_slice()) })
    }

    /// An empty boxed slice.
    pub fn empty_box() -> (r: Box<Slice>)
        ensures
            r@ == Seq::<u8>::empty(),
    {
        Box::new(Slice { inner: Vec::new() })
    }

    /// The contents as a freshly allocated shared slice.
    pub fn into_arc(&self) -> (r: std::sync::Arc<Slice>)
        ensures
            r@ == self@,
    {
        std::sync::Arc::new(Slice { inner: slice_to_vec(self.inner.as_slice()) })
    }

    /// The contents as a freshly allocated reference-counted slice.
    pub fn into_rc(&self) -> (r: std::rc::Rc<Slice>)
        ensures
            r@ == self@,
    {
        std::rc::Rc::new(Slice { inner: slice_to_vec(self.inner.as_slice()) })
    }

    /// Lowercase the ASCII letters in place; other bytes are untouched, so
    /// well-formedness is preserved.
    pub fn make_ascii_lowercase(&mut self)
        ensures
            final(self)@ == old(self)@.map_values(|b: u8| spec_ascii_lower(b)),
            old(self).well_formed() ==> final(self).well_formed(),
    {
        let ghost orig = self@;
        let mut out: Vec<u8> = Vec::new();
        let n = self.inner.len();
        for i in 0..n
            invariant
                n == orig.len(),
                self@ == orig,
                out@ =~= orig.take(i as int).map_values(|b: u8| spec_ascii_lower(b)),
        {
            out.push(ascii_lower(self.inner[i]));
            proof {
                assert(orig.take(i + 1).drop_last() =~= orig.take(i as int));
                assert(out@ =~= orig.take(i + 1).map_values(|b: u8| spec_ascii_lower(b)));
            }
        }
        proof {
            assert(orig.take(n as int) =~= orig);
        }
        self.inner = out;
        proof {
            if valid_wtf8(orig) {
                lemma_wtf8_ascii_map(orig, |b: u8| spec_ascii_lower(b));
            }
        }
    }

    /// Uppercase the ASCII letters in place; other bytes are untouched, so
    /// well-formedness is preserved.
    pub fn make_ascii_uppercase(&mut self)
        ensures
            final(self)@ == old(self)@.map_values(|b: u8| spec_ascii_upper(b)),
            old(self).well_formed() ==> final(self).well_formed(),
    {
        let ghost orig = self@;
        let mut out: Vec<u8> = Vec::new();
        let n = self.inner.len();
        for i in 0..n
            invariant
                n == orig.len(),
                self@ == orig,
                out@ =~= orig.take(i as int).map_values(|b: u8| spec_ascii_upper(b)),
        {
            out.push(ascii_upper(self.inner[i]));
            proof {
                assert(orig.take(i + 1).drop_last() =~= orig.take(i as int));
                assert(out@ =~= orig.take(i + 1).map_values(|b: u8| spec_ascii_upper(b)));
            }
        }
        proof {
            assert(orig.take(n as int) =~= orig);
        }
        self.inner = out;
        proof {
            if valid_wtf8(orig) {
                lemma_wtf8_ascii_map(orig, |b: u8| spec_ascii_upper(b));
            }
        }
    }

    /// A copy with the ASCII letters lowercased.
    pub fn to_ascii_lowercase(&self) -> (r: Buf)
        ensures
            r@ == self@.map_values(|b: u8| spec_ascii_lower(b)),
            self.well_formed() ==> r.well_formed(),
    {
        let mut copy = Slice { inner: slice_to_vec(self.inner.as_slice()) };
        copy.make_ascii_lowercase();
        Buf { inner: copy.inner }
    }

    /// A copy with the ASCII letters uppercased.
    pub fn to_ascii_uppercase(&self) -> (r: Buf)
        ensures
            r@ == self@.map_values(|b: u8| spec_ascii_upper(b)),
            self.well_formed() ==> r.well_formed(),
    {
        let mut copy = Slice { inner: slice_to_vec(self.inner.as_slice()) };
        copy.make_ascii_uppercase();
        Buf { inner: copy.inner }
    }

    /// Whether every byte is ASCII.
    pub fn is_ascii(&self) -> (r: bool)
        ensures
            r == is_ascii_bytes(self@),
    {
        let n = self.inner.len();
        for i in 0..n
            invariant
                n == self@.len(),
                forall|j: int| 0 <= j < i ==> self@[j] < 0x80,
        {
            if self.inner[i] >= 0x80 {
                return false;
            }
        }
        true
    }

    /// Whether the two slices are equal up to ASCII case: same length, and
    /// byte for byte equal after ASCII-lowercasing both.
    pub fn eq_ignore_ascii_case(&self, other: &Self) -> (r: bool)
        ensures
            r == (self@.map_values(|b: u8| spec_ascii_lower(b)) == other@.map_values(
                |b: u8| spec_ascii_lower(b),
            )),
    {
        let n = self.inner.len();
        if n != other.inner.len() {
            assert(self@.map_values(|b: u8| spec_ascii_lower(b)).len() != other@.map_values(
                |b: u8| spec_ascii_lower(b),
            ).len());
            return false;
        }
        for i in 0..n
            invariant
                n == self@.len(),
                n == other@.len(),
                forall|j: int| 0 <= j < i ==> spec_ascii_lower(self@[j]) == spec_ascii_lower(
                    other@[j],
                ),
        {
            if ascii_lower(self.inner[i]) != ascii_lower(other.inner[i]) {
                assert(self@.map_values(|b: u8| spec_ascii_lower(b))[i as int] != other@.map_values(
                    |b: u8| spec_ascii_lower(b),
                )[i as int]);
                return false;
            }
        }
        assert(self@.map_values(|b: u8| spec_ascii_lower(b)) =~= other@.map_values(
            |b: u8| spec_ascii_lower(b),
        ));
        true
    }
}

} // verus!
