//! The order of texts is the order of their bytes.
//!
//! A `str` compares by the bytes of its UTF-8 encoding. The encoding keeps
//! the order of the characters, so that texts compare by their bytes as
//! they do by their characters.

use crate::text::precedes;
use vstd::prelude::*;
use vstd::utf8::*;

verus! {

/// Strict lexicographic order on byte strings, a proper prefix coming first.
pub open spec fn bytes_precede(a: Seq<u8>, b: Seq<u8>) -> bool
    decreases a.len(),
{
    if b.len() == 0 {
        false
    } else if a.len() == 0 {
        true
    } else if a[0] == b[0] {
        bytes_precede(a.drop_first(), b.drop_first())
    } else {
        a[0] < b[0]
    }
}

/// Whether `p` and `q` differ at some place, where `p` holds the smaller
/// byte, and are the same before it.
pub open spec fn differs_below(p: Seq<u8>, q: Seq<u8>) -> bool {
    exists|k: int|
        0 <= k < p.len() && k < q.len() && #[trigger] p.take(k) == q.take(k) && p[k] < q[k]
}

proof fn lemma_leading_bytes(x: u32)
    by (bit_vector)
    ensures
        has_width_1_encoding(x) ==> leading_byte_width_1(x) < 0x80,
        has_width_2_encoding(x) ==> 0xC0 <= leading_byte_width_2(x) < 0xE0,
        has_width_3_encoding(x) ==> 0xE0 <= leading_byte_width_3(x) < 0xF0,
        has_width_4_encoding(x) ==> 0xF0 <= leading_byte_width_4(x) < 0xF8,
{
}

proof fn lemma_width_1_order(x: u32, y: u32)
    by (bit_vector)
    requires
        has_width_1_encoding(x),
        has_width_1_encoding(y),
        x < y,
    ensures
        leading_byte_width_1(x) < leading_byte_width_1(y),
{
}

proof fn lemma_width_2_order(x: u32, y: u32)
    by (bit_vector)
    requires
        has_width_2_encoding(x),
        has_width_2_encoding(y),
        x < y,
    ensures
        leading_byte_width_2(x) < leading_byte_width_2(y) || (leading_byte_width_2(x)
            == leading_byte_width_2(y) && last_continuation_byte(x) < last_continuation_byte(y)),
{
}

proof fn lemma_width_3_order(x: u32, y: u32)
    by (bit_vector)
    requires
        has_width_3_encoding(x),
        has_width_3_encoding(y),
        x < y,
    ensures
        leading_byte_width_3(x) < leading_byte_width_3(y) || (leading_byte_width_3(x)
            == leading_byte_width_3(y) && (second_last_continuation_byte(x)
            < second_last_continuation_byte(y) || (second_last_continuation_byte(x)
            == second_last_continuation_byte(y) && last_continuation_byte(x)
            < last_continuation_byte(y)))),
{
}

proof fn lemma_width_4_order(x: u32, y: u32)
    by (bit_vector)
    requires
        has_width_4_encoding(x),
        has_width_4_encoding(y),
        x < y,
    ensures
        leading_byte_width_4(x) < leading_byte_width_4(y) || (leading_byte_width_4(x)
            == leading_byte_width_4(y) && (third_last_continuation_byte(x)
            < third_last_continuation_byte(y) || (third_last_continuation_byte(x)
            == third_last_continuation_byte(y) && (second_last_continuation_byte(x)
            < second_last_continuation_byte(y) || (second_last_continuation_byte(x)
            == second_last_continuation_byte(y) && last_continuation_byte(x)
            < last_continuation_byte(y)))))),
{
}

/// The encoding of the smaller of two scalar values holds the smaller
/// byte where the two encodings first differ, and they do differ.
pub proof fn lemma_scalar_order(x: u32, y: u32)
    requires
        is_scalar(x),
        is_scalar(y),
        x < y,
    ensures
        differs_below(encode_scalar(x), encode_scalar(y)),
{
    let p = encode_scalar(x);
    let q = encode_scalar(y);
    lemma_leading_bytes(x);
    lemma_leading_bytes(y);
    if has_width_1_encoding(x) && has_width_1_encoding(y) {
        lemma_width_1_order(x, y);
    } else if has_width_2_encoding(x) && has_width_2_encoding(y) {
        lemma_width_2_order(x, y);
    } else if has_width_3_encoding(x) && has_width_3_encoding(y) {
        lemma_width_3_order(x, y);
    } else if has_width_4_encoding(x) && has_width_4_encoding(y) {
        lemma_width_4_order(x, y);
    }
    let k: int = if p[0] != q[0] {
        0
    } else if p[1] != q[1] {
        1
    } else if p[2] != q[2] {
        2
    } else {
        3
    };
    assert(p.take(k) =~= q.take(k));
    assert(0 <= k < p.len() && k < q.len() && p[k] < q[k]);
}

/// Two byte strings that first differ where the one holds the smaller
/// byte are in order, whatever follows them.
pub proof fn lemma_differs_below_precede(p: Seq<u8>, q: Seq<u8>, r: Seq<u8>, s: Seq<u8>)
    requires
        differs_below(p, q),
    ensures
        bytes_precede(p + r, q + s),
    decreases p.len(),
{
    let k = choose|k: int|
        0 <= k < p.len() && k < q.len() && #[trigger] p.take(k) == q.take(k) && p[k] < q[k];
    assert((p + r)[0] == p[0] && (q + s)[0] == q[0]);
    if k > 0 {
        assert(p.take(k)[0] == q.take(k)[0]);
        assert(p.drop_first().take(k - 1) =~= p.take(k).drop_first());
        assert(q.drop_first().take(k - 1) =~= q.take(k).drop_first());
        assert(p.drop_first()[k - 1] == p[k] && q.drop_first()[k - 1] == q[k]);
        lemma_differs_below_precede(p.drop_first(), q.drop_first(), r, s);
        assert((p + r).drop_first() =~= p.drop_first() + r);
        assert((q + s).drop_first() =~= q.drop_first() + s);
    }
}

/// A common beginning does not change the order of two byte strings.
pub proof fn lemma_common_beginning(p: Seq<u8>, r: Seq<u8>, s: Seq<u8>)
    ensures
        bytes_precede(p + r, p + s) == bytes_precede(r, s),
    decreases p.len(),
{
    if p.len() == 0 {
        assert(p + r =~= r);
        assert(p + s =~= s);
    } else {
        lemma_common_beginning(p.drop_first(), r, s);
        assert((p + r).drop_first() =~= p.drop_first() + r);
        assert((p + s).drop_first() =~= p.drop_first() + s);
    }
}

/// Two byte strings cannot precede each other.
pub proof fn lemma_bytes_precede_asymmetric(a: Seq<u8>, b: Seq<u8>)
    ensures
        !(bytes_precede(a, b) && bytes_precede(b, a)),
    decreases a.len(),
{
    if a.len() > 0 && b.len() > 0 && a[0] == b[0] {
        lemma_bytes_precede_asymmetric(a.drop_first(), b.drop_first());
    }
}

/// A character has the value of its scalar.
pub proof fn lemma_char_value(c: char)
    ensures
        (c as u32) as int == c as int,
        is_scalar(c as u32),
{
}

/// Texts are in order exactly when their UTF-8 encodings are: the order
/// of [`precedes`] is the order in which `str` compares.
pub proof fn lemma_precedes_is_byte_order(a: Seq<char>, b: Seq<char>)
    ensures
        precedes(a, b) == bytes_precede(encode_utf8(a), encode_utf8(b)),
    decreases a.len(),
{
    if b.len() == 0 {
    } else if a.len() == 0 {
        lemma_char_value(b[0]);
        assert(encode_scalar(b[0] as u32).len() > 0);
    } else {
        let x = a[0] as u32;
        let y = b[0] as u32;
        let r = encode_utf8(a.drop_first());
        let s = encode_utf8(b.drop_first());
        lemma_char_value(a[0]);
        lemma_char_value(b[0]);
        if a[0] == b[0] {
            lemma_precedes_is_byte_order(a.drop_first(), b.drop_first());
            lemma_common_beginning(encode_scalar(x), r, s);
        } else if x < y {
            lemma_scalar_order(x, y);
            lemma_differs_below_precede(encode_scalar(x), encode_scalar(y), r, s);
        } else {
            assert(y < x);
            lemma_scalar_order(y, x);
            lemma_differs_below_precede(encode_scalar(y), encode_scalar(x), s, r);
            lemma_bytes_precede_asymmetric(encode_utf8(a), encode_utf8(b));
        }
    }
}

} // verus!
