//! Text helpers shared by the roster model and the report formatter.
//!
//! Strings are modelled by their sequence of characters. The helpers here
//! give the ordering of labels, the marker of an event column, and the
//! decimal rendering of numbers used in messages and report cells.

use crate::order::one_way;
use crate::text_bytes::bytes_precede;
use crate::text_bytes::lemma_precedes_is_byte_order;
use vstd::prelude::*;
use vstd::string::*;
use vstd::utf8::encode_utf8;

verus! {

/// Outcome of comparing two texts.
#[derive(Debug, Clone, Copy, PartialEq, Eq, Structural)]
pub enum TextOrder {
    Before,
    Same,
    After,
}

/// Strict lexicographic order on texts, character by character, a proper
/// prefix coming first. Characters compare by their scalar value. The
/// UTF-8 encodings of the texts have the same order, byte by byte, which
/// is the order in which `str` compares: see
/// [`lemma_precedes_is_byte_order`].
pub open spec fn precedes(a: Seq<char>, b: Seq<char>) -> bool
    decreases a.len(),
{
    if b.len() == 0 {
        false
    } else if a.len() == 0 {
        true
    } else if a[0] == b[0] {
        precedes(a.drop_first(), b.drop_first())
    } else {
        (a[0] as int) < (b[0] as int)
    }
}

/// Three-way comparison derived from [`precedes`].
pub open spec fn order_of(a: Seq<char>, b: Seq<char>) -> TextOrder {
    if precedes(a, b) {
        TextOrder::Before
    } else if a == b {
        TextOrder::Same
    } else {
        TextOrder::After
    }
}

/// No text precedes itself.
pub proof fn lemma_precedes_irreflexive(a: Seq<char>)
    ensures
        !precedes(a, a),
    decreases a.len(),
{
    if a.len() > 0 {
        lemma_precedes_irreflexive(a.drop_first());
    }
}

/// Two texts cannot precede each other.
pub proof fn lemma_precedes_asymmetric(a: Seq<char>, b: Seq<char>)
    ensures
        !(precedes(a, b) && precedes(b, a)),
    decreases a.len(),
{
    if a.len() > 0 && b.len() > 0 && a[0] == b[0] {
        lemma_precedes_asymmetric(a.drop_first(), b.drop_first());
    }
}

/// The order is transitive.
pub proof fn lemma_precedes_transitive(a: Seq<char>, b: Seq<char>, c: Seq<char>)
    requires
        precedes(a, b),
        precedes(b, c),
    ensures
        precedes(a, c),
    decreases a.len(),
{
    if a.len() > 0 && b.len() > 0 && c.len() > 0 {
        if a[0] == b[0] && b[0] == c[0] {
            lemma_precedes_transitive(a.drop_first(), b.drop_first(), c.drop_first());
        }
    }
}

/// The order of texts, as a relation.
pub open spec fn text_order() -> spec_fn(Seq<char>, Seq<char>) -> bool {
    |a: Seq<char>, b: Seq<char>| precedes(a, b)
}

/// No text precedes itself, and no two texts precede each other.
pub proof fn lemma_text_order_one_way()
    ensures
        one_way(text_order()),
{
    assert forall|a: Seq<char>, b: Seq<char>| !(#[trigger] text_order()(a, b) && text_order()(
        b,
        a,
    )) by {
        lemma_precedes_asymmetric(a, b);
    }
}

/// Any two distinct texts are ordered one way or the other.
pub proof fn lemma_precedes_connected(a: Seq<char>, b: Seq<char>)
    ensures
        precedes(a, b) || precedes(b, a) || a == b,
    decreases a.len(),
{
    if a.len() > 0 && b.len() > 0 && a[0] == b[0] {
        lemma_precedes_connected(a.drop_first(), b.drop_first());
        if a.drop_first() == b.drop_first() {
            assert(a =~= seq![a[0]] + a.drop_first());
            assert(b =~= seq![b[0]] + b.drop_first());
        }
    }
}

/// The characters of a text, in order.
pub fn chars_of(s: &str) -> (v: Vec<char>)
    ensures
        v@ == s@,
{
    let mut v: Vec<char> = Vec::new();
    for c in it: s.chars()
        invariant
            v@ == it.seq().take(it.index() as int),
            it.seq() == s@,
    {
        v.push(c);
    }
    v
}

/// Compares two texts in the order of [`precedes`], which is that of
/// their bytes.
pub fn compare_text(a: &str, b: &str) -> (r: TextOrder)
    ensures
        r == order_of(a@, b@),
        r == TextOrder::Before <==> bytes_precede(encode_utf8(a@), encode_utf8(b@)),
{
    proof {
        lemma_precedes_is_byte_order(a@, b@);
    }
    let x = chars_of(a);
    let y = chars_of(b);
    let mut i: usize = 0;
    assert(x@.skip(0) == x@ && y@.skip(0) == y@);
    while i < x.len() && i < y.len()
        invariant
            i <= x.len(),
            i <= y.len(),
            x@ == a@,
            y@ == b@,
            x@.take(i as int) == y@.take(i as int),
            precedes(a@, b@) == precedes(x@.skip(i as int), y@.skip(i as int)),
            precedes(a@, b@) == bytes_precede(encode_utf8(a@), encode_utf8(b@)),
        decreases x.len() - i,
    {
        assert(x@.skip(i as int).drop_first() == x@.skip(i + 1));
        assert(y@.skip(i as int).drop_first() == y@.skip(i + 1));
        if x[i] != y[i] {
            return if x[i] < y[i] {
                TextOrder::Before
            } else {
                TextOrder::After
            };
        }
        i = i + 1;
    }
    proof {
        lemma_precedes_irreflexive(x@);
    }
    if i < y.len() {
        TextOrder::Before
    } else if i < x.len() {
        TextOrder::After
    } else {
        TextOrder::Same
    }
}

/// Whether two texts hold the same characters.
pub fn same_text(a: &str, b: &str) -> (r: bool)
    ensures
        r == (a@ == b@),
{
    proof {
        lemma_precedes_irreflexive(a@);
    }
    match compare_text(a, b) {
        TextOrder::Same => true,
        _ => false,
    }
}

/// The three characters that mark a header as an event column.
pub open spec fn separator() -> Seq<char> {
    seq![' ', '-', ' ']
}

/// Whether `s` holds [`separator`] at some position.
pub open spec fn has_separator(s: Seq<char>) -> bool {
    exists|i: int| 0 <= i && i + 3 <= s.len() && #[trigger] s.subrange(i, i + 3) == separator()
}

/// Whether the header holds the event marker.
pub fn contains_separator(s: &str) -> (r: bool)
    ensures
        r == has_separator(s@),
{
    let v = chars_of(s);
    if v.len() < 3 {
        return false;
    }
    let mut i: usize = 0;
    while i <= v.len() - 3
        invariant
            v@ == s@,
            3 <= v.len(),
            forall|j: int| 0 <= j < i ==> #[trigger] v@.subrange(j, j + 3) != separator(),
        decreases v.len() - i,
    {
        if v[i] == ' ' && v[i + 1] == '-' && v[i + 2] == ' ' {
            assert(v@.subrange(i as int, i + 3) =~= separator());
            return true;
        }
        assert(v@.subrange(i as int, i + 3) != separator()) by {
            assert(v@.subrange(i as int, i + 3)[0] == v@[i as int]);
            assert(v@.subrange(i as int, i + 3)[1] == v@[i + 1]);
            assert(v@.subrange(i as int, i + 3)[2] == v@[i + 2]);
        }
        i = i + 1;
    }
    false
}

/// The character of a decimal digit.
pub open spec fn digit(d: nat) -> char {
    if d == 0 {
        '0'
    } else if d == 1 {
        '1'
    } else if d == 2 {
        '2'
    } else if d == 3 {
        '3'
    } else if d == 4 {
        '4'
    } else if d == 5 {
        '5'
    } else if d == 6 {
        '6'
    } else if d == 7 {
        '7'
    } else if d == 8 {
        '8'
    } else {
        '9'
    }
}

/// Decimal notation of a natural number, without leading zeros.
pub open spec fn decimal(n: nat) -> Seq<char>
    decreases n,
{
    if n < 10 {
        seq![digit(n)]
    } else {
        decimal(n / 10).push(digit(n % 10))
    }
}

/// Decimal notation of an integer, with a leading `-` below zero.
pub open spec fn signed_decimal(i: int) -> Seq<char> {
    if i < 0 {
        seq!['-'] + decimal((-i) as nat)
    } else {
        decimal(i as nat)
    }
}

/// The text of a decimal digit.
pub fn digit_text(d: u8) -> (r: &'static str)
    requires
        d < 10,
    ensures
        r@ == seq![digit(d as nat)],
{
    proof {
        reveal_strlit("0");
        reveal_strlit("1");
        reveal_strlit("2");
        reveal_strlit("3");
        reveal_strlit("4");
        reveal_strlit("5");
        reveal_strlit("6");
        reveal_strlit("7");
        reveal_strlit("8");
        reveal_strlit("9");
    }
    match d {
        0 => "0",
        1 => "1",
        2 => "2",
        3 => "3",
        4 => "4",
        5 => "5",
        6 => "6",
        7 => "7",
        8 => "8",
        _ => "9",
    }
}

/// Appends the decimal notation of `n` to `out`.
pub fn append_decimal(out: &mut String, n: u128)
    ensures
        final(out)@ == old(out)@ + decimal(n as nat),
    decreases n,
{
    if n >= 10 {
        append_decimal(out, n / 10);
    }
    let d: u8 = (n % 10) as u8;
    out.append(digit_text(d));
}

/// Appends the decimal notation of `i` to `out`.
pub fn append_signed_decimal(out: &mut String, i: i64)
    ensures
        final(out)@ == old(out)@ + signed_decimal(i as int),
{
    if i < 0 {
        proof {
            reveal_strlit("-");
        }
        out.append("-");
        let magnitude: u128 = (-(i as i128)) as u128;
        append_decimal(out, magnitude);
    } else {
        append_decimal(out, i as u128);
    }
}

} // verus!
