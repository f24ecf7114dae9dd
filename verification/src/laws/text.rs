//! Laws of text: cutting, numbers and addresses.

use vstd::prelude::*;

use crate::text::{
    cut, decimal, dotted_quad, first_at, is_digit, is_number, is_space, octet, signed,
    trimmed, trimmed_end, trimmed_start, unsigned, until,
};

verus! {

/// A text is cut at the first occurrence of the character: what was put together around it
/// comes apart again. A text without the character is not cut.
pub proof fn texts_are_cut_at_the_first_mark(head: Seq<char>, c: char, tail: Seq<char>)
    requires
        !head.contains(c),
    ensures
        cut(head.push(c) + tail, c) == Some((head, tail)),
        until(head.push(c) + tail, c) == head,
        cut(head, c) is None,
        until(head, c) == head,
{
    let s = head.push(c) + tail;
    let n = head.len() as int;
    assert(s[n] == c);
    assert(first_at(s, c, n)) by {
        assert forall|k: int| #![trigger s[k]] 0 <= k < n implies s[k] != c by {
            assert(s[k] == head[k]);
            assert(head.contains(head[k]));
        }
    }
    let k = choose|k: int| first_at(s, c, k);
    assert(first_at(s, c, k));
    assert(s[k] == c && s[n] == c);
    assert(k == n);
    assert(s.contains(c));
    assert(s.take(n) =~= head);
    assert(s.skip(n + 1) =~= tail);
}

/// The parts of a text that was cut make up the text again.
pub proof fn cut_parts_make_up_the_text(s: Seq<char>, c: char)
    ensures
        cut(s, c) is Some <==> s.contains(c),
        cut(s, c) matches Some((head, tail)) ==> s == head.push(c) + tail && !head.contains(c),
{
    if s.contains(c) {
        let n = lemma_some_first(s, c);
        let k = choose|k: int| first_at(s, c, k);
        assert(first_at(s, c, k));
        assert(s =~= s.take(k).push(c) + s.skip(k + 1));
        if s.take(k).contains(c) {
            let j = choose|j: int| 0 <= j < k && s.take(k)[j] == c;
            assert(s[j] == c);
        }
    }
}

proof fn lemma_some_first(s: Seq<char>, c: char) -> (i: int)
    requires
        s.contains(c),
    ensures
        first_at(s, c, i),
    decreases s.len(),
{
    let rest = s.drop_last();
    if rest.contains(c) {
        let i = lemma_some_first(rest, c);
        assert(s[i] == rest[i]);
        assert forall|k: int| #![trigger s[k]] 0 <= k < i implies s[k] != c by {
            assert(rest[k] == s[k]);
        }
        i
    } else {
        let i = s.len() - 1;
        let j = choose|j: int| 0 <= j < s.len() && s[j] == c;
        if j < i {
            assert(rest[j] == c);
        }
        assert forall|k: int| #![trigger s[k]] 0 <= k < i implies s[k] != c by {
            assert(rest[k] == s[k]);
            assert(rest.contains(rest[k]));
        }
        i
    }
}

/// The digit for a number below ten.
pub open spec fn digit(n: int) -> char {
    seq!['0', '1', '2', '3', '4', '5', '6', '7', '8', '9'][n]
}

proof fn lemma_digit(n: int)
    requires
        0 <= n < 10,
    ensures
        is_digit(digit(n)),
        digit(n) as nat - '0' as nat == n,
        digit(n) == '0' <==> n == 0,
{
}

proof fn lemma_digit_of(c: char)
    requires
        is_digit(c),
    ensures
        0 <= c as int - '0' as int <= 9,
        c == digit(c as int - '0' as int),
{
}

/// A further digit makes ten times the number, plus the digit; no digits make zero.
pub proof fn decimal_numbers_are_positional(s: Seq<char>, n: int)
    requires
        0 <= n < 10,
    ensures
        decimal(Seq::empty()) == 0,
        decimal(s.push(digit(n))) == decimal(s) * 10 + n,
        is_number(seq![digit(n)]),
        is_number(s) ==> is_number(s.push(digit(n))),
{
    lemma_digit(n);
    assert(s.push(digit(n)).drop_last() =~= s);
}

/// A character that is no digit makes a text no number, wherever it stands, and so does the
/// lack of any.
pub proof fn numbers_are_digits_throughout(s: Seq<char>, i: int)
    ensures
        !is_number(Seq::empty()),
        0 <= i < s.len() && !('0' <= s[i] <= '9') ==> !is_number(s),
        is_number(s) <==> s.len() > 0 && forall|c: char| #[trigger]
            s.contains(c) ==> '0' <= c <= '9',
{
    if is_number(s) {
        assert forall|c: char| #[trigger] s.contains(c) implies '0' <= c <= '9' by {
            let k = choose|k: int| 0 <= k < s.len() && s[k] == c;
            assert(is_digit(s[k]));
        }
        if 0 <= i < s.len() {
            assert(is_digit(s[i]));
        }
    }
    if forall|c: char| #[trigger] s.contains(c) ==> '0' <= c <= '9' {
        assert forall|k: int| #![trigger s[k]] 0 <= k < s.len() implies is_digit(s[k]) by {
            assert(s.contains(s[k]));
        }
    }
}

proof fn lemma_decimals(a: char, b: char, c: char)
    requires
        is_digit(a),
        is_digit(b),
        is_digit(c),
    ensures
        decimal(seq![a]) == a as nat - '0' as nat,
        decimal(seq![a, b]) == (a as nat - '0' as nat) * 10 + (b as nat - '0' as nat),
        decimal(seq![a, b, c]) == (a as nat - '0' as nat) * 100 + (b as nat - '0' as nat) * 10 + (
        c as nat - '0' as nat),
{
    reveal_with_fuel(decimal, 2);
    assert(seq![a].drop_last() =~= Seq::<char>::empty());
    assert(seq![a, b].drop_last() =~= seq![a]);
    assert(seq![a, b, c].drop_last() =~= seq![a, b]);
}

/// An octet as it is written in an address: without leading zeros.
pub open spec fn octet_text(v: u8) -> Seq<char> {
    if v < 10 {
        seq![digit(v as int)]
    } else if v < 100 {
        seq![digit(v as int / 10), digit(v as int % 10)]
    } else {
        seq![digit(v as int / 100), digit(v as int / 10 % 10), digit(v as int % 10)]
    }
}

/// An octet is read from its one text and from no other.
pub proof fn octets_have_one_text(s: Seq<char>, v: u8)
    ensures
        octet(octet_text(v)) == Some(v),
        octet(s) == Some(v) <==> s == octet_text(v),
{
    let n = v as int;
    lemma_digit(n % 10);
    lemma_digit(n / 10 % 10);
    lemma_digit(n / 100);
    let t = octet_text(v);
    lemma_decimals(digit(n % 10), digit(n % 10), digit(n % 10));
    lemma_decimals(digit(n / 10 % 10), digit(n % 10), digit(n % 10));
    lemma_decimals(digit(n / 100), digit(n / 10 % 10), digit(n % 10));
    assert(is_number(t));
    assert(decimal(t) == v);
    if octet(s) == Some(v) {
        assert(decimal(s) == v);
        assert(is_digit(s[0]));
        lemma_digit_of(s[0]);
        if s.len() == 1 {
            assert(s =~= seq![s[0]]);
            lemma_decimals(s[0], s[0], s[0]);
        } else if s.len() == 2 {
            assert(is_digit(s[1]));
            lemma_digit_of(s[1]);
            assert(s =~= seq![s[0], s[1]]);
            lemma_decimals(s[0], s[1], s[1]);
        } else {
            assert(is_digit(s[1]));
            assert(is_digit(s[2]));
            lemma_digit_of(s[1]);
            lemma_digit_of(s[2]);
            assert(s =~= seq![s[0], s[1], s[2]]);
            lemma_decimals(s[0], s[1], s[2]);
        }
        assert(s =~= t);
    }
}

/// An address as it is written: its octets with points between them.
pub open spec fn quad_text(a: u8, b: u8, c: u8, d: u8) -> Seq<char> {
    octet_text(a).push('.') + (octet_text(b).push('.') + (octet_text(c).push('.') + octet_text(d)))
}

proof fn lemma_octet_text(v: u8, c: char)
    requires
        octet_text(v).contains(c),
    ensures
        is_digit(c),
{
    lemma_digit(v as int % 10);
    lemma_digit(v as int / 10 % 10);
    lemma_digit(v as int / 100);
}

/// Every address is read from its text, first octet first, and nothing else is an address.
pub proof fn addresses_have_one_text(s: Seq<char>, a: u8, b: u8, c: u8, d: u8)
    ensures
        dotted_quad(quad_text(a, b, c, d)) == Some(
            (a * 0x100_0000 + b * 0x1_0000 + c * 0x100 + d) as u32,
        ),
        dotted_quad(s) is Some <==> exists|a: u8, b: u8, c: u8, d: u8|
            s == #[trigger] quad_text(a, b, c, d),
{
    lemma_quad_text(a, b, c, d);
    if dotted_quad(s) is Some {
        let (t0, s1) = cut(s, '.')->0;
        let (t1, s2) = cut(s1, '.')->0;
        let (t2, t3) = cut(s2, '.')->0;
        cut_parts_make_up_the_text(s, '.');
        cut_parts_make_up_the_text(s1, '.');
        cut_parts_make_up_the_text(s2, '.');
        let (w, x, y, z) = (octet(t0)->0, octet(t1)->0, octet(t2)->0, octet(t3)->0);
        octets_have_one_text(t0, w);
        octets_have_one_text(t1, x);
        octets_have_one_text(t2, y);
        octets_have_one_text(t3, z);
        assert(s == quad_text(w, x, y, z));
    }
    if exists|a: u8, b: u8, c: u8, d: u8| s == #[trigger] quad_text(a, b, c, d) {
        let (w, x, y, z) = choose|a: u8, b: u8, c: u8, d: u8| s == #[trigger] quad_text(a, b, c, d);
        lemma_quad_text(w, x, y, z);
    }
}

proof fn lemma_quad_text(a: u8, b: u8, c: u8, d: u8)
    ensures
        dotted_quad(quad_text(a, b, c, d)) == Some(
            (a * 0x100_0000 + b * 0x1_0000 + c * 0x100 + d) as u32,
        ),
{
    let s2 = octet_text(c).push('.') + octet_text(d);
    let s1 = octet_text(b).push('.') + s2;
    assert(!octet_text(a).contains('.') && !octet_text(b).contains('.') && !octet_text(c).contains(
        '.',
    )) by {
        if octet_text(a).contains('.') {
            lemma_octet_text(a, '.');
        }
        if octet_text(b).contains('.') {
            lemma_octet_text(b, '.');
        }
        if octet_text(c).contains('.') {
            lemma_octet_text(c, '.');
        }
    }
    texts_are_cut_at_the_first_mark(octet_text(a), '.', s1);
    texts_are_cut_at_the_first_mark(octet_text(b), '.', s2);
    texts_are_cut_at_the_first_mark(octet_text(c), '.', octet_text(d));
    octets_have_one_text(octet_text(a), a);
    octets_have_one_text(octet_text(b), b);
    octets_have_one_text(octet_text(c), c);
    octets_have_one_text(octet_text(d), d);
}

/// Digits stand for their number, with or without a plus sign before them, up to 32 bits; and
/// nothing else does.
pub proof fn unsigned_numbers_are_digits_after_a_sign(s: Seq<char>, v: u32)
    ensures
        is_number(s) && decimal(s) == v ==> unsigned(s) == Some(v) && unsigned(seq!['+'] + s)
            == Some(v),
        is_number(s) && decimal(s) > u32::MAX ==> unsigned(s) is None && unsigned(seq!['+'] + s)
            is None,
        unsigned(s) == Some(v) ==> exists|t: Seq<char>| #[trigger]
            is_number(t) && decimal(t) == v && (s == t || s == seq!['+'] + t),
{
    let p = seq!['+'] + s;
    assert(p.skip(1) =~= s);
    assert(p[0] == '+');
    if is_number(s) {
        assert(is_digit(s[0]));
    }
    if unsigned(s) == Some(v) {
        if s[0] == '+' {
            assert(s =~= seq!['+'] + s.skip(1));
            assert(is_number(s.skip(1)));
        } else {
            assert(is_number(s));
        }
    }
}

/// The same with a minus sign for the negative numbers, down to the least of 32 bits.
pub proof fn signed_numbers_are_digits_after_a_sign(s: Seq<char>, v: i32)
    ensures
        is_number(s) && decimal(s) == v ==> signed(s) == Some(v) && signed(seq!['+'] + s) == Some(
            v,
        ),
        is_number(s) && decimal(s) == -v ==> signed(seq!['-'] + s) == Some(v),
        is_number(s) && decimal(s) > i32::MAX ==> signed(s) is None && signed(seq!['+'] + s)
            is None,
        is_number(s) && decimal(s) > -(i32::MIN as int) ==> signed(seq!['-'] + s) is None,
        signed(s) == Some(v) ==> exists|t: Seq<char>| #[trigger]
            is_number(t) && (decimal(t) == v && (s == t || s == seq!['+'] + t) || decimal(t) == -v
                && s == seq!['-'] + t),
{
    let p = seq!['+'] + s;
    let m = seq!['-'] + s;
    assert(p.skip(1) =~= s);
    assert(m.skip(1) =~= s);
    assert(p[0] == '+' && m[0] == '-');
    if is_number(s) {
        assert(is_digit(s[0]));
    }
    if signed(s) == Some(v) {
        if s[0] == '+' {
            assert(s =~= seq!['+'] + s.skip(1));
            assert(is_number(s.skip(1)));
        } else if s[0] == '-' {
            assert(s =~= seq!['-'] + s.skip(1));
            assert(is_number(s.skip(1)));
        } else {
            assert(is_number(s));
        }
    }
}

/// White space is what Unicode calls so: tab to carriage return, the blanks of all widths,
/// and the separators of lines and paragraphs.
pub proof fn white_space_is_that_of_unicode(c: char)
    ensures
        is_space(c) <==> c == '\t' || c == '\n' || c == '\u{b}' || c == '\u{c}' || c == '\r' || c
            == ' ' || c == '\u{85}' || c == '\u{a0}' || c == '\u{1680}' || ('\u{2000}' <= c
            <= '\u{200a}') || c == '\u{2028}' || c == '\u{2029}' || c == '\u{202f}' || c
            == '\u{205f}' || c == '\u{3000}',
{
}

/// White space throughout.
pub open spec fn blank(s: Seq<char>) -> bool {
    forall|i: int| #![trigger s[i]] 0 <= i < s.len() ==> is_space(s[i])
}

/// White space around a text is dropped, all of it and nothing else.
pub proof fn texts_are_trimmed_on_both_sides(before: Seq<char>, s: Seq<char>, after: Seq<char>)
    requires
        blank(before),
        blank(after),
        s.len() > 0 ==> !is_space(s[0]) && !is_space(s.last()),
    ensures
        trimmed(before + s + after) == s,
        s.len() > 0 ==> trimmed(before + s + after).len() > 0,
{
    lemma_trim_start(before, s + after);
    assert(before + s + after =~= before + (s + after));
    if s.len() > 0 {
        assert((s + after)[0] == s[0]);
        assert(trimmed_start(s + after) == s + after);
        lemma_trim_end(s, after);
    } else {
        assert(s + after =~= after);
        lemma_trim_start(after, Seq::empty());
        assert(after + Seq::<char>::empty() =~= after);
        assert(trimmed_start(after) =~= s);
    }
}

proof fn lemma_trim_start(before: Seq<char>, s: Seq<char>)
    requires
        blank(before),
    ensures
        trimmed_start(before + s) == trimmed_start(s),
    decreases before.len(),
{
    if before.len() == 0 {
        assert(before + s =~= s);
    } else {
        let rest = before.skip(1);
        assert forall|i: int| #![trigger rest[i]] 0 <= i < rest.len() implies is_space(rest[i]) by {
            assert(rest[i] == before[i + 1]);
        }
        assert((before + s)[0] == before[0]);
        assert(is_space(before[0]));
        assert((before + s).skip(1) =~= rest + s);
        lemma_trim_start(rest, s);
    }
}

proof fn lemma_trim_end(s: Seq<char>, after: Seq<char>)
    requires
        blank(after),
        s.len() > 0,
        !is_space(s.last()),
    ensures
        trimmed_end(s + after) == s,
    decreases after.len(),
{
    if after.len() == 0 {
        assert(s + after =~= s);
    } else {
        let rest = after.drop_last();
        assert forall|i: int| #![trigger rest[i]] 0 <= i < rest.len() implies is_space(rest[i]) by {
            assert(rest[i] == after[i]);
        }
        assert((s + after).last() == after[after.len() - 1]);
        assert((s + after).drop_last() =~= s + rest);
        lemma_trim_end(s, rest);
    }
}

} // verus!
