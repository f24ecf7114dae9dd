//! Text as sequences of characters: cutting, decimal numbers, IPv4 addresses.

use vstd::prelude::*;

verus! {

/// The characters of `s`.
pub fn chars_of(s: &str) -> (r: Vec<char>)
    ensures
        r@ == s@,
{
    let mut out: Vec<char> = Vec::new();
    for c in it: s.chars()
        invariant
            it.seq() == s@,
            out@ == s@.take(it.index()),
    {
        let ghost before = out@;
        out.push(c);
        assert(out@ =~= s@.take(it.index() + 1));
    }
    assert(s@.take(s@.len() as int) =~= s@);
    out
}

/// The octets of `s` in UTF-8.
pub fn octets_of(s: &str) -> (r: Vec<u8>)
    ensures
        r@ == vstd::utf8::encode_utf8(s@),
{
    let mut out: Vec<u8> = Vec::new();
    out.extend_from_slice(s.as_bytes());
    assert(out@ =~= vstd::utf8::encode_utf8(s@));
    out
}

/// `c` occurs first at position `i`.
pub open spec fn first_at(s: Seq<char>, c: char, i: int) -> bool {
    &&& 0 <= i < s.len()
    &&& s[i] == c
    &&& forall|k: int| #![trigger s[k]] 0 <= k < i ==> s[k] != c
}

/// What stands before and after the first `c`, if there is one.
pub open spec fn cut(s: Seq<char>, c: char) -> Option<(Seq<char>, Seq<char>)> {
    if s.contains(c) {
        let i = choose|i: int| first_at(s, c, i);
        Some((s.take(i), s.skip(i + 1)))
    } else {
        None
    }
}

/// What stands before the first `c`, or everything.
pub open spec fn until(s: Seq<char>, c: char) -> Seq<char> {
    match cut(s, c) {
        Some((head, _)) => head,
        None => s,
    }
}

proof fn lemma_first_at(s: Seq<char>, c: char, i: int)
    requires
        first_at(s, c, i),
    ensures
        cut(s, c) == Some((s.take(i), s.skip(i + 1))),
{
    let k = choose|k: int| first_at(s, c, k);
    assert(first_at(s, c, k));
    assert(s[k] == c && s[i] == c);
    assert(k == i);
}

/// The position of the first `c`.
pub fn find_char(s: &Vec<char>, c: char) -> (r: Option<usize>)
    ensures
        match r {
            Some(i) => first_at(s@, c, i as int) && cut(s@, c) == Some(
                (s@.take(i as int), s@.skip(i + 1)),
            ),
            None => !s@.contains(c) && cut(s@, c) is None,
        },
{
    let mut i: usize = 0;
    while i < s.len()
        invariant
            i <= s.len(),
            forall|k: int| #![trigger s@[k]] 0 <= k < i ==> s@[k] != c,
        decreases s.len() - i,
    {
        if s[i] == c {
            proof {
                lemma_first_at(s@, c, i as int);
            }
            return Some(i);
        }
        i += 1;
    }
    None
}

/// The items from position `from` up to `to`.
pub(crate) fn part_of(s: &Vec<char>, from: usize, to: usize) -> (r: Vec<char>)
    requires
        from <= to <= s.len(),
    ensures
        r@ == s@.subrange(from as int, to as int),
{
    let mut out: Vec<char> = Vec::new();
    let mut i: usize = from;
    while i < to
        invariant
            from <= i <= to <= s.len(),
            out@ == s@.subrange(from as int, i as int),
        decreases to - i,
    {
        out.push(s[i]);
        i += 1;
        assert(out@ =~= s@.subrange(from as int, i as int));
    }
    out
}

/// What stands before and after the first `c`, if there is one.
pub fn split_once(s: &Vec<char>, c: char) -> (r: Option<(Vec<char>, Vec<char>)>)
    ensures
        match r {
            Some((head, tail)) => cut(s@, c) == Some((head@, tail@)),
            None => cut(s@, c) is None,
        },
{
    match find_char(s, c) {
        Some(i) => {
            let head = part_of(s, 0, i);
            let tail = part_of(s, i + 1, s.len());
            assert(head@ =~= s@.take(i as int));
            assert(tail@ =~= s@.skip(i + 1));
            Some((head, tail))
        },
        None => None,
    }
}

pub open spec fn is_digit(c: char) -> bool {
    '0' <= c <= '9'
}

/// One or more digits.
pub open spec fn is_number(s: Seq<char>) -> bool {
    &&& s.len() > 0
    &&& forall|i: int| #![trigger s[i]] 0 <= i < s.len() ==> is_digit(s[i])
}

/// The number that decimal digits denote.
pub open spec fn decimal(s: Seq<char>) -> nat
    decreases s.len(),
{
    if s.len() == 0 {
        0
    } else {
        decimal(s.drop_last()) * 10 + (s.last() as nat - '0' as nat) as nat
    }
}

proof fn lemma_decimal_grows(s: Seq<char>, k: int)
    requires
        0 <= k <= s.len(),
    ensures
        decimal(s.take(k)) <= decimal(s),
    decreases s.len() - k,
{
    if k < s.len() {
        lemma_decimal_grows(s, k + 1);
        assert(s.take(k + 1).drop_last() =~= s.take(k));
    } else {
        assert(s.take(k) =~= s);
    }
}

/// Reads a number of decimal digits that is at most `max`.
pub fn parse_number(s: &Vec<char>, max: u32) -> (r: Option<u32>)
    ensures
        r == (if is_number(s@) && decimal(s@) <= max {
            Some(decimal(s@) as u32)
        } else {
            None
        }),
{
    if s.len() == 0 {
        return None;
    }
    let mut value: u64 = 0;
    let mut i: usize = 0;
    while i < s.len()
        invariant
            i <= s.len(),
            value == decimal(s@.take(i as int)),
            value <= max,
            forall|k: int| #![trigger s@[k]] 0 <= k < i ==> is_digit(s@[k]),
        decreases s.len() - i,
    {
        let c = s[i];
        assert(s@.take(i + 1).drop_last() =~= s@.take(i as int));
        assert(s@.take(i + 1).last() == c);
        if c < '0' || c > '9' {
            assert(!is_digit(s@[i as int]));
            return None;
        }
        value = value * 10 + (c as u64 - '0' as u64);
        if value > max as u64 {
            proof {
                lemma_decimal_grows(s@, i + 1);
            }
            return None;
        }
        i += 1;
    }
    assert(s@.take(i as int) =~= s@);
    Some(value as u32)
}

/// An unsigned 32-bit number: an optional plus sign and decimal digits.
pub open spec fn unsigned(s: Seq<char>) -> Option<u32> {
    let digits = if s.len() > 0 && s[0] == '+' {
        s.skip(1)
    } else {
        s
    };
    if is_number(digits) && decimal(digits) <= u32::MAX {
        Some(decimal(digits) as u32)
    } else {
        None
    }
}

/// Reads an unsigned 32-bit number.
pub fn parse_u32(s: &Vec<char>) -> (r: Option<u32>)
    ensures
        r == unsigned(s@),
{
    if s.len() > 0 && s[0] == '+' {
        let digits = part_of(s, 1, s.len());
        assert(digits@ =~= s@.skip(1));
        parse_number(&digits, u32::MAX)
    } else {
        parse_number(s, u32::MAX)
    }
}

/// One number of a dotted quad: up to three digits, no leading zero, at most 255.
pub open spec fn octet(s: Seq<char>) -> Option<u8> {
    if is_number(s) && s.len() <= 3 && (s.len() > 1 ==> s[0] != '0') && decimal(s) <= 255 {
        Some(decimal(s) as u8)
    } else {
        None
    }
}

fn parse_octet(s: &Vec<char>) -> (r: Option<u8>)
    ensures
        r == octet(s@),
{
    if s.len() > 3 || (s.len() > 1 && s[0] == '0') {
        return None;
    }
    match parse_number(s, 255) {
        Some(v) => Some(v as u8),
        None => None,
    }
}

/// Four octets make up an address.
pub open spec fn quad(a: u8, b: u8, c: u8, d: u8) -> u32 {
    (a * 0x100_0000 + b * 0x1_0000 + c * 0x100 + d) as u32
}

/// The IPv4 address that a dotted quad denotes.
pub open spec fn dotted_quad(s: Seq<char>) -> Option<u32> {
    match cut(s, '.') {
        Some((a, s1)) => match cut(s1, '.') {
            Some((b, s2)) => match cut(s2, '.') {
                Some((c, d)) => match (octet(a), octet(b), octet(c), octet(d)) {
                    (Some(a), Some(b), Some(c), Some(d)) => Some(quad(a, b, c, d)),
                    _ => None,
                },
                None => None,
            },
            None => None,
        },
        None => None,
    }
}

/// Reads an IPv4 address in dotted-quad form.
pub fn parse_ipv4(s: &Vec<char>) -> (r: Option<u32>)
    ensures
        r == dotted_quad(s@),
{
    let (a, s1) = match split_once(s, '.') {
        Some(p) => p,
        None => return None,
    };
    let (b, s2) = match split_once(&s1, '.') {
        Some(p) => p,
        None => return None,
    };
    let (c, d) = match split_once(&s2, '.') {
        Some(p) => p,
        None => return None,
    };
    match (parse_octet(&a), parse_octet(&b), parse_octet(&c), parse_octet(&d)) {
        (Some(a), Some(b), Some(c), Some(d)) => Some(
            a as u32 * 0x100_0000 + b as u32 * 0x1_0000 + c as u32 * 0x100 + d as u32,
        ),
        _ => None,
    }
}

/// White space, as Unicode has it.
pub open spec fn is_space(c: char) -> bool {
    ||| 9 <= c as u32 <= 13
    ||| c as u32 == 0x20
    ||| c as u32 == 0x85
    ||| c as u32 == 0xa0
    ||| c as u32 == 0x1680
    ||| 0x2000 <= c as u32 <= 0x200a
    ||| c as u32 == 0x2028
    ||| c as u32 == 0x2029
    ||| c as u32 == 0x202f
    ||| c as u32 == 0x205f
    ||| c as u32 == 0x3000
}

/// `s` without the white space at its start.
pub open spec fn trimmed_start(s: Seq<char>) -> Seq<char>
    decreases s.len(),
{
    if s.len() > 0 && is_space(s[0]) {
        trimmed_start(s.skip(1))
    } else {
        s
    }
}

/// `s` without the white space at its end.
pub open spec fn trimmed_end(s: Seq<char>) -> Seq<char>
    decreases s.len(),
{
    if s.len() > 0 && is_space(s.last()) {
        trimmed_end(s.drop_last())
    } else {
        s
    }
}

/// `s` without the white space around it.
pub open spec fn trimmed(s: Seq<char>) -> Seq<char> {
    trimmed_end(trimmed_start(s))
}

fn is_white(c: char) -> (r: bool)
    ensures
        r == is_space(c),
{
    let n: u32 = c as u32;
    (9 <= n && n <= 13) || n == 0x20 || n == 0x85 || n == 0xa0 || n == 0x1680 || (0x2000 <= n && n
        <= 0x200a) || n == 0x2028 || n == 0x2029 || n == 0x202f || n == 0x205f || n == 0x3000
}

/// `s` without the white space around it.
pub fn trim(s: &Vec<char>) -> (r: Vec<char>)
    ensures
        r@ == trimmed(s@),
{
    let mut from: usize = 0;
    assert(s@.skip(0) =~= s@);
    while from < s.len() && is_white(s[from])
        invariant
            from <= s.len(),
            trimmed_start(s@) == trimmed_start(s@.skip(from as int)),
        decreases s.len() - from,
    {
        assert(s@.skip(from as int).skip(1) =~= s@.skip(from + 1));
        from += 1;
    }
    let ghost middle = s@.skip(from as int);
    assert(trimmed_start(s@) == middle);
    let mut to: usize = s.len();
    assert(s@.subrange(from as int, to as int) =~= middle);
    while to > from && is_white(s[to - 1])
        invariant
            from <= to <= s.len(),
            trimmed_end(middle) == trimmed_end(s@.subrange(from as int, to as int)),
        decreases to,
    {
        let ghost now = s@.subrange(from as int, to as int);
        assert(now.last() == s@[to - 1]);
        assert(now.drop_last() =~= s@.subrange(from as int, to - 1));
        to -= 1;
    }
    let ghost now = s@.subrange(from as int, to as int);
    proof {
        if to > from {
            assert(now.last() == s@[to - 1]);
        }
    }
    part_of(s, from, to)
}

/// A signed 32-bit number: an optional sign and decimal digits.
pub open spec fn signed(s: Seq<char>) -> Option<i32> {
    let digits = if s.len() > 0 && (s[0] == '+' || s[0] == '-') {
        s.skip(1)
    } else {
        s
    };
    let value = if s.len() > 0 && s[0] == '-' {
        -(decimal(digits) as int)
    } else {
        decimal(digits) as int
    };
    if is_number(digits) && i32::MIN <= value <= i32::MAX {
        Some(value as i32)
    } else {
        None
    }
}

/// Reads a signed 32-bit number.
pub fn parse_i32(s: &Vec<char>) -> (r: Option<i32>)
    ensures
        r == signed(s@),
{
    if s.len() > 0 && (s[0] == '+' || s[0] == '-') {
        let digits = part_of(s, 1, s.len());
        assert(digits@ =~= s@.skip(1));
        if s[0] == '-' {
            match parse_number(&digits, 0x8000_0000) {
                Some(v) => Some((-(v as i64)) as i32),
                None => None,
            }
        } else {
            match parse_number(&digits, 0x7fff_ffff) {
                Some(v) => Some(v as i32),
                None => None,
            }
        }
    } else {
        match parse_number(s, 0x7fff_ffff) {
            Some(v) => Some(v as i32),
            None => None,
        }
    }
}

} // verus!
