//! Character-level helpers shared by the formatters and parsers: conversion
//! between strings and character vectors, decimal numbers, whitespace,
//! splitting, prefix and suffix tests, and the byte width of a text.

use vstd::prelude::*;
use vstd::string::*;
use vstd::std_specs::iter::IteratorSpec;

verus! {

/// The characters of `s`, in order.
pub fn chars_of(s: &str) -> (v: Vec<char>)
    ensures
        v@ == s@,
{
    broadcast use vstd::string::group_string_axioms;

    let mut v: Vec<char> = Vec::new();
    for c in it: s.chars()
        invariant
            it.seq() == s@,
            v@ == s@.take(it.index() as int),
    {
        v.push(c);
        assert(s@.take(it.index() + 1) =~= s@.take(it.index() as int).push(c));
    }
    assert(v@ =~= s@);
    v
}

/// Appends one character to `s`. The body is `String::push`; that it
/// appends the given character to the end of the string, and does nothing
/// else to it, is taken from its documentation and not proved.
#[verifier::external_body]
pub(crate) fn push_char(s: &mut String, c: char)
    ensures
        final(s)@ == old(s)@.push(c),
{
    s.push(c);
}

/// Appends the characters `v[from..to]` to `out`.
pub fn push_range(out: &mut String, v: &Vec<char>, from: usize, to: usize)
    requires
        from <= to <= v.len(),
    ensures
        final(out)@ == old(out)@ + v@.subrange(from as int, to as int),
{
    let mut i: usize = from;
    while i < to
        invariant
            from <= i <= to <= v.len(),
            out@ == old(out)@ + v@.subrange(from as int, i as int),
        decreases to - i,
    {
        push_char(out, v[i]);
        assert(v@.subrange(from as int, i + 1) =~= v@.subrange(from as int, i as int).push(
            v@[i as int],
        ));
        i += 1;
    }
}

/// The string made of the characters of `v`.
pub fn string_of(v: &Vec<char>) -> (s: String)
    ensures
        s@ == v@,
{
    let mut s = String::new();
    push_range(&mut s, v, 0, v.len());
    assert(v@.subrange(0, v.len() as int) =~= v@);
    s
}

/// A copy of `v[from..to]`.
pub fn copy_range(v: &Vec<char>, from: usize, to: usize) -> (r: Vec<char>)
    requires
        from <= to <= v.len(),
    ensures
        r@ == v@.subrange(from as int, to as int),
{
    let mut r: Vec<char> = Vec::new();
    let mut i: usize = from;
    while i < to
        invariant
            from <= i <= to <= v.len(),
            r@ == v@.subrange(from as int, i as int),
        decreases to - i,
    {
        r.push(v[i]);
        assert(v@.subrange(from as int, i + 1) =~= v@.subrange(from as int, i as int).push(
            v@[i as int],
        ));
        i += 1;
    }
    r
}

/// Appends `count` copies of `c` to `out`.
pub fn push_repeated(out: &mut String, c: char, count: usize)
    ensures
        final(out)@ == old(out)@ + Seq::new(count as nat, |i: int| c),
{
    let mut i: usize = 0;
    while i < count
        invariant
            i <= count,
            out@ == old(out)@ + Seq::new(i as nat, |j: int| c),
        decreases count - i,
    {
        push_char(out, c);
        assert(Seq::new((i + 1) as nat, |j: int| c) =~= Seq::new(i as nat, |j: int| c).push(c));
        i += 1;
    }
}

// ---------------------------------------------------------------------------
// Decimal numbers
// ---------------------------------------------------------------------------

/// The character that writes the digit `d`.
pub open spec fn digit_char(d: nat) -> char {
    if d == 0 {
        '0'
    } else if d == 1 {
        '1'
    } else if d == 2 {
        '2'
    } else if d == 3 {
        '3'
    } else if d == 4 {
        '4'
    } else if d == 5 {
        '5'
    } else if d == 6 {
        '6'
    } else if d == 7 {
        '7'
    } else if d == 8 {
        '8'
    } else {
        '9'
    }
}

/// The decimal numeral of `n`, without sign or leading zeros.
pub open spec fn decimal(n: nat) -> Seq<char>
    decreases n,
{
    if n < 10 {
        seq![digit_char(n)]
    } else {
        decimal(n / 10).push(digit_char(n % 10))
    }
}

/// Whether `c` is one of the ten decimal digits.
pub open spec fn is_digit(c: char) -> bool {
    '0' <= c && c <= '9'
}

/// The number that the digit `c` writes.
pub open spec fn digit_value(c: char) -> nat {
    (c as u32 - '0' as u32) as nat
}

/// The number that a sequence of decimal digits writes; 0 for the empty sequence.
pub open spec fn digits_value(s: Seq<char>) -> nat
    decreases s.len(),
{
    if s.len() == 0 {
        0
    } else {
        digits_value(s.drop_last()) * 10 + digit_value(s.last())
    }
}

/// Whether every character of `s` is a decimal digit.
pub open spec fn all_digits(s: Seq<char>) -> bool {
    forall|i: int| 0 <= i < s.len() ==> is_digit(#[trigger] s[i])
}

/// A decimal numeral consists of digits only, is not empty, and writes its number.
pub proof fn lemma_decimal_round_trip(n: nat)
    ensures
        decimal(n).len() >= 1,
        all_digits(decimal(n)),
        digits_value(decimal(n)) == n,
    decreases n,
{
    if n < 10 {
        let s = decimal(n);
        assert(s.drop_last() =~= Seq::<char>::empty());
        assert(digits_value(s.drop_last()) == 0);
        assert(digit_value(s.last()) == n);
    } else {
        lemma_decimal_round_trip(n / 10);
        let s = decimal(n);
        assert(s.drop_last() =~= decimal(n / 10));
        assert(digit_value(s.last()) == n % 10);
    }
}

fn digit_of(d: u64) -> (c: char)
    requires
        d < 10,
    ensures
        c == digit_char(d as nat),
{
    if d == 0 {
        '0'
    } else if d == 1 {
        '1'
    } else if d == 2 {
        '2'
    } else if d == 3 {
        '3'
    } else if d == 4 {
        '4'
    } else if d == 5 {
        '5'
    } else if d == 6 {
        '6'
    } else if d == 7 {
        '7'
    } else if d == 8 {
        '8'
    } else {
        '9'
    }
}

/// Appends the decimal numeral of `n` to `out`.
pub fn push_decimal(out: &mut String, n: u64)
    ensures
        final(out)@ == old(out)@ + decimal(n as nat),
{
    let mut low: Vec<char> = Vec::new();
    let mut rest: u64 = n;
    while rest >= 10
        invariant
            decimal(n as nat) == decimal(rest as nat) + low@.reverse(),
        decreases rest,
    {
        let c = digit_of(rest % 10);
        proof {
            let prev = low@;
            assert(prev.push(c).reverse() =~= seq![c] + prev.reverse());
            assert(decimal(rest as nat) == decimal((rest / 10) as nat).push(c));
            assert(decimal((rest / 10) as nat).push(c) + prev.reverse() =~= decimal(
                (rest / 10) as nat,
            ) + (seq![c] + prev.reverse()));
        }
        low.push(c);
        rest = rest / 10;
    }
    push_char(out, digit_of(rest));
    let mut i: usize = low.len();
    while i > 0
        invariant
            i <= low.len(),
            decimal(n as nat) == decimal(rest as nat) + low@.reverse(),
            decimal(rest as nat) == seq![digit_char(rest as nat)],
            out@ == old(out)@ + decimal(rest as nat) + low@.reverse().take(low.len() - i),
        decreases i,
    {
        i -= 1;
        push_char(out, low[i]);
        proof {
            let r = low@.reverse();
            let k = low.len() - i;
            assert(r.take(k as int) =~= r.take(k - 1).push(low@[i as int]));
            assert(old(out)@ + decimal(rest as nat) + r.take(k as int) =~= (old(out)@ + decimal(
                rest as nat,
            ) + r.take(k - 1)).push(low@[i as int]));
        }
    }
    proof {
        let r = low@.reverse();
        assert(r.take(low.len() as int) =~= r);
        assert(old(out)@ + decimal(rest as nat) + r =~= old(out)@ + (decimal(rest as nat) + r));
    }
}

/// The decimal numeral of `n` as a string.
pub fn decimal_string(n: u64) -> (s: String)
    ensures
        s@ == decimal(n as nat),
{
    let mut s = String::new();
    push_decimal(&mut s, n);
    assert(Seq::<char>::empty() + decimal(n as nat) =~= decimal(n as nat));
    s
}

// ---------------------------------------------------------------------------
// Prefixes and suffixes
// ---------------------------------------------------------------------------

/// Whether `s` begins with `prefix`.
pub open spec fn starts_with(s: Seq<char>, prefix: Seq<char>) -> bool {
    prefix.len() <= s.len() && s.take(prefix.len() as int) == prefix
}

/// Whether `s` ends with `suffix`.
pub open spec fn ends_with(s: Seq<char>, suffix: Seq<char>) -> bool {
    suffix.len() <= s.len() && s.skip(s.len() - suffix.len()) == suffix
}

/// Whether `v[at..]` begins with `pattern`.
pub fn has_at(v: &Vec<char>, at: usize, pattern: &Vec<char>) -> (found: bool)
    requires
        at <= v.len(),
    ensures
        found == starts_with(v@.skip(at as int), pattern@),
{
    if pattern.len() > v.len() - at {
        return false;
    }
    let mut i: usize = 0;
    while i < pattern.len()
        invariant
            at <= v.len(),
            pattern.len() <= v.len() - at,
            i <= pattern.len(),
            forall|j: int| 0 <= j < i ==> v@[at + j] == pattern@[j],
        decreases pattern.len() - i,
    {
        if v[at + i] != pattern[i] {
            proof {
                let head = v@.skip(at as int).take(pattern.len() as int);
                assert(head[i as int] == v@[at + i]);
            }
            return false;
        }
        i += 1;
    }
    assert(v@.skip(at as int).take(pattern.len() as int) =~= pattern@);
    true
}

/// Whether `s` begins with `prefix`.
pub fn str_starts_with(s: &str, prefix: &str) -> (found: bool)
    ensures
        found == starts_with(s@, prefix@),
{
    let v = chars_of(s);
    let p = chars_of(prefix);
    assert(v@.skip(0) =~= v@);
    has_at(&v, 0, &p)
}

/// Whether `s` ends with `suffix`.
pub fn str_ends_with(s: &str, suffix: &str) -> (found: bool)
    ensures
        found == ends_with(s@, suffix@),
{
    let v = chars_of(s);
    let p = chars_of(suffix);
    if p.len() > v.len() {
        return false;
    }
    let at = v.len() - p.len();
    let found = has_at(&v, at, &p);
    assert(v@.skip(at as int).take(p.len() as int) =~= v@.skip(at as int));
    found
}

// ---------------------------------------------------------------------------
// Reading numbers
// ---------------------------------------------------------------------------

/// The count that `s` writes: decimal digits, at least one, after an
/// optional plus sign, with a value that fits in 64 bits. Anything else
/// writes no count.
pub open spec fn parse_count(s: Seq<char>) -> Option<u64> {
    let digits = if s.len() > 0 && s[0] == '+' {
        s.skip(1)
    } else {
        s
    };
    if digits.len() > 0 && all_digits(digits) && digits_value(digits) <= u64::MAX {
        Some(digits_value(digits) as u64)
    } else {
        None
    }
}

proof fn lemma_digits_value_grows(s: Seq<char>, n: int)
    requires
        0 <= n <= s.len(),
    ensures
        digits_value(s.take(n)) <= digits_value(s),
    decreases s.len() - n,
{
    if n < s.len() {
        lemma_digits_value_grows(s, n + 1);
        assert(s.take(n + 1).drop_last() =~= s.take(n));
    } else {
        assert(s.take(n) =~= s);
    }
}

/// Reads the count that `v` writes.
pub fn read_count(v: &Vec<char>) -> (count: Option<u64>)
    ensures
        count == parse_count(v@),
{
    let start: usize = if v.len() > 0 && v[0] == '+' {
        1
    } else {
        0
    };
    let ghost digits = v@.skip(start as int);
    assert(v@.skip(0) =~= v@);
    if start == v.len() {
        return None;
    }
    let mut value: u64 = 0;
    let mut i: usize = start;
    while i < v.len()
        invariant
            start <= i <= v.len(),
            digits == v@.skip(start as int),
            digits == (if v@.len() > 0 && v@[0] == '+' {
                v@.skip(1)
            } else {
                v@
            }),
            all_digits(digits.take(i - start)),
            value == digits_value(digits.take(i - start)),
        decreases v.len() - i,
    {
        let c = v[i];
        assert(c == digits[i - start]);
        if !('0' <= c && c <= '9') {
            assert(!is_digit(digits[i - start]));
            return None;
        }
        let d: u64 = (c as u32 - '0' as u32) as u64;
        proof {
            assert(digits.take(i - start + 1).drop_last() =~= digits.take(i - start));
            assert(digits.take(i - start + 1).last() == c);
            assert(digits_value(digits.take(i - start + 1)) == value * 10 + d);
            lemma_digits_value_grows(digits, i - start + 1);
        }
        if value > (u64::MAX - d) / 10 {
            return None;
        }
        value = value * 10 + d;
        i += 1;
    }
    assert(digits.take(i - start) =~= digits);
    Some(value)
}

// ---------------------------------------------------------------------------
// White space
// ---------------------------------------------------------------------------

/// Whether `c` is white space: a space, one of the controls from tab to
/// carriage return, or one of the further space and line separators of
/// Unicode.
pub open spec fn is_space(c: char) -> bool {
    ||| c == ' '
    ||| ('\t' <= c && c <= '\r')
    ||| c == '\u{85}'
    ||| c == '\u{a0}'
    ||| c == '\u{1680}'
    ||| ('\u{2000}' <= c && c <= '\u{200a}')
    ||| c == '\u{2028}'
    ||| c == '\u{2029}'
    ||| c == '\u{202f}'
    ||| c == '\u{205f}'
    ||| c == '\u{3000}'
}

/// `s` without the white space at its start.
pub open spec fn trim_start(s: Seq<char>) -> Seq<char>
    decreases s.len(),
{
    if s.len() > 0 && is_space(s[0]) {
        trim_start(s.skip(1))
    } else {
        s
    }
}

/// `s` without the white space at its end.
pub open spec fn trim_end(s: Seq<char>) -> Seq<char>
    decreases s.len(),
{
    if s.len() > 0 && is_space(s.last()) {
        trim_end(s.drop_last())
    } else {
        s
    }
}

/// `s` without the white space at both ends.
pub open spec fn trim(s: Seq<char>) -> Seq<char> {
    trim_end(trim_start(s))
}

/// Whether `c` is white space.
pub fn space(c: char) -> (b: bool)
    ensures
        b == is_space(c),
{
    c == ' ' || ('\t' <= c && c <= '\r') || c == '\u{85}' || c == '\u{a0}' || c == '\u{1680}' || (
    '\u{2000}' <= c && c <= '\u{200a}') || c == '\u{2028}' || c == '\u{2029}' || c == '\u{202f}'
        || c == '\u{205f}' || c == '\u{3000}'
}

/// The bounds of `v[from..to]` without the white space at both ends:
/// where what is left after the white space at the start begins, and
/// where what is left of that before the white space at its end ends.
pub fn trim_bounds(v: &Vec<char>, from: usize, to: usize) -> (bounds: (usize, usize))
    requires
        from <= to <= v.len(),
    ensures
        from <= bounds.0 <= bounds.1 <= to,
        v@.subrange(bounds.0 as int, to as int) == trim_start(v@.subrange(from as int, to as int)),
        v@.subrange(bounds.0 as int, bounds.1 as int) == trim(v@.subrange(from as int, to as int)),
{
    let mut a: usize = from;
    while a < to && space(v[a])
        invariant
            from <= a <= to <= v.len(),
            trim_start(v@.subrange(from as int, to as int)) == trim_start(
                v@.subrange(a as int, to as int),
            ),
        decreases to - a,
    {
        assert(v@.subrange(a as int, to as int).skip(1) =~= v@.subrange(a + 1, to as int));
        a += 1;
    }
    assert(trim_start(v@.subrange(a as int, to as int)) == v@.subrange(a as int, to as int));
    let mut b: usize = to;
    while b > a && space(v[b - 1])
        invariant
            a <= b <= to <= v.len(),
            trim_end(v@.subrange(a as int, to as int)) == trim_end(v@.subrange(a as int, b as int)),
        decreases b,
    {
        assert(v@.subrange(a as int, b as int).drop_last() =~= v@.subrange(a as int, b - 1));
        b -= 1;
    }
    assert(trim_end(v@.subrange(a as int, b as int)) == v@.subrange(a as int, b as int));
    (a, b)
}

// ---------------------------------------------------------------------------
// Splitting
// ---------------------------------------------------------------------------

/// The texts that the vectors of `v` hold.
pub open spec fn texts(v: Seq<Vec<char>>) -> Seq<Seq<char>> {
    Seq::new(v.len(), |i: int| v[i]@)
}

/// The pieces of `s` between the occurrences of `sep`: one more piece than
/// there are occurrences, each free of `sep`, empty pieces included.
pub open spec fn split_on(s: Seq<char>, sep: char) -> Seq<Seq<char>>
    decreases s.len(),
{
    if s.len() == 0 {
        seq![Seq::<char>::empty()]
    } else {
        let before = split_on(s.drop_last(), sep);
        if s.last() == sep {
            before.push(Seq::<char>::empty())
        } else {
            before.drop_last().push(before.last().push(s.last()))
        }
    }
}

/// `pieces` written one after the other with `sep` between them.
pub open spec fn join_with(pieces: Seq<Seq<char>>, sep: char) -> Seq<char>
    decreases pieces.len(),
{
    if pieces.len() == 0 {
        Seq::<char>::empty()
    } else if pieces.len() == 1 {
        pieces[0]
    } else {
        join_with(pieces.drop_last(), sep).push(sep) + pieces.last()
    }
}

/// Splitting loses nothing: there is at least one piece, no piece holds
/// the separator, and the pieces joined by the separator are the text.
pub proof fn lemma_split_on(s: Seq<char>, sep: char)
    ensures
        split_on(s, sep).len() >= 1,
        forall|i: int, j: int|
            0 <= i < split_on(s, sep).len() && 0 <= j < split_on(s, sep)[i].len() ==> split_on(
                s,
                sep,
            )[i][j] != sep,
        join_with(split_on(s, sep), sep) == s,
    decreases s.len(),
{
    if s.len() == 0 {
        assert(join_with(split_on(s, sep), sep) =~= s);
    } else {
        lemma_split_on(s.drop_last(), sep);
        let before = split_on(s.drop_last(), sep);
        let now = split_on(s, sep);
        if s.last() == sep {
            assert(now.drop_last() =~= before);
            assert(join_with(now, sep) =~= s);
        } else {
            let grown = before.last().push(s.last());
            assert(now.last() == grown);
            if before.len() == 1 {
                assert(join_with(before, sep) == before[0]);
                assert(join_with(now, sep) =~= s);
            } else {
                assert(now.drop_last() =~= before.drop_last());
                let head = join_with(before.drop_last(), sep).push(sep);
                assert(join_with(before, sep) == head + before.last());
                assert(join_with(now, sep) == head + grown);
                assert(head + grown =~= (head + before.last()).push(s.last()));
                assert(s =~= s.drop_last().push(s.last()));
            }
        }
    }
}

/// Splits `v` at every occurrence of `sep`.
pub fn split(v: &Vec<char>, sep: char) -> (pieces: Vec<Vec<char>>)
    ensures
        texts(pieces@) == split_on(v@, sep),
        pieces.len() >= 1,
{
    let mut pieces: Vec<Vec<char>> = Vec::new();
    let mut piece: Vec<char> = Vec::new();
    let mut i: usize = 0;
    assert(v@.take(0) =~= Seq::<char>::empty());
    assert(texts(pieces@).push(piece@) =~= seq![Seq::<char>::empty()]);
    while i < v.len()
        invariant
            i <= v.len(),
            texts(pieces@).push(piece@) == split_on(v@.take(i as int), sep),
        decreases v.len() - i,
    {
        let c = v[i];
        proof {
            assert(v@.take(i + 1).drop_last() =~= v@.take(i as int));
            assert(v@.take(i + 1).last() == c);
            let before = texts(pieces@).push(piece@);
            assert(before.drop_last() =~= texts(pieces@));
        }
        if c == sep {
            let ghost shown = texts(pieces@);
            let ghost done = piece@;
            pieces.push(piece);
            piece = Vec::new();
            assert(texts(pieces@) =~= shown.push(done));
        } else {
            piece.push(c);
        }
        i += 1;
    }
    assert(v@.take(i as int) =~= v@);
    let ghost shown = texts(pieces@);
    let ghost done = piece@;
    pieces.push(piece);
    assert(texts(pieces@) =~= shown.push(done));
    pieces
}

/// `line` without the carriage return at its end, if it has one.
pub open spec fn strip_return(line: Seq<char>) -> Seq<char> {
    if line.len() > 0 && line.last() == '\r' {
        line.drop_last()
    } else {
        line
    }
}

/// The lines of `text`. A line ends at a line feed; the line feed and a
/// carriage return before it are no part of the line. What follows the
/// last line feed is a line of its own unless it is empty.
pub open spec fn lines_of(text: Seq<char>) -> Seq<Seq<char>> {
    let pieces = split_on(text, '\n');
    let ended = Seq::new((pieces.len() - 1) as nat, |i: int| strip_return(pieces[i]));
    if pieces.last().len() == 0 {
        ended
    } else {
        ended.push(pieces.last())
    }
}

/// The lines of `v`.
pub fn lines(v: &Vec<char>) -> (found: Vec<Vec<char>>)
    ensures
        texts(found@) == lines_of(v@),
{
    let mut pieces = split(v, '\n');
    let ghost all = texts(pieces@);
    let count = pieces.len() - 1;
    let mut found: Vec<Vec<char>> = Vec::new();
    let mut i: usize = 0;
    while i < count
        invariant
            i <= count,
            count == pieces.len() - 1,
            all == texts(pieces@),
            texts(found@) == Seq::new(i as nat, |k: int| strip_return(all[k])),
        decreases count - i,
    {
        let piece = &pieces[i];
        assert(piece@ == all[i as int]);
        let n = piece.len();
        let line = if n > 0 && piece[n - 1] == '\r' {
            let r = copy_range(piece, 0, n - 1);
            assert(piece@.subrange(0, n - 1) =~= piece@.drop_last());
            r
        } else {
            let r = copy_range(piece, 0, n);
            assert(piece@.subrange(0, n as int) =~= piece@);
            r
        };
        let ghost shown = texts(found@);
        found.push(line);
        assert(texts(found@) =~= shown.push(strip_return(all[i as int])));
        assert(Seq::new((i + 1) as nat, |k: int| strip_return(all[k])) =~= Seq::new(
            i as nat,
            |k: int| strip_return(all[k]),
        ).push(strip_return(all[i as int])));
        i += 1;
    }
    let last = &pieces[count];
    assert(last@ == all.last());
    if last.len() > 0 {
        let copy = copy_range(last, 0, last.len());
        assert(last@.subrange(0, last.len() as int) =~= last@);
        let ghost shown = texts(found@);
        found.push(copy);
        assert(texts(found@) =~= shown.push(all.last()));
    }
    found
}

/// The texts that the strings of `v` hold.
pub open spec fn string_texts(v: Seq<String>) -> Seq<Seq<char>> {
    Seq::new(v.len(), |i: int| v[i]@)
}

/// Writes the strings of `parts` one after the other with `sep` between them.
pub fn join(parts: &Vec<String>, sep: char) -> (joined: String)
    ensures
        joined@ == join_with(string_texts(parts@), sep),
{
    let mut joined = String::new();
    let mut i: usize = 0;
    assert(string_texts(parts@).take(0) =~= Seq::<Seq<char>>::empty());
    while i < parts.len()
        invariant
            i <= parts.len(),
            joined@ == join_with(string_texts(parts@).take(i as int), sep),
        decreases parts.len() - i,
    {
        let ghost all = string_texts(parts@);
        assert(all.take(i + 1).drop_last() =~= all.take(i as int));
        assert(all.take(i + 1).last() == parts@[i as int]@);
        if i > 0 {
            push_char(&mut joined, sep);
        }
        joined.append(parts[i].as_str());
        if i == 0 {
            assert(joined@ =~= parts@[0]@);
        }
        i += 1;
    }
    assert(string_texts(parts@).take(i as int) =~= string_texts(parts@));
    joined
}

// ---------------------------------------------------------------------------
// Order and case
// ---------------------------------------------------------------------------

/// Whether `a` stands before `b` in the order of the dictionary, the
/// characters compared by their code points: at the first place where the
/// two differ, `a` has the smaller character or has ended.
pub open spec fn text_less(a: Seq<char>, b: Seq<char>) -> bool
    decreases a.len(),
{
    if b.len() == 0 {
        false
    } else if a.len() == 0 {
        true
    } else if a[0] != b[0] {
        a[0] < b[0]
    } else {
        text_less(a.skip(1), b.skip(1))
    }
}

proof fn lemma_text_not_before_itself(a: Seq<char>)
    ensures
        !text_less(a, a),
    decreases a.len(),
{
    if a.len() > 0 {
        lemma_text_not_before_itself(a.skip(1));
    }
}

proof fn lemma_text_one_way(a: Seq<char>, b: Seq<char>)
    ensures
        !(text_less(a, b) && text_less(b, a)),
        a != b ==> text_less(a, b) || text_less(b, a),
    decreases a.len(),
{
    if a.len() > 0 && b.len() > 0 {
        lemma_text_one_way(a.skip(1), b.skip(1));
        if a[0] == b[0] && a.skip(1) == b.skip(1) {
            assert(a =~= seq![a[0]] + a.skip(1));
            assert(b =~= seq![b[0]] + b.skip(1));
        }
    } else if a.len() == 0 && b.len() == 0 {
        assert(a =~= b);
    }
}

proof fn lemma_text_between(a: Seq<char>, b: Seq<char>, c: Seq<char>)
    requires
        text_less(a, b),
    ensures
        text_less(a, c) || text_less(c, b),
    decreases a.len(),
{
    if a.len() > 0 && c.len() > 0 && a[0] == b[0] && a[0] == c[0] {
        lemma_text_between(a.skip(1), b.skip(1), c.skip(1));
    }
}

/// The order of texts is strict and total: no text stands before itself,
/// of two different texts exactly one stands before the other, and a text
/// that stands before a second one stands before every third one that
/// does not stand before the second.
pub proof fn lemma_text_order(a: Seq<char>, b: Seq<char>, c: Seq<char>)
    ensures
        !text_less(a, a),
        !(text_less(a, b) && text_less(b, a)),
        a != b ==> text_less(a, b) || text_less(b, a),
        text_less(a, b) ==> text_less(a, c) || text_less(c, b),
{
    lemma_text_not_before_itself(a);
    lemma_text_one_way(a, b);
    if text_less(a, b) {
        lemma_text_between(a, b, c);
    }
}

/// Whether `a` stands before `b` in the order of the dictionary.
pub fn text_before(a: &Vec<char>, b: &Vec<char>) -> (before: bool)
    ensures
        before == text_less(a@, b@),
{
    let mut i: usize = 0;
    assert(a@.skip(0) =~= a@ && b@.skip(0) =~= b@);
    while i < a.len() && i < b.len()
        invariant
            i <= a.len(),
            i <= b.len(),
            text_less(a@, b@) == text_less(a@.skip(i as int), b@.skip(i as int)),
        decreases a.len() - i,
    {
        if a[i] != b[i] {
            return a[i] < b[i];
        }
        assert(a@.skip(i as int).skip(1) =~= a@.skip(i + 1));
        assert(b@.skip(i as int).skip(1) =~= b@.skip(i + 1));
        i += 1;
    }
    i < b.len()
}

/// The lower case of a text, as `str::to_lowercase` gives it: by the
/// lower case mappings of Unicode, which fill tables. The name stands for
/// the result; nothing more is said of it.
pub uninterp spec fn lowercased(s: Seq<char>) -> Seq<char>;

/// The lower case of `s`. The body is `str::to_lowercase`. Taken from its
/// documentation and not proved: that the result depends on the text
/// alone, which is what gives it the name `lowercased`.
#[verifier::external_body]
pub(crate) fn to_lowercase(s: &str) -> (lower: String)
    ensures
        lower@ == lowercased(s@),
{
    s.to_lowercase()
}

// ---------------------------------------------------------------------------
// Width
// ---------------------------------------------------------------------------

/// The length of a text as the columns of the table count it: the
/// number of bytes that the text takes in UTF-8.
pub open spec fn byte_len(s: Seq<char>) -> usize {
    vstd::utf8::encode_utf8(s).len() as usize
}

/// A text of ASCII characters takes one byte for each of them.
pub proof fn lemma_ascii_width(s: Seq<char>)
    requires
        vstd::utf8::is_ascii_chars(s),
        s.len() <= usize::MAX,
    ensures
        byte_len(s) == s.len(),
{
    vstd::utf8::is_ascii_chars_encode_utf8(s);
}

/// The length of `s` in bytes.
pub fn width_of(s: &str) -> (width: usize)
    ensures
        width == byte_len(s@),
{
    s.len()
}

} // verus!
