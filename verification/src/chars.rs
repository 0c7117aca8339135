//! Character classes of the format-string grammar, and decimal notation for
//! the non-negative integers that appear in argument indexes and counts.

use vstd::prelude::*;

verus! {

/// An ASCII decimal digit.
pub open spec fn is_ascii_digit(c: char) -> bool {
    '0' <= c && c <= '9'
}

/// A character that may start an identifier-shaped argument name.
pub open spec fn is_name_start(c: char) -> bool {
    c == '_' || ('a' <= c && c <= 'z') || ('A' <= c && c <= 'Z')
}

/// A character that may continue an identifier-shaped argument name.
pub open spec fn is_name_char(c: char) -> bool {
    is_name_start(c) || is_ascii_digit(c)
}

/// One of the three alignment characters.
pub open spec fn is_align_char(c: char) -> bool {
    c == '<' || c == '^' || c == '>'
}

/// The numeric value of a decimal digit character.
pub open spec fn digit_val(c: char) -> int {
    c as u32 - '0' as u32
}

/// The decimal digit character for a value below ten.
pub open spec fn digit_char(d: int) -> char {
    if d == 0 {
        '0'
    } else if d == 1 {
        '1'
    } else if d == 2 {
        '2'
    } else if d == 3 {
        '3'
    } else if d == 4 {
        '4'
    } else if d == 5 {
        '5'
    } else if d == 6 {
        '6'
    } else if d == 7 {
        '7'
    } else if d == 8 {
        '8'
    } else {
        '9'
    }
}

pub proof fn lemma_digit_char(d: int)
    requires
        0 <= d <= 9,
    ensures
        is_ascii_digit(digit_char(d)),
        digit_val(digit_char(d)) == d,
{
}

/// The canonical decimal notation of a non-negative integer: no redundant
/// leading zero, `0` itself written as one digit.
pub open spec fn dec_text(n: int) -> Seq<char>
    decreases n,
{
    if n <= 9 {
        seq![digit_char(n)]
    } else {
        dec_text(n / 10) + seq![digit_char(n % 10)]
    }
}

/// The value denoted by a run of decimal digit characters, most significant
/// first; the empty run denotes zero.
pub open spec fn digits_val(t: Seq<char>) -> int
    decreases t.len(),
{
    if t.len() == 0 {
        0
    } else {
        digits_val(t.drop_last()) * 10 + digit_val(t.last())
    }
}

pub proof fn lemma_dec_text(n: int)
    requires
        n >= 0,
    ensures
        dec_text(n).len() >= 1,
        forall|k: int| 0 <= k < dec_text(n).len() ==> is_ascii_digit(#[trigger] dec_text(n)[k]),
        n > 0 ==> dec_text(n)[0] != '0',
        n == 0 ==> dec_text(n) == seq!['0'],
        digits_val(dec_text(n)) == n,
    decreases n,
{
    if n <= 9 {
        lemma_digit_char(n);
        reveal_with_fuel(digits_val, 2);
        assert(dec_text(n).drop_last() =~= Seq::<char>::empty());
        assert(dec_text(n).last() == digit_char(n));
    } else {
        lemma_dec_text(n / 10);
        lemma_digit_char(n % 10);
        assert(dec_text(n).drop_last() =~= dec_text(n / 10));
        assert(dec_text(n).last() == digit_char(n % 10));
        assert(dec_text(n)[0] == dec_text(n / 10)[0]);
    }
}

/// Digit runs denote non-negative values.
pub proof fn lemma_digits_val_nonneg(t: Seq<char>)
    requires
        forall|k: int| 0 <= k < t.len() ==> is_ascii_digit(#[trigger] t[k]),
    ensures
        digits_val(t) >= 0,
    decreases t.len(),
{
    if t.len() > 0 {
        lemma_digits_val_nonneg(t.drop_last());
    }
}

/// A digit run with a non-zero leading digit denotes a positive value.
pub proof fn lemma_digits_val_pos(t: Seq<char>)
    requires
        t.len() >= 1,
        forall|k: int| 0 <= k < t.len() ==> is_ascii_digit(#[trigger] t[k]),
        t[0] != '0',
    ensures
        digits_val(t) >= 1,
    decreases t.len(),
{
    if t.len() == 1 {
        reveal_with_fuel(digits_val, 2);
        assert(t.drop_last() =~= Seq::<char>::empty());
        assert(t.last() == t[0]);
    } else {
        lemma_digits_val_pos(t.drop_last());
    }
}

/// A window known to hold a concatenation splits into the two windows of its
/// parts.
pub proof fn lemma_concat_split(s: Seq<char>, i: int, a: Seq<char>, b: Seq<char>, j: int)
    requires
        0 <= i <= j <= s.len(),
        s.subrange(i, j) == a + b,
    ensures
        j == i + a.len() + b.len(),
        s.subrange(i, i + a.len()) == a,
        s.subrange(i + a.len(), j) == b,
{
    assert(s.subrange(i, j).len() == a.len() + b.len());
    assert(s.subrange(i, i + a.len()) =~= a) by {
        assert(forall|k: int|
            0 <= k < a.len() ==> s.subrange(i, i + a.len())[k] == s.subrange(i, j)[k]);
    }
    assert(s.subrange(i + a.len(), j) =~= b) by {
        assert(forall|k: int|
            0 <= k < b.len() ==> (#[trigger] s.subrange(i + a.len(), j)[k]) == s.subrange(
                i,
                j,
            )[a.len() + k]);
    }
}

/// The first position at or after `i` whose character fails `p`, or the end.
pub open spec fn scan_end(s: Seq<char>, i: int, p: spec_fn(char) -> bool) -> int
    decreases s.len() - i,
    when 0 <= i <= s.len()
{
    if i == s.len() || !p(s[i]) {
        i
    } else {
        scan_end(s, i + 1, p)
    }
}

pub proof fn lemma_scan_end(s: Seq<char>, i: int, p: spec_fn(char) -> bool)
    requires
        0 <= i <= s.len(),
    ensures
        i <= scan_end(s, i, p) <= s.len(),
        forall|k: int| i <= k < scan_end(s, i, p) ==> p(#[trigger] s[k]),
        scan_end(s, i, p) < s.len() ==> !p(s[scan_end(s, i, p)]),
    decreases s.len() - i,
{
    if !(i == s.len() || !p(s[i])) {
        lemma_scan_end(s, i + 1, p);
    }
}

/// Scanning from anywhere inside the run ends at the same place.
pub proof fn lemma_scan_end_mid(s: Seq<char>, i: int, j: int, p: spec_fn(char) -> bool)
    requires
        0 <= i <= j <= s.len(),
        forall|k: int| i <= k < j ==> p(#[trigger] s[k]),
    ensures
        scan_end(s, i, p) == scan_end(s, j, p),
    decreases j - i,
{
    if i < j {
        lemma_scan_end_mid(s, i + 1, j, p);
    }
}

} // verus!
