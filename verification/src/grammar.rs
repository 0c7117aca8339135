//! The grammar itself: a total, deterministic specification of parsing, as
//! recursive functions from a character sequence and a position to the parsed
//! value and the position that follows it, or to the first error.
//!
//! The colon section is an ordered machine of optional stages — fill and
//! align, sign, `#`, `0`, width, `.` precision, type suffix — each attempted
//! once, in this order, never revisited. A literal `0` is claimed by the zero
//! flag before any digit run is read as a width.

use vstd::prelude::*;

use crate::chars::digits_val;
use crate::chars::is_align_char;
use crate::chars::is_ascii_digit;
use crate::chars::is_name_char;
use crate::chars::is_name_start;
use crate::chars::lemma_scan_end;
use crate::chars::scan_end;
use crate::model::Align;
use crate::model::ArgumentV;
use crate::model::CountV;
use crate::model::FillAlign;
use crate::model::FormatSpecV;
use crate::model::FormatType;
use crate::model::FormatV;
use crate::model::ItemV;
use crate::model::ParseErrorKind;
use crate::model::ParseErrorV;
use crate::model::PrecisionV;
use crate::model::Sign;

verus! {

pub open spec fn perr(kind: ParseErrorKind, offset: int) -> ParseErrorV {
    ParseErrorV { kind, offset }
}

/// End of the decimal digit run that starts at `i`.
pub open spec fn digits_end(s: Seq<char>, i: int) -> int {
    scan_end(s, i, |c: char| is_ascii_digit(c))
}

/// End of the identifier-character run that starts at `i`.
pub open spec fn name_end(s: Seq<char>, i: int) -> int {
    scan_end(s, i, |c: char| is_name_char(c))
}

/// End of the brace-free literal run that starts at `i`.
pub open spec fn text_end(s: Seq<char>, i: int) -> int {
    scan_end(s, i, |c: char| c != '{' && c != '}')
}

/// End of the type-suffix text that starts at `i`: everything before the
/// first `}`, or before the end of input.
pub open spec fn type_end(s: Seq<char>, i: int) -> int {
    scan_end(s, i, |c: char| c != '}')
}

pub proof fn lemma_digits_end(s: Seq<char>, i: int)
    requires
        0 <= i <= s.len(),
    ensures
        i <= digits_end(s, i) <= s.len(),
        forall|k: int| i <= k < digits_end(s, i) ==> is_ascii_digit(#[trigger] s[k]),
        digits_end(s, i) < s.len() ==> !is_ascii_digit(s[digits_end(s, i)]),
{
    lemma_scan_end(s, i, |c: char| is_ascii_digit(c));
}

pub proof fn lemma_digits_end_step(s: Seq<char>, i: int)
    requires
        0 <= i < s.len(),
        is_ascii_digit(s[i]),
    ensures
        digits_end(s, i) == digits_end(s, i + 1),
{
}

pub proof fn lemma_digits_end_stop(s: Seq<char>, i: int)
    requires
        0 <= i <= s.len(),
        i == s.len() || !is_ascii_digit(s[i]),
    ensures
        digits_end(s, i) == i,
{
}

/// Scanning from anywhere inside a digit run ends at the same place.
pub proof fn lemma_digits_end_mid(s: Seq<char>, i: int, j: int)
    requires
        0 <= i <= j <= s.len(),
        forall|k: int| i <= k < j ==> is_ascii_digit(#[trigger] s[k]),
    ensures
        digits_end(s, i) == digits_end(s, j),
{
    crate::chars::lemma_scan_end_mid(s, i, j, |c: char| is_ascii_digit(c));
}

pub proof fn lemma_name_end_mid(s: Seq<char>, i: int, j: int)
    requires
        0 <= i <= j <= s.len(),
        forall|k: int| i <= k < j ==> is_name_char(#[trigger] s[k]),
    ensures
        name_end(s, i) == name_end(s, j),
{
    crate::chars::lemma_scan_end_mid(s, i, j, |c: char| is_name_char(c));
}

pub proof fn lemma_text_end_mid(s: Seq<char>, i: int, j: int)
    requires
        0 <= i <= j <= s.len(),
        forall|k: int| i <= k < j ==> (#[trigger] s[k]) != '{' && s[k] != '}',
    ensures
        text_end(s, i) == text_end(s, j),
{
    crate::chars::lemma_scan_end_mid(s, i, j, |c: char| c != '{' && c != '}');
}

pub proof fn lemma_type_end_mid(s: Seq<char>, i: int, j: int)
    requires
        0 <= i <= j <= s.len(),
        forall|k: int| i <= k < j ==> (#[trigger] s[k]) != '}',
    ensures
        type_end(s, i) == type_end(s, j),
{
    crate::chars::lemma_scan_end_mid(s, i, j, |c: char| c != '}');
}

pub proof fn lemma_name_end(s: Seq<char>, i: int)
    requires
        0 <= i <= s.len(),
    ensures
        i <= name_end(s, i) <= s.len(),
        forall|k: int| i <= k < name_end(s, i) ==> is_name_char(#[trigger] s[k]),
        name_end(s, i) < s.len() ==> !is_name_char(s[name_end(s, i)]),
{
    lemma_scan_end(s, i, |c: char| is_name_char(c));
}

pub proof fn lemma_name_end_step(s: Seq<char>, i: int)
    requires
        0 <= i < s.len(),
        is_name_char(s[i]),
    ensures
        name_end(s, i) == name_end(s, i + 1),
{
}

pub proof fn lemma_name_end_stop(s: Seq<char>, i: int)
    requires
        0 <= i <= s.len(),
        i == s.len() || !is_name_char(s[i]),
    ensures
        name_end(s, i) == i,
{
}

pub proof fn lemma_text_end(s: Seq<char>, i: int)
    requires
        0 <= i <= s.len(),
    ensures
        i <= text_end(s, i) <= s.len(),
        forall|k: int| i <= k < text_end(s, i) ==> (#[trigger] s[k]) != '{' && s[k] != '}',
        text_end(s, i) < s.len() ==> (s[text_end(s, i)] == '{' || s[text_end(s, i)] == '}'),
{
    lemma_scan_end(s, i, |c: char| c != '{' && c != '}');
}

pub proof fn lemma_text_end_step(s: Seq<char>, i: int)
    requires
        0 <= i < s.len(),
        s[i] != '{' && s[i] != '}',
    ensures
        text_end(s, i) == text_end(s, i + 1),
{
}

pub proof fn lemma_text_end_stop(s: Seq<char>, i: int)
    requires
        0 <= i <= s.len(),
        i == s.len() || s[i] == '{' || s[i] == '}',
    ensures
        text_end(s, i) == i,
{
}

pub proof fn lemma_type_end(s: Seq<char>, i: int)
    requires
        0 <= i <= s.len(),
    ensures
        i <= type_end(s, i) <= s.len(),
        forall|k: int| i <= k < type_end(s, i) ==> (#[trigger] s[k]) != '}',
        type_end(s, i) < s.len() ==> s[type_end(s, i)] == '}',
{
    lemma_scan_end(s, i, |c: char| c != '}');
}

pub proof fn lemma_type_end_step(s: Seq<char>, i: int)
    requires
        0 <= i < s.len(),
        s[i] != '}',
    ensures
        type_end(s, i) == type_end(s, i + 1),
{
}

pub proof fn lemma_type_end_stop(s: Seq<char>, i: int)
    requires
        0 <= i <= s.len(),
        i == s.len() || s[i] == '}',
    ensures
        type_end(s, i) == i,
{
}

/// The optional argument token: a digit run is an index, an
/// identifier-shaped run is a name, anything else leaves the implicit `Next`
/// and consumes nothing. A digit run too large for `usize` is the one error.
pub open spec fn parse_argument_at(s: Seq<char>, i: int) -> Result<(ArgumentV, int), ParseErrorV> {
    if i < s.len() && is_ascii_digit(s[i]) {
        let j = digits_end(s, i);
        if digits_val(s.subrange(i, j)) > usize::MAX as int {
            Err(perr(ParseErrorKind::InvalidArgumentIndex, i))
        } else {
            Ok((ArgumentV::Index(digits_val(s.subrange(i, j))), j))
        }
    } else if i < s.len() && is_name_start(s[i]) {
        Ok((ArgumentV::Name(s.subrange(i, name_end(s, i))), name_end(s, i)))
    } else {
        Ok((ArgumentV::Next, i))
    }
}

/// The optional count token: an argument immediately followed by `$` is an
/// indirect count; a bare digit run is a literal value; a bare name, or
/// nothing, consumes nothing.
pub open spec fn parse_count_at(s: Seq<char>, i: int) -> Result<
    (Option<CountV>, int),
    ParseErrorV,
> {
    match parse_argument_at(s, i) {
        Err(e) => Err(e),
        Ok((arg, j)) => match arg {
            ArgumentV::Next => Ok((None, i)),
            ArgumentV::Index(v) => if j < s.len() && s[j] == '$' {
                Ok((Some(CountV::Argument(arg)), j + 1))
            } else {
                Ok((Some(CountV::Value(v)), j))
            },
            ArgumentV::Name(_) => if j < s.len() && s[j] == '$' {
                Ok((Some(CountV::Argument(arg)), j + 1))
            } else {
                Ok((None, i))
            },
        },
    }
}

pub open spec fn align_of(c: char) -> Align {
    if c == '<' {
        Align::Left
    } else if c == '^' {
        Align::Center
    } else {
        Align::Right
    }
}

/// The optional fill-and-align stage: first a lookahead of two characters,
/// whose second must align; then a lookahead of one.
pub open spec fn parse_fill_align_at(s: Seq<char>, i: int) -> (Option<FillAlign>, int) {
    if i + 1 < s.len() && is_align_char(s[i + 1]) {
        (Some(FillAlign { fill: Some(s[i]), align: align_of(s[i + 1]) }), i + 2)
    } else if i < s.len() && is_align_char(s[i]) {
        (Some(FillAlign { fill: None, align: align_of(s[i]) }), i + 1)
    } else {
        (None, i)
    }
}

/// The optional sign stage.
pub open spec fn parse_sign_at(s: Seq<char>, i: int) -> (Option<Sign>, int) {
    if i < s.len() && s[i] == '+' {
        (Some(Sign::Plus), i + 1)
    } else if i < s.len() && s[i] == '-' {
        (Some(Sign::Minus), i + 1)
    } else {
        (None, i)
    }
}

/// The optional precision stage: a `.` followed by `*` or by a count. A `.`
/// followed by neither leaves the whole stage unconsumed.
pub open spec fn parse_precision_at(s: Seq<char>, i: int) -> Result<
    (Option<PrecisionV>, int),
    ParseErrorV,
> {
    if i < s.len() && s[i] == '.' {
        if i + 1 < s.len() && s[i + 1] == '*' {
            Ok((Some(PrecisionV::Star), i + 2))
        } else {
            match parse_count_at(s, i + 1) {
                Err(e) => Err(e),
                Ok((Some(c), j)) => Ok((Some(PrecisionV::Count(c)), j)),
                Ok((None, _)) => Ok((None, i)),
            }
        }
    } else {
        Ok((None, i))
    }
}

/// The eleven value-rendering suffixes, or nothing for `Display`.
pub open spec fn type_of_suffix(t: Seq<char>) -> Option<FormatType> {
    if t.len() == 0 {
        Some(FormatType::Display)
    } else if t.len() == 1 {
        if t[0] == '?' {
            Some(FormatType::Debug)
        } else if t[0] == 'o' {
            Some(FormatType::Octal)
        } else if t[0] == 'x' {
            Some(FormatType::LowerHex)
        } else if t[0] == 'X' {
            Some(FormatType::UpperHex)
        } else if t[0] == 'p' {
            Some(FormatType::Pointer)
        } else if t[0] == 'b' {
            Some(FormatType::Binary)
        } else if t[0] == 'e' {
            Some(FormatType::LowerExp)
        } else if t[0] == 'E' {
            Some(FormatType::UpperExp)
        } else {
            None
        }
    } else if t.len() == 2 {
        if t[0] == 'x' && t[1] == '?' {
            Some(FormatType::DebugLowerHex)
        } else if t[0] == 'X' && t[1] == '?' {
            Some(FormatType::DebugUpperHex)
        } else {
            None
        }
    } else {
        None
    }
}

/// The type-suffix stage: everything up to the directive's closing `}` (or
/// the end of input) must be one of the known suffixes.
pub open spec fn parse_type_at(s: Seq<char>, i: int) -> Result<(FormatType, int), ParseErrorV> {
    match type_of_suffix(s.subrange(i, type_end(s, i))) {
        Some(ft) => Ok((ft, type_end(s, i))),
        None => Err(perr(ParseErrorKind::UnknownTypeSuffix, i)),
    }
}

/// The whole colon section: the five optional stages in their fixed order,
/// then the precision, then the type suffix.
pub open spec fn parse_format_spec_at(s: Seq<char>, i: int) -> Result<
    (FormatSpecV, int),
    ParseErrorV,
> {
    let (fa, i1) = parse_fill_align_at(s, i);
    let (sg, i2) = parse_sign_at(s, i1);
    let (alter, i3) = if i2 < s.len() && s[i2] == '#' {
        (true, i2 + 1)
    } else {
        (false, i2)
    };
    let (zero, i4) = if i3 < s.len() && s[i3] == '0' {
        (true, i3 + 1)
    } else {
        (false, i3)
    };
    match parse_count_at(s, i4) {
        Err(e) => Err(e),
        Ok((width, i5)) => match parse_precision_at(s, i5) {
            Err(e) => Err(e),
            Ok((precision, i6)) => match parse_type_at(s, i6) {
                Err(e) => Err(e),
                Ok((format_type, i7)) => Ok(
                    (
                        FormatSpecV {
                            fill_align: fa,
                            sign: sg,
                            alter,
                            zero,
                            width,
                            precision,
                            format_type,
                        },
                        i7,
                    ),
                ),
            },
        },
    }
}

/// One directive, starting at its `{`: the optional argument, then either
/// the closing `}` or a `:` and the colon section and then the closing `}`.
/// An input that ends first is unterminated.
pub open spec fn parse_format_at(s: Seq<char>, i: int) -> Result<(FormatV, int), ParseErrorV> {
    match parse_argument_at(s, i + 1) {
        Err(e) => Err(e),
        Ok((arg, j)) => if j == s.len() {
            Err(perr(ParseErrorKind::UnterminatedDirective, s.len() as int))
        } else if s[j] == '}' {
            Ok((FormatV { arg, format_spec: None }, j + 1))
        } else if s[j] == ':' {
            match parse_format_spec_at(s, j + 1) {
                Err(e) => Err(e),
                Ok((sp, k)) => if k == s.len() {
                    Err(perr(ParseErrorKind::UnterminatedDirective, s.len() as int))
                } else if s[k] == '}' {
                    Ok((FormatV { arg, format_spec: Some(sp) }, k + 1))
                } else {
                    Err(perr(ParseErrorKind::UnexpectedCharacter, k))
                },
            }
        } else {
            Err(perr(ParseErrorKind::UnexpectedCharacter, j))
        },
    }
}

pub proof fn lemma_parse_argument_at_pos(s: Seq<char>, i: int)
    requires
        0 <= i <= s.len(),
    ensures
        parse_argument_at(s, i) matches Ok((arg, j)) ==> i <= j <= s.len(),
{
    lemma_scan_end(s, i, |c: char| is_ascii_digit(c));
    lemma_scan_end(s, i, |c: char| is_name_char(c));
}

pub proof fn lemma_parse_count_at_pos(s: Seq<char>, i: int)
    requires
        0 <= i <= s.len(),
    ensures
        parse_count_at(s, i) matches Ok((c, j)) ==> i <= j <= s.len(),
{
    lemma_parse_argument_at_pos(s, i);
}

pub proof fn lemma_parse_format_spec_at_pos(s: Seq<char>, i: int)
    requires
        0 <= i <= s.len(),
    ensures
        parse_format_spec_at(s, i) matches Ok((sp, j)) ==> i <= j <= s.len(),
{
    let (fa, i1) = parse_fill_align_at(s, i);
    let (sg, i2) = parse_sign_at(s, i1);
    let i3 = if i2 < s.len() && s[i2] == '#' {
        i2 + 1
    } else {
        i2
    };
    let i4 = if i3 < s.len() && s[i3] == '0' {
        i3 + 1
    } else {
        i3
    };
    lemma_parse_count_at_pos(s, i4);
    if let Ok((w, i5)) = parse_count_at(s, i4) {
        if i5 < s.len() && s[i5] == '.' {
            lemma_parse_count_at_pos(s, i5 + 1);
        }
        if let Ok((p, i6)) = parse_precision_at(s, i5) {
            lemma_scan_end(s, i6, |c: char| c != '}');
        }
    }
}

pub proof fn lemma_parse_format_at_pos(s: Seq<char>, i: int)
    requires
        0 <= i < s.len(),
    ensures
        parse_format_at(s, i) matches Ok((f, j)) ==> i + 1 < j <= s.len(),
{
    lemma_parse_argument_at_pos(s, i + 1);
    if let Ok((arg, j)) = parse_argument_at(s, i + 1) {
        if j < s.len() && s[j] == ':' {
            lemma_parse_format_spec_at_pos(s, j + 1);
        }
    }
}

/// Prefixing one item to the outcome of parsing the rest.
pub open spec fn cons_item(it: ItemV, rest: Result<Seq<ItemV>, ParseErrorV>) -> Result<
    Seq<ItemV>,
    ParseErrorV,
> {
    match rest {
        Ok(items) => Ok(seq![it] + items),
        Err(e) => Err(e),
    }
}

/// Prefixing a sequence of already-parsed items to the outcome of parsing
/// the rest.
pub open spec fn chain_items(prefix: Seq<ItemV>, rest: Result<Seq<ItemV>, ParseErrorV>) -> Result<
    Seq<ItemV>,
    ParseErrorV,
> {
    match rest {
        Ok(items) => Ok(prefix + items),
        Err(e) => Err(e),
    }
}

pub proof fn lemma_chain_cons(prefix: Seq<ItemV>, it: ItemV, rest: Result<
    Seq<ItemV>,
    ParseErrorV,
>)
    ensures
        chain_items(prefix, cons_item(it, rest)) == chain_items(prefix.push(it), rest),
{
    if let Ok(r) = rest {
        assert(prefix + (seq![it] + r) =~= prefix.push(it) + r);
    }
}

/// The top level: the longest brace-free run is one literal item; `{{` and
/// `}}` are escapes; `{` opens a directive; a bare `}` is an error.
pub open spec fn parse_items_at(s: Seq<char>, i: int) -> Result<Seq<ItemV>, ParseErrorV>
    decreases s.len() - i,
    when 0 <= i <= s.len()
    via parse_items_at_dec
{
    if i == s.len() {
        Ok(Seq::empty())
    } else if s[i] == '{' {
        if i + 1 < s.len() && s[i + 1] == '{' {
            cons_item(ItemV::Escape('{'), parse_items_at(s, i + 2))
        } else {
            match parse_format_at(s, i) {
                Err(e) => Err(e),
                Ok((f, j)) => cons_item(ItemV::Format(f), parse_items_at(s, j)),
            }
        }
    } else if s[i] == '}' {
        if i + 1 < s.len() && s[i + 1] == '}' {
            cons_item(ItemV::Escape('}'), parse_items_at(s, i + 2))
        } else {
            Err(perr(ParseErrorKind::UnescapedClosingBrace, i))
        }
    } else {
        cons_item(ItemV::Text(s.subrange(i, text_end(s, i))), parse_items_at(s, text_end(s, i)))
    }
}

#[via_fn]
proof fn parse_items_at_dec(s: Seq<char>, i: int) {
    if 0 <= i < s.len() {
        lemma_parse_format_at_pos(s, i);
        lemma_scan_end(s, i, |c: char| c != '{' && c != '}');
        if !(s[i] == '{' || s[i] == '}') {
            assert(text_end(s, i) > i) by {
                let p = |c: char| c != '{' && c != '}';
                if scan_end(s, i, p) == i {
                    assert(!p(s[i]));
                }
            }
        }
    }
}

/// Parsing a whole template from its beginning.
pub open spec fn parse_text(s: Seq<char>) -> Result<Seq<ItemV>, ParseErrorV> {
    parse_items_at(s, 0)
}

} // verus!
