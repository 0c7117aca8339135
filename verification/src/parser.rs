//! The parser: recursive-descent routines that build the grammar model from
//! a [`Cursor`], each proved to agree exactly with the grammar of
//! [`crate::grammar`] — the same value and the same stopping position on
//! success, the same error on failure.

use vstd::prelude::*;

use crate::chars::dec_text;
use crate::chars::digits_val;
use crate::chars::is_ascii_digit;
use crate::cursor::Cursor;
use crate::grammar::digits_end;
use crate::grammar::lemma_digits_end;
use crate::grammar::lemma_digits_end_step;
use crate::grammar::lemma_digits_end_stop;
use crate::grammar::lemma_name_end;
use crate::grammar::lemma_name_end_step;
use crate::grammar::lemma_name_end_stop;
use crate::grammar::chain_items;
use crate::grammar::lemma_chain_cons;
use crate::grammar::lemma_parse_format_at_pos;
use crate::grammar::lemma_text_end;
use crate::grammar::lemma_text_end_step;
use crate::grammar::lemma_text_end_stop;
use crate::grammar::lemma_type_end;
use crate::grammar::lemma_type_end_step;
use crate::grammar::lemma_type_end_stop;
use crate::grammar::name_end;
use crate::grammar::parse_argument_at;
use crate::grammar::parse_count_at;
use crate::grammar::parse_fill_align_at;
use crate::grammar::parse_format_at;
use crate::grammar::parse_format_spec_at;
use crate::grammar::parse_items_at;
use crate::grammar::parse_precision_at;
use crate::grammar::parse_sign_at;
use crate::grammar::parse_text;
use crate::grammar::parse_type_at;
use crate::grammar::text_end;
use crate::grammar::type_end;
use crate::model::Align;
use crate::model::Argument;
use crate::model::ArgumentV;
use crate::model::Count;
use crate::model::CountV;
use crate::model::FillAlign;
use crate::model::ParseError;
use crate::model::ParseErrorKind;
use crate::model::ParseErrorV;
use crate::model::Format;
use crate::model::FormatSpec;
use crate::model::FormatSpecV;
use crate::model::FormatString;
use crate::model::FormatStringItem;
use crate::model::FormatType;
use crate::model::FormatV;
use crate::model::ItemV;
use crate::model::Precision;
use crate::model::PrecisionV;
use crate::model::Sign;
use crate::render::push_decimal;

verus! {

/// The complaint that accompanies each kind of error, ending in the
/// character offset of the offence.
pub open spec fn message_text(kind: ParseErrorKind, offset: int) -> Seq<char> {
    (match kind {
        ParseErrorKind::UnterminatedDirective => "unexpected end of input inside a directive at offset "@,
        ParseErrorKind::UnescapedClosingBrace => "unescaped '}' at offset "@,
        ParseErrorKind::InvalidArgumentIndex => "argument index out of range at offset "@,
        ParseErrorKind::UnknownTypeSuffix => "unrecognized format type at offset "@,
        ParseErrorKind::UnexpectedCharacter => "unexpected character at offset "@,
    }) + dec_text(offset)
}

/// An error whose message matches its kind and offset.
pub open spec fn wf_error(e: ParseError) -> bool {
    e.message@ == message_text(e.kind, e.offset as int)
}

impl ParseError {
    /// An error of the given kind at the given offset, with its message.
    pub fn new(kind: ParseErrorKind, offset: usize) -> (e: ParseError)
        ensures
            e.kind == kind,
            e.offset == offset,
            wf_error(e),
    {
        let mut message = String::from_str(
            match kind {
                ParseErrorKind::UnterminatedDirective => "unexpected end of input inside a directive at offset ",
                ParseErrorKind::UnescapedClosingBrace => "unescaped '}' at offset ",
                ParseErrorKind::InvalidArgumentIndex => "argument index out of range at offset ",
                ParseErrorKind::UnknownTypeSuffix => "unrecognized format type at offset ",
                ParseErrorKind::UnexpectedCharacter => "unexpected character at offset ",
            },
        );
        push_decimal(&mut message, offset);
        ParseError { kind, offset, message }
    }
}

impl Argument {
    /// The optional argument token: a digit run, an identifier-shaped run,
    /// or nothing.
    pub fn from_chars(c: &mut Cursor) -> (r: Result<Argument, ParseError>)
        requires
            old(c).wf(),
        ensures
            final(c).text == old(c).text,
            final(c).wf(),
            match r {
                Ok(a) => parse_argument_at(old(c).text@, old(c).pos as int)
                    == Ok::<(ArgumentV, int), ParseErrorV>((a@, final(c).pos as int)),
                Err(e) => parse_argument_at(old(c).text@, old(c).pos as int) == Err::<
                    (ArgumentV, int),
                    ParseErrorV,
                >(e@) && wf_error(e),
            },
    {
        let ghost s = old(c).text@;
        let ghost t0 = old(c).text;
        let start = c.checkpoint();
        match c.peek() {
            None => Ok(Argument::Next),
            Some(first) => {
                if '0' <= first && first <= '9' {
                    let ghost jend = digits_end(s, start as int);
                    proof {
                        lemma_digits_end(s, start as int);
                        assert(s.subrange(start as int, start as int) =~= Seq::<char>::empty());
                    }
                    let mut val: usize = 0;
                    let mut over: bool = false;
                    loop
                        invariant
                            c.wf(),
                            c.text == t0,
                            c.text@ == s,
                            start <= c.pos,
                            c.pos as int <= jend,
                            jend == digits_end(s, start as int),
                            jend <= s.len(),
                            forall|k: int| start <= k < c.pos ==> is_ascii_digit(#[trigger] s[k]),
                            digits_end(s, c.pos as int) == jend,
                            !over ==> val == digits_val(s.subrange(start as int, c.pos as int)),
                            over ==> digits_val(s.subrange(start as int, c.pos as int))
                                > usize::MAX,
                        ensures
                            c.wf(),
                            c.text == t0,
                            c.pos == jend,
                            !over ==> val == digits_val(s.subrange(start as int, jend)),
                            over ==> digits_val(s.subrange(start as int, jend)) > usize::MAX,
                        decreases s.len() - c.pos,
                    {
                        let next = c.peek();
                        match next {
                            Some(d) if '0' <= d && d <= '9' => {
                                let ghost p = c.pos as int;
                                proof {
                                    lemma_digits_end_step(s, p);
                                    lemma_digits_end(s, p + 1);
                                    assert(s.subrange(start as int, p + 1).drop_last()
                                        =~= s.subrange(start as int, p));
                                    assert(s.subrange(start as int, p + 1).last() == s[p]);
                                }
                                let dv = (d as u32 - '0' as u32) as usize;
                                if !over {
                                    if val > usize::MAX / 10 {
                                        over = true;
                                        proof {
                                            assert(digits_val(
                                                s.subrange(start as int, p + 1),
                                            ) > usize::MAX) by {
                                                assert(usize::MAX as int == 10 * (usize::MAX
                                                    as int / 10) + usize::MAX as int % 10);
                                            }
                                        }
                                    } else {
                                        let v10 = val * 10;
                                        if dv > usize::MAX - v10 {
                                            over = true;
                                        } else {
                                            val = v10 + dv;
                                        }
                                    }
                                } else {
                                    proof {
                                        crate::chars::lemma_digits_val_nonneg(
                                            s.subrange(start as int, p),
                                        );
                                    }
                                }
                                c.advance();
                            },
                            _ => {
                                proof {
                                    lemma_digits_end_stop(s, c.pos as int);
                                }
                                break;
                            },
                        }
                    }
                    if over {
                        Err(ParseError::new(ParseErrorKind::InvalidArgumentIndex, start))
                    } else {
                        Ok(Argument::Index(val))
                    }
                } else if first == '_' || ('a' <= first && first <= 'z') || ('A' <= first
                    && first <= 'Z') {
                    let ghost jend = name_end(s, start as int);
                    proof {
                        lemma_name_end(s, start as int);
                    }
                    loop
                        invariant
                            c.wf(),
                            c.text == t0,
                            c.text@ == s,
                            start <= c.pos,
                            c.pos as int <= jend,
                            jend == name_end(s, start as int),
                            jend <= s.len(),
                            name_end(s, c.pos as int) == jend,
                        ensures
                            c.wf(),
                            c.text == t0,
                            c.pos == jend,
                        decreases s.len() - c.pos,
                    {
                        let next = c.peek();
                        match next {
                            Some(d) if d == '_' || ('a' <= d && d <= 'z') || ('A' <= d && d
                                <= 'Z') || ('0' <= d && d <= '9') => {
                                proof {
                                    lemma_name_end_step(s, c.pos as int);
                                    lemma_name_end(s, c.pos as int + 1);
                                }
                                c.advance();
                            },
                            _ => {
                                proof {
                                    lemma_name_end_stop(s, c.pos as int);
                                }
                                break;
                            },
                        }
                    }
                    let name = c.text.substring_char(start, c.pos).to_owned();
                    Ok(Argument::Name(name))
                } else {
                    Ok(Argument::Next)
                }
            },
        }
    }
}

impl Count {
    /// The optional count token: an argument followed by `$` is indirect, a
    /// bare digit run is a literal value, anything else consumes nothing.
    pub fn from_chars_opt(c: &mut Cursor) -> (r: Result<Option<Count>, ParseError>)
        requires
            old(c).wf(),
        ensures
            final(c).text == old(c).text,
            final(c).wf(),
            match r {
                Ok(Some(cnt)) => parse_count_at(old(c).text@, old(c).pos as int)
                    == Ok::<(Option<CountV>, int), ParseErrorV>(
                    (Some(cnt@), final(c).pos as int),
                ),
                Ok(None) => parse_count_at(old(c).text@, old(c).pos as int) == Ok::<
                    (Option<CountV>, int),
                    ParseErrorV,
                >((None, final(c).pos as int)),
                Err(e) => parse_count_at(old(c).text@, old(c).pos as int) == Err::<
                    (Option<CountV>, int),
                    ParseErrorV,
                >(e@) && wf_error(e),
            },
    {
        let start = c.checkpoint();
        match Argument::from_chars(c) {
            Err(e) => Err(e),
            Ok(arg) => {
                let dollar = match c.peek() {
                    Some(ch) => ch == '$',
                    None => false,
                };
                match &arg {
                    Argument::Next => Ok(None),
                    Argument::Index(v) => {
                        if dollar {
                            c.advance();
                            Ok(Some(Count::Argument(arg)))
                        } else {
                            let value = *v;
                            Ok(Some(Count::Value(value)))
                        }
                    },
                    Argument::Name(_) => {
                        if dollar {
                            c.advance();
                            Ok(Some(Count::Argument(arg)))
                        } else {
                            c.restore(start);
                            Ok(None)
                        }
                    },
                }
            },
        }
    }
}

impl FillAlign {
    /// The optional fill-and-align stage: a lookahead of two characters
    /// whose second aligns, else a lookahead of one.
    pub fn from_chars_opt(c: &mut Cursor) -> (r: Option<FillAlign>)
        requires
            old(c).wf(),
        ensures
            final(c).text == old(c).text,
            final(c).wf(),
            parse_fill_align_at(old(c).text@, old(c).pos as int) == (r, final(c).pos as int),
    {
        let second_aligns = match c.peek_ahead(1) {
            Some(ch) => ch == '<' || ch == '^' || ch == '>',
            None => false,
        };
        if second_aligns {
            let fill_ch = match c.peek() {
                Some(ch) => ch,
                None => ' ',
            };
            c.advance();
            let align_ch = match c.peek() {
                Some(ch) => ch,
                None => ' ',
            };
            c.advance();
            let align = if align_ch == '<' {
                Align::Left
            } else if align_ch == '^' {
                Align::Center
            } else {
                Align::Right
            };
            Some(FillAlign { fill: Some(fill_ch), align })
        } else {
            let first_aligns = match c.peek() {
                Some(ch) => ch == '<' || ch == '^' || ch == '>',
                None => false,
            };
            if first_aligns {
                let ch = match c.peek() {
                    Some(x) => x,
                    None => ' ',
                };
                c.advance();
                let align = if ch == '<' {
                    Align::Left
                } else if ch == '^' {
                    Align::Center
                } else {
                    Align::Right
                };
                Some(FillAlign { fill: None, align })
            } else {
                None
            }
        }
    }
}

impl Sign {
    /// The optional sign stage: `+` or `-`.
    pub fn from_chars_opt(c: &mut Cursor) -> (r: Option<Sign>)
        requires
            old(c).wf(),
        ensures
            final(c).text == old(c).text,
            final(c).wf(),
            parse_sign_at(old(c).text@, old(c).pos as int) == (r, final(c).pos as int),
    {
        match c.peek() {
            Some('+') => {
                c.advance();
                Some(Sign::Plus)
            },
            Some('-') => {
                c.advance();
                Some(Sign::Minus)
            },
            _ => None,
        }
    }
}

impl Precision {
    /// The optional precision stage: `.` then `*` or a count. A `.` followed
    /// by neither leaves the whole stage unconsumed.
    pub fn from_chars_opt(c: &mut Cursor) -> (r: Result<Option<Precision>, ParseError>)
        requires
            old(c).wf(),
        ensures
            final(c).text == old(c).text,
            final(c).wf(),
            match r {
                Ok(Some(p)) => parse_precision_at(old(c).text@, old(c).pos as int)
                    == Ok::<(Option<PrecisionV>, int), ParseErrorV>(
                    (Some(p@), final(c).pos as int),
                ),
                Ok(None) => parse_precision_at(old(c).text@, old(c).pos as int) == Ok::<
                    (Option<PrecisionV>, int),
                    ParseErrorV,
                >((None, final(c).pos as int)),
                Err(e) => parse_precision_at(old(c).text@, old(c).pos as int) == Err::<
                    (Option<PrecisionV>, int),
                    ParseErrorV,
                >(e@) && wf_error(e),
            },
    {
        let dot = match c.peek() {
            Some(ch) => ch == '.',
            None => false,
        };
        if dot {
            let star = match c.peek_ahead(1) {
                Some(ch) => ch == '*',
                None => false,
            };
            if star {
                c.advance();
                c.advance();
                Ok(Some(Precision::Star))
            } else {
                let start = c.checkpoint();
                c.advance();
                match Count::from_chars_opt(c) {
                    Err(e) => Err(e),
                    Ok(Some(cnt)) => Ok(Some(Precision::Count(cnt))),
                    Ok(None) => {
                        c.restore(start);
                        Ok(None)
                    },
                }
            }
        } else {
            Ok(None)
        }
    }
}

impl FormatType {
    /// The type-suffix stage: everything before the directive's closing `}`
    /// (or the end of input) must be one of the eleven known suffixes.
    pub fn from_chars(c: &mut Cursor) -> (r: Result<FormatType, ParseError>)
        requires
            old(c).wf(),
        ensures
            final(c).text == old(c).text,
            final(c).wf(),
            match r {
                Ok(ft) => parse_type_at(old(c).text@, old(c).pos as int) == Ok::<
                    (FormatType, int),
                    ParseErrorV,
                >((ft, final(c).pos as int)),
                Err(e) => parse_type_at(old(c).text@, old(c).pos as int) == Err::<
                    (FormatType, int),
                    ParseErrorV,
                >(e@) && wf_error(e),
            },
    {
        let ghost s = old(c).text@;
        let ghost t0 = old(c).text;
        let start = c.checkpoint();
        let ghost jend = type_end(s, start as int);
        proof {
            lemma_type_end(s, start as int);
        }
        loop
            invariant
                c.wf(),
                c.text == t0,
                c.text@ == s,
                start <= c.pos,
                c.pos as int <= jend,
                jend == type_end(s, start as int),
                jend <= s.len(),
                type_end(s, c.pos as int) == jend,
            ensures
                c.wf(),
                c.text == t0,
                c.pos == jend,
            decreases s.len() - c.pos,
        {
            let stop = match c.peek() {
                Some(ch) => ch == '}',
                None => true,
            };
            if stop {
                proof {
                    lemma_type_end_stop(s, c.pos as int);
                }
                break;
            } else {
                proof {
                    lemma_type_end_step(s, c.pos as int);
                    lemma_type_end(s, c.pos as int + 1);
                }
                c.advance();
            }
        }
        let end = c.checkpoint();
        let ghost suffix = s.subrange(start as int, jend);
        proof {
            assert(suffix.len() == jend - start);
        }
        if end - start == 0 {
            proof {
                assert(suffix =~= Seq::<char>::empty());
            }
            Ok(FormatType::Display)
        } else if end - start == 1 {
            let ch = c.text.get_char(start);
            proof {
                assert(suffix[0] == s[start as int]);
            }
            if ch == '?' {
                Ok(FormatType::Debug)
            } else if ch == 'o' {
                Ok(FormatType::Octal)
            } else if ch == 'x' {
                Ok(FormatType::LowerHex)
            } else if ch == 'X' {
                Ok(FormatType::UpperHex)
            } else if ch == 'p' {
                Ok(FormatType::Pointer)
            } else if ch == 'b' {
                Ok(FormatType::Binary)
            } else if ch == 'e' {
                Ok(FormatType::LowerExp)
            } else if ch == 'E' {
                Ok(FormatType::UpperExp)
            } else {
                Err(ParseError::new(ParseErrorKind::UnknownTypeSuffix, start))
            }
        } else if end - start == 2 {
            let c1 = c.text.get_char(start);
            let c2 = c.text.get_char(start + 1);
            proof {
                assert(suffix[0] == s[start as int]);
                assert(suffix[1] == s[start as int + 1]);
            }
            if c1 == 'x' && c2 == '?' {
                Ok(FormatType::DebugLowerHex)
            } else if c1 == 'X' && c2 == '?' {
                Ok(FormatType::DebugUpperHex)
            } else {
                Err(ParseError::new(ParseErrorKind::UnknownTypeSuffix, start))
            }
        } else {
            Err(ParseError::new(ParseErrorKind::UnknownTypeSuffix, start))
        }
    }
}

impl FormatSpec {
    /// The whole colon section: the optional stages in their fixed order,
    /// then the type suffix.
    pub fn from_chars(c: &mut Cursor) -> (r: Result<FormatSpec, ParseError>)
        requires
            old(c).wf(),
        ensures
            final(c).text == old(c).text,
            final(c).wf(),
            match r {
                Ok(sp) => parse_format_spec_at(old(c).text@, old(c).pos as int) == Ok::<
                    (FormatSpecV, int),
                    ParseErrorV,
                >((sp@, final(c).pos as int)),
                Err(e) => parse_format_spec_at(old(c).text@, old(c).pos as int) == Err::<
                    (FormatSpecV, int),
                    ParseErrorV,
                >(e@) && wf_error(e),
            },
    {
        let fill_align = FillAlign::from_chars_opt(c);
        let sign = Sign::from_chars_opt(c);
        let has_alter = match c.peek() {
            Some(ch) => ch == '#',
            None => false,
        };
        let alter = if has_alter {
            c.advance();
            true
        } else {
            false
        };
        let has_zero = match c.peek() {
            Some(ch) => ch == '0',
            None => false,
        };
        let zero = if has_zero {
            c.advance();
            true
        } else {
            false
        };
        let width = match Count::from_chars_opt(c) {
            Err(e) => {
                return Err(e);
            },
            Ok(w) => w,
        };
        let precision = match Precision::from_chars_opt(c) {
            Err(e) => {
                return Err(e);
            },
            Ok(p) => p,
        };
        let format_type = match FormatType::from_chars(c) {
            Err(e) => {
                return Err(e);
            },
            Ok(ft) => ft,
        };
        Ok(FormatSpec { fill_align, sign, alter, zero, width, precision, format_type })
    }
}

impl Format {
    /// One directive, with the cursor at its opening `{`: the optional
    /// argument, then either the closing `}` or a `:`, the colon section and
    /// the closing `}`.
    pub fn from_chars(c: &mut Cursor) -> (r: Result<Format, ParseError>)
        requires
            old(c).wf(),
            old(c).pos < old(c).text@.len(),
            old(c).text@[old(c).pos as int] == '{',
        ensures
            final(c).text == old(c).text,
            final(c).wf(),
            match r {
                Ok(f) => parse_format_at(old(c).text@, old(c).pos as int) == Ok::<
                    (FormatV, int),
                    ParseErrorV,
                >((f@, final(c).pos as int)),
                Err(e) => parse_format_at(old(c).text@, old(c).pos as int) == Err::<
                    (FormatV, int),
                    ParseErrorV,
                >(e@) && wf_error(e),
            },
    {
        c.advance();
        let arg = match Argument::from_chars(c) {
            Err(e) => {
                return Err(e);
            },
            Ok(a) => a,
        };
        if c.at_end() {
            return Err(ParseError::new(ParseErrorKind::UnterminatedDirective, c.input_len()));
        }
        let ch = match c.peek() {
            Some(x) => x,
            None => ' ',
        };
        if ch == '}' {
            c.advance();
            Ok(Format { arg, format_spec: None })
        } else if ch == ':' {
            c.advance();
            let sp = match FormatSpec::from_chars(c) {
                Err(e) => {
                    return Err(e);
                },
                Ok(sp) => sp,
            };
            if c.at_end() {
                return Err(ParseError::new(ParseErrorKind::UnterminatedDirective, c.input_len()));
            }
            let ch2 = match c.peek() {
                Some(x) => x,
                None => ' ',
            };
            if ch2 == '}' {
                c.advance();
                Ok(Format { arg, format_spec: Some(sp) })
            } else {
                Err(ParseError::new(ParseErrorKind::UnexpectedCharacter, c.checkpoint()))
            }
        } else {
            Err(ParseError::new(ParseErrorKind::UnexpectedCharacter, c.checkpoint()))
        }
    }
}

impl FormatString {
    /// The whole template, from the cursor's position to the end of the
    /// input.
    pub fn from_chars(c: &mut Cursor) -> (r: Result<FormatString, ParseError>)
        requires
            old(c).wf(),
        ensures
            final(c).text == old(c).text,
            final(c).wf(),
            match r {
                Ok(fs) => parse_items_at(old(c).text@, old(c).pos as int) == Ok::<
                    Seq<ItemV>,
                    ParseErrorV,
                >(fs@),
                Err(e) => parse_items_at(old(c).text@, old(c).pos as int) == Err::<
                    Seq<ItemV>,
                    ParseErrorV,
                >(e@) && wf_error(e),
            },
    {
        let ghost s = old(c).text@;
        let ghost t0 = old(c).text;
        let ghost i0 = old(c).pos as int;
        let mut items: Vec<FormatStringItem> = Vec::new();
        proof {
            assert(items@.map_values(|it: FormatStringItem| it@) =~= Seq::<ItemV>::empty());
        }
        loop
            invariant
                c.wf(),
                t0 == old(c).text,
                i0 == old(c).pos as int,
                c.text == t0,
                c.text@ == s,
                chain_items(
                    items@.map_values(|it: FormatStringItem| it@),
                    parse_items_at(s, c.pos as int),
                ) == parse_items_at(s, i0),
            decreases s.len() - c.pos,
        {
            let ghost iv = items@.map_values(|it: FormatStringItem| it@);
            let ghost p = c.pos as int;
            if c.at_end() {
                proof {
                    assert(parse_items_at(s, p) == Ok::<Seq<ItemV>, ParseErrorV>(Seq::empty()));
                    assert(iv + Seq::<ItemV>::empty() =~= iv);
                }
                return Ok(FormatString(items));
            }
            let ch = match c.peek() {
                Some(x) => x,
                None => ' ',
            };
            if ch == '{' {
                let doubled = match c.peek_ahead(1) {
                    Some(x) => x == '{',
                    None => false,
                };
                if doubled {
                    c.advance();
                    c.advance();
                    items.push(FormatStringItem::Escape('{'));
                    proof {
                        assert(items@.map_values(|it: FormatStringItem| it@) =~= iv.push(
                            ItemV::Escape('{'),
                        ));
                        lemma_chain_cons(iv, ItemV::Escape('{'), parse_items_at(s, p + 2));
                    }
                } else {
                    match Format::from_chars(c) {
                        Err(e) => {
                            return Err(e);
                        },
                        Ok(f) => {
                            proof {
                                lemma_parse_format_at_pos(s, p);
                                lemma_chain_cons(
                                    iv,
                                    ItemV::Format(f@),
                                    parse_items_at(s, c.pos as int),
                                );
                            }
                            items.push(FormatStringItem::Format(f));
                            proof {
                                assert(items@.map_values(|it: FormatStringItem| it@) =~= iv.push(
                                    ItemV::Format(f@),
                                ));
                            }
                        },
                    }
                }
            } else if ch == '}' {
                let doubled = match c.peek_ahead(1) {
                    Some(x) => x == '}',
                    None => false,
                };
                if doubled {
                    c.advance();
                    c.advance();
                    items.push(FormatStringItem::Escape('}'));
                    proof {
                        assert(items@.map_values(|it: FormatStringItem| it@) =~= iv.push(
                            ItemV::Escape('}'),
                        ));
                        lemma_chain_cons(iv, ItemV::Escape('}'), parse_items_at(s, p + 2));
                    }
                } else {
                    return Err(ParseError::new(
                        ParseErrorKind::UnescapedClosingBrace,
                        c.checkpoint(),
                    ));
                }
            } else {
                let start = c.checkpoint();
                let ghost jend = text_end(s, p);
                proof {
                    lemma_text_end(s, p);
                    lemma_text_end_step(s, p);
                    lemma_text_end(s, p + 1);
                }
                loop
                    invariant
                        c.wf(),
                        c.text == t0,
                        c.text@ == s,
                        start <= c.pos,
                        c.pos as int <= jend,
                        jend == text_end(s, start as int),
                        jend <= s.len(),
                        text_end(s, c.pos as int) == jend,
                    ensures
                        c.wf(),
                        c.text == t0,
                        c.pos == jend,
                    decreases s.len() - c.pos,
                {
                    let stop = match c.peek() {
                        Some(x) => x == '{' || x == '}',
                        None => true,
                    };
                    if stop {
                        proof {
                            lemma_text_end_stop(s, c.pos as int);
                        }
                        break;
                    } else {
                        proof {
                            lemma_text_end_step(s, c.pos as int);
                            lemma_text_end(s, c.pos as int + 1);
                        }
                        c.advance();
                    }
                }
                let run = c.text.substring_char(start, c.checkpoint()).to_owned();
                items.push(FormatStringItem::Text(run));
                proof {
                    assert(items@.map_values(|it: FormatStringItem| it@) =~= iv.push(
                        ItemV::Text(s.subrange(p, jend)),
                    ));
                    lemma_chain_cons(iv, ItemV::Text(s.subrange(p, jend)), parse_items_at(s, jend));
                }
            }
        }
    }

    /// Parses one template. Total and deterministic: the result agrees
    /// exactly with the grammar of [`crate::grammar`], for every input.
    pub fn parse(fmt_str: &str) -> (r: Result<FormatString, ParseError>)
        ensures
            match r {
                Ok(fs) => parse_text(fmt_str@) == Ok::<Seq<ItemV>, ParseErrorV>(fs@)
                    && crate::model::wf_items(fs@),
                Err(e) => parse_text(fmt_str@) == Err::<Seq<ItemV>, ParseErrorV>(e@) && wf_error(
                    e,
                ),
            },
    {
        let mut cur = Cursor::new(fmt_str);
        match FormatString::from_chars(&mut cur) {
            Ok(fs) => {
                proof {
                    crate::parse_wf::lemma_parse_wf(fmt_str@, fs@);
                }
                Ok(fs)
            },
            Err(e) => Err(e),
        }
    }

    /// The parsed items, in order.
    pub fn items(&self) -> (r: &Vec<FormatStringItem>)
        ensures
            r@.map_values(|it: FormatStringItem| it@) == self@,
    {
        &self.0
    }
}

} // verus!

