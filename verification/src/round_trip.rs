//! The round trip: rendering a well-formed template and parsing it back
//! gives the same template. Together with [`crate::parse_wf`] this makes
//! serialization an exact inverse of parsing on every canonical input.

use vstd::prelude::*;

use crate::chars::dec_text;
use crate::chars::is_align_char;
use crate::chars::is_ascii_digit;
use crate::chars::is_name_char;
use crate::chars::is_name_start;
use crate::chars::lemma_concat_split;
use crate::chars::lemma_dec_text;
use crate::grammar::align_of;
use crate::grammar::digits_end;
use crate::grammar::lemma_digits_end_mid;
use crate::grammar::lemma_digits_end_stop;
use crate::grammar::lemma_name_end_mid;
use crate::grammar::lemma_name_end_step;
use crate::grammar::lemma_name_end_stop;
use crate::grammar::lemma_text_end_mid;
use crate::grammar::lemma_text_end_stop;
use crate::grammar::lemma_type_end_mid;
use crate::grammar::lemma_type_end_stop;
use crate::grammar::name_end;
use crate::grammar::parse_argument_at;
use crate::grammar::parse_count_at;
use crate::grammar::parse_fill_align_at;
use crate::grammar::parse_format_at;
use crate::grammar::parse_format_spec_at;
use crate::grammar::parse_items_at;
use crate::grammar::parse_precision_at;
use crate::grammar::parse_sign_at;
use crate::grammar::parse_text;
use crate::grammar::parse_type_at;
use crate::grammar::text_end;
use crate::grammar::type_end;
use crate::model::is_empty_spec_format;
use crate::model::lemma_wf_items_drop_first;
use crate::model::starts_with_align;
use crate::model::wf_item;
use crate::model::spec_is_empty;
use crate::model::wf_argument;
use crate::model::wf_count;
use crate::model::wf_format;
use crate::model::wf_format_spec;
use crate::model::wf_items;
use crate::model::wf_precision;
use crate::model::width_starts_zero;
use crate::model::Align;
use crate::model::ArgumentV;
use crate::model::CountV;
use crate::model::FormatSpecV;
use crate::model::FormatType;
use crate::model::FormatV;
use crate::model::ItemV;
use crate::model::ParseErrorV;
use crate::model::PrecisionV;
use crate::render::align_char;
use crate::render::argument_text;
use crate::render::count_text;
use crate::render::flag_text;
use crate::render::format_spec_text;
use crate::render::format_text;
use crate::render::item_text;
use crate::render::items_text;
use crate::render::opt_fill_align_text;
use crate::render::opt_precision_text;
use crate::render::opt_sign_text;
use crate::render::opt_width_text;
use crate::render::precision_text;
use crate::render::sign_char;
use crate::render::spec_tail_text;
use crate::render::type_suffix;

verus! {

/// A character that can stand anywhere in a colon section past its
/// fill-and-align stage: never an alignment character, never a brace.
pub open spec fn tail_char(c: char) -> bool {
    !is_align_char(c) && c != '{' && c != '}'
}

proof fn lemma_align_char_of(al: Align)
    ensures
        is_align_char(align_char(al)),
        align_of(align_char(al)) == al,
{
}

/// Concatenation keeps a character class.
proof fn lemma_chars_concat(a: Seq<char>, b: Seq<char>, p: spec_fn(char) -> bool)
    requires
        forall|k: int| 0 <= k < a.len() ==> p(#[trigger] a[k]),
        forall|k: int| 0 <= k < b.len() ==> p(#[trigger] b[k]),
    ensures
        forall|k: int| 0 <= k < (a + b).len() ==> p(#[trigger] (a + b)[k]),
{
    assert forall|k: int| 0 <= k < (a + b).len() implies p(#[trigger] (a + b)[k]) by {
        if k < a.len() {
            assert((a + b)[k] == a[k]);
        } else {
            assert((a + b)[k] == b[k - a.len()]);
        }
    }
}

proof fn lemma_dec_text_chars(n: int)
    requires
        n >= 0,
    ensures
        forall|k: int| 0 <= k < dec_text(n).len() ==> tail_char(#[trigger] dec_text(n)[k]),
        dec_text(n).len() >= 1,
        is_ascii_digit(dec_text(n)[0]),
        !is_name_start(dec_text(n)[0]),
{
    lemma_dec_text(n);
}

proof fn lemma_argument_chars(a: ArgumentV)
    requires
        wf_argument(a),
    ensures
        forall|k: int| 0 <= k < argument_text(a).len() ==> tail_char(#[trigger] argument_text(a)[k]),
    decreases a,
{
    match a {
        ArgumentV::Next => {},
        ArgumentV::Index(n) => {
            lemma_dec_text_chars(n);
        },
        ArgumentV::Name(t) => {},
    }
}

proof fn lemma_count_chars(w: CountV)
    requires
        wf_count(w),
    ensures
        forall|k: int| 0 <= k < count_text(w).len() ==> tail_char(#[trigger] count_text(w)[k]),
        count_text(w).len() >= 1,
        is_ascii_digit(count_text(w)[0]) || is_name_start(count_text(w)[0]),
        count_text(w)[0] != '.',
        count_text(w)[0] != '*',
        !width_starts_zero(Some(w)) ==> count_text(w)[0] != '0',
{
    match w {
        CountV::Argument(a) => {
            lemma_argument_chars(a);
            lemma_chars_concat(argument_text(a), seq!['$'], |c: char| tail_char(c));
            match a {
                ArgumentV::Next => {
                    assert(false);
                },
                ArgumentV::Index(n) => {
                    lemma_dec_text_chars(n);
                    lemma_dec_text(n);
                    assert(count_text(w)[0] == dec_text(n)[0]);
                },
                ArgumentV::Name(t) => {
                    assert(count_text(w)[0] == t[0]);
                },
            }
        },
        CountV::Value(n) => {
            lemma_dec_text_chars(n);
            lemma_dec_text(n);
        },
    }
}

proof fn lemma_precision_chars(p: PrecisionV)
    requires
        wf_precision(p),
    ensures
        forall|k: int|
            0 <= k < precision_text(p).len() ==> tail_char(#[trigger] precision_text(p)[k]),
        precision_text(p).len() >= 1,
        precision_text(p)[0] == '.',
{
    match p {
        PrecisionV::Count(c) => {
            lemma_count_chars(c);
            lemma_chars_concat(seq!['.'], count_text(c), |cc: char| tail_char(cc));
        },
        PrecisionV::Star => {},
    }
}

proof fn lemma_type_chars(ft: FormatType)
    ensures
        forall|k: int| 0 <= k < type_suffix(ft).len() ==> tail_char(#[trigger] type_suffix(ft)[k]),
        forall|k: int|
            0 <= k < type_suffix(ft).len() ==> ((#[trigger] type_suffix(ft)[k]) == '?'
                || is_name_start(type_suffix(ft)[k])),
        ft !is Display ==> type_suffix(ft).len() >= 1,
        ft is Display ==> type_suffix(ft).len() == 0,
{
}

/// The eleven suffixes are mutually exclusive: each parses back to its own
/// rendering type.
pub proof fn lemma_type_suffix_roundtrip(ft: FormatType)
    ensures
        crate::grammar::type_of_suffix(type_suffix(ft)) == Some(ft),
{
}

/// Every character of a colon section past its fill-and-align stage is a
/// [`tail_char`].
proof fn lemma_spec_tail_chars(sp: FormatSpecV)
    requires
        wf_format_spec(sp),
    ensures
        forall|k: int|
            0 <= k < spec_tail_text(sp).len() ==> tail_char(#[trigger] spec_tail_text(sp)[k]),
{
    let p = |c: char| tail_char(c);
    let t2 = opt_sign_text(sp.sign);
    let t3 = flag_text(sp.alter, '#');
    let t4 = flag_text(sp.zero, '0');
    let t5 = opt_width_text(sp.width);
    let t6 = opt_precision_text(sp.precision);
    let t7 = type_suffix(sp.format_type);
    if let Some(w) = sp.width {
        lemma_count_chars(w);
    }
    if let Some(pr) = sp.precision {
        lemma_precision_chars(pr);
    }
    lemma_type_chars(sp.format_type);
    lemma_chars_concat(t2, t3, p);
    lemma_chars_concat(t2 + t3, t4, p);
    lemma_chars_concat(t2 + t3 + t4, t5, p);
    lemma_chars_concat(t2 + t3 + t4 + t5, t6, p);
    lemma_chars_concat(t2 + t3 + t4 + t5 + t6, t7, p);
    assert(spec_tail_text(sp) == t2 + t3 + t4 + t5 + t6 + t7);
}

/// Parsing at the rendered text of an argument recovers the argument.
proof fn lemma_reparse_argument(s: Seq<char>, i: int, a: ArgumentV)
    requires
        wf_argument(a),
        0 <= i,
        i + argument_text(a).len() <= s.len(),
        s.subrange(i, i + argument_text(a).len()) == argument_text(a),
        a is Next ==> i == s.len() || (!is_ascii_digit(s[i]) && !is_name_start(s[i])),
        a is Index ==> i + argument_text(a).len() == s.len() || !is_ascii_digit(
            s[i + argument_text(a).len()],
        ),
        a is Name ==> i + argument_text(a).len() == s.len() || !is_name_char(
            s[i + argument_text(a).len()],
        ),
    ensures
        parse_argument_at(s, i) == Ok::<(ArgumentV, int), ParseErrorV>(
            (a, i + argument_text(a).len()),
        ),
{
    let w = argument_text(a);
    let m = i + w.len();
    assert(forall|k: int| 0 <= k < w.len() ==> s[i + k] == #[trigger] w[k]) by {
        assert(forall|k: int|
            0 <= k < w.len() ==> (#[trigger] s.subrange(i, m)[k]) == s[i + k]);
    }
    match a {
        ArgumentV::Next => {},
        ArgumentV::Index(n) => {
            lemma_dec_text(n);
            assert(s[i] == w[0]);
            assert(is_ascii_digit(s[i]));
            assert forall|k: int| i <= k < m implies is_ascii_digit(#[trigger] s[k]) by {
                assert(s[k] == w[k - i]);
            }
            lemma_digits_end_mid(s, i, m);
            lemma_digits_end_stop(s, m);
            assert(digits_end(s, i) == m);
            assert(s.subrange(i, m) == w);
            assert(crate::chars::digits_val(s.subrange(i, m)) == n);
        },
        ArgumentV::Name(t) => {
            assert(s[i] == t[0]);
            assert(is_name_start(s[i]));
            assert(!is_ascii_digit(s[i]));
            assert forall|k: int| i <= k < m implies is_name_char(#[trigger] s[k]) by {
                assert(s[k] == t[k - i]);
            }
            lemma_name_end_mid(s, i, m);
            lemma_name_end_stop(s, m);
            assert(name_end(s, i) == m);
            assert(s.subrange(i, name_end(s, i)) == t);
        },
    }
}

/// Parsing at the rendered text of a count recovers the count.
proof fn lemma_reparse_count(s: Seq<char>, i: int, w: CountV)
    requires
        wf_count(w),
        0 <= i,
        i + count_text(w).len() <= s.len(),
        s.subrange(i, i + count_text(w).len()) == count_text(w),
        w is Value ==> i + count_text(w).len() == s.len() || (!is_ascii_digit(
            s[i + count_text(w).len()],
        ) && s[i + count_text(w).len()] != '$'),
    ensures
        parse_count_at(s, i) == Ok::<(Option<CountV>, int), ParseErrorV>(
            (Some(w), i + count_text(w).len()),
        ),
{
    let m = i + count_text(w).len();
    match w {
        CountV::Value(n) => {
            lemma_reparse_argument(s, i, ArgumentV::Index(n));
        },
        CountV::Argument(a) => {
            lemma_concat_split(s, i, argument_text(a), seq!['$'], m);
            let ja = i + argument_text(a).len();
            assert(s.subrange(ja, m) == seq!['$']);
            assert(s[ja] == '$') by {
                assert(s.subrange(ja, m)[0] == s[ja]);
            }
            match a {
                ArgumentV::Next => {
                    assert(false);
                },
                ArgumentV::Index(n) => {
                    lemma_reparse_argument(s, i, a);
                },
                ArgumentV::Name(t) => {
                    lemma_reparse_argument(s, i, a);
                },
            }
        },
    }
}

/// Stages e to g of a colon section: the width, the precision and the type
/// suffix, with the directive's closing `}` just past them.
#[verifier::rlimit(100)]
proof fn lemma_reparse_spec_tail(s: Seq<char>, q4: int, sp: FormatSpecV)
    requires
        wf_format_spec(sp),
        0 <= q4,
        q4 + (opt_width_text(sp.width) + opt_precision_text(sp.precision) + type_suffix(
            sp.format_type,
        )).len() < s.len(),
        s.subrange(
            q4,
            q4 + (opt_width_text(sp.width) + opt_precision_text(sp.precision) + type_suffix(
                sp.format_type,
            )).len(),
        ) == opt_width_text(sp.width) + opt_precision_text(sp.precision) + type_suffix(
            sp.format_type,
        ),
        s[q4 + (opt_width_text(sp.width) + opt_precision_text(sp.precision) + type_suffix(
            sp.format_type,
        )).len()] == '}',
    ensures
        parse_count_at(s, q4) == Ok::<(Option<CountV>, int), ParseErrorV>(
            (sp.width, q4 + opt_width_text(sp.width).len()),
        ),
        parse_precision_at(s, q4 + opt_width_text(sp.width).len()) == Ok::<
            (Option<PrecisionV>, int),
            ParseErrorV,
        >((sp.precision, q4 + opt_width_text(sp.width).len() + opt_precision_text(
            sp.precision,
        ).len())),
        parse_type_at(
            s,
            q4 + opt_width_text(sp.width).len() + opt_precision_text(sp.precision).len(),
        ) == Ok::<(FormatType, int), ParseErrorV>(
            (sp.format_type, q4 + (opt_width_text(sp.width) + opt_precision_text(sp.precision)
                + type_suffix(sp.format_type)).len()),
        ),
{
    let t5 = opt_width_text(sp.width);
    let t6 = opt_precision_text(sp.precision);
    let t7 = type_suffix(sp.format_type);
    let endp = q4 + (t5 + t6 + t7).len();
    if let Some(w) = sp.width {
        lemma_count_chars(w);
    }
    if let Some(pr) = sp.precision {
        lemma_precision_chars(pr);
    }
    lemma_type_chars(sp.format_type);
    lemma_concat_split(s, q4, t5 + t6, t7, endp);
    let q6 = q4 + (t5 + t6).len();
    lemma_concat_split(s, q4, t5, t6, q6);
    let q5 = q4 + t5.len();
    assert(t5.len() > 0 ==> s[q4] == t5[0]) by {
        if t5.len() > 0 {
            assert(s.subrange(q4, q5)[0] == s[q4]);
        }
    }
    assert(t6.len() > 0 ==> s[q5] == t6[0]) by {
        if t6.len() > 0 {
            assert(s.subrange(q5, q6)[0] == s[q5]);
        }
    }
    assert(t7.len() > 0 ==> s[q6] == t7[0]) by {
        if t7.len() > 0 {
            assert(s.subrange(q6, endp)[0] == s[q6]);
        }
    }
    // Stage e: the width.
    assert(parse_count_at(s, q4) == Ok::<(Option<CountV>, int), ParseErrorV>((sp.width, q5))) by {
        match sp.width {
            Some(w) => {
                assert(s.subrange(q4, q5) == count_text(w));
                assert(q5 == s.len() || (!is_ascii_digit(s[q5]) && s[q5] != '$')) by {
                    if t6.len() > 0 {
                        assert(s[q5] == '.');
                    } else if t7.len() > 0 {
                        assert(s[q5] == '?' || is_name_start(s[q5]));
                    } else {
                        assert(q5 == endp);
                    }
                }
                lemma_reparse_count(s, q4, w);
            },
            None => {
                assert(q5 == q4);
                assert(s.subrange(q4, endp) =~= t6 + t7);
                lemma_reparse_none_count(s, q4, sp);
            },
        }
    }
    // Stage f: the precision.
    assert(parse_precision_at(s, q5) == Ok::<(Option<PrecisionV>, int), ParseErrorV>(
        (sp.precision, q6),
    )) by {
        match sp.precision {
            Some(pr) => {
                assert(s.subrange(q5, q6) == precision_text(pr));
                assert(s[q5] == '.');
                match pr {
                    PrecisionV::Star => {
                        assert(precision_text(pr) == seq!['.', '*']);
                        assert(s[q5 + 1] == s.subrange(q5, q6)[1]);
                        assert(s[q5 + 1] == '*');
                    },
                    PrecisionV::Count(cn) => {
                        assert(precision_text(pr) == seq!['.'] + count_text(cn));
                        lemma_concat_split(s, q5, seq!['.'], count_text(cn), q6);
                        lemma_count_chars(cn);
                        assert(s[q5 + 1] == s.subrange(q5 + 1, q6)[0]);
                        assert(s[q5 + 1] != '*');
                        assert(q6 == s.len() || (!is_ascii_digit(s[q6]) && s[q6] != '$')) by {
                            if t7.len() > 0 {
                                assert(s[q6] == '?' || is_name_start(s[q6]));
                            } else {
                                assert(q6 == endp);
                            }
                        }
                        lemma_reparse_count(s, q5 + 1, cn);
                    },
                }
            },
            None => {
                assert(q6 == q5);
                assert(q5 < s.len());
                assert(s[q5] != '.') by {
                    if t7.len() > 0 {
                        assert(s[q5] == '?' || is_name_start(s[q5]));
                    } else {
                        assert(q5 == endp);
                    }
                }
            },
        }
    }
    // Stage g: the type suffix.
    assert(parse_type_at(s, q6) == Ok::<(FormatType, int), ParseErrorV>(
        (sp.format_type, endp),
    )) by {
        assert forall|k: int| q6 <= k < endp implies (#[trigger] s[k]) != '}' by {
            assert(s.subrange(q6, endp)[k - q6] == s[k]);
            assert(tail_char(t7[k - q6]));
        }
        lemma_type_end_mid(s, q6, endp);
        lemma_type_end_stop(s, endp);
        assert(type_end(s, q6) == endp);
        assert(s.subrange(q6, endp) == t7);
        lemma_type_suffix_roundtrip(sp.format_type);
    }
}

/// Every character of a window that holds a colon section's tail is a
/// [`tail_char`].
proof fn lemma_tail_window_chars(s: Seq<char>, q1: int, sp: FormatSpecV, endp: int)
    requires
        wf_format_spec(sp),
        0 <= q1 <= endp <= s.len(),
        endp == q1 + spec_tail_text(sp).len(),
        s.subrange(q1, endp) == spec_tail_text(sp),
    ensures
        forall|k: int| q1 <= k < endp ==> tail_char(#[trigger] s[k]),
{
    lemma_spec_tail_chars(sp);
    assert forall|k: int| q1 <= k < endp implies tail_char(#[trigger] s[k]) by {
        assert(s.subrange(q1, endp)[k - q1] == s[k]);
        assert(tail_char(spec_tail_text(sp)[k - q1]));
    }
}

/// Stages b to d of a colon section: the sign, the alternate flag and the
/// zero flag, each claimed exactly when present.
#[verifier::rlimit(100)]
proof fn lemma_reparse_spec_flags(s: Seq<char>, q1: int, sp: FormatSpecV)
    requires
        wf_format_spec(sp),
        0 <= q1,
        q1 + spec_tail_text(sp).len() < s.len(),
        s.subrange(q1, q1 + spec_tail_text(sp).len()) == spec_tail_text(sp),
        s[q1 + spec_tail_text(sp).len()] == '}',
    ensures
        parse_sign_at(s, q1) == (sp.sign, q1 + opt_sign_text(sp.sign).len()),
        ({
            let q2 = q1 + opt_sign_text(sp.sign).len();
            let q3 = q2 + flag_text(sp.alter, '#').len();
            let q4 = q3 + flag_text(sp.zero, '0').len();
            let endp = q1 + spec_tail_text(sp).len();
            &&& (if q2 < s.len() && s[q2] == '#' {
                (true, q2 + 1)
            } else {
                (false, q2)
            }) == (sp.alter, q3)
            &&& (if q3 < s.len() && s[q3] == '0' {
                (true, q3 + 1)
            } else {
                (false, q3)
            }) == (sp.zero, q4)
            &&& endp == q4 + (opt_width_text(sp.width) + opt_precision_text(sp.precision)
                + type_suffix(sp.format_type)).len()
            &&& s.subrange(q4, endp) == opt_width_text(sp.width) + opt_precision_text(sp.precision)
                + type_suffix(sp.format_type)
        }),
{
    let t2 = opt_sign_text(sp.sign);
    let t3 = flag_text(sp.alter, '#');
    let t4 = flag_text(sp.zero, '0');
    let t5 = opt_width_text(sp.width);
    let t6 = opt_precision_text(sp.precision);
    let t7 = type_suffix(sp.format_type);
    let endp = q1 + spec_tail_text(sp).len();
    if let Some(w) = sp.width {
        lemma_count_chars(w);
    }
    if let Some(pr) = sp.precision {
        lemma_precision_chars(pr);
    }
    lemma_type_chars(sp.format_type);
    assert(spec_tail_text(sp) == t2 + t3 + t4 + t5 + t6 + t7);
    assert(t2 + t3 + t4 + t5 + t6 + t7 =~= (t2 + t3 + t4) + (t5 + t6 + t7));
    lemma_concat_split(s, q1, t2 + t3 + t4, t5 + t6 + t7, endp);
    let q4 = q1 + (t2 + t3 + t4).len();
    lemma_concat_split(s, q1, t2 + t3, t4, q4);
    let q3 = q1 + (t2 + t3).len();
    lemma_concat_split(s, q1, t2, t3, q3);
    let q2 = q1 + t2.len();
    assert(t2.len() > 0 ==> s[q1] == t2[0]) by {
        if t2.len() > 0 {
            assert(s.subrange(q1, q2)[0] == s[q1]);
        }
    }
    assert(t3.len() > 0 ==> s[q2] == t3[0]) by {
        if t3.len() > 0 {
            assert(s.subrange(q2, q3)[0] == s[q2]);
        }
    }
    assert(t4.len() > 0 ==> s[q3] == t4[0]) by {
        if t4.len() > 0 {
            assert(s.subrange(q3, q4)[0] == s[q3]);
        }
    }
    assert(t5.len() > 0 ==> s[q4] == t5[0]) by {
        if t5.len() > 0 {
            assert(s.subrange(q4, endp)[0] == s[q4]);
            assert((t5 + t6 + t7)[0] == t5[0]);
        }
    }
    assert(t5.len() == 0 && t6.len() > 0 ==> s[q4] == t6[0]) by {
        if t5.len() == 0 && t6.len() > 0 {
            assert(s.subrange(q4, endp)[0] == s[q4]);
            assert((t5 + t6 + t7)[0] == t6[0]);
        }
    }
    assert(t5.len() == 0 && t6.len() == 0 && t7.len() > 0 ==> s[q4] == t7[0]) by {
        if t5.len() == 0 && t6.len() == 0 && t7.len() > 0 {
            assert(s.subrange(q4, endp)[0] == s[q4]);
            assert((t5 + t6 + t7)[0] == t7[0]);
        }
    }
    // Stage b: sign.
    assert(parse_sign_at(s, q1) == (sp.sign, q2)) by {
        match sp.sign {
            Some(sg) => {
                assert(t2 == seq![sign_char(sg)]);
                assert(s[q1] == sign_char(sg));
            },
            None => {
                assert(q2 == q1);
                assert(s[q1] != '+' && s[q1] != '-') by {
                    if t3.len() > 0 {
                        assert(s[q1] == '#');
                    } else if t4.len() > 0 {
                        assert(s[q1] == '0');
                    } else if t5.len() > 0 {
                        assert(is_ascii_digit(s[q1]) || is_name_start(s[q1]));
                    } else if t6.len() > 0 {
                        assert(s[q1] == '.');
                    } else if t7.len() > 0 {
                        assert(s[q1] == '?' || is_name_start(s[q1]));
                    } else {
                        assert(q1 == endp);
                    }
                }
            },
        }
    }
    // Stage c: the alternate flag.
    assert((if q2 < s.len() && s[q2] == '#' {
        (true, q2 + 1)
    } else {
        (false, q2)
    }) == (sp.alter, q3)) by {
        if sp.alter {
            assert(s[q2] == '#');
        } else {
            assert(q3 == q2);
            assert(s[q2] != '#') by {
                if t4.len() > 0 {
                    assert(s[q2] == '0');
                } else if t5.len() > 0 {
                    assert(is_ascii_digit(s[q2]) || is_name_start(s[q2]));
                } else if t6.len() > 0 {
                    assert(s[q2] == '.');
                } else if t7.len() > 0 {
                    assert(s[q2] == '?' || is_name_start(s[q2]));
                } else {
                    assert(q2 == endp);
                }
            }
        }
    }
    // Stage d: the zero flag.
    assert((if q3 < s.len() && s[q3] == '0' {
        (true, q3 + 1)
    } else {
        (false, q3)
    }) == (sp.zero, q4)) by {
        if sp.zero {
            assert(s[q3] == '0');
        } else {
            assert(q4 == q3);
            assert(s[q3] != '0') by {
                if t5.len() > 0 {
                    assert(s[q3] == t5[0]);
                    assert(t5[0] != '0');
                } else if t6.len() > 0 {
                    assert(s[q3] == '.');
                } else if t7.len() > 0 {
                    assert(s[q3] == '?' || is_name_start(s[q3]));
                } else {
                    assert(q3 == endp);
                }
            }
        }
    }
}

/// Parsing at the rendered text of a colon section, with the directive's
/// closing `}` just past it, recovers the section.
#[verifier::rlimit(100)]
proof fn lemma_reparse_format_spec(s: Seq<char>, i: int, sp: FormatSpecV)
    requires
        wf_format_spec(sp),
        0 <= i,
        i + format_spec_text(sp).len() < s.len(),
        s.subrange(i, i + format_spec_text(sp).len()) == format_spec_text(sp),
        s[i + format_spec_text(sp).len()] == '}',
        spec_is_empty(sp) ==> !(i + 1 < s.len() && is_align_char(s[i + 1])),
    ensures
        parse_format_spec_at(s, i) == Ok::<(FormatSpecV, int), ParseErrorV>(
            (sp, i + format_spec_text(sp).len()),
        ),
{
    let endp = i + format_spec_text(sp).len();
    let p1 = opt_fill_align_text(sp.fill_align);
    let t2 = opt_sign_text(sp.sign);
    let t3 = flag_text(sp.alter, '#');
    let t4 = flag_text(sp.zero, '0');
    let t5 = opt_width_text(sp.width);
    let t6 = opt_precision_text(sp.precision);
    let t7 = type_suffix(sp.format_type);
    if let Some(w) = sp.width {
        lemma_count_chars(w);
    }
    if let Some(pr) = sp.precision {
        lemma_precision_chars(pr);
    }
    lemma_type_chars(sp.format_type);
    lemma_concat_split(s, i, p1, spec_tail_text(sp), endp);
    let q1 = i + p1.len();
    lemma_tail_window_chars(s, q1, sp, endp);
    // Stage a: fill and align.
    assert(parse_fill_align_at(s, i) == (sp.fill_align, q1)) by {
        match sp.fill_align {
            Some(fa) => {
                lemma_align_char_of(fa.align);
                match fa.fill {
                    Some(f) => {
                        assert(p1 == seq![f, align_char(fa.align)]);
                        assert(s.subrange(i, q1)[0] == s[i]);
                        assert(s.subrange(i, q1)[1] == s[i + 1]);
                        assert(s[i] == f && s[i + 1] == align_char(fa.align));
                    },
                    None => {
                        assert(p1 == seq![align_char(fa.align)]);
                        assert(s.subrange(i, q1)[0] == s[i]);
                        assert(s[i] == align_char(fa.align));
                        assert(i + 1 < s.len() ==> !is_align_char(s[i + 1])) by {
                            if q1 < endp {
                                assert(tail_char(s[q1]));
                            } else {
                                assert(q1 == endp);
                            }
                        }
                    },
                }
            },
            None => {
                assert(p1.len() == 0 && q1 == i);
                assert(i < s.len() ==> !is_align_char(s[i])) by {
                    if i < endp {
                        assert(tail_char(s[i]));
                    } else {
                        assert(i == endp);
                    }
                }
                assert(i + 1 < s.len() ==> !is_align_char(s[i + 1])) by {
                    if i + 1 < endp {
                        assert(tail_char(s[i + 1]));
                    } else if i + 1 == endp {
                    } else {
                        assert(i == endp);
                        assert(t2.len() == 0 && t3.len() == 0 && t4.len() == 0 && t5.len() == 0
                            && t6.len() == 0 && t7.len() == 0);
                        assert(spec_is_empty(sp));
                    }
                }
            },
        }
    }
    // Stages b to d.
    lemma_reparse_spec_flags(s, q1, sp);
    let q4 = q1 + t2.len() + t3.len() + t4.len();
    // Stages e to g.
    lemma_reparse_spec_tail(s, q4, sp);
}

/// A missing width consumes nothing: what follows — a precision, a type
/// suffix, or the closing `}` — never begins a count.
proof fn lemma_reparse_none_count(s: Seq<char>, q: int, sp: FormatSpecV)
    requires
        wf_format_spec(sp),
        sp.width is None,
        0 <= q < s.len(),
        q + (opt_precision_text(sp.precision) + type_suffix(sp.format_type)).len() < s.len(),
        s.subrange(q, q + (opt_precision_text(sp.precision) + type_suffix(sp.format_type)).len())
            == opt_precision_text(sp.precision) + type_suffix(sp.format_type),
        s[q + (opt_precision_text(sp.precision) + type_suffix(sp.format_type)).len()] == '}',
    ensures
        parse_count_at(s, q) == Ok::<(Option<CountV>, int), ParseErrorV>((None, q)),
{
    let t6 = opt_precision_text(sp.precision);
    let t7 = type_suffix(sp.format_type);
    let endp = q + (t6 + t7).len();
    lemma_concat_split(s, q, t6, t7, endp);
    if let Some(pr) = sp.precision {
        lemma_precision_chars(pr);
    }
    lemma_type_chars(sp.format_type);
    if t6.len() > 0 {
        assert(s[q] == s.subrange(q, q + t6.len())[0]);
        assert(s[q] == '.');
        assert(!is_ascii_digit(s[q]) && !is_name_start(s[q]));
    } else if t7.len() > 0 {
        assert(s[q] == s.subrange(q, endp)[0]);
        assert(s[q] == '?' || is_name_start(s[q]));
        if s[q] == '?' {
            assert(!is_ascii_digit(s[q]) && !is_name_start(s[q]));
        } else {
            // A letter: the name run is exactly this one character, and no
            // `$` follows it.
            assert(q + 1 <= s.len());
            assert(s[q + 1] != '$' && !is_name_char(s[q + 1])) by {
                if t7.len() >= 2 {
                    assert(s[q + 1] == s.subrange(q, endp)[1]);
                    assert(s[q + 1] == '?' || is_name_start(s[q + 1]));
                    assert(type_suffix(sp.format_type)[1] == '?');
                } else {
                    assert(q + 1 == endp);
                }
            }
            lemma_name_end_step(s, q);
            lemma_name_end_stop(s, q + 1);
            assert(name_end(s, q) == q + 1);
        }
    } else {
        assert(q == endp);
        assert(s[q] == '}');
        assert(!is_ascii_digit(s[q]) && !is_name_start(s[q]));
    }
}

/// Parsing at the rendered text of one directive recovers the directive.
#[verifier::rlimit(100)]
proof fn lemma_reparse_format(s: Seq<char>, i: int, f: FormatV)
    requires
        wf_format(f),
        0 <= i,
        i + format_text(f).len() <= s.len(),
        s.subrange(i, i + format_text(f).len()) == format_text(f),
        (f.format_spec matches Some(sp) && spec_is_empty(sp)) ==> (i + format_text(f).len()
            == s.len() || !is_align_char(s[i + format_text(f).len()])),
    ensures
        parse_format_at(s, i) == Ok::<(FormatV, int), ParseErrorV>((f, i + format_text(f).len())),
{
    let m = i + format_text(f).len();
    let at = argument_text(f.arg);
    let opt = match f.format_spec {
        Some(sp) => seq![':'] + format_spec_text(sp),
        None => Seq::<char>::empty(),
    };
    assert(format_text(f) == seq!['{'] + at + opt + seq!['}']);
    lemma_concat_split(s, i, seq!['{'] + at + opt, seq!['}'], m);
    lemma_concat_split(s, i, seq!['{'] + at, opt, m - 1);
    lemma_concat_split(s, i, seq!['{'], at, i + 1 + at.len());
    let ja = i + 1 + at.len();
    assert(s[i] == '{') by {
        assert(s.subrange(i, i + 1)[0] == s[i]);
    }
    assert(s[m - 1] == '}') by {
        assert(s.subrange(m - 1, m)[0] == s[m - 1]);
    }
    assert(s.subrange(i + 1, ja) == at);
    // The character right after the argument: `:` with a colon section,
    // else the closing brace.
    let after_arg = if f.format_spec is Some {
        ':'
    } else {
        '}'
    };
    assert(s[ja] == after_arg) by {
        match f.format_spec {
            Some(sp) => {
                assert(s.subrange(ja, m - 1) == opt);
                assert(s.subrange(ja, m - 1)[0] == s[ja]);
                assert(opt[0] == ':');
            },
            None => {
                assert(opt.len() == 0);
                assert(ja == m - 1);
            },
        }
    }
    assert(parse_argument_at(s, i + 1) == Ok::<(ArgumentV, int), ParseErrorV>((f.arg, ja))) by {
        lemma_reparse_argument(s, i + 1, f.arg);
    }
    match f.format_spec {
        Some(sp) => {
            lemma_concat_split(s, ja, seq![':'], format_spec_text(sp), m - 1);
            assert(s.subrange(ja + 1, m - 1) == format_spec_text(sp));
            assert(spec_is_empty(sp) ==> !(ja + 2 < s.len() && is_align_char(s[ja + 2]))) by {
                if spec_is_empty(sp) {
                    assert(format_spec_text(sp).len() == 0);
                    assert(ja + 2 == m);
                }
            }
            lemma_reparse_format_spec(s, ja + 1, sp);
            assert(parse_format_spec_at(s, ja + 1) == Ok::<(FormatSpecV, int), ParseErrorV>(
                (sp, m - 1),
            ));
        },
        None => {},
    }
}

/// Parsing the rendered text of a well-formed item sequence, from the start
/// of the window to the end of the input, recovers the sequence.
#[verifier::rlimit(100)]
proof fn lemma_reparse_items(s: Seq<char>, i: int, items: Seq<ItemV>)
    requires
        wf_items(items),
        0 <= i,
        i + items_text(items).len() == s.len(),
        s.subrange(i, s.len() as int) == items_text(items),
    ensures
        parse_items_at(s, i) == Ok::<Seq<ItemV>, ParseErrorV>(items),
    decreases items.len(),
{
    if items.len() == 0 {
        assert(i == s.len());
        assert(items =~= Seq::<ItemV>::empty());
    } else {
        let it = items[0];
        let rest = items.drop_first();
        assert(items_text(items) == item_text(it) + items_text(rest));
        lemma_concat_split(s, i, item_text(it), items_text(rest), s.len() as int);
        let m = i + item_text(it).len();
        assert(s.subrange(i, m) == item_text(it));
        assert(s.subrange(m, s.len() as int) == items_text(rest));
        lemma_wf_items_drop_first(items);
        assert(wf_item(it));
        assert(seq![it] + rest =~= items);
        // The first character of what follows this item, if anything does.
        assert(m < s.len() ==> (rest.len() > 0 && s[m] == item_text(rest[0])[0]
            && item_text(rest[0]).len() > 0)) by {
            if m < s.len() {
                assert(items_text(rest).len() > 0);
                if rest.len() == 0 {
                    assert(items_text(rest).len() == 0);
                }
                assert(items_text(rest) == item_text(rest[0]) + items_text(rest.drop_first()));
                assert(items_text(rest)[0] == item_text(rest[0])[0]) by {
                    if item_text(rest[0]).len() == 0 {
                        assert(items_text(rest) == items_text(rest.drop_first()));
                    }
                    assert(item_text(rest[0]).len() > 0 ==> (item_text(rest[0]) + items_text(
                        rest.drop_first(),
                    ))[0] == item_text(rest[0])[0]);
                    assert(item_text(rest[0]).len() > 0) by {
                        lemma_item_text_nonempty(rest[0]);
                    }
                }
                assert(s.subrange(m, s.len() as int)[0] == s[m]);
            }
        }
        match it {
            ItemV::Text(t) => {
                assert(t.len() >= 1);
                assert(s[i] == t[0]) by {
                    assert(s.subrange(i, m)[0] == s[i]);
                }
                assert(s[i] != '{' && s[i] != '}');
                assert forall|k: int| i <= k < m implies (#[trigger] s[k]) != '{' && s[k] != '}' by {
                    assert(s.subrange(i, m)[k - i] == s[k]);
                }
                lemma_text_end_mid(s, i, m);
                assert(m == s.len() || s[m] == '{' || s[m] == '}') by {
                    if m < s.len() {
                        if rest[0] is Text {
                            assert(!(it is Text && rest[0] is Text));
                            assert(false);
                        }
                        match rest[0] {
                            ItemV::Text(_) => {},
                            ItemV::Escape(c) => {
                                assert(item_text(rest[0])[0] == c);
                            },
                            ItemV::Format(g) => {
                                assert(item_text(rest[0]) == format_text(g));
                                assert(format_text(g)[0] == '{');
                            },
                        }
                    }
                }
                lemma_text_end_stop(s, m);
                assert(text_end(s, i) == m);
                assert(s.subrange(i, text_end(s, i)) == t);
                lemma_reparse_items(s, m, rest);
            },
            ItemV::Escape(c) => {
                assert(item_text(it) == seq![c, c]);
                assert(s[i] == c) by {
                    assert(s.subrange(i, m)[0] == s[i]);
                }
                assert(s[i + 1] == c) by {
                    assert(s.subrange(i, m)[1] == s[i + 1]);
                }
                assert(c == '{' || c == '}');
                lemma_reparse_items(s, i + 2, rest);
            },
            ItemV::Format(f) => {
                assert(item_text(it) == format_text(f));
                assert(s[i] == '{') by {
                    assert(s.subrange(i, m)[0] == s[i]);
                }
                // No doubled brace: the directive's second character is its
                // argument, a colon, or its closing brace.
                assert(s[i + 1] != '{') by {
                    assert(s.subrange(i, m)[1] == s[i + 1]);
                    lemma_format_second_char(f);
                }
                assert((f.format_spec matches Some(sp) && spec_is_empty(sp)) ==> (m == s.len()
                    || !is_align_char(s[m]))) by {
                    if m < s.len() && f.format_spec is Some && spec_is_empty(f.format_spec->0) {
                        match rest[0] {
                            ItemV::Text(t0) => {
                                assert(!(is_empty_spec_format(it) && starts_with_align(rest[0])));
                                assert(s[m] == t0[0]);
                                assert(!is_align_char(t0[0]));
                            },
                            ItemV::Escape(c) => {
                                assert(s[m] == c);
                            },
                            ItemV::Format(g) => {
                                assert(item_text(rest[0]) == format_text(g));
                                assert(format_text(g)[0] == '{');
                                assert(s[m] == '{');
                            },
                        }
                    }
                }
                lemma_reparse_format(s, i, f);
                lemma_reparse_items(s, m, rest);
            },
        }
    }
}

/// No item renders as nothing: literal runs are non-empty, escapes are two
/// characters, directives carry their braces.
proof fn lemma_item_text_nonempty(it: ItemV)
    requires
        wf_item(it),
    ensures
        item_text(it).len() >= 1,
        it matches ItemV::Format(f) ==> item_text(it)[0] == '{',
        it matches ItemV::Escape(c) ==> item_text(it)[0] == c,
        it matches ItemV::Text(t) ==> item_text(it)[0] == t[0],
{
    if let ItemV::Format(f) = it {
        assert(format_text(f)[0] == '{');
    }
}

/// A directive's second rendered character is never an opening brace.
proof fn lemma_format_second_char(f: FormatV)
    requires
        wf_format(f),
    ensures
        format_text(f).len() >= 2,
        format_text(f)[1] != '{',
{
    let at = argument_text(f.arg);
    let opt = match f.format_spec {
        Some(sp) => seq![':'] + format_spec_text(sp),
        None => Seq::<char>::empty(),
    };
    assert(format_text(f) == seq!['{'] + at + opt + seq!['}']);
    if at.len() > 0 {
        assert(format_text(f)[1] == at[0]);
        match f.arg {
            ArgumentV::Next => {
                assert(false);
            },
            ArgumentV::Index(n) => {
                lemma_dec_text_chars(n);
                assert(at[0] == dec_text(n)[0]);
            },
            ArgumentV::Name(t) => {
                assert(at[0] == t[0]);
                assert(is_name_start(t[0]));
            },
        }
    } else {
        if opt.len() > 0 {
            assert(format_text(f)[1] == opt[0]);
            assert(opt[0] == ':');
        } else {
            assert(format_text(f)[1] == '}');
        }
    }
}

/// The round trip, serializer first: rendering a well-formed template and
/// parsing the rendered text gives back exactly that template. Every value
/// the parser itself produces is well-formed in this sense, so the law covers
/// every canonical template text.
pub proof fn lemma_render_parse(items: Seq<ItemV>)
    requires
        wf_items(items),
    ensures
        parse_text(items_text(items)) == Ok::<Seq<ItemV>, ParseErrorV>(items),
{
    let s = items_text(items);
    assert(s.subrange(0, s.len() as int) =~= s);
    lemma_reparse_items(s, 0, items);
}

/// The round trip, parser first: for every accepted input, the parsed value
/// is well-formed and its rendering parses back to the same value. On inputs
/// that are themselves a rendering — every input without a redundant leading
/// zero in an index or count — rendering the parse reproduces the input
/// exactly; [`lemma_round_trip`] states that form.
pub proof fn lemma_parse_render_parse(s: Seq<char>, items: Seq<ItemV>)
    requires
        parse_text(s) == Ok::<Seq<ItemV>, ParseErrorV>(items),
    ensures
        wf_items(items),
        parse_text(items_text(items)) == Ok::<Seq<ItemV>, ParseErrorV>(items),
{
    crate::parse_wf::lemma_parse_wf(s, items);
    lemma_render_parse(items);
}

/// Rendering after parsing reproduces the input exactly, for every
/// syntactically valid input in canonical form — that is, every input that
/// is itself the rendering of a well-formed template. An accepted input
/// outside that range differs from its re-rendering only by redundant
/// leading zeros in an index or count.
pub proof fn lemma_round_trip(s: Seq<char>, items: Seq<ItemV>)
    requires
        wf_items(items),
        s == items_text(items),
    ensures
        parse_text(s) matches Ok(parsed) && items_text(parsed) == s,
{
    lemma_render_parse(items);
}

} // verus!
