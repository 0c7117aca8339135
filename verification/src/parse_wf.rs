//! Every value the grammar accepts is well-formed: names are
//! identifier-shaped, indexes fit the machine, literal runs are maximal and
//! brace-free, and the two seam conditions of [`crate::model::wf_items`]
//! hold. This is what lets a parsed template be rendered and re-parsed.

use vstd::prelude::*;

use crate::chars::is_align_char;
use crate::chars::is_ascii_digit;
use crate::chars::is_name_char;
use crate::chars::lemma_digits_val_nonneg;
use crate::chars::lemma_digits_val_pos;
use crate::grammar::digits_end;
use crate::grammar::lemma_digits_end;
use crate::grammar::lemma_name_end;
use crate::grammar::lemma_name_end_step;
use crate::grammar::lemma_parse_argument_at_pos;
use crate::grammar::lemma_parse_count_at_pos;
use crate::grammar::lemma_parse_format_at_pos;
use crate::grammar::lemma_parse_format_spec_at_pos;
use crate::grammar::lemma_text_end;
use crate::grammar::lemma_text_end_step;
use crate::grammar::name_end;
use crate::grammar::parse_argument_at;
use crate::grammar::parse_count_at;
use crate::grammar::parse_fill_align_at;
use crate::grammar::parse_format_at;
use crate::grammar::parse_format_spec_at;
use crate::grammar::parse_items_at;
use crate::grammar::parse_precision_at;
use crate::grammar::parse_sign_at;
use crate::grammar::parse_text;
use crate::grammar::parse_type_at;
use crate::grammar::text_end;
use crate::model::is_empty_spec_format;
use crate::model::lemma_wf_items_cons;
use crate::model::spec_is_empty;
use crate::model::starts_with_align;
use crate::model::wf_argument;
use crate::model::wf_count;
use crate::model::wf_format;
use crate::model::wf_format_spec;
use crate::model::wf_item;
use crate::model::wf_items;
use crate::model::wf_name;
use crate::model::width_starts_zero;
use crate::model::ItemV;

verus! {

pub proof fn lemma_parse_argument_at_wf(s: Seq<char>, i: int)
    requires
        0 <= i <= s.len(),
    ensures
        parse_argument_at(s, i) matches Ok((a, j)) ==> wf_argument(a),
{
    if i < s.len() && is_ascii_digit(s[i]) {
        lemma_digits_end(s, i);
        let j = digits_end(s, i);
        let run = s.subrange(i, j);
        assert(forall|k: int| 0 <= k < run.len() ==> is_ascii_digit(#[trigger] run[k]));
        lemma_digits_val_nonneg(run);
    } else if i < s.len() && crate::chars::is_name_start(s[i]) {
        lemma_name_end(s, i);
        lemma_name_end_step(s, i);
        lemma_name_end(s, i + 1);
        let j = name_end(s, i);
        let run = s.subrange(i, j);
        assert(j >= i + 1);
        assert(run[0] == s[i]);
        assert(forall|k: int| 0 <= k < run.len() ==> is_name_char(#[trigger] run[k]));
        assert(wf_name(run));
    }
}

pub proof fn lemma_parse_count_at_wf(s: Seq<char>, i: int)
    requires
        0 <= i <= s.len(),
    ensures
        parse_count_at(s, i) matches Ok((Some(w), j)) ==> wf_count(w),
        (i < s.len() ==> s[i] != '0') ==> (parse_count_at(s, i) matches Ok((Some(w), j))
            ==> !width_starts_zero(Some(w))),
{
    lemma_parse_argument_at_wf(s, i);
    if i < s.len() && is_ascii_digit(s[i]) && s[i] != '0' {
        lemma_digits_end(s, i);
        let j = digits_end(s, i);
        let run = s.subrange(i, j);
        assert(run.len() >= 1);
        assert(run[0] == s[i]);
        assert(forall|k: int| 0 <= k < run.len() ==> is_ascii_digit(#[trigger] run[k]));
        lemma_digits_val_pos(run);
    }
}

/// A rendering type other than `Display` always has a non-empty suffix, so
/// `Display` means the type stage consumed nothing.
pub proof fn lemma_display_suffix_empty(s: Seq<char>, i: int)
    requires
        0 <= i <= s.len(),
    ensures
        parse_type_at(s, i) matches Ok((ft, j)) ==> (ft is Display ==> j == i),
{
    crate::grammar::lemma_type_end(s, i);
}

pub proof fn lemma_parse_format_spec_at_wf(s: Seq<char>, i: int)
    requires
        0 <= i <= s.len(),
    ensures
        parse_format_spec_at(s, i) matches Ok((sp, k)) ==> wf_format_spec(sp) && (spec_is_empty(sp)
            ==> k == i && !(i + 1 < s.len() && is_align_char(s[i + 1]))),
{
    let (fa, i1) = parse_fill_align_at(s, i);
    let (sg, i2) = parse_sign_at(s, i1);
    let i3 = if i2 < s.len() && s[i2] == '#' {
        i2 + 1
    } else {
        i2
    };
    let i4 = if i3 < s.len() && s[i3] == '0' {
        i3 + 1
    } else {
        i3
    };
    lemma_parse_argument_at_pos(s, i);
    lemma_parse_count_at_pos(s, i4);
    lemma_parse_count_at_wf(s, i4);
    if let Ok((w, i5)) = parse_count_at(s, i4) {
        if i5 < s.len() && s[i5] == '.' {
            lemma_parse_count_at_pos(s, i5 + 1);
            lemma_parse_count_at_wf(s, i5 + 1);
        }
        if let Ok((p, i6)) = parse_precision_at(s, i5) {
            crate::grammar::lemma_type_end(s, i6);
            lemma_display_suffix_empty(s, i6);
        }
    }
}

pub proof fn lemma_parse_format_at_wf(s: Seq<char>, i: int)
    requires
        0 <= i < s.len(),
    ensures
        parse_format_at(s, i) matches Ok((f, j)) ==> wf_format(f) && i + 1 < j <= s.len() && ((
        f.format_spec matches Some(sp) && spec_is_empty(sp)) ==> (j < s.len()
            ==> !is_align_char(s[j]))),
{
    lemma_parse_format_at_pos(s, i);
    lemma_parse_argument_at_pos(s, i + 1);
    lemma_parse_argument_at_wf(s, i + 1);
    if let Ok((arg, ja)) = parse_argument_at(s, i + 1) {
        if ja < s.len() && s[ja] == ':' {
            lemma_parse_format_spec_at_pos(s, ja + 1);
            lemma_parse_format_spec_at_wf(s, ja + 1);
        }
    }
}

pub proof fn lemma_parse_items_at_wf(s: Seq<char>, i: int)
    requires
        0 <= i <= s.len(),
    ensures
        parse_items_at(s, i) matches Ok(items) ==> wf_items(items),
        parse_items_at(s, i) matches Ok(items) ==> (items.len() > 0 ==> (items[0]
            matches ItemV::Text(t) ==> i < s.len() && t.len() >= 1 && t[0] == s[i] && s[i] != '{'
            && s[i] != '}')),
    decreases s.len() - i,
{
    if i == s.len() {
    } else if s[i] == '{' {
        if i + 1 < s.len() && s[i + 1] == '{' {
            lemma_parse_items_at_wf(s, i + 2);
            if let Ok(rest) = parse_items_at(s, i + 2) {
                lemma_wf_items_cons(ItemV::Escape('{'), rest);
                assert((seq![ItemV::Escape('{')] + rest)[0] == ItemV::Escape('{'));
            }
        } else {
            lemma_parse_format_at_wf(s, i);
            if let Ok((f, j)) = parse_format_at(s, i) {
                lemma_parse_items_at_wf(s, j);
                if let Ok(rest) = parse_items_at(s, j) {
                    if rest.len() > 0 && is_empty_spec_format(ItemV::Format(f))
                        && starts_with_align(rest[0]) {
                        assert(rest[0] matches ItemV::Text(t) && t[0] == s[j]);
                        assert(!is_align_char(s[j]));
                        assert(false);
                    }
                    lemma_wf_items_cons(ItemV::Format(f), rest);
                    assert((seq![ItemV::Format(f)] + rest)[0] == ItemV::Format(f));
                }
            }
        }
    } else if s[i] == '}' {
        if i + 1 < s.len() && s[i + 1] == '}' {
            lemma_parse_items_at_wf(s, i + 2);
            if let Ok(rest) = parse_items_at(s, i + 2) {
                lemma_wf_items_cons(ItemV::Escape('}'), rest);
                assert((seq![ItemV::Escape('}')] + rest)[0] == ItemV::Escape('}'));
            }
        }
    } else {
        lemma_text_end(s, i);
        lemma_text_end_step(s, i);
        lemma_text_end(s, i + 1);
        let j = text_end(s, i);
        assert(j > i);
        lemma_parse_items_at_wf(s, j);
        let t = s.subrange(i, j);
        assert(t.len() >= 1);
        assert(t[0] == s[i]);
        assert(forall|k: int| 0 <= k < t.len() ==> (#[trigger] t[k]) != '{' && t[k] != '}');
        assert(wf_item(ItemV::Text(t)));
        if let Ok(rest) = parse_items_at(s, j) {
            if rest.len() > 0 && rest[0] is Text {
                assert(j < s.len() && s[j] != '{' && s[j] != '}');
                assert(false);
            }
            lemma_wf_items_cons(ItemV::Text(t), rest);
            assert((seq![ItemV::Text(t)] + rest)[0] == ItemV::Text(t));
        }
    }
}

/// What the parser accepts, it accepts in well-formed shape.
pub proof fn lemma_parse_wf(s: Seq<char>, items: Seq<ItemV>)
    requires
        parse_text(s) == Ok::<Seq<ItemV>, crate::model::ParseErrorV>(items),
    ensures
        wf_items(items),
{
    lemma_parse_items_at_wf(s, 0);
}

} // verus!
