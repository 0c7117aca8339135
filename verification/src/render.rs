//! The serializer: the canonical text of every grammar value, as a
//! specification over sequences of characters, and verified code that renders
//! a parsed template back into a `String`.

use vstd::prelude::*;

use crate::chars::dec_text;
use crate::chars::digit_char;
use crate::model::Align;
use crate::model::Argument;
use crate::model::ArgumentV;
use crate::model::Count;
use crate::model::CountV;
use crate::model::FillAlign;
use crate::model::Format;
use crate::model::FormatSpec;
use crate::model::FormatSpecV;
use crate::model::FormatString;
use crate::model::FormatStringItem;
use crate::model::FormatType;
use crate::model::FormatV;
use crate::model::ItemV;
use crate::model::Precision;
use crate::model::PrecisionV;
use crate::model::Sign;

verus! {

/// The character written for an alignment.
pub open spec fn align_char(al: Align) -> char {
    match al {
        Align::Left => '<',
        Align::Center => '^',
        Align::Right => '>',
    }
}

/// The character written for a sign flag.
pub open spec fn sign_char(sg: Sign) -> char {
    match sg {
        Sign::Plus => '+',
        Sign::Minus => '-',
    }
}

/// The text of an argument reference: nothing, a decimal index, or a name.
pub open spec fn argument_text(a: ArgumentV) -> Seq<char> {
    match a {
        ArgumentV::Next => Seq::empty(),
        ArgumentV::Index(n) => dec_text(n),
        ArgumentV::Name(t) => t,
    }
}

/// The text of a fill-and-align pair: the fill character, if any, precedes
/// the alignment character.
pub open spec fn fill_align_text(fa: FillAlign) -> Seq<char> {
    match fa.fill {
        Some(c) => seq![c, align_char(fa.align)],
        None => seq![align_char(fa.align)],
    }
}

/// The text of a count: a literal value in decimal, or an indirect argument
/// followed by `$`.
pub open spec fn count_text(c: CountV) -> Seq<char> {
    match c {
        CountV::Argument(a) => argument_text(a) + seq!['$'],
        CountV::Value(n) => dec_text(n),
    }
}

/// The text of a precision sub-field, always introduced by `.`.
pub open spec fn precision_text(p: PrecisionV) -> Seq<char> {
    match p {
        PrecisionV::Count(c) => seq!['.'] + count_text(c),
        PrecisionV::Star => seq!['.', '*'],
    }
}

/// The suffix written for a rendering type; `Display` is the empty suffix.
pub open spec fn type_suffix(ft: FormatType) -> Seq<char> {
    match ft {
        FormatType::Display => Seq::empty(),
        FormatType::Debug => seq!['?'],
        FormatType::DebugLowerHex => seq!['x', '?'],
        FormatType::DebugUpperHex => seq!['X', '?'],
        FormatType::Octal => seq!['o'],
        FormatType::LowerHex => seq!['x'],
        FormatType::UpperHex => seq!['X'],
        FormatType::Pointer => seq!['p'],
        FormatType::Binary => seq!['b'],
        FormatType::LowerExp => seq!['e'],
        FormatType::UpperExp => seq!['E'],
    }
}

/// The text of an optional fill-and-align pair; nothing when absent.
pub open spec fn opt_fill_align_text(o: Option<FillAlign>) -> Seq<char> {
    match o {
        Some(fa) => fill_align_text(fa),
        None => Seq::empty(),
    }
}

/// The text of an optional sign flag; nothing when absent.
pub open spec fn opt_sign_text(o: Option<Sign>) -> Seq<char> {
    match o {
        Some(sg) => seq![sign_char(sg)],
        None => Seq::empty(),
    }
}

/// One flag character when the flag is set; nothing otherwise.
pub open spec fn flag_text(b: bool, c: char) -> Seq<char> {
    if b {
        seq![c]
    } else {
        Seq::empty()
    }
}

/// The text of an optional width count; nothing when absent.
pub open spec fn opt_width_text(o: Option<CountV>) -> Seq<char> {
    match o {
        Some(c) => count_text(c),
        None => Seq::empty(),
    }
}

/// The text of an optional precision; nothing when absent.
pub open spec fn opt_precision_text(o: Option<PrecisionV>) -> Seq<char> {
    match o {
        Some(p) => precision_text(p),
        None => Seq::empty(),
    }
}

/// The text of a colon section past its fill-and-align stage.
pub open spec fn spec_tail_text(sp: FormatSpecV) -> Seq<char> {
    opt_sign_text(sp.sign) + flag_text(sp.alter, '#') + flag_text(sp.zero, '0') + opt_width_text(
        sp.width,
    ) + opt_precision_text(sp.precision) + type_suffix(sp.format_type)
}

/// The text of a colon section: its present components in grammar order.
pub open spec fn format_spec_text(sp: FormatSpecV) -> Seq<char> {
    opt_fill_align_text(sp.fill_align) + spec_tail_text(sp)
}

/// The text of one directive: braces around the argument and the optional
/// colon section.
pub open spec fn format_text(f: FormatV) -> Seq<char> {
    seq!['{'] + argument_text(f.arg) + (match f.format_spec {
        Some(sp) => seq![':'] + format_spec_text(sp),
        None => Seq::empty(),
    }) + seq!['}']
}

/// The text of one item: literal runs verbatim, escapes doubled.
pub open spec fn item_text(it: ItemV) -> Seq<char> {
    match it {
        ItemV::Text(t) => t,
        ItemV::Escape(c) => seq![c, c],
        ItemV::Format(f) => format_text(f),
    }
}

/// The text of a whole template: its items in order.
pub open spec fn items_text(items: Seq<ItemV>) -> Seq<char>
    decreases items.len(),
{
    if items.len() == 0 {
        Seq::empty()
    } else {
        item_text(items[0]) + items_text(items.drop_first())
    }
}

pub proof fn lemma_items_text_snoc(items: Seq<ItemV>, it: ItemV)
    ensures
        items_text(items.push(it)) == items_text(items) + item_text(it),
    decreases items.len(),
{
    reveal_with_fuel(items_text, 3);
    if items.len() == 0 {
        assert(items.push(it).drop_first() =~= Seq::<ItemV>::empty());
        assert(items.push(it)[0] == it);
        assert(items_text(items.push(it)) =~= items_text(items) + item_text(it));
    } else {
        lemma_items_text_snoc(items.drop_first(), it);
        assert(items.push(it).drop_first() =~= items.drop_first().push(it));
        assert(items.push(it)[0] == items[0]);
        assert(items_text(items.push(it)) =~= items_text(items) + item_text(it));
    }
}

/// Appends one character; relies on `String::push`.
#[verifier::external_body]
pub(crate) fn push_char(out: &mut String, c: char)
    ensures
        final(out)@ == old(out)@.push(c),
{
    out.push(c)
}

/// The decimal digit character of a value below ten.
fn digit_char_of(d: usize) -> (c: char)
    requires
        d <= 9,
    ensures
        c == digit_char(d as int),
{
    if d == 0 {
        '0'
    } else if d == 1 {
        '1'
    } else if d == 2 {
        '2'
    } else if d == 3 {
        '3'
    } else if d == 4 {
        '4'
    } else if d == 5 {
        '5'
    } else if d == 6 {
        '6'
    } else if d == 7 {
        '7'
    } else if d == 8 {
        '8'
    } else {
        '9'
    }
}

/// Appends the canonical decimal notation of `n`.
pub(crate) fn push_decimal(out: &mut String, n: usize)
    ensures
        final(out)@ == old(out)@ + dec_text(n as int),
    decreases n,
{
    if n <= 9 {
        push_char(out, digit_char_of(n));
        proof {
            assert(final(out)@ =~= old(out)@ + dec_text(n as int));
        }
    } else {
        push_decimal(out, n / 10);
        push_char(out, digit_char_of(n % 10));
        proof {
            assert(final(out)@ =~= old(out)@ + dec_text(n as int));
        }
    }
}

impl Argument {
    /// Appends this argument reference's text.
    pub fn write_into(&self, out: &mut String)
        ensures
            final(out)@ == old(out)@ + argument_text(self@),
    {
        match self {
            Argument::Next => {
                proof {
                    assert(final(out)@ =~= old(out)@ + argument_text(self@));
                }
            },
            Argument::Index(n) => {
                push_decimal(out, *n);
            },
            Argument::Name(name) => {
                out.append(name.as_str());
            },
        }
    }
}

impl FillAlign {
    /// Appends the fill character, if any, then the alignment character.
    pub fn write_into(&self, out: &mut String)
        ensures
            final(out)@ == old(out)@ + fill_align_text(*self),
    {
        if let Some(c) = self.fill {
            push_char(out, c);
        }
        let a = match self.align {
            Align::Left => '<',
            Align::Center => '^',
            Align::Right => '>',
        };
        push_char(out, a);
        proof {
            assert(final(out)@ =~= old(out)@ + fill_align_text(*self));
        }
    }
}

impl Count {
    /// Appends this count's text.
    pub fn write_into(&self, out: &mut String)
        ensures
            final(out)@ == old(out)@ + count_text(self@),
    {
        match self {
            Count::Argument(a) => {
                a.write_into(out);
                push_char(out, '$');
                proof {
                    assert(final(out)@ =~= old(out)@ + count_text(self@));
                }
            },
            Count::Value(n) => {
                push_decimal(out, *n);
            },
        }
    }
}

impl Precision {
    /// Appends `.` and this precision's text.
    pub fn write_into(&self, out: &mut String)
        ensures
            final(out)@ == old(out)@ + precision_text(self@),
    {
        push_char(out, '.');
        match self {
            Precision::Count(c) => {
                c.write_into(out);
            },
            Precision::Star => {
                push_char(out, '*');
            },
        }
        proof {
            assert(final(out)@ =~= old(out)@ + precision_text(self@));
        }
    }
}

impl FormatType {
    /// Appends this rendering type's suffix.
    pub fn write_into(&self, out: &mut String)
        ensures
            final(out)@ == old(out)@ + type_suffix(*self),
    {
        match self {
            FormatType::Display => {},
            FormatType::Debug => {
                push_char(out, '?');
            },
            FormatType::DebugLowerHex => {
                push_char(out, 'x');
                push_char(out, '?');
            },
            FormatType::DebugUpperHex => {
                push_char(out, 'X');
                push_char(out, '?');
            },
            FormatType::Octal => {
                push_char(out, 'o');
            },
            FormatType::LowerHex => {
                push_char(out, 'x');
            },
            FormatType::UpperHex => {
                push_char(out, 'X');
            },
            FormatType::Pointer => {
                push_char(out, 'p');
            },
            FormatType::Binary => {
                push_char(out, 'b');
            },
            FormatType::LowerExp => {
                push_char(out, 'e');
            },
            FormatType::UpperExp => {
                push_char(out, 'E');
            },
        }
        proof {
            assert(final(out)@ =~= old(out)@ + type_suffix(*self));
        }
    }
}

/// Prepending a prefix to a seven-part concatenation, step by step or at
/// once, gives the same text.
proof fn lemma_concat_seven(
    o: Seq<char>,
    p1: Seq<char>,
    p2: Seq<char>,
    p3: Seq<char>,
    p4: Seq<char>,
    p5: Seq<char>,
    p6: Seq<char>,
    p7: Seq<char>,
)
    ensures
        o + p1 + p2 + p3 + p4 + p5 + p6 + p7 == o + (p1 + (p2 + p3 + p4 + p5 + p6 + p7)),
{
    assert(o + p1 + p2 + p3 + p4 + p5 + p6 + p7 =~= o + (p1 + (p2 + p3 + p4 + p5 + p6 + p7)));
}

impl FormatSpec {
    /// Appends this colon section's components in grammar order.
    #[verifier::rlimit(50)]
    pub fn write_into(&self, out: &mut String)
        ensures
            final(out)@ == old(out)@ + format_spec_text(self@),
    {
        let ghost o0 = out@;
        if let Some(fa) = &self.fill_align {
            fa.write_into(out);
        }
        assert(out@ == o0 + opt_fill_align_text(self@.fill_align)) by {
            assert(out@ =~= o0 + opt_fill_align_text(self@.fill_align));
        }
        let ghost o1 = out@;
        if let Some(sg) = &self.sign {
            let c = match sg {
                Sign::Plus => '+',
                Sign::Minus => '-',
            };
            push_char(out, c);
        }
        assert(out@ == o1 + opt_sign_text(self@.sign)) by {
            assert(out@ =~= o1 + opt_sign_text(self@.sign));
        }
        let ghost o2 = out@;
        if self.alter {
            push_char(out, '#');
        }
        assert(out@ == o2 + flag_text(self@.alter, '#')) by {
            assert(out@ =~= o2 + flag_text(self@.alter, '#'));
        }
        let ghost o3 = out@;
        if self.zero {
            push_char(out, '0');
        }
        assert(out@ == o3 + flag_text(self@.zero, '0')) by {
            assert(out@ =~= o3 + flag_text(self@.zero, '0'));
        }
        let ghost o4 = out@;
        if let Some(w) = &self.width {
            w.write_into(out);
        }
        assert(out@ == o4 + opt_width_text(self@.width)) by {
            assert(out@ =~= o4 + opt_width_text(self@.width));
        }
        let ghost o5 = out@;
        if let Some(p) = &self.precision {
            p.write_into(out);
        }
        assert(out@ == o5 + opt_precision_text(self@.precision)) by {
            assert(out@ =~= o5 + opt_precision_text(self@.precision));
        }
        self.format_type.write_into(out);
        proof {
            lemma_concat_seven(
                o0,
                opt_fill_align_text(self@.fill_align),
                opt_sign_text(self@.sign),
                flag_text(self@.alter, '#'),
                flag_text(self@.zero, '0'),
                opt_width_text(self@.width),
                opt_precision_text(self@.precision),
                type_suffix(self@.format_type),
            );
        }
    }
}

impl Format {
    /// Appends this directive's text, braces included.
    pub fn write_into(&self, out: &mut String)
        ensures
            final(out)@ == old(out)@ + format_text(self@),
    {
        push_char(out, '{');
        self.arg.write_into(out);
        if let Some(sp) = &self.format_spec {
            push_char(out, ':');
            sp.write_into(out);
        }
        push_char(out, '}');
        proof {
            assert(final(out)@ =~= old(out)@ + format_text(self@));
        }
    }
}

impl FormatStringItem {
    /// Appends this item's text; an escape appends its brace doubled.
    pub fn write_into(&self, out: &mut String)
        ensures
            final(out)@ == old(out)@ + item_text(self@),
    {
        match self {
            FormatStringItem::Text(t) => {
                out.append(t.as_str());
            },
            FormatStringItem::Escape(c) => {
                push_char(out, *c);
                push_char(out, *c);
                proof {
                    assert(final(out)@ =~= old(out)@ + item_text(self@));
                }
            },
            FormatStringItem::Format(f) => {
                f.write_into(out);
            },
        }
    }
}

impl FormatString {
    /// Renders this template back to text: the concatenation of its items'
    /// text, in order. Never fails, and a well-formed template — every
    /// template the parser produces — parses back from its rendering.
    pub fn render(&self) -> (r: String)
        ensures
            r@ == items_text(self@),
            crate::model::wf_items(self@) ==> crate::grammar::parse_text(r@)
                == Ok::<Seq<crate::model::ItemV>, crate::model::ParseErrorV>(self@),
    {
        proof {
            if crate::model::wf_items(self@) {
                crate::round_trip::lemma_render_parse(self@);
            }
        }
        let mut out = String::new();
        let n = self.0.len();
        assert(self@.take(0) =~= Seq::<ItemV>::empty());
        for i in 0..n
            invariant
                n == self.0.len(),
                out@ == items_text(self@.take(i as int)),
        {
            self.0[i].write_into(&mut out);
            proof {
                assert(self@.take(i + 1) =~= self@.take(i as int).push(self@[i as int]));
                lemma_items_text_snoc(self@.take(i as int), self@[i as int]);
                assert(self@[i as int] == self.0[i as int]@);
            }
        }
        proof {
            assert(self@.take(n as int) =~= self@);
        }
        out
    }
}

} // verus!
