//! The grammar model: immutable value types for one parsed template, their
//! mathematical views, and the well-formedness that every parsed value enjoys.

use vstd::prelude::*;

use crate::chars::is_name_char;
use crate::chars::is_name_start;

verus! {

/// Which value a directive or an indirect count refers to.
#[derive(Debug, Clone)]
pub enum Argument {
    /// The implicit auto-incremented position, written as nothing.
    Next,
    /// An explicit non-negative position.
    Index(usize),
    /// An identifier-shaped name.
    Name(String),
}

/// The mathematical value of an [`Argument`].
pub enum ArgumentV {
    Next,
    Index(int),
    Name(Seq<char>),
}

impl View for Argument {
    type V = ArgumentV;

    open spec fn view(&self) -> ArgumentV {
        match self {
            Argument::Next => ArgumentV::Next,
            Argument::Index(n) => ArgumentV::Index(*n as int),
            Argument::Name(s) => ArgumentV::Name(s@),
        }
    }
}

impl Default for Argument {
    /// The implicit `Next` reference.
    fn default() -> (r: Argument)
        ensures
            r@ == ArgumentV::Next,
    {
        Argument::Next
    }
}

/// The text alignment flag of a directive.
#[derive(Debug, Clone, Copy)]
pub enum Align {
    /// `<`
    Left,
    /// `^`
    Center,
    /// `>`
    Right,
}

/// An alignment together with its optional fill character.
#[derive(Debug, Clone, Copy)]
pub struct FillAlign {
    pub fill: Option<char>,
    pub align: Align,
}

/// The explicit sign flag of a directive.
#[derive(Debug, Clone, Copy)]
pub enum Sign {
    /// `+`
    Plus,
    /// `-`
    Minus,
}

/// A width or precision value.
#[derive(Debug, Clone)]
pub enum Count {
    /// Indirect: the count is supplied by another argument, written `arg$`.
    Argument(Argument),
    /// A literal non-negative integer.
    Value(usize),
}

/// The mathematical value of a [`Count`].
pub enum CountV {
    Argument(ArgumentV),
    Value(int),
}

impl View for Count {
    type V = CountV;

    open spec fn view(&self) -> CountV {
        match self {
            Count::Argument(a) => CountV::Argument(a@),
            Count::Value(n) => CountV::Value(*n as int),
        }
    }
}

/// The precision sub-field of a directive.
#[derive(Debug, Clone)]
pub enum Precision {
    /// `.` followed by a count.
    Count(Count),
    /// `.*`
    Star,
}

/// The mathematical value of a [`Precision`].
pub enum PrecisionV {
    Count(CountV),
    Star,
}

impl View for Precision {
    type V = PrecisionV;

    open spec fn view(&self) -> PrecisionV {
        match self {
            Precision::Count(c) => PrecisionV::Count(c@),
            Precision::Star => PrecisionV::Star,
        }
    }
}

/// The value-rendering suffix of a directive.
#[derive(Debug, Clone)]
pub enum FormatType {
    /// The empty suffix.
    Display,
    /// `?`
    Debug,
    /// `x?`
    DebugLowerHex,
    /// `X?`
    DebugUpperHex,
    /// `o`
    Octal,
    /// `x`
    LowerHex,
    /// `X`
    UpperHex,
    /// `p`
    Pointer,
    /// `b`
    Binary,
    /// `e`
    LowerExp,
    /// `E`
    UpperExp,
}

/// The full colon-introduced section of a directive, in source order.
#[derive(Debug, Clone)]
pub struct FormatSpec {
    pub fill_align: Option<FillAlign>,
    pub sign: Option<Sign>,
    pub alter: bool,
    pub zero: bool,
    pub width: Option<Count>,
    pub precision: Option<Precision>,
    pub format_type: FormatType,
}

/// The mathematical value of a [`FormatSpec`].
pub struct FormatSpecV {
    pub fill_align: Option<FillAlign>,
    pub sign: Option<Sign>,
    pub alter: bool,
    pub zero: bool,
    pub width: Option<CountV>,
    pub precision: Option<PrecisionV>,
    pub format_type: FormatType,
}

impl View for FormatSpec {
    type V = FormatSpecV;

    open spec fn view(&self) -> FormatSpecV {
        FormatSpecV {
            fill_align: self.fill_align,
            sign: self.sign,
            alter: self.alter,
            zero: self.zero,
            width: match &self.width {
                Some(c) => Some(c@),
                None => None,
            },
            precision: match &self.precision {
                Some(p) => Some(p@),
                None => None,
            },
            format_type: self.format_type,
        }
    }
}

/// One `{...}` placeholder directive.
#[derive(Debug, Clone)]
pub struct Format {
    pub arg: Argument,
    pub format_spec: Option<FormatSpec>,
}

/// The mathematical value of a [`Format`].
pub struct FormatV {
    pub arg: ArgumentV,
    pub format_spec: Option<FormatSpecV>,
}

impl View for Format {
    type V = FormatV;

    open spec fn view(&self) -> FormatV {
        FormatV {
            arg: self.arg@,
            format_spec: match &self.format_spec {
                Some(sp) => Some(sp@),
                None => None,
            },
        }
    }
}

/// One unit of a template: a literal run, a doubled-brace escape, or a
/// directive.
#[derive(Debug, Clone)]
pub enum FormatStringItem {
    Text(String),
    Escape(char),
    Format(Format),
}

/// The mathematical value of a [`FormatStringItem`].
pub enum ItemV {
    Text(Seq<char>),
    Escape(char),
    Format(FormatV),
}

impl View for FormatStringItem {
    type V = ItemV;

    open spec fn view(&self) -> ItemV {
        match self {
            FormatStringItem::Text(t) => ItemV::Text(t@),
            FormatStringItem::Escape(c) => ItemV::Escape(*c),
            FormatStringItem::Format(f) => ItemV::Format(f@),
        }
    }
}

/// A parsed template: the ordered sequence of its items.
#[derive(Debug, Clone)]
pub struct FormatString(pub Vec<FormatStringItem>);

impl View for FormatString {
    type V = Seq<ItemV>;

    open spec fn view(&self) -> Seq<ItemV> {
        self.0@.map_values(|it: FormatStringItem| it@)
    }
}

/// Why a template was rejected.
#[derive(Debug, Clone, Copy, PartialEq, Eq, Structural)]
pub enum ParseErrorKind {
    /// The input ended inside a directive, before its closing `}`.
    UnterminatedDirective,
    /// A bare `}` outside any directive, not doubled as an escape.
    UnescapedClosingBrace,
    /// A digit run too large for an argument index or count.
    InvalidArgumentIndex,
    /// The text before a directive's closing `}` is no known type suffix.
    UnknownTypeSuffix,
    /// Some other character where the grammar expects `}` or `:`.
    UnexpectedCharacter,
}

/// A rejected template: what was wrong, where, and a readable complaint.
#[derive(Debug, Clone)]
pub struct ParseError {
    pub kind: ParseErrorKind,
    /// Character offset of the offence in the input.
    pub offset: usize,
    pub message: String,
}

/// The mathematical value of a [`ParseError`]: its kind and offset.
pub struct ParseErrorV {
    pub kind: ParseErrorKind,
    pub offset: int,
}

impl View for ParseError {
    type V = ParseErrorV;

    open spec fn view(&self) -> ParseErrorV {
        ParseErrorV { kind: self.kind, offset: self.offset as int }
    }
}

/// A name is identifier-shaped: non-empty, a name-start character first,
/// name characters throughout.
pub open spec fn wf_name(t: Seq<char>) -> bool {
    &&& t.len() >= 1
    &&& is_name_start(t[0])
    &&& forall|k: int| 0 <= k < t.len() ==> is_name_char(#[trigger] t[k])
}

/// An argument the parser can produce: indexes fit the machine, names are
/// identifier-shaped.
pub open spec fn wf_argument(a: ArgumentV) -> bool {
    match a {
        ArgumentV::Next => true,
        ArgumentV::Index(n) => 0 <= n <= usize::MAX as int,
        ArgumentV::Name(t) => wf_name(t),
    }
}

/// A count the parser can produce: an indirect count always names an explicit
/// argument.
pub open spec fn wf_count(c: CountV) -> bool {
    match c {
        CountV::Argument(a) => wf_argument(a) && !(a is Next),
        CountV::Value(n) => 0 <= n <= usize::MAX as int,
    }
}

pub open spec fn wf_precision(p: PrecisionV) -> bool {
    match p {
        PrecisionV::Count(c) => wf_count(c),
        PrecisionV::Star => true,
    }
}

/// A width whose text starts with the digit `0`: a literal zero count, or an
/// indirect count through index zero. Such a width can only follow a consumed
/// zero flag, since an initial `0` is always claimed by that flag first.
pub open spec fn width_starts_zero(w: Option<CountV>) -> bool {
    match w {
        Some(CountV::Value(n)) => n == 0,
        Some(CountV::Argument(a)) => a matches ArgumentV::Index(n) && n == 0,
        None => false,
    }
}

pub open spec fn wf_format_spec(sp: FormatSpecV) -> bool {
    &&& match sp.width {
        Some(c) => wf_count(c),
        None => true,
    }
    &&& match sp.precision {
        Some(p) => wf_precision(p),
        None => true,
    }
    &&& !sp.zero ==> !width_starts_zero(sp.width)
}

pub open spec fn wf_format(f: FormatV) -> bool {
    &&& wf_argument(f.arg)
    &&& match f.format_spec {
        Some(sp) => wf_format_spec(sp),
        None => true,
    }
}

/// A colon section whose rendering is empty: every component absent, the
/// default rendering type.
pub open spec fn spec_is_empty(sp: FormatSpecV) -> bool {
    &&& sp.fill_align is None
    &&& sp.sign is None
    &&& !sp.alter
    &&& !sp.zero
    &&& sp.width is None
    &&& sp.precision is None
    &&& sp.format_type is Display
}

pub open spec fn wf_item(it: ItemV) -> bool {
    match it {
        ItemV::Text(t) => t.len() >= 1 && forall|k: int|
            0 <= k < t.len() ==> #[trigger] t[k] != '{' && t[k] != '}',
        ItemV::Escape(c) => c == '{' || c == '}',
        ItemV::Format(f) => wf_format(f),
    }
}

/// A sequence of items the parser can produce. Literal runs are maximal:
/// non-empty, brace-free, and never adjacent to one another. A directive whose
/// colon section renders empty is never followed by literal text that starts
/// with an alignment character: its `}` together with that character would
/// read as a fill-and-align pair instead.
/// A directive whose colon section renders empty.
pub open spec fn is_empty_spec_format(it: ItemV) -> bool {
    &&& it matches ItemV::Format(f)
    &&& f.format_spec matches Some(sp)
    &&& spec_is_empty(sp)
}

/// A literal run whose first character is an alignment character.
pub open spec fn starts_with_align(it: ItemV) -> bool {
    &&& it matches ItemV::Text(t)
    &&& t.len() >= 1
    &&& crate::chars::is_align_char(t[0])
}

pub open spec fn wf_items(items: Seq<ItemV>) -> bool {
    &&& forall|k: int| 0 <= k < items.len() ==> wf_item(#[trigger] items[k])
    &&& forall|k: int|
        0 <= k && k + 1 < items.len() ==> !((#[trigger] items[k]) is Text && items[k + 1] is Text)
    &&& forall|k: int|
        0 <= k && k + 1 < items.len() ==> !(is_empty_spec_format(#[trigger] items[k])
            && starts_with_align(items[k + 1]))
}

/// A well-formed item in front of a well-formed sequence, with the two
/// adjacency conditions at the seam, is a well-formed sequence.
pub proof fn lemma_wf_items_cons(it: ItemV, rest: Seq<ItemV>)
    requires
        wf_item(it),
        wf_items(rest),
        rest.len() > 0 ==> !(it is Text && rest[0] is Text),
        rest.len() > 0 ==> !(is_empty_spec_format(it) && starts_with_align(rest[0])),
    ensures
        wf_items(seq![it] + rest),
{
    assert((seq![it] + rest)[0] == it);
    assert forall|k: int| 0 <= k < (seq![it] + rest).len() implies wf_item(
        #[trigger] (seq![it] + rest)[k],
    ) by {
        if k > 0 {
            assert((seq![it] + rest)[k] == rest[k - 1]);
        }
    }
    assert forall|k: int| 0 <= k && k + 1 < (seq![it] + rest).len() implies !((#[trigger] (seq![it]
        + rest)[k]) is Text && (seq![it] + rest)[k + 1] is Text) by {
        if k == 0 {
            assert((seq![it] + rest)[1] == rest[0]);
        } else {
            assert((seq![it] + rest)[k] == rest[k - 1]);
            assert((seq![it] + rest)[k + 1] == rest[k]);
        }
    }
    assert forall|k: int| 0 <= k && k + 1 < (seq![it] + rest).len() implies !(is_empty_spec_format(
        #[trigger] (seq![it] + rest)[k],
    ) && starts_with_align((seq![it] + rest)[k + 1])) by {
        if k == 0 {
            assert((seq![it] + rest)[1] == rest[0]);
        } else {
            assert((seq![it] + rest)[k] == rest[k - 1]);
            assert((seq![it] + rest)[k + 1] == rest[k]);
        }
    }
}

/// Dropping the first item keeps a sequence well-formed.
pub proof fn lemma_wf_items_drop_first(items: Seq<ItemV>)
    requires
        wf_items(items),
        items.len() > 0,
    ensures
        wf_items(items.drop_first()),
{
    assert forall|k: int| 0 <= k < items.drop_first().len() implies wf_item(
        #[trigger] items.drop_first()[k],
    ) by {
        assert(items.drop_first()[k] == items[k + 1]);
    }
    assert forall|k: int| 0 <= k && k + 1 < items.drop_first().len() implies !((
    #[trigger] items.drop_first()[k]) is Text && items.drop_first()[k + 1] is Text) by {
        assert(items.drop_first()[k] == items[k + 1]);
        assert(items.drop_first()[k + 1] == items[k + 2]);
    }
    assert forall|k: int| 0 <= k && k + 1 < items.drop_first().len() implies !(is_empty_spec_format(
        #[trigger] items.drop_first()[k],
    ) && starts_with_align(items.drop_first()[k + 1])) by {
        assert(items.drop_first()[k] == items[k + 1]);
        assert(items.drop_first()[k + 1] == items[k + 2]);
    }
}

} // verus!
