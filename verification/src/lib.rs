//! A verified parser, serializer and argument visitor for the placeholder
//! mini-language of text templates: `{name:.^#08x?}`-style directives, doubled
//! braces as escapes, and literal text in between.

pub mod chars;
pub mod cursor;
pub mod grammar;
pub mod model;
pub mod parse_wf;
pub mod parser;
pub mod render;
pub mod round_trip;
pub mod visit;

pub use cursor::Cursor;
pub use model::Align;
pub use model::Argument;
pub use model::Count;
pub use model::FillAlign;
pub use model::Format;
pub use model::FormatSpec;
pub use model::FormatString;
pub use model::FormatStringItem;
pub use model::FormatType;
pub use model::ParseError;
pub use model::ParseErrorKind;
pub use model::Precision;
pub use model::Sign;
pub use parse_wf::lemma_parse_wf;
pub use round_trip::lemma_parse_render_parse;
pub use round_trip::lemma_render_parse;
pub use round_trip::lemma_type_suffix_roundtrip;
