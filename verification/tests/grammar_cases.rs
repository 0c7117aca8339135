//! Scenario tests for the grammar: escapes, argument classification, the
//! ordered stages of a colon section, the eleven type suffixes, the visitor
//! order with early stop, and each error case.

use std::cell::Cell;
use std::cell::RefCell;

use kg_display::Argument;
use kg_display::Count;
use kg_display::FormatString;
use kg_display::FormatStringItem;
use kg_display::FormatType;
use kg_display::ParseErrorKind;
use kg_display::Precision;

#[test]
fn escape_open_brace() {
    let f = FormatString::parse("{{").unwrap();
    assert_eq!(f.items().len(), 1);
    assert!(matches!(f.items()[0], FormatStringItem::Escape('{')));
    assert_eq!(f.render(), "{{");
}

#[test]
fn escape_close_brace() {
    let f = FormatString::parse("}}").unwrap();
    assert_eq!(f.items().len(), 1);
    assert!(matches!(f.items()[0], FormatStringItem::Escape('}')));
    assert_eq!(f.render(), "}}");
}

#[test]
fn bare_close_brace_rejected() {
    let e = FormatString::parse("a}b").unwrap_err();
    assert_eq!(e.kind, ParseErrorKind::UnescapedClosingBrace);
    assert_eq!(e.offset, 1);
}

fn single_format(input: &str) -> kg_display::Format {
    let f = FormatString::parse(input).unwrap();
    assert_eq!(f.items().len(), 1);
    match &f.items()[0] {
        FormatStringItem::Format(fmt) => fmt.clone(),
        other => panic!("expected a directive, found {:?}", other),
    }
}

#[test]
fn argument_classification() {
    assert!(matches!(single_format("{0}").arg, Argument::Index(0)));
    let f = single_format("{name}");
    assert!(matches!(&f.arg, Argument::Name(n) if n == "name"));
    assert!(matches!(single_format("{}").arg, Argument::Next));
}

#[test]
fn spec_stage_order() {
    let f = single_format("{:#010.3}");
    let sp = f.format_spec.unwrap();
    assert!(sp.fill_align.is_none());
    assert!(sp.sign.is_none());
    assert!(sp.alter);
    assert!(sp.zero);
    assert!(matches!(sp.width, Some(Count::Value(10))));
    assert!(matches!(sp.precision, Some(Precision::Count(Count::Value(3)))));
    assert!(matches!(sp.format_type, FormatType::Display));
}

fn suffix_type(suffix: &str) -> FormatType {
    let input = format!("{{:{}}}", suffix);
    let f = single_format(&input);
    let sp = f.format_spec.unwrap();
    let rendered = FormatString::parse(&input).unwrap().render();
    assert_eq!(rendered, input);
    sp.format_type
}

#[test]
fn type_suffix_table() {
    assert!(matches!(suffix_type(""), FormatType::Display));
    assert!(matches!(suffix_type("?"), FormatType::Debug));
    assert!(matches!(suffix_type("x?"), FormatType::DebugLowerHex));
    assert!(matches!(suffix_type("X?"), FormatType::DebugUpperHex));
    assert!(matches!(suffix_type("o"), FormatType::Octal));
    assert!(matches!(suffix_type("x"), FormatType::LowerHex));
    assert!(matches!(suffix_type("X"), FormatType::UpperHex));
    assert!(matches!(suffix_type("p"), FormatType::Pointer));
    assert!(matches!(suffix_type("b"), FormatType::Binary));
    assert!(matches!(suffix_type("e"), FormatType::LowerExp));
    assert!(matches!(suffix_type("E"), FormatType::UpperExp));
}

fn name_of(a: &Argument) -> String {
    match a {
        Argument::Name(n) => n.clone(),
        other => panic!("expected a name, found {:?}", other),
    }
}

#[test]
fn visitor_order() {
    let f = FormatString::parse("{val:width$.prec$}").unwrap();

    let collected = f.arguments();
    assert_eq!(collected.len(), 3);
    assert_eq!(name_of(&collected[0]), "val");
    assert_eq!(name_of(&collected[1]), "width");
    assert_eq!(name_of(&collected[2]), "prec");

    let seen: RefCell<Vec<String>> = RefCell::new(Vec::new());
    f.each_argument(|a| {
        seen.borrow_mut().push(name_of(a));
        true
    });
    assert_eq!(*seen.borrow(), vec!["val", "width", "prec"]);
}

#[test]
fn visitor_early_stop() {
    let f = FormatString::parse("{a} and {b:w$.p$} and {c}").unwrap();
    assert_eq!(f.arguments().len(), 5);

    let calls = Cell::new(0usize);
    f.each_argument(|_a| {
        calls.set(calls.get() + 1);
        false
    });
    assert_eq!(calls.get(), 1);

    let two = Cell::new(0usize);
    f.each_argument(|a| {
        two.set(two.get() + 1);
        name_of(a) != "b"
    });
    assert_eq!(two.get(), 2);
}

#[test]
fn unterminated_directive() {
    let e = FormatString::parse("{").unwrap_err();
    assert_eq!(e.kind, ParseErrorKind::UnterminatedDirective);
    assert_eq!(e.offset, 1);
    assert_eq!(
        e.message,
        "unexpected end of input inside a directive at offset 1"
    );
}

#[test]
fn arguments_of_mixed_template() {
    let f = FormatString::parse("aaa {{}} {{{}}} {username:.^#02X} {123} {:?} dsd").unwrap();
    let args = f.arguments();
    assert_eq!(args.len(), 4);
    assert!(matches!(args[0], Argument::Next));
    assert!(matches!(&args[1], Argument::Name(n) if n == "username"));
    assert!(matches!(args[2], Argument::Index(123)));
    assert!(matches!(args[3], Argument::Next));
}

#[test]
fn unescaped_brace_message() {
    let e = FormatString::parse("ab}cd").unwrap_err();
    assert_eq!(e.kind, ParseErrorKind::UnescapedClosingBrace);
    assert_eq!(e.offset, 2);
    assert_eq!(e.message, "unescaped '}' at offset 2");
}

#[test]
fn unknown_type_suffix() {
    let e = FormatString::parse("{:Q}").unwrap_err();
    assert_eq!(e.kind, ParseErrorKind::UnknownTypeSuffix);
    assert_eq!(e.offset, 2);
}

#[test]
fn overflowing_argument_index() {
    let e = FormatString::parse("{999999999999999999999}").unwrap_err();
    assert_eq!(e.kind, ParseErrorKind::InvalidArgumentIndex);
    assert_eq!(e.offset, 1);
}

#[test]
fn unexpected_character() {
    let e = FormatString::parse("{a b}").unwrap_err();
    assert_eq!(e.kind, ParseErrorKind::UnexpectedCharacter);
    assert_eq!(e.offset, 2);
}

#[test]
fn empty_template() {
    let f = FormatString::parse("").unwrap();
    assert_eq!(f.items().len(), 0);
    assert_eq!(f.render(), "");
}

#[test]
fn empty_colon_section_round_trips() {
    let f = FormatString::parse("{:}").unwrap();
    assert_eq!(f.render(), "{:}");
}

#[test]
fn full_directive_round_trips() {
    let input = "{x:*<+#08.*X}";
    let f = FormatString::parse(input).unwrap();
    assert_eq!(f.render(), input);

    let indirect = "{val:width$.prec$}";
    let g = FormatString::parse(indirect).unwrap();
    assert_eq!(g.render(), indirect);
}

#[test]
fn leading_zero_index_renders_canonically() {
    // "{007}" is accepted, but its index renders without the redundant
    // zeros: re-rendering gives the canonical text of the same template.
    let f = FormatString::parse("{007}").unwrap();
    assert!(matches!(single_format("{007}").arg, Argument::Index(7)));
    assert_eq!(f.render(), "{7}");
    let again = FormatString::parse("{7}").unwrap();
    assert_eq!(again.render(), "{7}");
}

#[test]
fn indirect_width_by_index() {
    let f = single_format("{:10$}");
    let sp = f.format_spec.unwrap();
    assert!(matches!(sp.width, Some(Count::Argument(Argument::Index(10)))));
    assert_eq!(FormatString::parse("{:10$}").unwrap().render(), "{:10$}");
}

#[test]
fn fill_and_align_variants() {
    for input in ["{:<}", "{:^}", "{:>}", "{:*^}", "{: <}"] {
        let f = FormatString::parse(input).unwrap();
        assert_eq!(f.render(), input);
    }
}

#[test]
fn text_and_escape_mix_round_trips() {
    for input in ["plain text", "a{{b}}c", "{{{{", "}}{}{{", "- {a:>8.3e} -"] {
        let f = FormatString::parse(input).unwrap();
        assert_eq!(f.render(), input);
    }
}
