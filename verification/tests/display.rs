//! Display-style rendering driven by parsed templates: each case binds the
//! named arguments of a template to concrete values and checks the rendered
//! output, the way a deriving code generator would.

use kg_display::Argument;
use kg_display::FormatString;
use kg_display::FormatStringItem;

fn expand(template: &str, bindings: &[(&str, String)]) -> String {
    let parsed = FormatString::parse(template).unwrap();
    let mut out = String::new();
    for item in parsed.items() {
        match item {
            FormatStringItem::Text(t) => out.push_str(t),
            FormatStringItem::Escape(c) => out.push(*c),
            FormatStringItem::Format(f) => match &f.arg {
                Argument::Name(name) => {
                    let value = bindings
                        .iter()
                        .find(|(n, _)| name.as_str() == *n)
                        .map(|(_, v)| v.clone())
                        .unwrap();
                    out.push_str(&value);
                }
                _ => panic!("only named arguments are supported"),
            },
        }
    }
    out
}

#[derive(Debug)]
enum TestEnum {
    Struct { field1: String, field2: usize },
    Tuple(String, usize, bool),
    Plain,
    Elems(Vec<String>),
}

#[derive(Debug)]
struct TestStruct {
    field1: String,
    field2: usize,
}

fn display_test_enum(e: &TestEnum) -> String {
    match e {
        TestEnum::Struct { field1, field2: _ } => expand(
            "struct with fields - field1: {field1}.",
            &[("field1", field1.clone())],
        ),
        TestEnum::Tuple(a0, _a1, a2) => expand(
            "tuple with fields - {_0}, {_2}",
            &[("_0", a0.clone()), ("_2", format!("{}", a2))],
        ),
        TestEnum::Plain => expand("plain", &[]),
        TestEnum::Elems(v) => expand("elements: {elems}", &[("elems", v.join(", "))]),
    }
}

fn display_test_struct(e: &TestStruct) -> String {
    expand(
        "test struct with fields - field1: {field1}.",
        &[("field1", e.field1.clone())],
    )
}

#[test]
fn display_enum_struct_variant() {
    let e = TestEnum::Struct {
        field1: "string1".into(),
        field2: 1024,
    };

    assert_eq!("struct with fields - field1: string1.", display_test_enum(&e));
}

#[test]
fn display_enum_tuple_variant() {
    let e = TestEnum::Tuple("string1".into(), 1024, false);

    assert_eq!("tuple with fields - string1, false", display_test_enum(&e));
}

#[test]
fn display_enum_plain_variant() {
    let e = TestEnum::Plain;

    assert_eq!("plain", display_test_enum(&e));
}

#[test]
fn display_enum_custom_param_variant() {
    let e = TestEnum::Elems(vec![
        "one".into(),
        "two".into(),
        "three".into(),
        "four".into(),
    ]);

    assert_eq!("elements: one, two, three, four", display_test_enum(&e));
}

#[test]
fn display_struct() {
    let e = TestStruct {
        field1: "string1".into(),
        field2: 1024,
    };

    assert_eq!("test struct with fields - field1: string1.", display_test_struct(&e));
}

#[test]
fn format_string() {
    let input = "aaa {{}} {{{}}} {username:.^#02X} {123} {:?} dsd";
    let f = FormatString::parse(input).unwrap();
    let out = f.render();
    assert_eq!(input, out);
}
