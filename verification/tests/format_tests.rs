use worldgen_lang::element::Element;
use worldgen_lang::format::{format_json, Error, Options, SymbolKind};
use worldgen_lang::parser::lexer::LangLexer;
use worldgen_lang::parser::LangParser;
use worldgen_lang::process::{KeepElement, LerpFunction};
use worldgen_lang::processor::{BinaryOperator, ElementProcessor, TwoArgsFunction};

fn parse(source: &str) -> Element {
    let lexer = LangLexer::new(source);
    let mut parser = LangParser::new(lexer);
    parser.parse_full().expect("parse failed")
}

#[test]
fn compact_simple_values() {
    assert_eq!(
        format_json(Element::NullElement, Options::Compressed).unwrap(),
        "null"
    );
    assert_eq!(
        format_json(Element::BooleanElement(true), Options::Compressed).unwrap(),
        "true"
    );
    assert_eq!(
        format_json(Element::IntElement(-42), Options::Compressed).unwrap(),
        "-42"
    );
    assert_eq!(
        format_json(Element::IntElement(0), Options::Compressed).unwrap(),
        "0"
    );
    assert_eq!(
        format_json(Element::IntElement(i32::MIN), Options::Compressed).unwrap(),
        "-2147483648"
    );
    assert_eq!(
        format_json(
            Element::FloatElement(String::from("384.1")),
            Options::Compressed
        )
        .unwrap(),
        "384.1"
    );
}

#[test]
fn compact_strings_are_escaped() {
    assert_eq!(
        format_json(
            Element::StringElement(String::from("a\"b\\c\nd")),
            Options::Compressed
        )
        .unwrap(),
        "\"a\\\"b\\\\c\\nd\""
    );
    assert_eq!(
        format_json(
            Element::StringElement(String::from("caf\u{e9}")),
            Options::Compressed
        )
        .unwrap(),
        "\"caf\\u00e9\""
    );
    assert_eq!(
        format_json(
            Element::StringElement(String::from("clef: \u{1d11e}")),
            Options::Compressed
        )
        .unwrap(),
        "\"clef: \u{1d11e}\""
    );
}

#[test]
fn compact_arrays_and_objects_use_commas() {
    let element = parse("[1, 2, [3]]");
    assert_eq!(
        format_json(element, Options::Compressed).unwrap(),
        "[1,2,[3]]"
    );
    let element = parse("{ \"a\": 1, \"b\": 2 }");
    assert_eq!(
        format_json(element, Options::Compressed).unwrap(),
        "{\"a\":1,\"b\":2}"
    );
}

#[test]
fn unresolved_nodes_are_rejected() {
    let err = format_json(parse("some_name"), Options::Compressed).unwrap_err();
    match err {
        Error::UnresolvedSymbol(kind, name, _) => {
            assert_eq!(kind, SymbolKind::Symbol);
            assert_eq!(name, "some_name");
        },
        other => panic!("expected unresolved symbol, got {:?}", other),
    }
    let err = format_json(parse("1 + 2"), Options::Compressed).unwrap_err();
    match err {
        Error::UnresolvedSymbol(kind, name, _) => {
            assert_eq!(kind, SymbolKind::Operator);
            assert_eq!(name, "+");
        },
        other => panic!("expected unresolved operator, got {:?}", other),
    }
    let err = format_json(parse("min(1, 2)"), Options::Compressed).unwrap_err();
    match err {
        Error::UnresolvedSymbol(kind, name, _) => {
            assert_eq!(kind, SymbolKind::Function);
            assert_eq!(name, "min");
        },
        other => panic!("expected unresolved function, got {:?}", other),
    }
}

#[test]
fn pretty_output_indents_entries() {
    let element = parse("{ \"a\": [1, 2], \"b\": 3 }");
    let expected = "{\n  \"a\": [\n    1,\n    2\n  ],\n  \"b\": 3\n}";
    assert_eq!(
        format_json(element, Options::Pretty { indentation: 2 }).unwrap(),
        expected
    );
}

#[test]
fn string_round_trip_through_serializer() {
    let samples = [
        "plain ascii",
        "tabs\tand\nnewlines\r",
        "quotes \" and backslashes \\ and slashes /",
        "control \u{1} \u{8} chars",
        "beyond latin: caf\u{e9} \u{4e16}\u{754c}",
        "beyond the plane: \u{10000} \u{1d11e} \u{1f600}",
    ];
    for sample in samples {
        let serialized = format_json(
            Element::StringElement(String::from(sample)),
            Options::Compressed,
        )
        .unwrap();
        let reparsed = parse(&serialized);
        assert_eq!(reparsed, Element::StringElement(String::from(sample)));
    }
}

#[test]
fn end_to_end_lowering_and_compact_output() {
    let mut processor: ElementProcessor<KeepElement, LerpFunction> = ElementProcessor::new();
    processor.add_binary_operator(BinaryOperator::new(
        String::from("+"),
        String::from("add"),
    ));
    processor.add_two_args_function(TwoArgsFunction::new_without_method_syntax(String::from(
        "min",
    )));

    let element = parse("{ \"a\": 1 + 2, \"b\": min(3, 4) }");
    let result = processor.process(element);
    assert!(result.errors.is_empty());
    let output = format_json(result.element.unwrap(), Options::Compressed).unwrap();
    assert_eq!(
        output,
        "{\"a\":{\"type\":\"minecraft:add\",\"argument1\":1,\"argument2\":2},\"b\":{\"type\":\"minecraft:min\",\"argument1\":3,\"argument2\":4}}"
    );
}

#[test]
fn pretty_empty_containers() {
    assert_eq!(
        format_json(Element::ArrayElement(vec![]), Options::Pretty { indentation: 2 })
            .unwrap(),
        "[\n]"
    );
    assert_eq!(
        format_json(Element::ObjectElement(vec![]), Options::Pretty { indentation: 2 })
            .unwrap(),
        "{\n}"
    );
}
