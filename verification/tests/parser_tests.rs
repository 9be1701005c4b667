use worldgen_lang::element::Element;
use worldgen_lang::parser::lexer::{LangLexer, LangTokenType};
use worldgen_lang::parser::{LangParser, ParseError, Precedence};

fn parse(source: &str) -> Result<Element, ParseError> {
    let lexer = LangLexer::new(source);
    let mut parser = LangParser::new(lexer);
    parser.parse_full()
}

fn int_elem(value: i32) -> Element {
    Element::IntElement(value)
}

#[test]
fn parses_literals() {
    assert_eq!(parse("null").unwrap(), Element::NullElement);
    assert_eq!(parse("true").unwrap(), Element::BooleanElement(true));
    assert_eq!(parse("false").unwrap(), Element::BooleanElement(false));
    assert_eq!(parse("42").unwrap(), Element::IntElement(42));
    assert_eq!(parse("-7").unwrap(), Element::IntElement(-7));
    assert_eq!(
        parse("\"hi\\nthere\"").unwrap(),
        Element::StringElement(String::from("hi\nthere"))
    );
}

#[test]
fn large_integer_falls_back_to_float_text() {
    assert_eq!(
        parse("2147483648").unwrap(),
        Element::FloatElement(String::from("2147483648"))
    );
    assert_eq!(parse("2147483647").unwrap(), Element::IntElement(2147483647));
    assert_eq!(parse("-2147483648").unwrap(), Element::IntElement(-2147483648));
    assert_eq!(
        parse("384.1").unwrap(),
        Element::FloatElement(String::from("384.1"))
    );
}

#[test]
fn multiplication_binds_tighter_than_addition() {
    let element = parse("1 + 2 * 3").unwrap();
    match element {
        Element::BinaryElement { left, operator, right } => {
            assert_eq!(*left, int_elem(1));
            assert_eq!(operator.text(), "+");
            match *right {
                Element::BinaryElement { left: l2, operator: op2, right: r2 } => {
                    assert_eq!(*l2, int_elem(2));
                    assert_eq!(op2.text(), "*");
                    assert_eq!(*r2, int_elem(3));
                },
                other => panic!("expected inner binary, got {:?}", other),
            }
        },
        other => panic!("expected binary, got {:?}", other),
    }
}

#[test]
fn subtraction_chains_left_to_right() {
    let element = parse("1 - 2 - 3").unwrap();
    match element {
        Element::BinaryElement { left, operator, right } => {
            assert_eq!(operator.text(), "-");
            assert_eq!(*right, int_elem(3));
            match *left {
                Element::BinaryElement { left: l2, operator: op2, right: r2 } => {
                    assert_eq!(*l2, int_elem(1));
                    assert_eq!(op2.text(), "-");
                    assert_eq!(*r2, int_elem(2));
                },
                other => panic!("expected inner binary, got {:?}", other),
            }
        },
        other => panic!("expected binary, got {:?}", other),
    }
}

#[test]
fn bare_name_keys_differ_from_string_keys() {
    let bare = parse("{ foo: 1 }").unwrap();
    assert_eq!(
        bare,
        Element::ObjectElement(vec![(
            Element::NameElement(String::from("foo")),
            Element::IntElement(1)
        )])
    );
    let quoted = parse("{ \"foo\": 1 }").unwrap();
    assert_eq!(
        quoted,
        Element::ObjectElement(vec![(
            Element::StringElement(String::from("foo")),
            Element::IntElement(1)
        )])
    );
}

#[test]
fn arrays_and_trailing_commas() {
    let element = parse("[1, 2, 3,]").unwrap();
    assert_eq!(
        element,
        Element::ArrayElement(vec![int_elem(1), int_elem(2), int_elem(3)])
    );
    assert_eq!(parse("[]").unwrap(), Element::ArrayElement(vec![]));
}

#[test]
fn missing_comma_is_an_error() {
    let err = parse("[1 2]").unwrap_err();
    assert!(matches!(
        err,
        ParseError::ExpectedToken { expected: LangTokenType::Comma, .. }
    ));
}

#[test]
fn groups_are_transparent() {
    assert_eq!(parse("(5)").unwrap(), int_elem(5));
}

#[test]
fn function_call_on_name() {
    let element = parse("min(3, 4)").unwrap();
    assert_eq!(
        element,
        Element::FunctionCallElement {
            receiver: None,
            name: String::from("min"),
            arguments: Some(vec![int_elem(3), int_elem(4)]),
        }
    );
}

#[test]
fn call_parens_on_non_name_are_an_error() {
    let err = parse("5(1)").unwrap_err();
    assert!(matches!(
        err,
        ParseError::UnexpectedElement { expected: LangTokenType::Name, .. }
    ));
}

#[test]
fn method_call_and_member_access() {
    let call = parse("x.square()").unwrap();
    assert_eq!(
        call,
        Element::FunctionCallElement {
            receiver: Some(Box::new(Element::NameElement(String::from("x")))),
            name: String::from("square"),
            arguments: Some(vec![]),
        }
    );
    let access = parse("x.field").unwrap();
    assert_eq!(
        access,
        Element::FunctionCallElement {
            receiver: Some(Box::new(Element::NameElement(String::from("x")))),
            name: String::from("field"),
            arguments: None,
        }
    );
}

#[test]
fn trailing_input_is_an_error() {
    let err = parse("1 2").unwrap_err();
    assert!(matches!(
        err,
        ParseError::ExpectedToken { expected: LangTokenType::Eof, .. }
    ));
}

#[test]
fn empty_input_is_an_error() {
    let err = parse("").unwrap_err();
    assert!(matches!(err, ParseError::UnexpectedEof));
}

#[test]
fn bad_escape_surfaces_as_parse_error() {
    let err = parse("\"bad \\q escape\"").unwrap_err();
    assert!(matches!(err, ParseError::UnexpectedCharacter(_, 'q')));
}

#[test]
fn parse_element_consumes_one_primary() {
    let lexer = LangLexer::new("1 + 2");
    let mut parser = LangParser::new(lexer);
    assert_eq!(parser.parse_element().unwrap(), int_elem(1));
}

#[test]
fn parse_precedence_respects_the_floor() {
    let lexer = LangLexer::new("1 + 2");
    let mut parser = LangParser::new(lexer);
    let element = parser.parse_precedence(Precedence::Sum).unwrap();
    assert_eq!(element, int_elem(1));
}

#[test]
fn nested_structures_parse() {
    let element = parse("{ a: [1, { b: 2 }], c: min(1, 2) }").unwrap();
    match element {
        Element::ObjectElement(fields) => assert_eq!(fields.len(), 2),
        other => panic!("expected object, got {:?}", other),
    }
}
