use worldgen_lang::element::Element;
use worldgen_lang::process::{
    process_functions, process_operators, KeepElement, LerpFunction, NameGuard,
};
use worldgen_lang::processor::{
    BinaryOperator, CustomThreeArgsFunction, ElementProcessor, NoArgFunction, OneArgFunction,
    ProcessError, ProcessWarning, TwoArgsFunction,
};
use worldgen_lang::parser::lexer::LangLexer;
use worldgen_lang::parser::LangParser;

type Processor = ElementProcessor<NameGuard, LerpFunction>;
type PlainProcessor = ElementProcessor<KeepElement, LerpFunction>;

fn parse(source: &str) -> Element {
    let lexer = LangLexer::new(source);
    let mut parser = LangParser::new(lexer);
    parser.parse_full().expect("parse failed")
}

fn type_object(type_value: &str) -> Vec<(Element, Element)> {
    vec![(
        Element::StringElement(String::from("type")),
        Element::StringElement(String::from(type_value)),
    )]
}

#[test]
fn no_arg_symbol_form_is_lowered() {
    let mut processor: PlainProcessor = ElementProcessor::new();
    processor.add_no_arg_function(NoArgFunction::new_with_allow_as_symbol(
        String::from("end_islands"),
        true,
    ));
    let result = processor.process(Element::NameElement(String::from("end_islands")));
    assert_eq!(
        result.element,
        Some(Element::ObjectElement(type_object("minecraft:end_islands")))
    );
    assert!(result.errors.is_empty() && result.warnings.is_empty());
}

#[test]
fn no_arg_without_symbol_form_passes_through() {
    let mut processor: PlainProcessor = ElementProcessor::new();
    processor.add_no_arg_function(NoArgFunction::new(String::from("end_islands")));
    let result = processor.process(Element::NameElement(String::from("end_islands")));
    assert_eq!(
        result.element,
        Some(Element::NameElement(String::from("end_islands")))
    );
}

#[test]
fn arity_based_dispatch_matches_method_syntax() {
    let mut processor: PlainProcessor = ElementProcessor::new();
    processor.add_one_arg_function(OneArgFunction::new_with_method_syntax(String::from(
        "square",
    )));

    let plain = processor.process(parse("square(x)"));
    let method = processor.process(parse("x.square()"));
    let expected = Element::ObjectElement(vec![
        (
            Element::StringElement(String::from("type")),
            Element::StringElement(String::from("minecraft:square")),
        ),
        (
            Element::StringElement(String::from("argument")),
            Element::NameElement(String::from("x")),
        ),
    ]);
    assert_eq!(plain.element, Some(expected.duplicate()));
    assert_eq!(method.element, Some(expected));
}

#[test]
fn binary_operator_is_lowered() {
    let mut processor: PlainProcessor = ElementProcessor::new();
    processor.add_binary_operator(BinaryOperator::new(
        String::from("+"),
        String::from("add"),
    ));
    let result = processor.process(parse("1 + 2"));
    assert_eq!(
        result.element,
        Some(Element::ObjectElement(vec![
            (
                Element::StringElement(String::from("type")),
                Element::StringElement(String::from("minecraft:add")),
            ),
            (
                Element::StringElement(String::from("argument1")),
                Element::IntElement(1),
            ),
            (
                Element::StringElement(String::from("argument2")),
                Element::IntElement(2),
            ),
        ]))
    );
}

#[test]
fn registration_order_decides_first_match() {
    let mut processor: PlainProcessor = ElementProcessor::new();
    processor.add_one_arg_function(OneArgFunction::new_with_config(
        String::from("f"),
        String::from("first"),
        String::from("argument"),
        false,
    ));
    processor.add_one_arg_function(OneArgFunction::new_with_config(
        String::from("f"),
        String::from("second"),
        String::from("argument"),
        false,
    ));
    let result = processor.process(parse("f(1)"));
    match result.element.unwrap() {
        Element::ObjectElement(fields) => {
            assert_eq!(
                fields[0].1,
                Element::StringElement(String::from("first:f"))
            );
        },
        other => panic!("expected object, got {:?}", other),
    }
}

#[test]
fn custom_three_args_function_runs_the_builder() {
    let mut processor: PlainProcessor = ElementProcessor::new();
    processor.add_custom_three_args_function(CustomThreeArgsFunction::new(
        String::from("lerp"),
        LerpFunction,
    ));
    let result = processor.process(parse("lerp(a, b, c)"));
    let element = result.element.expect("expected an element");
    match element {
        Element::ObjectElement(fields) => {
            assert_eq!(
                fields[0].1,
                Element::StringElement(String::from("minecraft:add"))
            );
            assert_eq!(fields.len(), 3);
        },
        other => panic!("expected object, got {:?}", other),
    }
}

#[test]
fn children_of_lowered_nodes_are_processed() {
    let mut processor: PlainProcessor = ElementProcessor::new();
    processor.add_two_args_function(TwoArgsFunction::new_without_method_syntax(String::from(
        "min",
    )));
    processor.add_one_arg_function(OneArgFunction::new_with_method_syntax(String::from(
        "abs",
    )));
    let result = processor.process(parse("min(abs(x), 2)"));
    let element = result.element.unwrap();
    match element {
        Element::ObjectElement(fields) => match &fields[1].1 {
            Element::ObjectElement(inner) => {
                assert_eq!(
                    inner[0].1,
                    Element::StringElement(String::from("minecraft:abs"))
                );
            },
            other => panic!("expected nested object, got {:?}", other),
        },
        other => panic!("expected object, got {:?}", other),
    }
}

#[test]
fn abort_in_an_array_keeps_earlier_diagnostics() {
    let mut processor: Processor = ElementProcessor::new();
    processor.add_postprocessor(NameGuard {
        reject: String::from("broken"),
        suspect: String::from("odd"),
    });
    let input = Element::ArrayElement(vec![
        Element::NameElement(String::from("odd")),
        Element::NameElement(String::from("broken")),
        Element::IntElement(1),
    ]);
    let result = processor.process(input);
    assert!(result.element.is_none());
    assert_eq!(
        result.warnings,
        vec![ProcessWarning::UnresolvedName(String::from("odd"))]
    );
    assert_eq!(
        result.errors,
        vec![ProcessError::UnresolvedName(String::from("broken"))]
    );
}

#[test]
fn soft_failure_keeps_element_and_error() {
    let result = process_operators(parse("1 - 2"));
    assert!(result.element.is_some());
    assert_eq!(
        result.errors,
        vec![ProcessError::UnknownOperator(String::from("-"))]
    );
}

#[test]
fn process_operators_lowers_add_and_mul() {
    let result = process_operators(parse("1 + 2"));
    match result.element.unwrap() {
        Element::ObjectElement(fields) => {
            assert_eq!(
                fields[0].1,
                Element::StringElement(String::from("minecraft:add"))
            );
        },
        other => panic!("expected object, got {:?}", other),
    }
    let result = process_operators(parse("1 * 2"));
    match result.element.unwrap() {
        Element::ObjectElement(fields) => {
            assert_eq!(
                fields[0].1,
                Element::StringElement(String::from("minecraft:mul"))
            );
        },
        other => panic!("expected object, got {:?}", other),
    }
}

#[test]
fn process_functions_lowers_min_and_abs() {
    let result = process_functions(parse("min(3, 4)"));
    match result.element.unwrap() {
        Element::ObjectElement(fields) => {
            assert_eq!(
                fields[0].1,
                Element::StringElement(String::from("minecraft:min"))
            );
            assert_eq!(fields[1].1, Element::IntElement(3));
            assert_eq!(fields[2].1, Element::IntElement(4));
        },
        other => panic!("expected object, got {:?}", other),
    }
    let result = process_functions(parse("x.abs()"));
    match result.element.unwrap() {
        Element::ObjectElement(fields) => {
            assert_eq!(
                fields[0].1,
                Element::StringElement(String::from("minecraft:abs"))
            );
        },
        other => panic!("expected object, got {:?}", other),
    }
}

#[test]
fn unmatched_calls_pass_through() {
    let mut processor: PlainProcessor = ElementProcessor::new();
    let input = parse("unknown(1)");
    let result = processor.process(input);
    assert_eq!(
        result.element,
        Some(Element::FunctionCallElement {
            receiver: None,
            name: String::from("unknown"),
            arguments: Some(vec![Element::IntElement(1)]),
        })
    );
}

#[test]
fn registry_getters_report_the_configuration() {
    let f = OneArgFunction::new_with_method_syntax(String::from("square"));
    assert_eq!(f.name(), "square");
    assert_eq!(f.namespace(), "minecraft");
    assert_eq!(f.argument_key(), "argument");
    assert!(f.allow_method_syntax());

    let op = BinaryOperator::new(String::from("+"), String::from("add"));
    assert_eq!(op.name(), "+");
    assert_eq!(op.internal_name(), "add");
    assert_eq!(op.argument1_key(), "argument1");
    assert_eq!(op.argument2_key(), "argument2");

    let two = TwoArgsFunction::new_without_method_syntax(String::from("min"));
    assert!(!two.allow_method_syntax());

    let zero = NoArgFunction::new(String::from("beardifier"));
    assert!(!zero.allow_as_symbol());
}

#[test]
fn abort_of_a_method_receiver_propagates() {
    let mut processor: Processor = ElementProcessor::new();
    processor.add_postprocessor(NameGuard {
        reject: String::from("broken"),
        suspect: String::from("odd"),
    });
    let input = Element::FunctionCallElement {
        receiver: Some(Box::new(Element::NameElement(String::from("broken")))),
        name: String::from("f"),
        arguments: Some(vec![Element::IntElement(1)]),
    };
    let result = processor.process(input);
    assert!(result.element.is_none());
    assert_eq!(
        result.errors,
        vec![ProcessError::UnresolvedName(String::from("broken"))]
    );
    assert!(result.warnings.is_empty());
}

#[test]
fn plain_data_passes_through_unchanged() {
    let processor: PlainProcessor = ElementProcessor::new();
    let input = parse("{ \"a\": [1, 2.5, \"s\"], \"b\": { \"c\": [true, null] } }");
    let expected = input.duplicate();
    let result = processor.process(input);
    assert_eq!(result.element, Some(expected));
    assert!(result.warnings.is_empty() && result.errors.is_empty());
}

#[test]
fn trees_beyond_the_depth_guard_are_rejected() {
    let processor: PlainProcessor = ElementProcessor::new();
    let mut tree = Element::IntElement(1);
    for _ in 0..1100 {
        tree = Element::ArrayElement(vec![tree]);
    }
    let result = processor.process(tree);
    assert!(result.element.is_none());
    assert_eq!(result.errors, vec![ProcessError::RecursionLimit]);
}
