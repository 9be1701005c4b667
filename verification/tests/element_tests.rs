use worldgen_lang::element::{Element, ElementKind};

#[test]
fn kind_reports_every_variant() {
    assert_eq!(Element::NullElement.kind(), ElementKind::Null);
    assert_eq!(Element::BooleanElement(true).kind(), ElementKind::Boolean);
    assert_eq!(Element::IntElement(1).kind(), ElementKind::Int);
    assert_eq!(
        Element::FloatElement(String::from("1.5")).kind(),
        ElementKind::Float
    );
    assert_eq!(
        Element::StringElement(String::from("s")).kind(),
        ElementKind::String
    );
    assert_eq!(
        Element::NameElement(String::from("n")).kind(),
        ElementKind::Name
    );
    assert_eq!(Element::ArrayElement(vec![]).kind(), ElementKind::Array);
    assert_eq!(Element::ObjectElement(vec![]).kind(), ElementKind::Object);
}

#[test]
fn duplicate_makes_an_equal_tree() {
    let original = Element::ObjectElement(vec![
        (
            Element::StringElement(String::from("k")),
            Element::ArrayElement(vec![
                Element::IntElement(1),
                Element::FloatElement(String::from("2.5")),
                Element::NameElement(String::from("x")),
            ]),
        ),
        (
            Element::NameElement(String::from("f")),
            Element::FunctionCallElement {
                receiver: Some(Box::new(Element::IntElement(3))),
                name: String::from("abs"),
                arguments: Some(vec![Element::NullElement]),
            },
        ),
    ]);
    let copy = original.duplicate();
    assert_eq!(copy, original);
}
