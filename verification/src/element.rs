//! The `Element` tree: the AST produced by the parser and the data tree
//! consumed by the rewrite engine and the serializer.

use vstd::prelude::*;

use crate::parser::lexer::{LangToken, TokenModel};

verus! {

broadcast use vstd::seq::group_seq_axioms;

/// The kind of an `Element`, without its contents.
#[derive(Clone, Copy, Debug, PartialEq, Eq, Structural)]
pub enum ElementKind {
    Null,
    Boolean,
    Int,
    Float,
    String,
    Name,
    Array,
    Object,
    Binary,
    FunctionCall,
}

/// The mathematical model of an `Element` tree: strings are character
/// sequences, integers are unbounded, children are sequences of models.
pub enum ElementModel {
    Null,
    Boolean(bool),
    Int(int),
    /// A numeric literal kept as its verbatim source text.
    Float(Seq<char>),
    String(Seq<char>),
    Name(Seq<char>),
    Array(Seq<ElementModel>),
    Object(Seq<(ElementModel, ElementModel)>),
    Binary { left: Box<ElementModel>, operator: TokenModel, right: Box<ElementModel> },
    FunctionCall { receiver: Option<Box<ElementModel>>, name: Seq<char>, arguments: Option<Seq<ElementModel>> },
}

/// A node of the AST/data tree.  Data forms (`Null` through `Object`) are
/// JSON-compatible; `Name`, `Binary` and `FunctionCall` are expression forms
/// that only exist before and during processing.
///
/// A float literal is kept as its verbatim source text: the expression
/// sublanguage only carries such literals through to the output, it never
/// evaluates them.
#[derive(Debug, PartialEq)]
pub enum Element {
    NullElement,
    BooleanElement(bool),
    IntElement(i32),
    FloatElement(String),
    StringElement(String),
    NameElement(String),
    ArrayElement(Vec<Element>),
    ObjectElement(Vec<(Element, Element)>),
    BinaryElement { left: Box<Element>, operator: LangToken, right: Box<Element> },
    FunctionCallElement { receiver: Option<Box<Element>>, name: String, arguments: Option<Vec<Element>> },
}

impl View for Element {
    type V = ElementModel;

    open spec fn view(&self) -> ElementModel
        decreases self,
    {
        match self {
            Element::NullElement => ElementModel::Null,
            Element::BooleanElement(b) => ElementModel::Boolean(*b),
            Element::IntElement(i) => ElementModel::Int(*i as int),
            Element::FloatElement(t) => ElementModel::Float(t@),
            Element::StringElement(s) => ElementModel::String(s@),
            Element::NameElement(n) => ElementModel::Name(n@),
            Element::ArrayElement(v) => ElementModel::Array(view_elements(v@)),
            Element::ObjectElement(v) => ElementModel::Object(view_fields(v@)),
            Element::BinaryElement { left, operator, right } => ElementModel::Binary {
                left: Box::new((**left)@),
                operator: operator@,
                right: Box::new((**right)@),
            },
            Element::FunctionCallElement { receiver, name, arguments } =>
                ElementModel::FunctionCall {
                    receiver: match receiver {
                        Some(r) => Some(Box::new((**r)@)),
                        None => None,
                    },
                    name: name@,
                    arguments: match arguments {
                        Some(a) => Some(view_elements(a@)),
                        None => None,
                    },
                },
        }
    }
}

/// The models of a sequence of elements, in order.
pub open spec fn view_elements(s: Seq<Element>) -> Seq<ElementModel>
    decreases s,
{
    if s.len() == 0 {
        Seq::empty()
    } else {
        seq![s[0]@] + view_elements(s.drop_first())
    }
}

/// The models of a sequence of key/value element pairs, in order.
pub open spec fn view_fields(s: Seq<(Element, Element)>) -> Seq<(ElementModel, ElementModel)>
    decreases s,
{
    if s.len() == 0 {
        Seq::empty()
    } else {
        seq![(s[0].0@, s[0].1@)] + view_fields(s.drop_first())
    }
}

/// `view_elements` maps each element to its model.
pub broadcast proof fn lemma_view_elements(s: Seq<Element>)
    ensures
        (#[trigger] view_elements(s)).len() == s.len(),
        forall|i: int| 0 <= i < s.len() ==> view_elements(s)[i] == #[trigger] s[i]@,
    decreases s.len(),
{
    if s.len() > 0 {
        lemma_view_elements(s.drop_first());
        assert(view_elements(s) == seq![s[0]@] + view_elements(s.drop_first()));
        assert(view_elements(s).len() == 1 + view_elements(s.drop_first()).len());
        assert forall|i: int| 0 <= i < s.len() implies view_elements(s)[i] == #[trigger] s[i]@ by {
            if i > 0 {
                assert(view_elements(s) == seq![s[0]@] + view_elements(s.drop_first()));
                assert((seq![s[0]@] + view_elements(s.drop_first()))[i]
                    == view_elements(s.drop_first())[i - 1]);
                assert(s.drop_first()[i - 1] == s[i]);
            }
        }
    }
}

/// `view_fields` maps each pair to the pair of models.
pub broadcast proof fn lemma_view_fields(s: Seq<(Element, Element)>)
    ensures
        (#[trigger] view_fields(s)).len() == s.len(),
        forall|i: int|
            0 <= i < s.len() ==> view_fields(s)[i] == (#[trigger] s[i].0@, s[i].1@),
    decreases s.len(),
{
    if s.len() > 0 {
        lemma_view_fields(s.drop_first());
        assert(view_fields(s) == seq![(s[0].0@, s[0].1@)] + view_fields(s.drop_first()));
        assert(view_fields(s).len() == 1 + view_fields(s.drop_first()).len());
        assert forall|i: int|
            0 <= i < s.len() implies view_fields(s)[i] == (#[trigger] s[i].0@, s[i].1@) by {
            if i > 0 {
                assert(view_fields(s) == seq![(s[0].0@, s[0].1@)] + view_fields(s.drop_first()));
                assert((seq![(s[0].0@, s[0].1@)] + view_fields(s.drop_first()))[i]
                    == view_fields(s.drop_first())[i - 1]);
                assert(s.drop_first()[i - 1] == s[i]);
            }
        }
    }
}

/// Appending one element appends its model.
pub proof fn lemma_view_elements_push(s: Seq<Element>, e: Element)
    ensures
        view_elements(s.push(e)) == view_elements(s).push(e@),
{
    lemma_view_elements(s);
    lemma_view_elements(s.push(e));
    assert forall|i: int| 0 <= i < s.len() + 1 implies view_elements(s.push(e))[i]
        == view_elements(s).push(e@)[i] by {
        assert(view_elements(s.push(e))[i] == s.push(e)[i]@);
        if i < s.len() {
            assert(s.push(e)[i] == s[i]);
            assert(view_elements(s)[i] == s[i]@);
        } else {
            assert(s.push(e)[i] == e);
        }
    }
    assert(view_elements(s.push(e)) =~= view_elements(s).push(e@));
}

/// Appending one pair appends the pair of models.
pub proof fn lemma_view_fields_push(s: Seq<(Element, Element)>, p: (Element, Element))
    ensures
        view_fields(s.push(p)) == view_fields(s).push((p.0@, p.1@)),
{
    lemma_view_fields(s);
    lemma_view_fields(s.push(p));
    assert forall|i: int| 0 <= i < s.len() + 1 implies view_fields(s.push(p))[i]
        == view_fields(s).push((p.0@, p.1@))[i] by {
        assert(view_fields(s.push(p))[i] == (s.push(p)[i].0@, s.push(p)[i].1@));
        if i < s.len() {
            assert(s.push(p)[i] == s[i]);
            assert(view_fields(s)[i] == (s[i].0@, s[i].1@));
        } else {
            assert(s.push(p)[i] == p);
        }
    }
    assert(view_fields(s.push(p)) =~= view_fields(s).push((p.0@, p.1@)));
}

/// Whether a tree holds only the data forms — no name, binary or call node
/// anywhere in it.
pub open spec fn spec_is_plain_data(e: ElementModel) -> bool
    decreases e, 0int,
{
    match e {
        ElementModel::Array(items) => spec_all_plain_items(items),
        ElementModel::Object(fields) => spec_all_plain_fields(fields),
        ElementModel::Name(_) => false,
        ElementModel::Binary { .. } => false,
        ElementModel::FunctionCall { .. } => false,
        _ => true,
    }
}

/// Whether every element of the sequence is plain data.
pub open spec fn spec_all_plain_items(s: Seq<ElementModel>) -> bool
    decreases s, 1int,
{
    s.len() == 0 || (spec_is_plain_data(s[0]) && spec_all_plain_items(s.drop_first()))
}

/// Whether both sides of every pair are plain data.
pub open spec fn spec_all_plain_fields(s: Seq<(ElementModel, ElementModel)>) -> bool
    decreases s, 1int,
{
    s.len() == 0 || (spec_is_plain_data(s[0].0) && spec_is_plain_data(s[0].1)
        && spec_all_plain_fields(s.drop_first()))
}

/// How deeply a tree nests: zero for a leaf, one more than the deepest
/// child for a composite node.
pub open spec fn spec_nesting(e: ElementModel) -> int
    decreases e, 0int,
{
    match e {
        ElementModel::Array(items) => 1 + spec_items_nesting(items),
        ElementModel::Object(fields) => 1 + spec_fields_nesting(fields),
        ElementModel::Binary { left, operator, right } => {
            let hl = spec_nesting(*left);
            let hr = spec_nesting(*right);
            1 + if hl >= hr {
                hl
            } else {
                hr
            }
        },
        ElementModel::FunctionCall { receiver, name, arguments } => {
            let hr = match receiver {
                Option::Some(r) => spec_nesting(*r),
                Option::None => 0,
            };
            let ha = match arguments {
                Option::Some(args) => spec_items_nesting(args),
                Option::None => 0,
            };
            1 + if hr >= ha {
                hr
            } else {
                ha
            }
        },
        _ => 0,
    }
}

/// The deepest nesting among the elements of a sequence.
pub open spec fn spec_items_nesting(s: Seq<ElementModel>) -> int
    decreases s, 1int,
{
    if s.len() == 0 {
        0
    } else {
        let h0 = spec_nesting(s[0]);
        let hr = spec_items_nesting(s.drop_first());
        if h0 >= hr {
            h0
        } else {
            hr
        }
    }
}

/// The deepest nesting among the sides of a sequence of pairs.
pub open spec fn spec_fields_nesting(s: Seq<(ElementModel, ElementModel)>) -> int
    decreases s, 1int,
{
    if s.len() == 0 {
        0
    } else {
        let hk = spec_nesting(s[0].0);
        let hv = spec_nesting(s[0].1);
        let h0 = if hk >= hv {
            hk
        } else {
            hv
        };
        let hr = spec_fields_nesting(s.drop_first());
        if h0 >= hr {
            h0
        } else {
            hr
        }
    }
}

/// Nesting is never negative.
pub proof fn lemma_nesting_nonneg(e: ElementModel)
    ensures
        spec_nesting(e) >= 0,
    decreases e, 0int,
{
    match e {
        ElementModel::Array(items) => lemma_items_nesting_nonneg(items),
        ElementModel::Object(fields) => lemma_fields_nesting_nonneg(fields),
        ElementModel::Binary { left, operator, right } => {
            lemma_nesting_nonneg(*left);
            lemma_nesting_nonneg(*right);
        },
        ElementModel::FunctionCall { receiver, name, arguments } => {
            match receiver {
                Option::Some(r) => lemma_nesting_nonneg(*r),
                Option::None => {},
            }
            match arguments {
                Option::Some(args) => lemma_items_nesting_nonneg(args),
                Option::None => {},
            }
        },
        _ => {},
    }
}

proof fn lemma_items_nesting_nonneg(s: Seq<ElementModel>)
    ensures
        spec_items_nesting(s) >= 0,
    decreases s, 1int,
{
    if s.len() > 0 {
        lemma_nesting_nonneg(s[0]);
        lemma_items_nesting_nonneg(s.drop_first());
    }
}

proof fn lemma_fields_nesting_nonneg(s: Seq<(ElementModel, ElementModel)>)
    ensures
        spec_fields_nesting(s) >= 0,
    decreases s, 1int,
{
    if s.len() > 0 {
        lemma_nesting_nonneg(s[0].0);
        lemma_nesting_nonneg(s[0].1);
        lemma_fields_nesting_nonneg(s.drop_first());
    }
}

impl ElementModel {
    /// The kind of the modelled node.
    pub open spec fn kind(self) -> ElementKind {
        match self {
            ElementModel::Null => ElementKind::Null,
            ElementModel::Boolean(_) => ElementKind::Boolean,
            ElementModel::Int(_) => ElementKind::Int,
            ElementModel::Float(_) => ElementKind::Float,
            ElementModel::String(_) => ElementKind::String,
            ElementModel::Name(_) => ElementKind::Name,
            ElementModel::Array(_) => ElementKind::Array,
            ElementModel::Object(_) => ElementKind::Object,
            ElementModel::Binary { .. } => ElementKind::Binary,
            ElementModel::FunctionCall { .. } => ElementKind::FunctionCall,
        }
    }
}

impl Element {
    /// A deep copy of this node: a tree with the same model.
    #[verifier::loop_isolation(false)]
    pub fn duplicate(&self) -> (r: Element)
        ensures
            r@ == self@,
        decreases self,
    {
        match self {
            Element::NullElement => Element::NullElement,
            Element::BooleanElement(b) => Element::BooleanElement(*b),
            Element::IntElement(i) => Element::IntElement(*i),
            Element::FloatElement(t) => Element::FloatElement(crate::util::string_from_str(
                t.as_str())),
            Element::StringElement(s) => Element::StringElement(crate::util::string_from_str(
                s.as_str())),
            Element::NameElement(n) => Element::NameElement(crate::util::string_from_str(
                n.as_str())),
            Element::ArrayElement(values) => {
                let mut out: Vec<Element> = Vec::new();
                let mut i: usize = 0;
                proof {
                    lemma_view_elements(values@);
                    lemma_view_elements(out@);
                }
                while i < values.len()
                    invariant
                        0 <= i <= values@.len(),
                        view_elements(out@) == view_elements(values@).take(i as int),
                    decreases values@.len() - i,
                {
                    let ghost out_pre = out@;
                    proof {
                        assert(decreases_to!(*self => *values));
                        assert(decreases_to!(*values => values@));
                        assert(decreases_to!(values@ => values@[i as int]));
                    }
                    out.push(values[i].duplicate());
                    i = i + 1;
                    proof {
                        lemma_view_elements_push(out_pre, out@.last());
                        assert(out@ == out_pre.push(out@.last()));
                        lemma_view_elements(values@);
                        assert(view_elements(values@).take(i as int)
                            =~= view_elements(values@).take(i - 1).push(
                            view_elements(values@)[i - 1]));
                    }
                }
                proof {
                    lemma_view_elements(values@);
                    assert(view_elements(values@).take(values@.len() as int) =~= view_elements(
                        values@));
                }
                Element::ArrayElement(out)
            },
            Element::ObjectElement(fields) => {
                let mut out: Vec<(Element, Element)> = Vec::new();
                let mut i: usize = 0;
                proof {
                    lemma_view_fields(fields@);
                    lemma_view_fields(out@);
                }
                while i < fields.len()
                    invariant
                        0 <= i <= fields@.len(),
                        view_fields(out@) == view_fields(fields@).take(i as int),
                    decreases fields@.len() - i,
                {
                    let ghost out_pre = out@;
                    proof {
                        assert(decreases_to!(*self => *fields));
                        assert(decreases_to!(*fields => fields@));
                        assert(decreases_to!(fields@ => fields@[i as int]));
                        assert(decreases_to!(fields@[i as int] => fields@[i as int].0));
                        assert(decreases_to!(fields@[i as int] => fields@[i as int].1));
                    }
                    let pair = (fields[i].0.duplicate(), fields[i].1.duplicate());
                    out.push(pair);
                    i = i + 1;
                    proof {
                        lemma_view_fields_push(out_pre, out@.last());
                        assert(out@ == out_pre.push(out@.last()));
                        lemma_view_fields(fields@);
                        assert(view_fields(fields@).take(i as int)
                            =~= view_fields(fields@).take(i - 1).push(
                            view_fields(fields@)[i - 1]));
                    }
                }
                proof {
                    lemma_view_fields(fields@);
                    assert(view_fields(fields@).take(fields@.len() as int) =~= view_fields(
                        fields@));
                }
                Element::ObjectElement(out)
            },
            Element::BinaryElement { left, operator, right } => Element::BinaryElement {
                left: Box::new(left.duplicate()),
                operator: crate::parser::lexer::LangToken::new(operator.token_type(),
                    crate::util::string_from_str(operator.text()), *operator.pos()),
                right: Box::new(right.duplicate()),
            },
            Element::FunctionCallElement { receiver, name, arguments } => {
                let receiver2 = match receiver {
                    Some(r0) => Some(Box::new(r0.duplicate())),
                    None => None,
                };
                let arguments2 = match arguments {
                    Some(args) => {
                        let mut out: Vec<Element> = Vec::new();
                        let mut i: usize = 0;
                        proof {
                            lemma_view_elements(args@);
                            lemma_view_elements(out@);
                        }
                        while i < args.len()
                            invariant
                                0 <= i <= args@.len(),
                                view_elements(out@) == view_elements(args@).take(i as int),
                            decreases args@.len() - i,
                        {
                            let ghost out_pre = out@;
                            proof {
                                assert(decreases_to!(*self => *args));
                                assert(decreases_to!(*args => args@));
                                assert(decreases_to!(args@ => args@[i as int]));
                            }
                            out.push(args[i].duplicate());
                            i = i + 1;
                            proof {
                                lemma_view_elements_push(out_pre, out@.last());
                                assert(out@ == out_pre.push(out@.last()));
                                lemma_view_elements(args@);
                                assert(view_elements(args@).take(i as int)
                                    =~= view_elements(args@).take(i - 1).push(
                                    view_elements(args@)[i - 1]));
                            }
                        }
                        proof {
                            lemma_view_elements(args@);
                            assert(view_elements(args@).take(args@.len() as int)
                                =~= view_elements(args@));
                        }
                        Some(out)
                    },
                    None => None,
                };
                Element::FunctionCallElement {
                    receiver: receiver2,
                    name: crate::util::string_from_str(name.as_str()),
                    arguments: arguments2,
                }
            },
        }
    }

    /// The kind of this node.
    pub fn kind(&self) -> (k: ElementKind)
        ensures
            k == self@.kind(),
    {
        match self {
            Element::NullElement => ElementKind::Null,
            Element::BooleanElement(_) => ElementKind::Boolean,
            Element::IntElement(_) => ElementKind::Int,
            Element::FloatElement(_) => ElementKind::Float,
            Element::StringElement(_) => ElementKind::String,
            Element::NameElement(_) => ElementKind::Name,
            Element::ArrayElement(_) => ElementKind::Array,
            Element::ObjectElement(_) => ElementKind::Object,
            Element::BinaryElement { .. } => ElementKind::Binary,
            Element::FunctionCallElement { .. } => ElementKind::FunctionCall,
        }
    }
}

} // verus!
