//! Ready-made rewriting hooks: free functions lowering the built-in
//! operators and functions directly, and transformer types that plug into an
//! `ElementProcessor`.

use vstd::prelude::*;

use crate::element::{Element, ElementModel};
use crate::processor::{
    spec_lowered1, spec_lowered2, make_lowered1, make_lowered2, ElementTransformer,
    ThreeArgsTransformer, ProcessError, ProcessResult, ProcessWarning,
};
use crate::processor::result::{ErrorModel, ResultModel, WarningModel};

verus! {

broadcast use vstd::seq::group_seq_axioms;

/// What `process_operators` turns one node into: `+` and `*` become their
/// lowered objects, `-` becomes its lowered object next to an
/// `UnknownOperator` error (a soft failure), everything else passes through.
pub open spec fn spec_process_operators(e: ElementModel) -> ResultModel {
    match e {
        ElementModel::Binary { left, operator, right } => if operator.text == "+"@ {
            ResultModel::of_element(spec_lowered2("minecraft"@, "add"@, "argument1"@,
                "argument2"@, *left, *right))
        } else if operator.text == "-"@ {
            ResultModel {
                element: Option::Some(spec_lowered2("minecraft"@, "subtract"@, "argument1"@,
                    "argument2"@, *left, *right)),
                warnings: Seq::empty(),
                errors: seq![ErrorModel::UnknownOperator("-"@)],
            }
        } else if operator.text == "*"@ {
            ResultModel::of_element(spec_lowered2("minecraft"@, "mul"@, "argument1"@,
                "argument2"@, *left, *right))
        } else {
            ResultModel::of_element(e)
        },
        _ => ResultModel::of_element(e),
    }
}

/// Lowers the built-in binary operators without a registry: `+` to an `add`
/// object, `*` to a `mul` object, and `-` to a `subtract` object flagged
/// with an `UnknownOperator` error.
pub fn process_operators(element: Element) -> (r: ProcessResult)
    ensures
        r@ == spec_process_operators(element@),
{
    match element {
        Element::BinaryElement { left, operator, right } => {
            if crate::util::str_eq(operator.text(), "+") {
                ProcessResult::from_element(make_lowered2("minecraft", "add", "argument1",
                    "argument2", *left, *right))
            } else if crate::util::str_eq(operator.text(), "-") {
                let mut errors: Vec<ProcessError> = Vec::new();
                errors.push(ProcessError::UnknownOperator(crate::util::string_from_str("-")));
                proof {
                    crate::processor::result::lemma_view_errors(errors@);
                    assert(crate::processor::result::view_errors(errors@) =~= seq![
                        ErrorModel::UnknownOperator("-"@),
                    ]);
                }
                ProcessResult::new(make_lowered2("minecraft", "subtract", "argument1",
                    "argument2", *left, *right), Vec::new(), errors)
            } else if crate::util::str_eq(operator.text(), "*") {
                ProcessResult::from_element(make_lowered2("minecraft", "mul", "argument1",
                    "argument2", *left, *right))
            } else {
                ProcessResult::from_element(Element::BinaryElement { left, operator, right })
            }
        },
        other => ProcessResult::from_element(other),
    }
}

/// Whether `n` is one of the built-in one-argument function names.
pub open spec fn spec_is_builtin_unary(n: Seq<char>) -> bool {
    n == "interpolated"@ || n == "flat_cache"@ || n == "cache_2d"@ || n == "cache_once"@
        || n == "cache_all_in_cell"@ || n == "abs"@
}

fn is_builtin_unary(n: &str) -> (r: bool)
    ensures
        r == spec_is_builtin_unary(n@),
{
    crate::util::str_eq(n, "interpolated") || crate::util::str_eq(n, "flat_cache")
        || crate::util::str_eq(n, "cache_2d") || crate::util::str_eq(n, "cache_once")
        || crate::util::str_eq(n, "cache_all_in_cell") || crate::util::str_eq(n, "abs")
}

/// What `process_functions` turns one node into: `min` and `max` calls of
/// two arguments and the built-in unary functions (in plain or method form)
/// become their lowered objects; everything else passes through.
pub open spec fn spec_process_functions(e: ElementModel) -> ResultModel {
    match e {
        ElementModel::FunctionCall {
            receiver: Option::None,
            name,
            arguments: Option::Some(args),
        } => if args.len() == 2 && (name == "min"@ || name == "max"@) {
            ResultModel::of_element(spec_lowered2("minecraft"@, name, "argument1"@,
                "argument2"@, args[0], args[1]))
        } else if args.len() == 1 && spec_is_builtin_unary(name) {
            ResultModel::of_element(spec_lowered1("minecraft"@, name, "argument"@, args[0]))
        } else {
            ResultModel::of_element(e)
        },
        ElementModel::FunctionCall {
            receiver: Option::Some(receiver),
            name,
            arguments: Option::Some(args),
        } => if args.len() == 0 && spec_is_builtin_unary(name) {
            ResultModel::of_element(spec_lowered1("minecraft"@, name, "argument"@, *receiver))
        } else {
            ResultModel::of_element(e)
        },
        _ => ResultModel::of_element(e),
    }
}

/// Lowers the built-in functions without a registry: two-argument `min` and
/// `max`, and the built-in unary functions in plain or method form.
pub fn process_functions(element: Element) -> (r: ProcessResult)
    ensures
        r@ == spec_process_functions(element@),
{
    match element {
        Element::FunctionCallElement { receiver: None, name, arguments: Some(mut args) } => {
            proof {
                crate::element::lemma_view_elements(args@);
            }
            if args.len() == 2 && (crate::util::str_eq(name.as_str(), "min")
                || crate::util::str_eq(name.as_str(), "max")) {
                let ghost args0 = args@;
                let arg1 = args.remove(0);
                let arg2 = args.remove(0);
                proof {
                    assert(args0.drop_first()[0] == args0[1]);
                }
                ProcessResult::from_element(make_lowered2("minecraft", name.as_str(),
                    "argument1", "argument2", arg1, arg2))
            } else if args.len() == 1 && is_builtin_unary(name.as_str()) {
                let arg1 = args.remove(0);
                ProcessResult::from_element(make_lowered1("minecraft", name.as_str(),
                    "argument", arg1))
            } else {
                ProcessResult::from_element(Element::FunctionCallElement {
                    receiver: None,
                    name,
                    arguments: Some(args),
                })
            }
        },
        Element::FunctionCallElement { receiver: Some(receiver), name, arguments: Some(
            args) } => {
            proof {
                crate::element::lemma_view_elements(args@);
            }
            if args.len() == 0 && is_builtin_unary(name.as_str()) {
                ProcessResult::from_element(make_lowered1("minecraft", name.as_str(),
                    "argument", *receiver))
            } else {
                ProcessResult::from_element(Element::FunctionCallElement {
                    receiver: Some(receiver),
                    name,
                    arguments: Some(args),
                })
            }
        },
        other => ProcessResult::from_element(other),
    }
}

/// A hook that changes nothing: every element passes through untouched.
pub struct KeepElement;

impl ElementTransformer for KeepElement {
    open spec fn spec_transform(&self, elem: ElementModel) -> ResultModel {
        ResultModel::of_element(elem)
    }

    fn transform(&self, element: Element) -> (r: ProcessResult) {
        ProcessResult::from_element(element)
    }
}

/// A hook that polices bare names left in the tree: a name equal to
/// `reject` aborts processing with an `UnresolvedName` error, a name equal
/// to `suspect` passes through next to an `UnresolvedName` warning, and
/// every other element passes through untouched.
pub struct NameGuard {
    pub reject: String,
    pub suspect: String,
}

impl ElementTransformer for NameGuard {
    open spec fn spec_transform(&self, elem: ElementModel) -> ResultModel {
        match elem {
            ElementModel::Name(n) => if n == self.reject@ {
                ResultModel {
                    element: Option::None,
                    warnings: Seq::empty(),
                    errors: seq![ErrorModel::UnresolvedName(n)],
                }
            } else if n == self.suspect@ {
                ResultModel {
                    element: Option::Some(elem),
                    warnings: seq![WarningModel::UnresolvedName(n)],
                    errors: Seq::empty(),
                }
            } else {
                ResultModel::of_element(elem)
            },
            _ => ResultModel::of_element(elem),
        }
    }

    fn transform(&self, element: Element) -> (r: ProcessResult) {
        match element {
            Element::NameElement(n) => {
                if crate::util::str_eq(n.as_str(), self.reject.as_str()) {
                    let mut errors: Vec<ProcessError> = Vec::new();
                    errors.push(ProcessError::UnresolvedName(n));
                    proof {
                        crate::processor::result::lemma_view_errors(errors@);
                        assert(crate::processor::result::view_errors(errors@) =~= seq![
                            ErrorModel::UnresolvedName(errors@[0]->UnresolvedName_0@),
                        ]);
                    }
                    ProcessResult { element: None, warnings: Vec::new(), errors }
                } else if crate::util::str_eq(n.as_str(), self.suspect.as_str()) {
                    let mut warnings: Vec<ProcessWarning> = Vec::new();
                    warnings.push(ProcessWarning::UnresolvedName(crate::util::string_from_str(
                        n.as_str())));
                    proof {
                        crate::processor::result::lemma_view_warnings(warnings@);
                        assert(crate::processor::result::view_warnings(warnings@) =~= seq![
                            WarningModel::UnresolvedName(n@),
                        ]);
                    }
                    ProcessResult {
                        element: Some(Element::NameElement(n)),
                        warnings,
                        errors: Vec::new(),
                    }
                } else {
                    ProcessResult::from_element(Element::NameElement(n))
                }
            },
            other => ProcessResult::from_element(other),
        }
    }
}

/// What the linear-interpolation builder produces from `(a, b, c)`:
/// `b * (1 + cache_once(a) * -1) + c * cache_once(a)`, written out in
/// lowered object form.
pub open spec fn spec_lerp(a: ElementModel, b: ElementModel, c: ElementModel) -> ElementModel {
    spec_lowered2(
        "minecraft"@,
        "add"@,
        "argument1"@,
        "argument2"@,
        spec_lowered2(
            "minecraft"@,
            "mul"@,
            "argument1"@,
            "argument2"@,
            b,
            spec_lowered2(
                "minecraft"@,
                "add"@,
                "argument1"@,
                "argument2"@,
                ElementModel::Float("1"@),
                spec_lowered2(
                    "minecraft"@,
                    "mul"@,
                    "argument1"@,
                    "argument2"@,
                    spec_lowered1("minecraft"@, "cache_once"@, "argument"@, a),
                    ElementModel::Float("-1"@),
                ),
            ),
        ),
        spec_lowered2(
            "minecraft"@,
            "mul"@,
            "argument1"@,
            "argument2"@,
            c,
            spec_lowered1("minecraft"@, "cache_once"@, "argument"@, a),
        ),
    )
}

/// The linear-interpolation builder for a custom three-argument function:
/// `lerp(a, b, c)` becomes `b * (1 - cache_once(a)) + c * cache_once(a)`,
/// with the subtraction spelled as an addition of a `-1` multiple.
pub struct LerpFunction;

impl ThreeArgsTransformer for LerpFunction {
    open spec fn spec_transform3(&self, a: ElementModel, b: ElementModel, c: ElementModel)
        -> ResultModel {
        ResultModel::of_element(spec_lerp(a, b, c))
    }

    fn transform3(&self, a: Element, b: Element, c: Element) -> (r: ProcessResult) {
        let cache_a_1 = make_lowered1("minecraft", "cache_once", "argument", a.duplicate());
        let cache_a_2 = make_lowered1("minecraft", "cache_once", "argument", a);
        let inner_mul = make_lowered2("minecraft", "mul", "argument1", "argument2", cache_a_1,
            Element::FloatElement(crate::util::string_from_str("-1")));
        let inner_add = make_lowered2("minecraft", "add", "argument1", "argument2",
            Element::FloatElement(crate::util::string_from_str("1")), inner_mul);
        let first = make_lowered2("minecraft", "mul", "argument1", "argument2", b, inner_add);
        let second = make_lowered2("minecraft", "mul", "argument1", "argument2", c, cache_a_2);
        ProcessResult::from_element(make_lowered2("minecraft", "add", "argument1", "argument2",
            first, second))
    }
}

} // verus!
