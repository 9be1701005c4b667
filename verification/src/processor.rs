//! The rewrite engine: declarative registries of named functions and
//! operators, ordered transformation hooks, and the recursive processor that
//! lowers expression forms into plain data objects.

pub mod result;

pub use result::{ProcessError, ProcessResult, ProcessWarning};

use vstd::prelude::*;

use crate::element::{Element, ElementModel, view_elements, view_fields};
use result::{ResultModel, view_warnings, view_errors};

verus! {

broadcast use vstd::seq::group_seq_axioms;

/// The model of a no-argument function registration.
pub struct NoArgFunctionModel {
    pub name: Seq<char>,
    pub namespace: Seq<char>,
    pub allow_as_symbol: bool,
}

/// A registered function of no arguments, lowered to a plain `type` object;
/// it may also be written as a bare symbol when `allow_as_symbol` is set.
pub struct NoArgFunction {
    pub name: String,
    namespace: String,
    pub allow_as_symbol: bool,
}

impl View for NoArgFunction {
    type V = NoArgFunctionModel;

    closed spec fn view(&self) -> NoArgFunctionModel {
        NoArgFunctionModel {
            name: self.name@,
            namespace: self.namespace@,
            allow_as_symbol: self.allow_as_symbol,
        }
    }
}

impl NoArgFunction {
    pub fn new_with_config(name: String, namespace: String, allow_as_symbol: bool) -> (r:
        NoArgFunction)
        ensures
            r@ == (NoArgFunctionModel {
                name: name@,
                namespace: namespace@,
                allow_as_symbol,
            }),
    {
        NoArgFunction { name, namespace, allow_as_symbol }
    }

    pub fn new_with_allow_as_symbol(name: String, allow_as_symbol: bool) -> (r: NoArgFunction)
        ensures
            r@ == (NoArgFunctionModel { name: name@, namespace: "minecraft"@, allow_as_symbol }),
    {
        NoArgFunction {
            name,
            namespace: crate::util::string_from_str("minecraft"),
            allow_as_symbol,
        }
    }

    pub fn new(name: String) -> (r: NoArgFunction)
        ensures
            r@ == (NoArgFunctionModel {
                name: name@,
                namespace: "minecraft"@,
                allow_as_symbol: false,
            }),
    {
        NoArgFunction::new_with_allow_as_symbol(name, false)
    }

    pub fn name(&self) -> (r: &str)
        ensures
            r@ == self@.name,
    {
        self.name.as_str()
    }

    pub fn namespace(&self) -> (r: &str)
        ensures
            r@ == self@.namespace,
    {
        self.namespace.as_str()
    }

    pub fn allow_as_symbol(&self) -> (r: bool)
        ensures
            r == self@.allow_as_symbol,
    {
        self.allow_as_symbol
    }
}

/// The model of a one-argument function registration.
pub struct OneArgFunctionModel {
    pub name: Seq<char>,
    pub namespace: Seq<char>,
    pub argument_key: Seq<char>,
    pub allow_method_syntax: bool,
}

/// A registered function of one argument.
pub struct OneArgFunction {
    pub name: String,
    namespace: String,
    argument_key: String,
    pub allow_method_syntax: bool,
}

impl View for OneArgFunction {
    type V = OneArgFunctionModel;

    closed spec fn view(&self) -> OneArgFunctionModel {
        OneArgFunctionModel {
            name: self.name@,
            namespace: self.namespace@,
            argument_key: self.argument_key@,
            allow_method_syntax: self.allow_method_syntax,
        }
    }
}

impl OneArgFunction {
    pub fn new_with_config(
        name: String,
        namespace: String,
        argument_key: String,
        allow_method_syntax: bool,
    ) -> (r: OneArgFunction)
        ensures
            r@ == (OneArgFunctionModel {
                name: name@,
                namespace: namespace@,
                argument_key: argument_key@,
                allow_method_syntax,
            }),
    {
        OneArgFunction { name, namespace, argument_key, allow_method_syntax }
    }

    pub fn new(name: String, allow_method_syntax: bool) -> (r: OneArgFunction)
        ensures
            r@ == (OneArgFunctionModel {
                name: name@,
                namespace: "minecraft"@,
                argument_key: "argument"@,
                allow_method_syntax,
            }),
    {
        OneArgFunction {
            name,
            namespace: crate::util::string_from_str("minecraft"),
            argument_key: crate::util::string_from_str("argument"),
            allow_method_syntax,
        }
    }

    pub fn new_with_method_syntax(name: String) -> (r: OneArgFunction)
        ensures
            r@ == (OneArgFunctionModel {
                name: name@,
                namespace: "minecraft"@,
                argument_key: "argument"@,
                allow_method_syntax: true,
            }),
    {
        OneArgFunction::new(name, true)
    }

    pub fn name(&self) -> (r: &str)
        ensures
            r@ == self@.name,
    {
        self.name.as_str()
    }

    pub fn namespace(&self) -> (r: &str)
        ensures
            r@ == self@.namespace,
    {
        self.namespace.as_str()
    }

    pub fn argument_key(&self) -> (r: &str)
        ensures
            r@ == self@.argument_key,
    {
        self.argument_key.as_str()
    }

    pub fn allow_method_syntax(&self) -> (r: bool)
        ensures
            r == self@.allow_method_syntax,
    {
        self.allow_method_syntax
    }
}

/// The model of a two-argument function registration.
pub struct TwoArgsFunctionModel {
    pub name: Seq<char>,
    pub namespace: Seq<char>,
    pub argument1_key: Seq<char>,
    pub argument2_key: Seq<char>,
    pub allow_method_syntax: bool,
}

/// A registered function of two arguments.
pub struct TwoArgsFunction {
    pub name: String,
    namespace: String,
    argument1_key: String,
    argument2_key: String,
    pub allow_method_syntax: bool,
}

impl View for TwoArgsFunction {
    type V = TwoArgsFunctionModel;

    closed spec fn view(&self) -> TwoArgsFunctionModel {
        TwoArgsFunctionModel {
            name: self.name@,
            namespace: self.namespace@,
            argument1_key: self.argument1_key@,
            argument2_key: self.argument2_key@,
            allow_method_syntax: self.allow_method_syntax,
        }
    }
}

impl TwoArgsFunction {
    pub fn new_with_config(
        name: String,
        namespace: String,
        argument1_key: String,
        argument2_key: String,
        allow_method_syntax: bool,
    ) -> (r: TwoArgsFunction)
        ensures
            r@ == (TwoArgsFunctionModel {
                name: name@,
                namespace: namespace@,
                argument1_key: argument1_key@,
                argument2_key: argument2_key@,
                allow_method_syntax,
            }),
    {
        TwoArgsFunction { name, namespace, argument1_key, argument2_key, allow_method_syntax }
    }

    pub fn new(name: String, allow_method_syntax: bool) -> (r: TwoArgsFunction)
        ensures
            r@ == (TwoArgsFunctionModel {
                name: name@,
                namespace: "minecraft"@,
                argument1_key: "argument1"@,
                argument2_key: "argument2"@,
                allow_method_syntax,
            }),
    {
        TwoArgsFunction {
            name,
            namespace: crate::util::string_from_str("minecraft"),
            argument1_key: crate::util::string_from_str("argument1"),
            argument2_key: crate::util::string_from_str("argument2"),
            allow_method_syntax,
        }
    }

    pub fn new_without_method_syntax(name: String) -> (r: TwoArgsFunction)
        ensures
            r@ == (TwoArgsFunctionModel {
                name: name@,
                namespace: "minecraft"@,
                argument1_key: "argument1"@,
                argument2_key: "argument2"@,
                allow_method_syntax: false,
            }),
    {
        TwoArgsFunction::new(name, false)
    }

    pub fn name(&self) -> (r: &str)
        ensures
            r@ == self@.name,
    {
        self.name.as_str()
    }

    pub fn namespace(&self) -> (r: &str)
        ensures
            r@ == self@.namespace,
    {
        self.namespace.as_str()
    }

    pub fn argument1_key(&self) -> (r: &str)
        ensures
            r@ == self@.argument1_key,
    {
        self.argument1_key.as_str()
    }

    pub fn argument2_key(&self) -> (r: &str)
        ensures
            r@ == self@.argument2_key,
    {
        self.argument2_key.as_str()
    }

    pub fn allow_method_syntax(&self) -> (r: bool)
        ensures
            r == self@.allow_method_syntax,
    {
        self.allow_method_syntax
    }
}

/// The model of a binary operator registration.
pub struct BinaryOperatorModel {
    pub name: Seq<char>,
    pub namespace: Seq<char>,
    pub internal_name: Seq<char>,
    pub argument1_key: Seq<char>,
    pub argument2_key: Seq<char>,
}

/// A registered binary operator, lowered by its symbol to a two-argument
/// `type` object named by `internal_name`.
pub struct BinaryOperator {
    pub name: String,
    namespace: String,
    internal_name: String,
    argument1_key: String,
    argument2_key: String,
}

impl View for BinaryOperator {
    type V = BinaryOperatorModel;

    closed spec fn view(&self) -> BinaryOperatorModel {
        BinaryOperatorModel {
            name: self.name@,
            namespace: self.namespace@,
            internal_name: self.internal_name@,
            argument1_key: self.argument1_key@,
            argument2_key: self.argument2_key@,
        }
    }
}

impl BinaryOperator {
    pub fn new_with_config(
        name: String,
        namespace: String,
        internal_name: String,
        argument1_key: String,
        argument2_key: String,
    ) -> (r: BinaryOperator)
        ensures
            r@ == (BinaryOperatorModel {
                name: name@,
                namespace: namespace@,
                internal_name: internal_name@,
                argument1_key: argument1_key@,
                argument2_key: argument2_key@,
            }),
    {
        BinaryOperator { name, namespace, internal_name, argument1_key, argument2_key }
    }

    pub fn new(name: String, internal_name: String) -> (r: BinaryOperator)
        ensures
            r@ == (BinaryOperatorModel {
                name: name@,
                namespace: "minecraft"@,
                internal_name: internal_name@,
                argument1_key: "argument1"@,
                argument2_key: "argument2"@,
            }),
    {
        BinaryOperator {
            name,
            namespace: crate::util::string_from_str("minecraft"),
            internal_name,
            argument1_key: crate::util::string_from_str("argument1"),
            argument2_key: crate::util::string_from_str("argument2"),
        }
    }

    pub fn name(&self) -> (r: &str)
        ensures
            r@ == self@.name,
    {
        self.name.as_str()
    }

    pub fn namespace(&self) -> (r: &str)
        ensures
            r@ == self@.namespace,
    {
        self.namespace.as_str()
    }

    pub fn internal_name(&self) -> (r: &str)
        ensures
            r@ == self@.internal_name,
    {
        self.internal_name.as_str()
    }

    pub fn argument1_key(&self) -> (r: &str)
        ensures
            r@ == self@.argument1_key,
    {
        self.argument1_key.as_str()
    }

    pub fn argument2_key(&self) -> (r: &str)
        ensures
            r@ == self@.argument2_key,
    {
        self.argument2_key.as_str()
    }
}

/// An ordered transformation hook: one rewriting step from an element to a
/// processing result.  Implementors state what they compute in
/// `spec_transform` and prove that `transform` computes it; the engine's
/// contracts speak of `spec_transform` alone.
pub trait ElementTransformer {
    /// What this hook turns the given element into.
    spec fn spec_transform(&self, elem: ElementModel) -> ResultModel;

    /// Runs the hook on one element.
    fn transform(&self, element: Element) -> (r: ProcessResult)
        ensures
            r@ == self.spec_transform(element@),
    ;
}

/// The builder behind a registered three-argument function: it may produce
/// arbitrary output from the three argument elements.
pub trait ThreeArgsTransformer {
    /// What this builder produces from the three arguments.
    spec fn spec_transform3(&self, a: ElementModel, b: ElementModel, c: ElementModel)
        -> ResultModel;

    /// Runs the builder on three argument elements.
    fn transform3(&self, a: Element, b: Element, c: Element) -> (r: ProcessResult)
        ensures
            r@ == self.spec_transform3(a@, b@, c@),
    ;
}

/// A registered function of three arguments with a custom builder.
pub struct CustomThreeArgsFunction<F> {
    pub name: String,
    pub allow_method_syntax: bool,
    function: F,
}

impl<F: ThreeArgsTransformer> CustomThreeArgsFunction<F> {
    /// The builder, as a specification-level value.
    pub closed spec fn spec_function(self) -> F {
        self.function
    }

    /// The model of this registration's name.
    pub closed spec fn spec_name(self) -> Seq<char> {
        self.name@
    }

    /// Whether this registration may be used with method syntax.
    pub closed spec fn spec_allow_method_syntax(self) -> bool {
        self.allow_method_syntax
    }

    pub fn new_with_allow_method_syntax(name: String, allow_method_syntax: bool, function: F)
        -> (r: CustomThreeArgsFunction<F>)
        ensures
            r.spec_name() == name@,
            r.spec_allow_method_syntax() == allow_method_syntax,
            r.spec_function() == function,
    {
        CustomThreeArgsFunction { name, allow_method_syntax, function }
    }

    pub fn new(name: String, function: F) -> (r: CustomThreeArgsFunction<F>)
        ensures
            r.spec_name() == name@,
            r.spec_allow_method_syntax() == false,
            r.spec_function() == function,
    {
        CustomThreeArgsFunction::new_with_allow_method_syntax(name, false, function)
    }

    pub fn name(&self) -> (r: &str)
        ensures
            r@ == self.spec_name(),
    {
        self.name.as_str()
    }

    pub fn allow_method_syntax(&self) -> (r: bool)
        ensures
            r == self.spec_allow_method_syntax(),
    {
        self.allow_method_syntax
    }

    pub fn function(&self) -> (r: &F)
        ensures
            *r == self.spec_function(),
    {
        &self.function
    }
}

/// The `"type"` pair of a lowered object: the key `type` and the value
/// `namespace:name`.
pub open spec fn spec_type_pair(ns: Seq<char>, name: Seq<char>) -> (ElementModel, ElementModel) {
    (ElementModel::String("type"@), ElementModel::String(ns + ":"@ + name))
}

/// A lowered no-argument call: an object holding only its `type`.
pub open spec fn spec_lowered0(ns: Seq<char>, name: Seq<char>) -> ElementModel {
    ElementModel::Object(seq![spec_type_pair(ns, name)])
}

/// A lowered one-argument call.
pub open spec fn spec_lowered1(
    ns: Seq<char>,
    name: Seq<char>,
    key: Seq<char>,
    arg: ElementModel,
) -> ElementModel {
    ElementModel::Object(seq![spec_type_pair(ns, name), (ElementModel::String(key), arg)])
}

/// A lowered two-argument call.
pub open spec fn spec_lowered2(
    ns: Seq<char>,
    name: Seq<char>,
    key1: Seq<char>,
    key2: Seq<char>,
    arg1: ElementModel,
    arg2: ElementModel,
) -> ElementModel {
    ElementModel::Object(
        seq![
            spec_type_pair(ns, name),
            (ElementModel::String(key1), arg1),
            (ElementModel::String(key2), arg2),
        ],
    )
}

/// The first no-argument registration with the given name (and, when
/// `require_symbol` is set, with symbol form allowed).
pub open spec fn spec_find_no_arg(
    s: Seq<NoArgFunction>,
    name: Seq<char>,
    require_symbol: bool,
) -> Option<NoArgFunctionModel>
    decreases s.len(),
{
    if s.len() == 0 {
        Option::None
    } else if (!require_symbol || s[0]@.allow_as_symbol) && s[0]@.name == name {
        Option::Some(s[0]@)
    } else {
        spec_find_no_arg(s.drop_first(), name, require_symbol)
    }
}

/// The first one-argument registration with the given name (and, when
/// `require_method` is set, with method syntax allowed).
pub open spec fn spec_find_one_arg(
    s: Seq<OneArgFunction>,
    name: Seq<char>,
    require_method: bool,
) -> Option<OneArgFunctionModel>
    decreases s.len(),
{
    if s.len() == 0 {
        Option::None
    } else if (!require_method || s[0]@.allow_method_syntax) && s[0]@.name == name {
        Option::Some(s[0]@)
    } else {
        spec_find_one_arg(s.drop_first(), name, require_method)
    }
}

/// The first two-argument registration with the given name (and, when
/// `require_method` is set, with method syntax allowed).
pub open spec fn spec_find_two_args(
    s: Seq<TwoArgsFunction>,
    name: Seq<char>,
    require_method: bool,
) -> Option<TwoArgsFunctionModel>
    decreases s.len(),
{
    if s.len() == 0 {
        Option::None
    } else if (!require_method || s[0]@.allow_method_syntax) && s[0]@.name == name {
        Option::Some(s[0]@)
    } else {
        spec_find_two_args(s.drop_first(), name, require_method)
    }
}

/// The first operator registration with the given symbol.
pub open spec fn spec_find_binary(s: Seq<BinaryOperator>, symbol: Seq<char>)
    -> Option<BinaryOperatorModel>
    decreases s.len(),
{
    if s.len() == 0 {
        Option::None
    } else if s[0]@.name == symbol {
        Option::Some(s[0]@)
    } else {
        spec_find_binary(s.drop_first(), symbol)
    }
}

/// The index of the first custom three-argument registration with the given
/// name (and, when `require_method` is set, with method syntax allowed).
pub open spec fn spec_find_custom<F: ThreeArgsTransformer>(
    s: Seq<CustomThreeArgsFunction<F>>,
    name: Seq<char>,
    require_method: bool,
) -> Option<int>
    decreases s.len(),
{
    if s.len() == 0 {
        Option::None
    } else if (!require_method || s[0].spec_allow_method_syntax()) && s[0].spec_name() == name {
        Option::Some(0)
    } else {
        match spec_find_custom(s.drop_first(), name, require_method) {
            Option::Some(i) => Option::Some(i + 1),
            Option::None => Option::None,
        }
    }
}

/// A found custom registration lies within the list.
pub proof fn lemma_find_custom_in_range<F: ThreeArgsTransformer>(
    s: Seq<CustomThreeArgsFunction<F>>,
    name: Seq<char>,
    require_method: bool,
)
    ensures
        spec_find_custom(s, name, require_method) matches Option::Some(i) ==> 0 <= i < s.len(),
    decreases s.len(),
{
    if s.len() > 0 {
        lemma_find_custom_in_range(s.drop_first(), name, require_method);
    }
}

/// The outcome of processing a list of elements: the processed elements
/// unless one of them failed for good, plus all diagnostics gathered up to
/// and including the first failing one.
pub struct SeqOutcome {
    pub elements: Option<Seq<ElementModel>>,
    pub warnings: Seq<result::WarningModel>,
    pub errors: Seq<result::ErrorModel>,
}

/// Like `SeqOutcome`, for the key/value pairs of an object.
pub struct FieldsOutcome {
    pub fields: Option<Seq<(ElementModel, ElementModel)>>,
    pub warnings: Seq<result::WarningModel>,
    pub errors: Seq<result::ErrorModel>,
}

/// The rewrite engine: ordered pre- and post-hooks of type `P`, and the
/// declarative registries, with custom three-argument builders of type `T`.
pub struct ElementProcessor<P, T> {
    preprocessors: Vec<P>,
    postprocessors: Vec<P>,
    no_arg_functions: Vec<NoArgFunction>,
    one_arg_functions: Vec<OneArgFunction>,
    two_args_functions: Vec<TwoArgsFunction>,
    custom_three_args_functions: Vec<CustomThreeArgsFunction<T>>,
    binary_operators: Vec<BinaryOperator>,
}

/// How deep `process` will recurse before giving up with a
/// `RecursionLimit` error.  The guard is a deliberate bound on the rewrite
/// recursion: a transformation hook may replace a node by a taller tree, so
/// without a bound the rewrite need not terminate at all.  Trees nested
/// within the bound are unaffected (see `lemma_plain_data_identity`); a tree
/// nested deeper yields no element and this error.
pub const PROCESS_DEPTH_LIMIT: u64 = 1024;

impl<P: ElementTransformer, T: ThreeArgsTransformer> ElementProcessor<P, T> {
    /// The registered pre-hooks, in registration order.
    pub closed spec fn spec_preprocessors(self) -> Seq<P> {
        self.preprocessors@
    }

    /// The registered post-hooks, in registration order.
    pub closed spec fn spec_postprocessors(self) -> Seq<P> {
        self.postprocessors@
    }

    /// The registered no-argument functions, in registration order.
    pub closed spec fn spec_no_arg_functions(self) -> Seq<NoArgFunction> {
        self.no_arg_functions@
    }

    /// The registered one-argument functions, in registration order.
    pub closed spec fn spec_one_arg_functions(self) -> Seq<OneArgFunction> {
        self.one_arg_functions@
    }

    /// The registered two-argument functions, in registration order.
    pub closed spec fn spec_two_args_functions(self) -> Seq<TwoArgsFunction> {
        self.two_args_functions@
    }

    /// The registered custom three-argument functions, in registration
    /// order.
    pub closed spec fn spec_custom_functions(self) -> Seq<CustomThreeArgsFunction<T>> {
        self.custom_three_args_functions@
    }

    /// The registered binary operators, in registration order.
    pub closed spec fn spec_binary_operators(self) -> Seq<BinaryOperator> {
        self.binary_operators@
    }

    pub fn new() -> (r: ElementProcessor<P, T>)
        ensures
            r.spec_preprocessors() == Seq::<P>::empty(),
            r.spec_postprocessors() == Seq::<P>::empty(),
            r.spec_no_arg_functions() == Seq::<NoArgFunction>::empty(),
            r.spec_one_arg_functions() == Seq::<OneArgFunction>::empty(),
            r.spec_two_args_functions() == Seq::<TwoArgsFunction>::empty(),
            r.spec_custom_functions() == Seq::<CustomThreeArgsFunction<T>>::empty(),
            r.spec_binary_operators() == Seq::<BinaryOperator>::empty(),
    {
        ElementProcessor {
            preprocessors: Vec::new(),
            postprocessors: Vec::new(),
            no_arg_functions: Vec::new(),
            one_arg_functions: Vec::new(),
            two_args_functions: Vec::new(),
            custom_three_args_functions: Vec::new(),
            binary_operators: Vec::new(),
        }
    }

    pub fn add_preprocessor(&mut self, preprocessor: P)
        ensures
            final(self).spec_preprocessors() == old(self).spec_preprocessors().push(preprocessor),
            final(self).spec_postprocessors() == old(self).spec_postprocessors(),
            final(self).spec_no_arg_functions() == old(self).spec_no_arg_functions(),
            final(self).spec_one_arg_functions() == old(self).spec_one_arg_functions(),
            final(self).spec_two_args_functions() == old(self).spec_two_args_functions(),
            final(self).spec_custom_functions() == old(self).spec_custom_functions(),
            final(self).spec_binary_operators() == old(self).spec_binary_operators(),
    {
        self.preprocessors.push(preprocessor);
    }

    pub fn add_postprocessor(&mut self, postprocessor: P)
        ensures
            final(self).spec_preprocessors() == old(self).spec_preprocessors(),
            final(self).spec_postprocessors() == old(self).spec_postprocessors().push(postprocessor),
            final(self).spec_no_arg_functions() == old(self).spec_no_arg_functions(),
            final(self).spec_one_arg_functions() == old(self).spec_one_arg_functions(),
            final(self).spec_two_args_functions() == old(self).spec_two_args_functions(),
            final(self).spec_custom_functions() == old(self).spec_custom_functions(),
            final(self).spec_binary_operators() == old(self).spec_binary_operators(),
    {
        self.postprocessors.push(postprocessor);
    }

    pub fn add_no_arg_function(&mut self, function: NoArgFunction)
        ensures
            final(self).spec_preprocessors() == old(self).spec_preprocessors(),
            final(self).spec_postprocessors() == old(self).spec_postprocessors(),
            final(self).spec_no_arg_functions() == old(self).spec_no_arg_functions().push(function),
            final(self).spec_one_arg_functions() == old(self).spec_one_arg_functions(),
            final(self).spec_two_args_functions() == old(self).spec_two_args_functions(),
            final(self).spec_custom_functions() == old(self).spec_custom_functions(),
            final(self).spec_binary_operators() == old(self).spec_binary_operators(),
    {
        self.no_arg_functions.push(function);
    }

    pub fn add_one_arg_function(&mut self, function: OneArgFunction)
        ensures
            final(self).spec_preprocessors() == old(self).spec_preprocessors(),
            final(self).spec_postprocessors() == old(self).spec_postprocessors(),
            final(self).spec_no_arg_functions() == old(self).spec_no_arg_functions(),
            final(self).spec_one_arg_functions() == old(self).spec_one_arg_functions().push(function),
            final(self).spec_two_args_functions() == old(self).spec_two_args_functions(),
            final(self).spec_custom_functions() == old(self).spec_custom_functions(),
            final(self).spec_binary_operators() == old(self).spec_binary_operators(),
    {
        self.one_arg_functions.push(function);
    }

    pub fn add_two_args_function(&mut self, function: TwoArgsFunction)
        ensures
            final(self).spec_preprocessors() == old(self).spec_preprocessors(),
            final(self).spec_postprocessors() == old(self).spec_postprocessors(),
            final(self).spec_no_arg_functions() == old(self).spec_no_arg_functions(),
            final(self).spec_one_arg_functions() == old(self).spec_one_arg_functions(),
            final(self).spec_two_args_functions() == old(self).spec_two_args_functions().push(function),
            final(self).spec_custom_functions() == old(self).spec_custom_functions(),
            final(self).spec_binary_operators() == old(self).spec_binary_operators(),
    {
        self.two_args_functions.push(function);
    }

    pub fn add_custom_three_args_function(&mut self, function: CustomThreeArgsFunction<T>)
        ensures
            final(self).spec_preprocessors() == old(self).spec_preprocessors(),
            final(self).spec_postprocessors() == old(self).spec_postprocessors(),
            final(self).spec_no_arg_functions() == old(self).spec_no_arg_functions(),
            final(self).spec_one_arg_functions() == old(self).spec_one_arg_functions(),
            final(self).spec_two_args_functions() == old(self).spec_two_args_functions(),
            final(self).spec_custom_functions() == old(self).spec_custom_functions().push(function),
            final(self).spec_binary_operators() == old(self).spec_binary_operators(),
    {
        self.custom_three_args_functions.push(function);
    }

    pub fn add_binary_operator(&mut self, function: BinaryOperator)
        ensures
            final(self).spec_preprocessors() == old(self).spec_preprocessors(),
            final(self).spec_postprocessors() == old(self).spec_postprocessors(),
            final(self).spec_no_arg_functions() == old(self).spec_no_arg_functions(),
            final(self).spec_one_arg_functions() == old(self).spec_one_arg_functions(),
            final(self).spec_two_args_functions() == old(self).spec_two_args_functions(),
            final(self).spec_custom_functions() == old(self).spec_custom_functions(),
            final(self).spec_binary_operators() == old(self).spec_binary_operators().push(function),
    {
        self.binary_operators.push(function);
    }

    /// The registry resolution step: matches the node's shape against the
    /// registries (first match in registration order) and lowers it; a node
    /// that matches nothing passes through unchanged.
    pub open spec fn spec_pre_process(self, e: ElementModel) -> ResultModel {
        match e {
            ElementModel::Name(n) => match spec_find_no_arg(self.spec_no_arg_functions(), n,
                true) {
                Option::Some(f) => ResultModel::of_element(spec_lowered0(f.namespace, f.name)),
                Option::None => ResultModel::of_element(e),
            },
            ElementModel::Binary { left, operator, right } => match spec_find_binary(
                self.spec_binary_operators(), operator.text) {
                Option::Some(b) => ResultModel::of_element(spec_lowered2(b.namespace,
                    b.internal_name, b.argument1_key, b.argument2_key, *left, *right)),
                Option::None => ResultModel::of_element(e),
            },
            ElementModel::FunctionCall {
                receiver: Option::Some(receiver),
                name,
                arguments: Option::Some(args),
            } => if args.len() == 0 {
                match spec_find_one_arg(self.spec_one_arg_functions(), name, true) {
                    Option::Some(f) => ResultModel::of_element(spec_lowered1(f.namespace,
                        f.name, f.argument_key, *receiver)),
                    Option::None => ResultModel::of_element(e),
                }
            } else if args.len() == 1 {
                match spec_find_two_args(self.spec_two_args_functions(), name, true) {
                    Option::Some(f) => ResultModel::of_element(spec_lowered2(f.namespace,
                        f.name, f.argument1_key, f.argument2_key, *receiver, args[0])),
                    Option::None => ResultModel::of_element(e),
                }
            } else if args.len() == 2 {
                match spec_find_custom(self.spec_custom_functions(), name, true) {
                    Option::Some(i) => self.spec_custom_functions()[i].spec_function()
                        .spec_transform3(*receiver, args[0], args[1]),
                    Option::None => ResultModel::of_element(e),
                }
            } else {
                ResultModel::of_element(e)
            },
            ElementModel::FunctionCall {
                receiver: Option::None,
                name,
                arguments: Option::Some(args),
            } => if args.len() == 0 {
                match spec_find_no_arg(self.spec_no_arg_functions(), name, false) {
                    Option::Some(f) => ResultModel::of_element(spec_lowered0(f.namespace,
                        f.name)),
                    Option::None => ResultModel::of_element(e),
                }
            } else if args.len() == 1 {
                match spec_find_one_arg(self.spec_one_arg_functions(), name, false) {
                    Option::Some(f) => ResultModel::of_element(spec_lowered1(f.namespace,
                        f.name, f.argument_key, args[0])),
                    Option::None => ResultModel::of_element(e),
                }
            } else if args.len() == 2 {
                match spec_find_two_args(self.spec_two_args_functions(), name, false) {
                    Option::Some(f) => ResultModel::of_element(spec_lowered2(f.namespace,
                        f.name, f.argument1_key, f.argument2_key, args[0], args[1])),
                    Option::None => ResultModel::of_element(e),
                }
            } else if args.len() == 3 {
                match spec_find_custom(self.spec_custom_functions(), name, false) {
                    Option::Some(i) => self.spec_custom_functions()[i].spec_function()
                        .spec_transform3(args[0], args[1], args[2]),
                    Option::None => ResultModel::of_element(e),
                }
            } else {
                ResultModel::of_element(e)
            },
            _ => ResultModel::of_element(e),
        }
    }

    /// The hook chain from index `i` on, applied to `r`: each hook runs on
    /// the element, if one is still there, and its diagnostics are appended.
    pub open spec fn spec_run_hooks(hooks: Seq<P>, i: int, r: ResultModel) -> ResultModel
        decreases hooks.len() - i,
        when 0 <= i <= hooks.len()
    {
        if i == hooks.len() {
            r
        } else {
            match r.element {
                Option::None => r,
                Option::Some(e) => {
                    let hr = hooks[i].spec_transform(e);
                    Self::spec_run_hooks(
                        hooks,
                        i + 1,
                        ResultModel {
                            element: hr.element,
                            warnings: r.warnings + hr.warnings,
                            errors: r.errors + hr.errors,
                        },
                    )
                },
            }
        }
    }

    /// The whole rewrite of one node: registry resolution and pre-hooks,
    /// structural recursion into the rewritten node's children, post-hooks;
    /// `depth` guards the recursion.
    pub open spec fn spec_process(self, e: ElementModel, depth: int) -> ResultModel
        decreases depth, 0int, 0int,
    {
        if depth <= 0 {
            ResultModel {
                element: Option::None,
                warnings: Seq::empty(),
                errors: seq![result::ErrorModel::RecursionLimit],
            }
        } else {
            let pre = Self::spec_run_hooks(self.spec_preprocessors(), 0, self.spec_pre_process(
                e));
            match pre.element {
                Option::None => pre,
                Option::Some(e1) => {
                    let rec = self.spec_process_children(e1, depth - 1);
                    let merged = ResultModel {
                        element: rec.element,
                        warnings: pre.warnings + rec.warnings,
                        errors: pre.errors + rec.errors,
                    };
                    match merged.element {
                        Option::None => merged,
                        Option::Some(_) => Self::spec_run_hooks(self.spec_postprocessors(), 0,
                            merged),
                    }
                },
            }
        }
    }

    /// The structural recursion into one (already rewritten) node's
    /// children.
    pub open spec fn spec_process_children(self, e: ElementModel, depth: int) -> ResultModel
        decreases depth, 3int, 0int,
        when depth >= 0
    {
        match e {
            ElementModel::Array(items) => {
                let out = self.spec_process_items(items, depth);
                ResultModel {
                    element: match out.elements {
                        Option::Some(es) => Option::Some(ElementModel::Array(es)),
                        Option::None => Option::None,
                    },
                    warnings: out.warnings,
                    errors: out.errors,
                }
            },
            ElementModel::Object(fields) => {
                let out = self.spec_process_fields(fields, depth);
                ResultModel {
                    element: match out.fields {
                        Option::Some(fs) => Option::Some(ElementModel::Object(fs)),
                        Option::None => Option::None,
                    },
                    warnings: out.warnings,
                    errors: out.errors,
                }
            },
            ElementModel::Binary { left, operator, right } => {
                let lr = self.spec_process(*left, depth);
                let rr = self.spec_process(*right, depth);
                ResultModel {
                    element: match (lr.element, rr.element) {
                        (Option::Some(l2), Option::Some(r2)) => Option::Some(
                            ElementModel::Binary {
                                left: Box::new(l2),
                                operator,
                                right: Box::new(r2),
                            },
                        ),
                        _ => Option::None,
                    },
                    warnings: lr.warnings + rr.warnings,
                    errors: lr.errors + rr.errors,
                }
            },
            ElementModel::FunctionCall { receiver, name, arguments } => {
                let recv = match receiver {
                    Option::Some(r0) => self.spec_process(*r0, depth),
                    Option::None => ResultModel {
                        element: Option::None,
                        warnings: Seq::empty(),
                        errors: Seq::empty(),
                    },
                };
                if receiver is Some && recv.element is None {
                    // the receiver failed for good: its absence propagates
                    ResultModel {
                        element: Option::None,
                        warnings: recv.warnings,
                        errors: recv.errors,
                    }
                } else {
                    match arguments {
                        Option::Some(args) => {
                            let out = self.spec_process_items(args, depth);
                            ResultModel {
                                element: match out.elements {
                                    Option::Some(es) => Option::Some(
                                        ElementModel::FunctionCall {
                                            receiver: match recv.element {
                                                Option::Some(r2) => Option::Some(Box::new(r2)),
                                                Option::None => Option::None,
                                            },
                                            name,
                                            arguments: Option::Some(es),
                                        },
                                    ),
                                    Option::None => Option::None,
                                },
                                warnings: recv.warnings + out.warnings,
                                errors: recv.errors + out.errors,
                            }
                        },
                        Option::None => ResultModel {
                            element: Option::Some(ElementModel::FunctionCall {
                                receiver: match recv.element {
                                    Option::Some(r2) => Option::Some(Box::new(r2)),
                                    Option::None => Option::None,
                                },
                                name,
                                arguments: Option::None,
                            }),
                            warnings: recv.warnings,
                            errors: recv.errors,
                        },
                    }
                }
            },
            _ => ResultModel::of_element(e),
        }
    }

    /// The children of an array or an argument list, processed in order,
    /// stopping at the first one that fails for good.
    pub open spec fn spec_process_items(self, items: Seq<ElementModel>, depth: int)
        -> SeqOutcome
        decreases depth, 2int, items.len(),
        when depth >= 0
    {
        if items.len() == 0 {
            SeqOutcome {
                elements: Option::Some(Seq::empty()),
                warnings: Seq::empty(),
                errors: Seq::empty(),
            }
        } else {
            let h = self.spec_process(items[0], depth);
            match h.element {
                Option::None => SeqOutcome {
                    elements: Option::None,
                    warnings: h.warnings,
                    errors: h.errors,
                },
                Option::Some(e2) => {
                    let rest = self.spec_process_items(items.drop_first(), depth);
                    SeqOutcome {
                        elements: match rest.elements {
                            Option::Some(es) => Option::Some(seq![e2] + es),
                            Option::None => Option::None,
                        },
                        warnings: h.warnings + rest.warnings,
                        errors: h.errors + rest.errors,
                    }
                },
            }
        }
    }

    /// The key/value pairs of an object, processed in order (key before
    /// value), stopping after the first pair with a side that fails for
    /// good.
    pub open spec fn spec_process_fields(
        self,
        fields: Seq<(ElementModel, ElementModel)>,
        depth: int,
    ) -> FieldsOutcome
        decreases depth, 2int, fields.len(),
        when depth >= 0
    {
        if fields.len() == 0 {
            FieldsOutcome {
                fields: Option::Some(Seq::empty()),
                warnings: Seq::empty(),
                errors: Seq::empty(),
            }
        } else {
            let kr = self.spec_process(fields[0].0, depth);
            let vr = self.spec_process(fields[0].1, depth);
            let w = kr.warnings + vr.warnings;
            let er = kr.errors + vr.errors;
            match (kr.element, vr.element) {
                (Option::Some(k2), Option::Some(v2)) => {
                    let rest = self.spec_process_fields(fields.drop_first(), depth);
                    FieldsOutcome {
                        fields: match rest.fields {
                            Option::Some(fs) => Option::Some(seq![(k2, v2)] + fs),
                            Option::None => Option::None,
                        },
                        warnings: w + rest.warnings,
                        errors: er + rest.errors,
                    }
                },
                _ => FieldsOutcome { fields: Option::None, warnings: w, errors: er },
            }
        }
    }
}

/// When the first one-argument registration with a name allows method
/// syntax, the method-restricted search finds the same registration.
proof fn lemma_find_one_arg_method(s: Seq<OneArgFunction>, name: Seq<char>)
    requires
        spec_find_one_arg(s, name, false) matches Option::Some(f) && f.allow_method_syntax,
    ensures
        spec_find_one_arg(s, name, true) == spec_find_one_arg(s, name, false),
    decreases s.len(),
{
    if s.len() > 0 {
        if s[0]@.name == name {
        } else {
            lemma_find_one_arg_method(s.drop_first(), name);
        }
    }
}

/// Arity-based dispatch does not distinguish call syntax: when the first
/// one-argument registration named `name` allows method syntax, the plain
/// call `name(x)` and the method call `x.name()` are lowered to the same
/// object.
pub proof fn lemma_method_syntax_dispatch<P: ElementTransformer, T: ThreeArgsTransformer>(
    p: ElementProcessor<P, T>,
    name: Seq<char>,
    x: ElementModel,
)
    requires
        spec_find_one_arg(p.spec_one_arg_functions(), name, false) matches Option::Some(f)
            && f.allow_method_syntax,
    ensures
        p.spec_pre_process(
            ElementModel::FunctionCall {
                receiver: Option::None,
                name,
                arguments: Option::Some(seq![x]),
            },
        ) == p.spec_pre_process(
            ElementModel::FunctionCall {
                receiver: Option::Some(Box::new(x)),
                name,
                arguments: Option::Some(Seq::empty()),
            },
        ),
{
    lemma_find_one_arg_method(p.spec_one_arg_functions(), name);
    assert(seq![x].len() == 1 && seq![x][0] == x);
    assert(Seq::<ElementModel>::empty().len() == 0);
}

/// The diagnostics of the children `0` through `upto` (inclusive), in
/// order.
pub open spec fn spec_children_warnings<P: ElementTransformer, T: ThreeArgsTransformer>(
    p: ElementProcessor<P, T>,
    items: Seq<ElementModel>,
    upto: int,
    depth: int,
) -> Seq<result::WarningModel>
    decreases upto + 1,
{
    if upto < 0 {
        Seq::empty()
    } else {
        spec_children_warnings(p, items, upto - 1, depth) + p.spec_process(items[upto],
            depth).warnings
    }
}

/// The errors of the children `0` through `upto` (inclusive), in order.
pub open spec fn spec_children_errors<P: ElementTransformer, T: ThreeArgsTransformer>(
    p: ElementProcessor<P, T>,
    items: Seq<ElementModel>,
    upto: int,
    depth: int,
) -> Seq<result::ErrorModel>
    decreases upto + 1,
{
    if upto < 0 {
        Seq::empty()
    } else {
        spec_children_errors(p, items, upto - 1, depth) + p.spec_process(items[upto],
            depth).errors
    }
}

/// When the first child whose processing yields no element is `i`, the
/// whole list yields no element, and exactly the diagnostics of the
/// children up to and including `i`.
proof fn lemma_items_abort<P: ElementTransformer, T: ThreeArgsTransformer>(
    p: ElementProcessor<P, T>,
    items: Seq<ElementModel>,
    i: int,
    depth: int,
)
    requires
        depth >= 0,
        0 <= i < items.len(),
        p.spec_process(items[i], depth).element is None,
        forall|j: int| 0 <= j < i ==> (#[trigger] p.spec_process(items[j], depth)).element
            is Some,
    ensures
        p.spec_process_items(items, depth) == (SeqOutcome {
            elements: Option::None,
            warnings: spec_children_warnings(p, items, i, depth),
            errors: spec_children_errors(p, items, i, depth),
        }),
    decreases i,
{
    if i == 0 {
        assert(spec_children_warnings(p, items, -1, depth)
            == Seq::<result::WarningModel>::empty());
        assert(spec_children_errors(p, items, -1, depth) == Seq::<result::ErrorModel>::empty());
        assert(spec_children_warnings(p, items, 0, depth) =~= p.spec_process(items[0],
            depth).warnings);
        assert(spec_children_errors(p, items, 0, depth) =~= p.spec_process(items[0],
            depth).errors);
    } else {
        assert(items.drop_first()[i - 1] == items[i]);
        assert forall|j: int| 0 <= j < i - 1 implies (#[trigger] p.spec_process(
            items.drop_first()[j], depth)).element is Some by {
            assert(items.drop_first()[j] == items[j + 1]);
            assert(p.spec_process(items[j + 1], depth).element is Some);
        }
        lemma_items_abort(p, items.drop_first(), i - 1, depth);
        assert(p.spec_process(items[0], depth).element is Some);
        lemma_children_diags_shift(p, items, i, depth);
    }
}

/// Shifting the children-diagnostics window by one element.
proof fn lemma_children_diags_shift<P: ElementTransformer, T: ThreeArgsTransformer>(
    p: ElementProcessor<P, T>,
    items: Seq<ElementModel>,
    upto: int,
    depth: int,
)
    requires
        1 <= upto < items.len(),
    ensures
        spec_children_warnings(p, items, upto, depth) == p.spec_process(items[0],
            depth).warnings + spec_children_warnings(p, items.drop_first(), upto - 1, depth),
        spec_children_errors(p, items, upto, depth) == p.spec_process(items[0], depth).errors
            + spec_children_errors(p, items.drop_first(), upto - 1, depth),
    decreases upto,
{
    if upto == 1 {
        assert(spec_children_warnings(p, items, -1, depth)
            == Seq::<result::WarningModel>::empty());
        assert(spec_children_errors(p, items, -1, depth) == Seq::<result::ErrorModel>::empty());
        assert(spec_children_warnings(p, items.drop_first(), -1, depth)
            == Seq::<result::WarningModel>::empty());
        assert(spec_children_errors(p, items.drop_first(), -1, depth)
            == Seq::<result::ErrorModel>::empty());
        assert(spec_children_warnings(p, items, 0, depth) =~= p.spec_process(items[0],
            depth).warnings);
        assert(spec_children_errors(p, items, 0, depth) =~= p.spec_process(items[0],
            depth).errors);
        assert(items.drop_first()[0] == items[1]);
        assert(spec_children_warnings(p, items.drop_first(), 0, depth) =~= p.spec_process(
            items[1], depth).warnings);
        assert(spec_children_errors(p, items.drop_first(), 0, depth) =~= p.spec_process(
            items[1], depth).errors);
    } else {
        lemma_children_diags_shift(p, items, upto - 1, depth);
        assert(items.drop_first()[upto - 1] == items[upto]);
        assert((p.spec_process(items[0], depth).warnings + spec_children_warnings(p,
            items.drop_first(), upto - 2, depth)) + p.spec_process(items[upto], depth).warnings
            =~= p.spec_process(items[0], depth).warnings + (spec_children_warnings(p,
            items.drop_first(), upto - 2, depth) + p.spec_process(items[upto],
            depth).warnings));
        assert((p.spec_process(items[0], depth).errors + spec_children_errors(p,
            items.drop_first(), upto - 2, depth)) + p.spec_process(items[upto], depth).errors
            =~= p.spec_process(items[0], depth).errors + (spec_children_errors(p,
            items.drop_first(), upto - 2, depth) + p.spec_process(items[upto], depth).errors));
    }
}

/// Abort propagation: when the registries and the pre-hooks leave an array
/// untouched and processing its child `i` yields no element (while the
/// children before it all yield one), processing the array yields no
/// element either, and exactly the diagnostics of the children up to and
/// including the aborting one.
pub proof fn lemma_abort_propagation<P: ElementTransformer, T: ThreeArgsTransformer>(
    p: ElementProcessor<P, T>,
    items: Seq<ElementModel>,
    i: int,
    depth: int,
)
    requires
        depth >= 1,
        p.spec_preprocessors().len() == 0,
        p.spec_pre_process(ElementModel::Array(items)) == ResultModel::of_element(
            ElementModel::Array(items)),
        0 <= i < items.len(),
        p.spec_process(items[i], depth - 1).element is None,
        forall|j: int| 0 <= j < i ==> (#[trigger] p.spec_process(items[j], depth
            - 1)).element is Some,
    ensures
        p.spec_process(ElementModel::Array(items), depth).element is None,
        p.spec_process(ElementModel::Array(items), depth).warnings == spec_children_warnings(
            p, items, i, depth - 1),
        p.spec_process(ElementModel::Array(items), depth).errors == spec_children_errors(p,
            items, i, depth - 1),
{
    let e = ElementModel::Array(items);
    let pre = ElementProcessor::<P, T>::spec_run_hooks(p.spec_preprocessors(), 0,
        p.spec_pre_process(e));
    assert(pre == ResultModel::of_element(e));
    lemma_items_abort(p, items, i, depth - 1);
    let rec = p.spec_process_children(e, depth - 1);
    assert(rec.element is None);
    assert(Seq::<result::WarningModel>::empty() + rec.warnings =~= rec.warnings);
    assert(Seq::<result::ErrorModel>::empty() + rec.errors =~= rec.errors);
}

/// Abort propagation for method receivers: when the registries and the
/// pre-hooks leave a call untouched and processing its receiver yields no
/// element, processing the call yields no element either, and exactly the
/// receiver's diagnostics.
pub proof fn lemma_receiver_abort_propagation<P: ElementTransformer, T: ThreeArgsTransformer>(
    p: ElementProcessor<P, T>,
    receiver: ElementModel,
    name: Seq<char>,
    arguments: Option<Seq<ElementModel>>,
    depth: int,
)
    requires
        depth >= 1,
        p.spec_preprocessors().len() == 0,
        p.spec_pre_process(
            ElementModel::FunctionCall {
                receiver: Option::Some(Box::new(receiver)),
                name,
                arguments,
            },
        ) == ResultModel::of_element(
            ElementModel::FunctionCall {
                receiver: Option::Some(Box::new(receiver)),
                name,
                arguments,
            },
        ),
        p.spec_process(receiver, depth - 1).element is None,
    ensures
        p.spec_process(
            ElementModel::FunctionCall {
                receiver: Option::Some(Box::new(receiver)),
                name,
                arguments,
            },
            depth,
        ) == (ResultModel {
            element: Option::None,
            warnings: p.spec_process(receiver, depth - 1).warnings,
            errors: p.spec_process(receiver, depth - 1).errors,
        }),
{
    let e = ElementModel::FunctionCall {
        receiver: Option::Some(Box::new(receiver)),
        name,
        arguments,
    };
    let pre = ElementProcessor::<P, T>::spec_run_hooks(p.spec_preprocessors(), 0,
        p.spec_pre_process(e));
    assert(pre == ResultModel::of_element(e));
    let recv = p.spec_process(receiver, depth - 1);
    let rec = p.spec_process_children(e, depth - 1);
    assert(rec == (ResultModel {
        element: Option::None,
        warnings: recv.warnings,
        errors: recv.errors,
    }));
    assert(Seq::<result::WarningModel>::empty() + recv.warnings =~= recv.warnings);
    assert(Seq::<result::ErrorModel>::empty() + recv.errors =~= recv.errors);
}

/// Plain data passes through an engine with no hooks untouched: on a tree
/// of the data forms alone, nested within the recursion guard, processing
/// returns exactly the tree with no diagnostics.
pub proof fn lemma_plain_data_identity<P: ElementTransformer, T: ThreeArgsTransformer>(
    p: ElementProcessor<P, T>,
    e: ElementModel,
    depth: int,
)
    requires
        p.spec_preprocessors().len() == 0,
        p.spec_postprocessors().len() == 0,
        crate::element::spec_is_plain_data(e),
        crate::element::spec_nesting(e) < depth,
    ensures
        p.spec_process(e, depth) == ResultModel::of_element(e),
    decreases depth, 0int, 0int,
{
    crate::element::lemma_nesting_nonneg(e);
    let pre = ElementProcessor::<P, T>::spec_run_hooks(p.spec_preprocessors(), 0,
        p.spec_pre_process(e));
    assert(p.spec_pre_process(e) == ResultModel::of_element(e));
    assert(pre == ResultModel::of_element(e));

    match e {
        ElementModel::Array(items) => {
            lemma_plain_items_identity(p, items, depth - 1);
            assert(p.spec_process_children(e, depth - 1) == ResultModel::of_element(e));
        },
        ElementModel::Object(fields) => {
            lemma_plain_fields_identity(p, fields, depth - 1);
            assert(p.spec_process_children(e, depth - 1) == ResultModel::of_element(e));
        },
        _ => {
            assert(p.spec_process_children(e, depth - 1) == ResultModel::of_element(e));
        },
    }
    let rec = p.spec_process_children(e, depth - 1);
    assert(pre.warnings + rec.warnings =~= Seq::<result::WarningModel>::empty());
    assert(pre.errors + rec.errors =~= Seq::<result::ErrorModel>::empty());
}

proof fn lemma_plain_items_identity<P: ElementTransformer, T: ThreeArgsTransformer>(
    p: ElementProcessor<P, T>,
    items: Seq<ElementModel>,
    depth: int,
)
    requires
        p.spec_preprocessors().len() == 0,
        p.spec_postprocessors().len() == 0,
        crate::element::spec_all_plain_items(items),
        crate::element::spec_items_nesting(items) < depth,
    ensures
        p.spec_process_items(items, depth) == (SeqOutcome {
            elements: Option::Some(items),
            warnings: Seq::empty(),
            errors: Seq::empty(),
        }),
    decreases depth, 1int, items.len(),
{
    if items.len() == 0 {
        assert(items =~= Seq::<ElementModel>::empty());
    } else {
        crate::element::lemma_nesting_nonneg(items[0]);
        lemma_plain_data_identity(p, items[0], depth);
        lemma_plain_items_identity(p, items.drop_first(), depth);
        assert(seq![items[0]] + items.drop_first() =~= items);
        assert(Seq::<result::WarningModel>::empty() + Seq::<result::WarningModel>::empty()
            =~= Seq::<result::WarningModel>::empty());
        assert(Seq::<result::ErrorModel>::empty() + Seq::<result::ErrorModel>::empty()
            =~= Seq::<result::ErrorModel>::empty());
    }
}

proof fn lemma_plain_fields_identity<P: ElementTransformer, T: ThreeArgsTransformer>(
    p: ElementProcessor<P, T>,
    fields: Seq<(ElementModel, ElementModel)>,
    depth: int,
)
    requires
        p.spec_preprocessors().len() == 0,
        p.spec_postprocessors().len() == 0,
        crate::element::spec_all_plain_fields(fields),
        crate::element::spec_fields_nesting(fields) < depth,
    ensures
        p.spec_process_fields(fields, depth) == (FieldsOutcome {
            fields: Option::Some(fields),
            warnings: Seq::empty(),
            errors: Seq::empty(),
        }),
    decreases depth, 1int, fields.len(),
{
    if fields.len() == 0 {
        assert(fields =~= Seq::<(ElementModel, ElementModel)>::empty());
    } else {
        crate::element::lemma_nesting_nonneg(fields[0].0);
        crate::element::lemma_nesting_nonneg(fields[0].1);
        lemma_plain_data_identity(p, fields[0].0, depth);
        lemma_plain_data_identity(p, fields[0].1, depth);
        lemma_plain_fields_identity(p, fields.drop_first(), depth);
        assert(seq![fields[0]] + fields.drop_first() =~= fields);
        assert(Seq::<result::WarningModel>::empty() + Seq::<result::WarningModel>::empty()
            =~= Seq::<result::WarningModel>::empty());
        assert(Seq::<result::ErrorModel>::empty() + Seq::<result::ErrorModel>::empty()
            =~= Seq::<result::ErrorModel>::empty());
    }
}

/// Builds the `namespace:name` type string.
pub(crate) fn make_type_string(namespace: &str, name: &str) -> (r: String)
    ensures
        r@ == namespace@ + ":"@ + name@,
{
    let s = <String as vstd::string::StringExecFns>::from_str(namespace);
    let s = <String as vstd::string::StringExecFns>::concat(s, ":");
    <String as vstd::string::StringExecFns>::concat(s, name)
}

/// Builds the `"type"` field of a lowered object.
fn make_type_field(namespace: &str, name: &str) -> (r: (Element, Element))
    ensures
        (r.0@, r.1@) == spec_type_pair(namespace@, name@),
{
    (
        Element::StringElement(crate::util::string_from_str("type")),
        Element::StringElement(make_type_string(namespace, name)),
    )
}

/// Builds a lowered no-argument call.
pub(crate) fn make_lowered0(namespace: &str, name: &str) -> (r: Element)
    ensures
        r@ == spec_lowered0(namespace@, name@),
{
    let mut fields: Vec<(Element, Element)> = Vec::new();
    fields.push(make_type_field(namespace, name));
    proof {
        crate::element::lemma_view_fields(fields@);
        assert(crate::element::view_fields(fields@) =~= seq![
            spec_type_pair(namespace@, name@),
        ]);
    }
    Element::ObjectElement(fields)
}

/// Builds a lowered one-argument call.
pub(crate) fn make_lowered1(namespace: &str, name: &str, key: &str, arg: Element) -> (r: Element)
    ensures
        r@ == spec_lowered1(namespace@, name@, key@, arg@),
{
    let ghost arg_m = arg@;
    let mut fields: Vec<(Element, Element)> = Vec::new();
    fields.push(make_type_field(namespace, name));
    fields.push((Element::StringElement(crate::util::string_from_str(key)), arg));
    proof {
        crate::element::lemma_view_fields(fields@);
        assert(crate::element::view_fields(fields@)[0] == (fields@[0].0@, fields@[0].1@));
        assert(crate::element::view_fields(fields@)[1] == (fields@[1].0@, fields@[1].1@));
        assert(crate::element::view_fields(fields@) =~= seq![
            spec_type_pair(namespace@, name@),
            (ElementModel::String(key@), arg_m),
        ]);
    }
    Element::ObjectElement(fields)
}

/// Builds a lowered two-argument call.
pub(crate) fn make_lowered2(
    namespace: &str,
    name: &str,
    key1: &str,
    key2: &str,
    arg1: Element,
    arg2: Element,
) -> (r: Element)
    ensures
        r@ == spec_lowered2(namespace@, name@, key1@, key2@, arg1@, arg2@),
{
    let ghost arg1_m = arg1@;
    let ghost arg2_m = arg2@;
    let mut fields: Vec<(Element, Element)> = Vec::new();
    fields.push(make_type_field(namespace, name));
    fields.push((Element::StringElement(crate::util::string_from_str(key1)), arg1));
    fields.push((Element::StringElement(crate::util::string_from_str(key2)), arg2));
    proof {
        crate::element::lemma_view_fields(fields@);
        assert(crate::element::view_fields(fields@)[0] == (fields@[0].0@, fields@[0].1@));
        assert(crate::element::view_fields(fields@)[1] == (fields@[1].0@, fields@[1].1@));
        assert(crate::element::view_fields(fields@)[2] == (fields@[2].0@, fields@[2].1@));
        assert(crate::element::view_fields(fields@) =~= seq![
            spec_type_pair(namespace@, name@),
            (ElementModel::String(key1@), arg1_m),
            (ElementModel::String(key2@), arg2_m),
        ]);
    }
    Element::ObjectElement(fields)
}

/// The first matching no-argument registration, by index.
fn find_no_arg(v: &Vec<NoArgFunction>, name: &str, require_symbol: bool) -> (r: Option<usize>)
    ensures
        match r {
            Some(i) => 0 <= i < v@.len() && spec_find_no_arg(v@, name@, require_symbol)
                == Option::Some(v@[i as int]@),
            None => spec_find_no_arg(v@, name@, require_symbol) is None,
        },
{
    proof {
        assert(v@.skip(0) =~= v@);
    }
    let mut i: usize = 0;
    while i < v.len()
        invariant
            0 <= i <= v@.len(),
            spec_find_no_arg(v@, name@, require_symbol) == spec_find_no_arg(v@.skip(i as int),
                name@, require_symbol),
        decreases v@.len() - i,
    {
        let ghost rest = v@.skip(i as int);
        proof {
            assert(rest[0] == v@[i as int]);
            assert(rest.drop_first() =~= v@.skip(i + 1));
        }
        let entry = &v[i];
        if (!require_symbol || entry.allow_as_symbol()) && crate::util::str_eq(entry.name(),
            name) {
            return Some(i);
        }
        i = i + 1;
    }
    proof {
        assert(v@.skip(v@.len() as int).len() == 0);
    }
    None
}

/// The first matching one-argument registration, by index.
fn find_one_arg(v: &Vec<OneArgFunction>, name: &str, require_method: bool) -> (r: Option<
    usize>)
    ensures
        match r {
            Some(i) => 0 <= i < v@.len() && spec_find_one_arg(v@, name@, require_method)
                == Option::Some(v@[i as int]@),
            None => spec_find_one_arg(v@, name@, require_method) is None,
        },
{
    proof {
        assert(v@.skip(0) =~= v@);
    }
    let mut i: usize = 0;
    while i < v.len()
        invariant
            0 <= i <= v@.len(),
            spec_find_one_arg(v@, name@, require_method) == spec_find_one_arg(
                v@.skip(i as int), name@, require_method),
        decreases v@.len() - i,
    {
        let ghost rest = v@.skip(i as int);
        proof {
            assert(rest[0] == v@[i as int]);
            assert(rest.drop_first() =~= v@.skip(i + 1));
        }
        let entry = &v[i];
        if (!require_method || entry.allow_method_syntax()) && crate::util::str_eq(
            entry.name(), name) {
            return Some(i);
        }
        i = i + 1;
    }
    proof {
        assert(v@.skip(v@.len() as int).len() == 0);
    }
    None
}

/// The first matching two-argument registration, by index.
fn find_two_args(v: &Vec<TwoArgsFunction>, name: &str, require_method: bool) -> (r: Option<
    usize>)
    ensures
        match r {
            Some(i) => 0 <= i < v@.len() && spec_find_two_args(v@, name@, require_method)
                == Option::Some(v@[i as int]@),
            None => spec_find_two_args(v@, name@, require_method) is None,
        },
{
    proof {
        assert(v@.skip(0) =~= v@);
    }
    let mut i: usize = 0;
    while i < v.len()
        invariant
            0 <= i <= v@.len(),
            spec_find_two_args(v@, name@, require_method) == spec_find_two_args(
                v@.skip(i as int), name@, require_method),
        decreases v@.len() - i,
    {
        let ghost rest = v@.skip(i as int);
        proof {
            assert(rest[0] == v@[i as int]);
            assert(rest.drop_first() =~= v@.skip(i + 1));
        }
        let entry = &v[i];
        if (!require_method || entry.allow_method_syntax()) && crate::util::str_eq(
            entry.name(), name) {
            return Some(i);
        }
        i = i + 1;
    }
    proof {
        assert(v@.skip(v@.len() as int).len() == 0);
    }
    None
}

/// The first matching operator registration, by index.
fn find_binary(v: &Vec<BinaryOperator>, symbol: &str) -> (r: Option<usize>)
    ensures
        match r {
            Some(i) => 0 <= i < v@.len() && spec_find_binary(v@, symbol@) == Option::Some(
                v@[i as int]@),
            None => spec_find_binary(v@, symbol@) is None,
        },
{
    proof {
        assert(v@.skip(0) =~= v@);
    }
    let mut i: usize = 0;
    while i < v.len()
        invariant
            0 <= i <= v@.len(),
            spec_find_binary(v@, symbol@) == spec_find_binary(v@.skip(i as int), symbol@),
        decreases v@.len() - i,
    {
        let ghost rest = v@.skip(i as int);
        proof {
            assert(rest[0] == v@[i as int]);
            assert(rest.drop_first() =~= v@.skip(i + 1));
        }
        let entry = &v[i];
        if crate::util::str_eq(entry.name(), symbol) {
            return Some(i);
        }
        i = i + 1;
    }
    proof {
        assert(v@.skip(v@.len() as int).len() == 0);
    }
    None
}

/// The first matching custom three-argument registration, by index.
fn find_custom<F: ThreeArgsTransformer>(
    v: &Vec<CustomThreeArgsFunction<F>>,
    name: &str,
    require_method: bool,
) -> (r: Option<usize>)
    ensures
        match r {
            Some(i) => 0 <= i < v@.len() && spec_find_custom(v@, name@, require_method)
                == Option::Some(i as int),
            None => spec_find_custom(v@, name@, require_method) is None,
        },
{
    proof {
        assert(v@.skip(0) =~= v@);
    }
    let mut i: usize = 0;
    while i < v.len()
        invariant
            0 <= i <= v@.len(),
            (match spec_find_custom(v@.skip(i as int), name@, require_method) {
                Option::Some(j) => spec_find_custom(v@, name@, require_method) == Option::Some(
                    i + j),
                Option::None => spec_find_custom(v@, name@, require_method) is None,
            }),
        decreases v@.len() - i,
    {
        let ghost rest = v@.skip(i as int);
        proof {
            assert(rest[0] == v@[i as int]);
            assert(rest.drop_first() =~= v@.skip(i + 1));
            lemma_find_custom_in_range(rest.drop_first(), name@, require_method);
        }
        let entry = &v[i];
        if (!require_method || entry.allow_method_syntax()) && crate::util::str_eq(
            entry.name(), name) {
            return Some(i);
        }
        i = i + 1;
    }
    proof {
        assert(v@.skip(v@.len() as int).len() == 0);
    }
    None
}

impl<P: ElementTransformer, T: ThreeArgsTransformer> ElementProcessor<P, T> {
    /// The registry resolution step on one node.
    fn pre_process(&self, element: Element) -> (r: ProcessResult)
        ensures
            r@ == self.spec_pre_process(element@),
    {
        match element {
            Element::NameElement(name) => {
                match find_no_arg(&self.no_arg_functions, name.as_str(), true) {
                    Some(i) => {
                        let f = &self.no_arg_functions[i];
                        ProcessResult::from_element(make_lowered0(f.namespace(), f.name()))
                    },
                    None => ProcessResult::from_element(Element::NameElement(name)),
                }
            },
            Element::BinaryElement { left, operator, right } => {
                match find_binary(&self.binary_operators, operator.text()) {
                    Some(i) => {
                        let b = &self.binary_operators[i];
                        ProcessResult::from_element(make_lowered2(b.namespace(),
                            b.internal_name(), b.argument1_key(), b.argument2_key(), *left,
                            *right))
                    },
                    None => ProcessResult::from_element(Element::BinaryElement {
                        left,
                        operator,
                        right,
                    }),
                }
            },
            Element::FunctionCallElement { receiver: Some(receiver), name, arguments: Some(
                mut args) } => {
                proof {
                    crate::element::lemma_view_elements(args@);
                }
                if args.len() == 0 {
                    match find_one_arg(&self.one_arg_functions, name.as_str(), true) {
                        Some(i) => {
                            let f = &self.one_arg_functions[i];
                            return ProcessResult::from_element(make_lowered1(f.namespace(),
                                f.name(), f.argument_key(), *receiver));
                        },
                        None => {},
                    }
                } else if args.len() == 1 {
                    match find_two_args(&self.two_args_functions, name.as_str(), true) {
                        Some(i) => {
                            let f = &self.two_args_functions[i];
                            let arg1 = args.remove(0);
                            return ProcessResult::from_element(make_lowered2(f.namespace(),
                                f.name(), f.argument1_key(), f.argument2_key(), *receiver,
                                arg1));
                        },
                        None => {},
                    }
                } else if args.len() == 2 {
                    match find_custom(&self.custom_three_args_functions, name.as_str(), true) {
                        Some(i) => {
                            let ghost args0 = args@;
                            let arg1 = args.remove(0);
                            let arg2 = args.remove(0);
                            proof {
                                assert(args0[0] == arg1);
                                assert(args0.drop_first()[0] == arg2);
                                assert(crate::element::view_elements(args0)[0] == args0[0]@)
                                    by {
                                    crate::element::lemma_view_elements(args0);
                                }
                                assert(crate::element::view_elements(args0)[1]
                                    == args0[1]@) by {
                                    crate::element::lemma_view_elements(args0);
                                }
                                assert(args0.drop_first()[0] == args0[1]);
                            }
                            return self.custom_three_args_functions[i].function().transform3(
                                *receiver, arg1, arg2);
                        },
                        None => {},
                    }
                }
                ProcessResult::from_element(Element::FunctionCallElement {
                    receiver: Some(receiver),
                    name,
                    arguments: Some(args),
                })
            },
            Element::FunctionCallElement { receiver: None, name, arguments: Some(mut args) } => {
                proof {
                    crate::element::lemma_view_elements(args@);
                }
                if args.len() == 0 {
                    match find_no_arg(&self.no_arg_functions, name.as_str(), false) {
                        Some(i) => {
                            let f = &self.no_arg_functions[i];
                            return ProcessResult::from_element(make_lowered0(f.namespace(),
                                f.name()));
                        },
                        None => {},
                    }
                } else if args.len() == 1 {
                    match find_one_arg(&self.one_arg_functions, name.as_str(), false) {
                        Some(i) => {
                            let f = &self.one_arg_functions[i];
                            let ghost args0 = args@;
                            let arg1 = args.remove(0);
                            proof {
                                crate::element::lemma_view_elements(args0);
                            }
                            return ProcessResult::from_element(make_lowered1(f.namespace(),
                                f.name(), f.argument_key(), arg1));
                        },
                        None => {},
                    }
                } else if args.len() == 2 {
                    match find_two_args(&self.two_args_functions, name.as_str(), false) {
                        Some(i) => {
                            let f = &self.two_args_functions[i];
                            let ghost args0 = args@;
                            let arg1 = args.remove(0);
                            let arg2 = args.remove(0);
                            proof {
                                crate::element::lemma_view_elements(args0);
                                assert(args0.drop_first()[0] == args0[1]);
                            }
                            return ProcessResult::from_element(make_lowered2(f.namespace(),
                                f.name(), f.argument1_key(), f.argument2_key(), arg1, arg2));
                        },
                        None => {},
                    }
                } else if args.len() == 3 {
                    match find_custom(&self.custom_three_args_functions, name.as_str(),
                        false) {
                        Some(i) => {
                            let ghost args0 = args@;
                            let arg1 = args.remove(0);
                            let arg2 = args.remove(0);
                            let arg3 = args.remove(0);
                            proof {
                                crate::element::lemma_view_elements(args0);
                                assert(args0.drop_first()[0] == args0[1]);
                                assert(args0.drop_first().drop_first()[0] == args0[2]);
                            }
                            return self.custom_three_args_functions[i].function().transform3(
                                arg1, arg2, arg3);
                        },
                        None => {},
                    }
                }
                ProcessResult::from_element(Element::FunctionCallElement {
                    receiver: None,
                    name,
                    arguments: Some(args),
                })
            },
            other => ProcessResult::from_element(other),
        }
    }

    /// Runs the hook chain on a result.
    #[verifier::loop_isolation(false)]
    fn run_hooks(hooks: &Vec<P>, result: ProcessResult) -> (r: ProcessResult)
        ensures
            r@ == Self::spec_run_hooks(hooks@, 0, result@),
    {
        let mut result = result;
        let ghost r0 = result@;
        let mut i: usize = 0;
        while i < hooks.len()
            invariant
                0 <= i <= hooks@.len(),
                Self::spec_run_hooks(hooks@, 0, r0) == Self::spec_run_hooks(hooks@,
                    i as int, result@),
            decreases hooks@.len() - i,
        {
            match result.take_element() {
                Some(element) => {
                    let mut hr = hooks[i].transform(element);
                    let element2 = hr.take_element();
                    result.append_warnings_and_errors(&mut hr);
                    result = result.with_element(element2);
                },
                None => {
                    proof {
                        assert(result@.element is None);
                        assert(Self::spec_run_hooks(hooks@, i as int, result@) == result@);
                    }
                    return result;
                },
            }
            i = i + 1;
        }
        result
    }

    /// Rewrites a whole element tree: registry resolution and pre-hooks,
    /// recursion into children, post-hooks; diagnostics accumulate across
    /// the recursion, and an absent output element aborts the enclosing
    /// node while keeping them.
    pub fn process(&self, element: Element) -> (r: ProcessResult)
        ensures
            r@ == self.spec_process(element@, PROCESS_DEPTH_LIMIT as int),
    {
        self.process_depth(element, PROCESS_DEPTH_LIMIT)
    }

    /// `process` with an explicit recursion depth guard.
    fn process_depth(&self, element: Element, depth: u64) -> (r: ProcessResult)
        ensures
            r@ == self.spec_process(element@, depth as int),
        decreases depth as int, 0int, 0int,
    {
        if depth == 0 {
            let mut r = ProcessResult::empty();
            r.with_error(ProcessError::RecursionLimit);
            proof {
                assert(Seq::<result::ErrorModel>::empty().push(result::ErrorModel::RecursionLimit)
                    =~= seq![result::ErrorModel::RecursionLimit]);
            }
            return r;
        }

        let mut pre_result = Self::run_hooks(&self.preprocessors, self.pre_process(element));

        match pre_result.take_element() {
            None => pre_result,
            Some(element) => {
                let mut rec = self.process_children(element, depth - 1);
                let rec_element = rec.take_element();
                pre_result.append_warnings_and_errors(&mut rec);
                let merged = pre_result.with_element(rec_element);
                match merged.element() {
                    None => merged,
                    Some(_) => Self::run_hooks(&self.postprocessors, merged),
                }
            },
        }
    }

    /// The structural recursion into one node's children.
    fn process_children(&self, element: Element, depth: u64) -> (r: ProcessResult)
        ensures
            r@ == self.spec_process_children(element@, depth as int),
        decreases depth as int, 3int, 0int,
    {
        match element {
            Element::ArrayElement(values) => {
                let (out, mut diags) = self.process_items(values, depth);
                let element2 = match out {
                    Some(es) => Some(Element::ArrayElement(es)),
                    None => None,
                };
                diags.with_element(element2)
            },
            Element::ObjectElement(fields) => {
                let (out, mut diags) = self.process_fields(fields, depth);
                let element2 = match out {
                    Some(fs) => Some(Element::ObjectElement(fs)),
                    None => None,
                };
                diags.with_element(element2)
            },
            Element::BinaryElement { left, operator, right } => {
                let mut result = ProcessResult::empty();
                let mut left_result = self.process_depth(*left, depth);
                let mut right_result = self.process_depth(*right, depth);
                let left_element = left_result.take_element();
                let right_element = right_result.take_element();
                result.append_warnings_and_errors(&mut left_result);
                result.append_warnings_and_errors(&mut right_result);
                match (left_element, right_element) {
                    (Some(l2), Some(r2)) => result.with_element(Some(Element::BinaryElement {
                        left: Box::new(l2),
                        operator,
                        right: Box::new(r2),
                    })),
                    _ => result,
                }
            },
            Element::FunctionCallElement { receiver, name, arguments } => {
                let mut result = ProcessResult::empty();
                let had_receiver = receiver.is_some();
                let receiver_element = match receiver {
                    Some(receiver) => {
                        let mut receiver_result = self.process_depth(*receiver, depth);
                        let receiver_element = receiver_result.take_element();
                        result.append_warnings_and_errors(&mut receiver_result);
                        receiver_element
                    },
                    None => None,
                };
                if had_receiver && receiver_element.is_none() {
                    // the receiver failed for good: its absence propagates
                    return result;
                }
                match arguments {
                    Some(args) => {
                        let (out, mut diags) = self.process_items(args, depth);
                        result.append_warnings_and_errors(&mut diags);
                        match out {
                            Some(es) => result.with_element(Some(
                                Element::FunctionCallElement {
                                    receiver: match receiver_element {
                                        Some(r2) => Some(Box::new(r2)),
                                        None => None,
                                    },
                                    name,
                                    arguments: Some(es),
                                },
                            )),
                            None => result,
                        }
                    },
                    None => result.with_element(Some(Element::FunctionCallElement {
                        receiver: match receiver_element {
                            Some(r2) => Some(Box::new(r2)),
                            None => None,
                        },
                        name,
                        arguments: None,
                    })),
                }
            },
            other => ProcessResult::from_element(other),
        }
    }

    /// Processes the elements of an array or argument list in order,
    /// stopping at the first one that fails for good.
    #[verifier::loop_isolation(false)]
    fn process_items(&self, items: Vec<Element>, depth: u64) -> (r: (Option<Vec<Element>>,
        ProcessResult))
        ensures
            ({
                let out = self.spec_process_items(view_elements(items@), depth as int);
                &&& r.1@.element is None
                &&& r.1@.warnings == out.warnings
                &&& r.1@.errors == out.errors
                &&& match out.elements {
                    Option::Some(es) => r.0 matches Some(v) && view_elements(v@) == es,
                    Option::None => r.0 is None,
                }
            }),
        decreases depth as int, 1int, 0int,
    {
        let ghost items0 = view_elements(items@);
        let mut remaining = items;
        let mut done: Vec<Element> = Vec::new();
        let mut diags = ProcessResult::empty();

        loop
            invariant
                diags@.element is None,
                ({
                    let out0 = self.spec_process_items(items0, depth as int);
                    let out = self.spec_process_items(view_elements(remaining@),
                        depth as int);
                    &&& out0.warnings == diags@.warnings + out.warnings
                    &&& out0.errors == diags@.errors + out.errors
                    &&& match out.elements {
                        Option::Some(es) => out0.elements == Option::Some(view_elements(done@)
                            + es),
                        Option::None => out0.elements is None,
                    }
                }),
            decreases remaining@.len(),
        {
            proof {
                crate::element::lemma_view_elements(remaining@);
                crate::element::lemma_view_elements(done@);
            }
            if remaining.len() == 0 {
                proof {
                    assert(view_elements(remaining@) =~= Seq::<ElementModel>::empty());
                    assert(view_elements(done@) + Seq::<ElementModel>::empty()
                        =~= view_elements(done@));
                    assert(diags@.warnings + Seq::<result::WarningModel>::empty()
                        =~= diags@.warnings);
                    assert(diags@.errors + Seq::<result::ErrorModel>::empty()
                        =~= diags@.errors);
                }
                return (Some(done), diags);
            }
            let ghost rem0 = remaining@;
            let head = remaining.remove(0);
            proof {
                assert(rem0[0] == head);
                assert(rem0.drop_first() =~= remaining@);
                assert(view_elements(rem0)[0] == head@);
                assert(view_elements(rem0).drop_first() =~= view_elements(remaining@)) by {
                    crate::element::lemma_view_elements(rem0);
                    crate::element::lemma_view_elements(remaining@);
                    assert(forall|j: int| 0 <= j < remaining@.len()
                        ==> #[trigger] remaining@[j] == rem0[j + 1]);
                }
            }
            let mut head_result = self.process_depth(head, depth);
            let head_element = head_result.take_element();
            diags.append_warnings_and_errors(&mut head_result);
            match head_element {
                Some(e2) => {
                    let ghost done_pre = done@;
                    done.push(e2);
                    proof {
                        crate::element::lemma_view_elements_push(done_pre, done@.last());
                        assert(done@ == done_pre.push(done@.last()));
                        assert forall|es: Seq<ElementModel>|
                            true implies view_elements(done_pre) + (seq![done@.last()@] + es)
                            =~= view_elements(done@) + es by {}
                    }
                },
                None => {
                    return (None, diags);
                },
            }
        }
    }

    /// Processes the key/value pairs of an object in order, stopping after
    /// the first pair with a side that fails for good.
    #[verifier::loop_isolation(false)]
    fn process_fields(&self, fields: Vec<(Element, Element)>, depth: u64) -> (r: (Option<Vec<(
        Element, Element)>>, ProcessResult))
        ensures
            ({
                let out = self.spec_process_fields(view_fields(fields@), depth as int);
                &&& r.1@.element is None
                &&& r.1@.warnings == out.warnings
                &&& r.1@.errors == out.errors
                &&& match out.fields {
                    Option::Some(fs) => r.0 matches Some(v) && view_fields(v@) == fs,
                    Option::None => r.0 is None,
                }
            }),
        decreases depth as int, 1int, 0int,
    {
        let ghost fields0 = view_fields(fields@);
        let mut remaining = fields;
        let mut done: Vec<(Element, Element)> = Vec::new();
        let mut diags = ProcessResult::empty();

        loop
            invariant
                diags@.element is None,
                ({
                    let out0 = self.spec_process_fields(fields0, depth as int);
                    let out = self.spec_process_fields(view_fields(remaining@), depth as int);
                    &&& out0.warnings == diags@.warnings + out.warnings
                    &&& out0.errors == diags@.errors + out.errors
                    &&& match out.fields {
                        Option::Some(fs) => out0.fields == Option::Some(view_fields(done@)
                            + fs),
                        Option::None => out0.fields is None,
                    }
                }),
            decreases remaining@.len(),
        {
            proof {
                crate::element::lemma_view_fields(remaining@);
                crate::element::lemma_view_fields(done@);
            }
            if remaining.len() == 0 {
                proof {
                    assert(view_fields(remaining@) =~= Seq::<(ElementModel,
                        ElementModel)>::empty());
                    assert(view_fields(done@) + Seq::<(ElementModel, ElementModel)>::empty()
                        =~= view_fields(done@));
                    assert(diags@.warnings + Seq::<result::WarningModel>::empty()
                        =~= diags@.warnings);
                    assert(diags@.errors + Seq::<result::ErrorModel>::empty()
                        =~= diags@.errors);
                }
                return (Some(done), diags);
            }
            let ghost rem0 = remaining@;
            let (key, value) = remaining.remove(0);
            proof {
                assert(rem0[0] == (key, value));
                assert(rem0.drop_first() =~= remaining@);
                assert(view_fields(rem0)[0] == (rem0[0].0@, rem0[0].1@));
                assert(view_fields(rem0).drop_first() =~= view_fields(remaining@)) by {
                    crate::element::lemma_view_fields(rem0);
                    crate::element::lemma_view_fields(remaining@);
                    assert(forall|j: int| 0 <= j < remaining@.len()
                        ==> #[trigger] remaining@[j] == rem0[j + 1]);
                }
            }
            let mut key_result = self.process_depth(key, depth);
            let mut value_result = self.process_depth(value, depth);
            let key_element = key_result.take_element();
            let value_element = value_result.take_element();
            diags.append_warnings_and_errors(&mut key_result);
            diags.append_warnings_and_errors(&mut value_result);
            match (key_element, value_element) {
                (Some(k2), Some(v2)) => {
                    let ghost done_pre = done@;
                    done.push((k2, v2));
                    proof {
                        crate::element::lemma_view_fields_push(done_pre, done@.last());
                        assert(done@ == done_pre.push(done@.last()));
                    }
                },
                _ => {
                    return (None, diags);
                },
            }
        }
    }
}

} // verus!
