//! The result carrier of the rewrite engine: an optional output element plus
//! accumulated warnings and errors.

use vstd::prelude::*;

use crate::element::{Element, ElementModel};

verus! {

broadcast use vstd::seq::group_seq_axioms;

/// The mathematical model of a processing warning.
pub enum WarningModel {
    UnresolvedName(Seq<char>),
}

/// A non-fatal diagnostic of the rewrite engine.
#[derive(Debug, PartialEq, Eq)]
pub enum ProcessWarning {
    /// A bare name that no registered function resolved.
    UnresolvedName(String),
}

impl View for ProcessWarning {
    type V = WarningModel;

    open spec fn view(&self) -> WarningModel {
        match *self {
            ProcessWarning::UnresolvedName(ref n) => WarningModel::UnresolvedName(n@),
        }
    }
}

/// The mathematical model of a processing error.
pub enum ErrorModel {
    UnknownOperator(Seq<char>),
    UnresolvedName(Seq<char>),
    RecursionLimit,
}

/// An error of the rewrite engine.
#[derive(Debug, PartialEq, Eq)]
pub enum ProcessError {
    /// A binary operator that no registry entry lowers.
    UnknownOperator(String),
    /// A bare name that must not survive processing.
    UnresolvedName(String),
    /// The recursion depth guard ran out on a pathologically deep tree.
    RecursionLimit,
}

impl View for ProcessError {
    type V = ErrorModel;

    open spec fn view(&self) -> ErrorModel {
        match *self {
            ProcessError::UnknownOperator(ref n) => ErrorModel::UnknownOperator(n@),
            ProcessError::UnresolvedName(ref n) => ErrorModel::UnresolvedName(n@),
            ProcessError::RecursionLimit => ErrorModel::RecursionLimit,
        }
    }
}

/// The models of a warning list, in order.
pub open spec fn view_warnings(s: Seq<ProcessWarning>) -> Seq<WarningModel>
    decreases s,
{
    if s.len() == 0 {
        Seq::empty()
    } else {
        seq![s[0]@] + view_warnings(s.drop_first())
    }
}

/// The models of an error list, in order.
pub open spec fn view_errors(s: Seq<ProcessError>) -> Seq<ErrorModel>
    decreases s,
{
    if s.len() == 0 {
        Seq::empty()
    } else {
        seq![s[0]@] + view_errors(s.drop_first())
    }
}

/// `view_warnings` maps each warning to its model, and distributes over
/// concatenation.
pub proof fn lemma_view_warnings(s: Seq<ProcessWarning>)
    ensures
        view_warnings(s).len() == s.len(),
        forall|i: int| 0 <= i < s.len() ==> view_warnings(s)[i] == #[trigger] s[i]@,
    decreases s.len(),
{
    if s.len() > 0 {
        lemma_view_warnings(s.drop_first());
        assert forall|i: int| 0 <= i < s.len() implies view_warnings(s)[i] == #[trigger] s[i]@
            by {
            if i > 0 {
                assert((seq![s[0]@] + view_warnings(s.drop_first()))[i] == view_warnings(
                    s.drop_first())[i - 1]);
                assert(s.drop_first()[i - 1] == s[i]);
            }
        }
    }
}

pub proof fn lemma_view_warnings_concat(a: Seq<ProcessWarning>, b: Seq<ProcessWarning>)
    ensures
        view_warnings(a + b) == view_warnings(a) + view_warnings(b),
    decreases a.len(),
{
    if a.len() == 0 {
        assert(a + b =~= b);
        assert(view_warnings(a) + view_warnings(b) =~= view_warnings(b));
    } else {
        lemma_view_warnings_concat(a.drop_first(), b);
        assert((a + b)[0] == a[0]);
        assert((a + b).drop_first() =~= a.drop_first() + b);
        assert(seq![a[0]@] + (view_warnings(a.drop_first()) + view_warnings(b))
            =~= (seq![a[0]@] + view_warnings(a.drop_first())) + view_warnings(b));
    }
}

/// `view_errors` maps each error to its model, and distributes over
/// concatenation.
pub proof fn lemma_view_errors(s: Seq<ProcessError>)
    ensures
        view_errors(s).len() == s.len(),
        forall|i: int| 0 <= i < s.len() ==> view_errors(s)[i] == #[trigger] s[i]@,
    decreases s.len(),
{
    if s.len() > 0 {
        lemma_view_errors(s.drop_first());
        assert forall|i: int| 0 <= i < s.len() implies view_errors(s)[i] == #[trigger] s[i]@
            by {
            if i > 0 {
                assert((seq![s[0]@] + view_errors(s.drop_first()))[i] == view_errors(
                    s.drop_first())[i - 1]);
                assert(s.drop_first()[i - 1] == s[i]);
            }
        }
    }
}

pub proof fn lemma_view_errors_concat(a: Seq<ProcessError>, b: Seq<ProcessError>)
    ensures
        view_errors(a + b) == view_errors(a) + view_errors(b),
    decreases a.len(),
{
    if a.len() == 0 {
        assert(a + b =~= b);
        assert(view_errors(a) + view_errors(b) =~= view_errors(b));
    } else {
        lemma_view_errors_concat(a.drop_first(), b);
        assert((a + b)[0] == a[0]);
        assert((a + b).drop_first() =~= a.drop_first() + b);
        assert(seq![a[0]@] + (view_errors(a.drop_first()) + view_errors(b))
            =~= (seq![a[0]@] + view_errors(a.drop_first())) + view_errors(b));
    }
}

/// The mathematical model of a `ProcessResult`.
pub struct ResultModel {
    pub element: Option<ElementModel>,
    pub warnings: Seq<WarningModel>,
    pub errors: Seq<ErrorModel>,
}

impl ResultModel {
    /// A result that only carries an element.
    pub open spec fn of_element(e: ElementModel) -> ResultModel {
        ResultModel { element: Option::Some(e), warnings: Seq::empty(), errors: Seq::empty() }
    }
}

/// The outcome of one processing step: an output element unless the step
/// failed for good, plus the diagnostics gathered so far.  An absent element
/// is the only unrecoverable signal; a present element next to errors is a
/// soft failure.
#[derive(Debug)]
pub struct ProcessResult {
    pub element: Option<Element>,
    pub warnings: Vec<ProcessWarning>,
    pub errors: Vec<ProcessError>,
}

impl View for ProcessResult {
    type V = ResultModel;

    open spec fn view(&self) -> ResultModel {
        ResultModel {
            element: match self.element {
                Option::Some(ref e) => Option::Some(e@),
                Option::None => Option::None,
            },
            warnings: view_warnings(self.warnings@),
            errors: view_errors(self.errors@),
        }
    }
}

impl ProcessResult {
    pub fn new(element: Element, warnings: Vec<ProcessWarning>, errors: Vec<ProcessError>)
        -> (r: ProcessResult)
        ensures
            r@ == (ResultModel {
                element: Option::Some(element@),
                warnings: view_warnings(warnings@),
                errors: view_errors(errors@),
            }),
    {
        ProcessResult { element: Some(element), warnings, errors }
    }

    pub fn from_element(element: Element) -> (r: ProcessResult)
        ensures
            r@ == ResultModel::of_element(element@),
    {
        ProcessResult { element: Some(element), warnings: Vec::new(), errors: Vec::new() }
    }

    pub fn empty() -> (r: ProcessResult)
        ensures
            r@ == (ResultModel {
                element: Option::None,
                warnings: Seq::empty(),
                errors: Seq::empty(),
            }),
    {
        ProcessResult { element: None, warnings: Vec::new(), errors: Vec::new() }
    }

    pub fn element(&self) -> (r: Option<&Element>)
        ensures
            r is Some <==> self@.element is Some,
            r matches Some(e) ==> self@.element == Option::Some(e@),
    {
        self.element.as_ref()
    }

    pub fn take_element(&mut self) -> (r: Option<Element>)
        ensures
            final(self)@ == (ResultModel { element: Option::None, ..old(self)@ }),
            match r {
                Some(e) => old(self)@.element == Option::Some(e@),
                None => old(self)@.element is None,
            },
    {
        self.element.take()
    }

    pub fn warnings(&self) -> (r: &Vec<ProcessWarning>)
        ensures
            view_warnings(r@) == self@.warnings,
    {
        &self.warnings
    }

    pub fn errors(&self) -> (r: &Vec<ProcessError>)
        ensures
            view_errors(r@) == self@.errors,
    {
        &self.errors
    }

    pub fn with_warning(&mut self, warning: ProcessWarning) -> (r: &mut Self)
        ensures
            (*r)@ == (ResultModel {
                warnings: old(self)@.warnings.push(warning@),
                ..old(self)@
            }),
            *final(self) == *final(r),
    {
        proof {
            lemma_view_warnings_snoc(self.warnings@, warning@);
        }
        self.warnings.push(warning);
        self
    }

    pub fn with_warnings(&mut self, warnings: &mut Vec<ProcessWarning>) -> (r: &mut Self)
        ensures
            (*r)@ == (ResultModel {
                warnings: old(self)@.warnings + view_warnings(old(warnings)@),
                ..old(self)@
            }),
            final(warnings)@ == Seq::<ProcessWarning>::empty(),
            *final(self) == *final(r),
    {
        proof {
            lemma_view_warnings_concat(self.warnings@, warnings@);
        }
        self.warnings.append(warnings);
        self
    }

    pub fn with_error(&mut self, error: ProcessError) -> (r: &mut Self)
        ensures
            (*r)@ == (ResultModel { errors: old(self)@.errors.push(error@), ..old(self)@ }),
            *final(self) == *final(r),
    {
        proof {
            lemma_view_errors_snoc(self.errors@, error@);
        }
        self.errors.push(error);
        self
    }

    pub fn with_errors(&mut self, errors: &mut Vec<ProcessError>) -> (r: &mut Self)
        ensures
            (*r)@ == (ResultModel {
                errors: old(self)@.errors + view_errors(old(errors)@),
                ..old(self)@
            }),
            final(errors)@ == Seq::<ProcessError>::empty(),
            *final(self) == *final(r),
    {
        proof {
            lemma_view_errors_concat(self.errors@, errors@);
        }
        self.errors.append(errors);
        self
    }

    pub fn with_element(self, element: Option<Element>) -> (r: Self)
        ensures
            r@ == (ResultModel {
                element: match element {
                    Some(e) => Option::Some(e@),
                    None => Option::None,
                },
                ..self@
            }),
    {
        ProcessResult { element, warnings: self.warnings, errors: self.errors }
    }

    /// Applies `f` to the element, if one is there, keeping the diagnostics.
    pub fn map<F: FnOnce(Element) -> Element>(self, f: F) -> (r: Self)
        requires
            forall|e: Element| self@.element == Option::Some(e@) ==> call_requires(f, (e,)),
        ensures
            r@.warnings == self@.warnings,
            r@.errors == self@.errors,
            self@.element is None ==> r@.element is None,
            self@.element is Some ==> (r@.element is Some && exists|arg: Element, out: Element|
                self@.element == Option::Some(arg@) && #[trigger] call_ensures(f, (arg,), out)
                && r@.element == Option::Some(out@)),
    {
        let mut this = self;
        match this.element.take() {
            Some(element) => {
                let out = f(element);
                ProcessResult {
                    element: Some(out),
                    warnings: this.warnings,
                    errors: this.errors,
                }
            },
            None => this,
        }
    }

    /// Moves every diagnostic of `other` to the end of this result's lists.
    pub fn append_warnings_and_errors(&mut self, other: &mut Self) -> (r: &mut Self)
        ensures
            (*r)@ == (ResultModel {
                element: old(self)@.element,
                warnings: old(self)@.warnings + old(other)@.warnings,
                errors: old(self)@.errors + old(other)@.errors,
            }),
            final(other)@ == (ResultModel {
                element: old(other)@.element,
                warnings: Seq::empty(),
                errors: Seq::empty(),
            }),
            *final(self) == *final(r),
    {
        proof {
            lemma_view_warnings_concat(self.warnings@, other.warnings@);
            lemma_view_errors_concat(self.errors@, other.errors@);
        }
        self.warnings.append(&mut other.warnings);
        self.errors.append(&mut other.errors);
        self
    }

    /// Sequences this result with `f`: `f` runs on the element if one is
    /// there, and its diagnostics are appended to the ones already
    /// collected.
    pub fn flat_map<F: FnOnce(Element) -> ProcessResult>(self, f: F) -> (r: Self)
        requires
            forall|e: Element| self@.element == Option::Some(e@) ==> call_requires(f, (e,)),
        ensures
            self@.element is None ==> r@ == self@,
            self@.element is Some ==> (exists|arg: Element, fr: ProcessResult|
                self@.element == Option::Some(arg@) && #[trigger] call_ensures(f, (arg,), fr)
                && r@ == (ResultModel {
                    element: fr@.element,
                    warnings: self@.warnings + fr@.warnings,
                    errors: self@.errors + fr@.errors,
                })),
    {
        let mut this = self;
        match this.element.take() {
            Some(element) => {
                let mut result = f(element);
                proof {
                    lemma_view_warnings_concat(this.warnings@, result.warnings@);
                    lemma_view_errors_concat(this.errors@, result.errors@);
                }
                this.warnings.append(&mut result.warnings);
                this.errors.append(&mut result.errors);
                ProcessResult {
                    element: result.element,
                    warnings: this.warnings,
                    errors: this.errors,
                }
            },
            None => this,
        }
    }
}

/// Appending one warning appends its model.
pub proof fn lemma_view_warnings_snoc(s: Seq<ProcessWarning>, w: WarningModel)
    ensures
        forall|x: ProcessWarning| x@ == w ==> view_warnings(s.push(x)) == view_warnings(
            s).push(w),
{
    assert forall|x: ProcessWarning| x@ == w implies view_warnings(s.push(x)) == view_warnings(
        s).push(w) by {
        lemma_view_warnings(s);
        lemma_view_warnings(s.push(x));
        assert forall|i: int| 0 <= i < s.len() + 1 implies view_warnings(s.push(x))[i]
            == view_warnings(s).push(w)[i] by {
            assert(view_warnings(s.push(x))[i] == s.push(x)[i]@);
            if i < s.len() {
                assert(s.push(x)[i] == s[i]);
                assert(view_warnings(s)[i] == s[i]@);
            } else {
                assert(s.push(x)[i] == x);
            }
        }
        assert(view_warnings(s.push(x)) =~= view_warnings(s).push(w));
    }
}

/// Appending one error appends its model.
pub proof fn lemma_view_errors_snoc(s: Seq<ProcessError>, e: ErrorModel)
    ensures
        forall|x: ProcessError| x@ == e ==> view_errors(s.push(x)) == view_errors(s).push(e),
{
    assert forall|x: ProcessError| x@ == e implies view_errors(s.push(x)) == view_errors(
        s).push(e) by {
        lemma_view_errors(s);
        lemma_view_errors(s.push(x));
        assert forall|i: int| 0 <= i < s.len() + 1 implies view_errors(s.push(x))[i]
            == view_errors(s).push(e)[i] by {
            assert(view_errors(s.push(x))[i] == s.push(x)[i]@);
            if i < s.len() {
                assert(s.push(x)[i] == s[i]);
                assert(view_errors(s)[i] == s[i]@);
            } else {
                assert(s.push(x)[i] == x);
            }
        }
        assert(view_errors(s.push(x)) =~= view_errors(s).push(e));
    }
}

} // verus!
