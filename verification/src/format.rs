//! The JSON serializer for lowered element trees: a pretty mode with
//! configurable indentation and a compact mode without whitespace.  Both
//! reject the expression forms, which indicate incomplete lowering.

use vstd::prelude::*;

use crate::element::{Element, ElementModel};
use crate::util::{spec_escape, spec_hex_digit_char};

verus! {

broadcast use vstd::seq::group_seq_axioms;

/// The serialization mode.
pub enum Options {
    Pretty { indentation: i32 },
    Compressed,
}

/// What kind of unresolved construct the serializer ran into.
#[derive(Clone, Copy, Debug, PartialEq, Eq, Structural)]
pub enum SymbolKind {
    Symbol,
    Function,
    Operator,
}

/// The mathematical model of a serialization error.
pub enum FormatErrorModel {
    UnresolvedSymbol(SymbolKind, Seq<char>, ElementModel),
    NotSimpleElement(ElementModel),
}

/// A serialization error: an expression form reached the serializer.
#[derive(Debug)]
pub enum Error {
    /// A `Name`, `FunctionCall` or `Binary` node that nothing lowered, with
    /// its name or operator symbol.
    UnresolvedSymbol(SymbolKind, String, Element),
    /// A composite node where a simple one was expected.
    NotSimpleElement(Element),
}

impl View for Error {
    type V = FormatErrorModel;

    open spec fn view(&self) -> FormatErrorModel {
        match *self {
            Error::UnresolvedSymbol(k, ref n, ref e) => FormatErrorModel::UnresolvedSymbol(k,
                n@, e@),
            Error::NotSimpleElement(ref e) => FormatErrorModel::NotSimpleElement(e@),
        }
    }
}

/// The decimal digits of a value, most significant first.
pub open spec fn spec_nat_chars(n: int) -> Seq<char>
    decreases n,
{
    if n < 10 {
        seq![spec_hex_digit_char((if 0 <= n { n } else { 0 }) as u32 % 16)]
    } else {
        spec_nat_chars(n / 10).push(spec_hex_digit_char((n % 10) as u32))
    }
}

/// The decimal form of an integer: a minus sign and the digits of its
/// magnitude.
pub open spec fn spec_int_chars(n: int) -> Seq<char> {
    if n < 0 {
        seq!['-'] + spec_nat_chars(-n)
    } else {
        spec_nat_chars(n)
    }
}

/// The serialized form of a simple node: the expression forms and the two
/// composite forms have none.
pub open spec fn spec_fmt_simple(e: ElementModel) -> Result<Seq<char>, FormatErrorModel> {
    match e {
        ElementModel::Null => Result::Ok("null"@),
        ElementModel::Boolean(b) => Result::Ok(if b { "true"@ } else { "false"@ }),
        ElementModel::Int(i) => Result::Ok(spec_int_chars(i)),
        ElementModel::Float(t) => Result::Ok(t),
        ElementModel::String(s) => Result::Ok(seq!['"'] + spec_escape(s) + seq!['"']),
        ElementModel::Name(n) => Result::Ok(n),
        _ => Result::Err(FormatErrorModel::NotSimpleElement(e)),
    }
}

/// The compact serialized form: no whitespace, one comma between entries,
/// and a hard error on every expression form.
pub open spec fn spec_fmt_compact(e: ElementModel) -> Result<Seq<char>, FormatErrorModel>
    decreases e, 1int,
{
    match e {
        ElementModel::Array(values) => match spec_fmt_compact_items(values) {
            Result::Ok(s) => Result::Ok(seq!['['] + s + seq![']']),
            Result::Err(er) => Result::Err(er),
        },
        ElementModel::Object(fields) => match spec_fmt_compact_fields(fields) {
            Result::Ok(s) => Result::Ok(seq!['{'] + s + seq!['}']),
            Result::Err(er) => Result::Err(er),
        },
        ElementModel::Binary { left, operator, right } => Result::Err(
            FormatErrorModel::UnresolvedSymbol(SymbolKind::Operator, operator.text, e),
        ),
        ElementModel::FunctionCall { receiver, name, arguments } => Result::Err(
            FormatErrorModel::UnresolvedSymbol(SymbolKind::Function, name, e),
        ),
        ElementModel::Name(n) => Result::Err(FormatErrorModel::UnresolvedSymbol(
            SymbolKind::Symbol, n, e)),
        _ => spec_fmt_simple(e),
    }
}

/// The comma-separated compact forms of a list of elements.
pub open spec fn spec_fmt_compact_items(values: Seq<ElementModel>) -> Result<Seq<char>,
    FormatErrorModel>
    decreases values, 0int,
{
    if values.len() == 0 {
        Result::Ok(Seq::empty())
    } else {
        match spec_fmt_compact(values[0]) {
            Result::Err(er) => Result::Err(er),
            Result::Ok(h) => if values.len() == 1 {
                Result::Ok(h)
            } else {
                match spec_fmt_compact_items(values.drop_first()) {
                    Result::Err(er) => Result::Err(er),
                    Result::Ok(t) => Result::Ok(h + seq![','] + t),
                }
            },
        }
    }
}

/// The comma-separated compact forms of the fields of an object, each a
/// `key:value` pair.
pub open spec fn spec_fmt_compact_fields(fields: Seq<(ElementModel, ElementModel)>) -> Result<
    Seq<char>, FormatErrorModel>
    decreases fields, 0int,
{
    if fields.len() == 0 {
        Result::Ok(Seq::empty())
    } else {
        match (spec_fmt_compact(fields[0].0), spec_fmt_compact(fields[0].1)) {
            (Result::Ok(k), Result::Ok(v)) => if fields.len() == 1 {
                Result::Ok(k + seq![':'] + v)
            } else {
                match spec_fmt_compact_fields(fields.drop_first()) {
                    Result::Err(er) => Result::Err(er),
                    Result::Ok(t) => Result::Ok(k + seq![':'] + v + seq![','] + t),
                }
            },
            (Result::Err(er), _) => Result::Err(er),
            (_, Result::Err(er)) => Result::Err(er),
        }
    }
}

/// The pretty serialized form: entries one per line, each line indented one
/// `unit` deeper than `indent`, and a hard error on every expression form.
pub open spec fn spec_fmt_pretty(e: ElementModel, unit: Seq<char>, indent: Seq<char>)
    -> Result<Seq<char>, FormatErrorModel>
    decreases e, 1int,
{
    match e {
        ElementModel::Array(values) => match spec_fmt_pretty_items(values, unit,
            indent + unit) {
            Result::Ok(s) => Result::Ok(seq!['['] + seq!['\n'] + s + indent + seq![']']),
            Result::Err(er) => Result::Err(er),
        },
        ElementModel::Object(fields) => match spec_fmt_pretty_fields(fields, unit,
            indent + unit) {
            Result::Ok(s) => Result::Ok(seq!['{'] + seq!['\n'] + s + indent + seq!['}']),
            Result::Err(er) => Result::Err(er),
        },
        ElementModel::Binary { left, operator, right } => Result::Err(
            FormatErrorModel::UnresolvedSymbol(SymbolKind::Operator, operator.text, e),
        ),
        ElementModel::FunctionCall { receiver, name, arguments } => Result::Err(
            FormatErrorModel::UnresolvedSymbol(SymbolKind::Function, name, e),
        ),
        ElementModel::Name(n) => Result::Err(FormatErrorModel::UnresolvedSymbol(
            SymbolKind::Symbol, n, e)),
        _ => spec_fmt_simple(e),
    }
}

/// The lines of a pretty array body: each element on its own line at
/// `indent`, with a comma after every line but the last.
pub open spec fn spec_fmt_pretty_items(
    values: Seq<ElementModel>,
    unit: Seq<char>,
    indent: Seq<char>,
) -> Result<Seq<char>, FormatErrorModel>
    decreases values, 0int,
{
    if values.len() == 0 {
        Result::Ok(Seq::empty())
    } else {
        match spec_fmt_pretty(values[0], unit, indent) {
            Result::Err(er) => Result::Err(er),
            Result::Ok(h) => if values.len() == 1 {
                Result::Ok(indent + h + seq!['\n'])
            } else {
                match spec_fmt_pretty_items(values.drop_first(), unit, indent) {
                    Result::Err(er) => Result::Err(er),
                    Result::Ok(t) => Result::Ok(indent + h + seq![','] + seq!['\n'] + t),
                }
            },
        }
    }
}

/// The lines of a pretty object body: each `key: value` pair on its own
/// line at `indent`, with a comma after every line but the last.
pub open spec fn spec_fmt_pretty_fields(
    fields: Seq<(ElementModel, ElementModel)>,
    unit: Seq<char>,
    indent: Seq<char>,
) -> Result<Seq<char>, FormatErrorModel>
    decreases fields, 0int,
{
    if fields.len() == 0 {
        Result::Ok(Seq::empty())
    } else {
        match (spec_fmt_pretty(fields[0].0, unit, indent), spec_fmt_pretty(fields[0].1, unit,
            indent)) {
            (Result::Ok(k), Result::Ok(v)) => if fields.len() == 1 {
                Result::Ok(indent + k + seq![':', ' '] + v + seq!['\n'])
            } else {
                match spec_fmt_pretty_fields(fields.drop_first(), unit, indent) {
                    Result::Err(er) => Result::Err(er),
                    Result::Ok(t) => Result::Ok(indent + k + seq![':', ' '] + v + seq![',']
                        + seq!['\n'] + t),
                }
            },
            (Result::Err(er), _) => Result::Err(er),
            (_, Result::Err(er)) => Result::Err(er),
        }
    }
}

/// What `format_json` produces: the compact or pretty form of the element,
/// starting at indentation zero.
pub open spec fn spec_format_json(e: ElementModel, options: Options) -> Result<Seq<char>,
    FormatErrorModel> {
    match options {
        Options::Pretty { indentation } => spec_fmt_pretty(e, spec_spaces(indentation as int),
            Seq::empty()),
        Options::Compressed => spec_fmt_compact(e),
    }
}

/// A run of `n` spaces.
pub open spec fn spec_spaces(n: int) -> Seq<char>
    decreases n,
{
    if n <= 0 {
        Seq::empty()
    } else {
        spec_spaces(n - 1).push(' ')
    }
}

/// Appends the decimal digits of `mag` to `out`, most significant first.
fn push_nat_chars(mag: u64, out: &mut Vec<char>)
    ensures
        final(out)@ == old(out)@ + spec_nat_chars(mag as int),
    decreases mag,
{
    if mag < 10 {
        let c = crate::util::hex_digit_char(mag as u32);
        out.push(c);
        proof {
            assert(old(out)@ + spec_nat_chars(mag as int) =~= old(out)@.push(c));
        }
    } else {
        push_nat_chars(mag / 10, out);
        let c = crate::util::hex_digit_char((mag % 10) as u32);
        out.push(c);
        proof {
            assert(old(out)@ + spec_nat_chars(mag as int) =~= (old(out)@ + spec_nat_chars(
                mag as int / 10)).push(c));
        }
    }
}

/// The decimal form of a 32-bit integer.
fn int_to_chars(value: i32, out: &mut Vec<char>)
    ensures
        final(out)@ == old(out)@ + spec_int_chars(value as int),
{
    if value < 0 {
        out.push('-');
        let mag = (-(value as i64)) as u64;
        push_nat_chars(mag, out);
        proof {
            assert(old(out)@ + (seq!['-'] + spec_nat_chars(mag as int)) =~= old(out)@.push('-')
                + spec_nat_chars(mag as int));
        }
    } else {
        push_nat_chars(value as u64, out);
    }
}

/// A run of `n` spaces (none for a negative count).
fn spaces(n: i32) -> (r: Vec<char>)
    ensures
        r@ == spec_spaces(n as int),
{
    let mut out: Vec<char> = Vec::new();
    if n <= 0 {
        proof {
            assert(out@ =~= spec_spaces(n as int));
        }
        return out;
    }
    let mut i: i32 = 0;
    while i < n
        invariant
            0 <= i <= n,
            out@ == spec_spaces(i as int),
        decreases n - i,
    {
        out.push(' ');
        i = i + 1;
    }
    out
}

/// Appends the characters of `b` to `a`.
fn append_chars(a: &mut Vec<char>, b: &Vec<char>)
    ensures
        final(a)@ == old(a)@ + b@,
{
    let mut i: usize = 0;
    while i < b.len()
        invariant
            0 <= i <= b@.len(),
            a@ == old(a)@ + b@.take(i as int),
        decreases b@.len() - i,
    {
        a.push(b[i]);
        i = i + 1;
        proof {
            assert(old(a)@ + b@.take(i as int) =~= (old(a)@ + b@.take(i - 1)).push(b@[i - 1]));
        }
    }
    proof {
        assert(b@.take(b@.len() as int) =~= b@);
    }
}

/// Serializes a simple node onto `out`.
fn fmt_simple(e: &Element, out: &mut Vec<char>) -> (r: Result<(), Error>)
    ensures
        match spec_fmt_simple(e@) {
            Result::Ok(s) => r is Ok && final(out)@ == old(out)@ + s,
            Result::Err(em) => r matches Err(er) && er@ == em,
        },
{
    match e {
        Element::NullElement => {
            crate::util::append_str_chars(out, "null");
            Ok(())
        },
        Element::BooleanElement(b) => {
            if *b {
                crate::util::append_str_chars(out, "true");
            } else {
                crate::util::append_str_chars(out, "false");
            }
            Ok(())
        },
        Element::IntElement(i) => {
            int_to_chars(*i, out);
            Ok(())
        },
        Element::FloatElement(t) => {
            crate::util::append_str_chars(out, t.as_str());
            Ok(())
        },
        Element::StringElement(s) => {
            let escaped = crate::util::escape_str(s.as_str());
            out.push('"');
            crate::util::append_str_chars(out, escaped.as_str());
            out.push('"');
            proof {
                assert(old(out)@ + (seq!['"'] + spec_escape(s@) + seq!['"'])
                    =~= ((old(out)@.push('"')) + spec_escape(s@)).push('"'));
            }
            Ok(())
        },
        Element::NameElement(n) => {
            crate::util::append_str_chars(out, n.as_str());
            Ok(())
        },
        _ => Err(Error::NotSimpleElement(e.duplicate())),
    }
}

/// Serializes a node compactly onto `out`.
#[verifier::loop_isolation(false)]
#[verifier::rlimit(100)]
fn fmt_compact(e: &Element, out: &mut Vec<char>) -> (r: Result<(), Error>)
    ensures
        match spec_fmt_compact(e@) {
            Result::Ok(s) => r is Ok && final(out)@ == old(out)@ + s,
            Result::Err(em) => r matches Err(er) && er@ == em,
        },
    decreases e, 1int,
{
    match e {
        Element::ArrayElement(values) => {
            let ghost whole = crate::element::view_elements(values@);
            proof {
                crate::element::lemma_view_elements(values@);
            }
            out.push('[');
            proof {
                assert(whole.skip(0) =~= whole);
                assert(out@ =~= old(out)@ + seq!['[']);
            }
            let mut i: usize = 0;
            while i < values.len()
                invariant
                    0 <= i <= values@.len(),
                    (match spec_fmt_compact_items(whole.skip(i as int)) {
                        Result::Ok(t) => spec_fmt_compact_items(whole) matches Result::Ok(wj)
                            && out@ + t == old(out)@ + seq!['['] + wj,
                        Result::Err(er) => spec_fmt_compact_items(whole) == Result::<Seq<char>,
                            FormatErrorModel>::Err(er),
                    }),
                decreases values@.len() - i,
            {
                let ghost suffix = whole.skip(i as int);
                proof {
                    assert(decreases_to!(*e => *values));
                    assert(decreases_to!(*values => values@));
                    assert(decreases_to!(values@ => values@[i as int]));
                    assert(suffix[0] == whole[i as int]);
                    assert(whole[i as int] == values@[i as int]@);
                    assert(suffix.drop_first() =~= whole.skip(i + 1));
                }
                match fmt_compact(&values[i], out) {
                    Ok(_) => {},
                    Err(er) => {
                        return Err(er);
                    },
                }
                i = i + 1;
                if i < values.len() {
                    out.push(',');
                }
            }
            proof {
                assert(whole.skip(whole.len() as int).len() == 0);
            }
            out.push(']');
            Ok(())
        },
        Element::ObjectElement(fields) => {
            let ghost whole = crate::element::view_fields(fields@);
            proof {
                crate::element::lemma_view_fields(fields@);
            }
            out.push('{');
            proof {
                assert(whole.skip(0) =~= whole);
                assert(out@ =~= old(out)@ + seq!['{']);
            }
            let mut i: usize = 0;
            while i < fields.len()
                invariant
                    0 <= i <= fields@.len(),
                    (match spec_fmt_compact_fields(whole.skip(i as int)) {
                        Result::Ok(t) => spec_fmt_compact_fields(whole) matches Result::Ok(wj)
                            && out@ + t == old(out)@ + seq!['{'] + wj,
                        Result::Err(er) => spec_fmt_compact_fields(whole) == Result::<Seq<
                            char>, FormatErrorModel>::Err(er),
                    }),
                decreases fields@.len() - i,
            {
                let ghost suffix = whole.skip(i as int);
                proof {
                    assert(decreases_to!(*e => *fields));
                    assert(decreases_to!(*fields => fields@));
                    assert(decreases_to!(fields@ => fields@[i as int]));
                    assert(decreases_to!(fields@[i as int] => fields@[i as int].0));
                    assert(decreases_to!(fields@[i as int] => fields@[i as int].1));
                    assert(suffix[0] == whole[i as int]);
                    assert(whole[i as int] == (fields@[i as int].0@, fields@[i as int].1@));
                    assert(suffix.drop_first() =~= whole.skip(i + 1));
                }
                match fmt_compact(&fields[i].0, out) {
                    Ok(_) => {},
                    Err(er) => {
                        return Err(er);
                    },
                }
                out.push(':');
                match fmt_compact(&fields[i].1, out) {
                    Ok(_) => {},
                    Err(er) => {
                        return Err(er);
                    },
                }
                i = i + 1;
                if i < fields.len() {
                    out.push(',');
                }
            }
            proof {
                assert(whole.skip(whole.len() as int).len() == 0);
            }
            out.push('}');
            Ok(())
        },
        Element::BinaryElement { left, operator, right } => Err(Error::UnresolvedSymbol(
            SymbolKind::Operator,
            crate::util::string_from_str(operator.text()),
            e.duplicate(),
        )),
        Element::FunctionCallElement { receiver, name, arguments } => Err(
            Error::UnresolvedSymbol(SymbolKind::Function, crate::util::string_from_str(
                name.as_str()), e.duplicate()),
        ),
        Element::NameElement(n) => Err(Error::UnresolvedSymbol(SymbolKind::Symbol,
            crate::util::string_from_str(n.as_str()), e.duplicate())),
        _ => fmt_simple(e, out),
    }
}

/// Serializes a node prettily onto `out`, at the given indentation.
#[verifier::loop_isolation(false)]
#[verifier::rlimit(100)]
fn fmt_pretty(e: &Element, out: &mut Vec<char>, unit: &Vec<char>, indent: &Vec<char>) -> (r:
    Result<(), Error>)
    ensures
        match spec_fmt_pretty(e@, unit@, indent@) {
            Result::Ok(s) => r is Ok && final(out)@ == old(out)@ + s,
            Result::Err(em) => r matches Err(er) && er@ == em,
        },
    decreases e, 1int,
{
    match e {
        Element::ArrayElement(values) => {
            let ghost whole = crate::element::view_elements(values@);
            proof {
                crate::element::lemma_view_elements(values@);
            }
            let mut sub_indent: Vec<char> = Vec::new();
            append_chars(&mut sub_indent, indent);
            append_chars(&mut sub_indent, unit);
            proof {
                assert(Seq::<char>::empty() + indent@ =~= indent@);
            }
            out.push('[');
            out.push('\n');
            proof {
                assert(whole.skip(0) =~= whole);
                assert(out@ =~= old(out)@ + seq!['['] + seq!['\n']);
            }
            let mut i: usize = 0;
            while i < values.len()
                invariant
                    0 <= i <= values@.len(),
                    sub_indent@ == indent@ + unit@,
                    (match spec_fmt_pretty_items(whole.skip(i as int), unit@, sub_indent@) {
                        Result::Ok(t) => spec_fmt_pretty_items(whole, unit@, sub_indent@)
                            matches Result::Ok(wj) && out@ + t == old(out)@ + seq!['[']
                            + seq!['\n'] + wj,
                        Result::Err(er) => spec_fmt_pretty_items(whole, unit@, sub_indent@)
                            == Result::<Seq<char>, FormatErrorModel>::Err(er),
                    }),
                decreases values@.len() - i,
            {
                let ghost suffix = whole.skip(i as int);
                proof {
                    assert(decreases_to!(*e => *values));
                    assert(decreases_to!(*values => values@));
                    assert(decreases_to!(values@ => values@[i as int]));
                    assert(suffix[0] == whole[i as int]);
                    assert(whole[i as int] == values@[i as int]@);
                    assert(suffix.drop_first() =~= whole.skip(i + 1));
                }
                append_chars(out, &sub_indent);
                match fmt_pretty(&values[i], out, unit, &sub_indent) {
                    Ok(_) => {},
                    Err(er) => {
                        return Err(er);
                    },
                }
                i = i + 1;
                if i < values.len() {
                    out.push(',');
                }
                out.push('\n');
            }
            proof {
                assert(whole.skip(whole.len() as int).len() == 0);
            }
            append_chars(out, indent);
            out.push(']');
            Ok(())
        },
        Element::ObjectElement(fields) => {
            let ghost whole = crate::element::view_fields(fields@);
            proof {
                crate::element::lemma_view_fields(fields@);
            }
            let mut sub_indent: Vec<char> = Vec::new();
            append_chars(&mut sub_indent, indent);
            append_chars(&mut sub_indent, unit);
            proof {
                assert(Seq::<char>::empty() + indent@ =~= indent@);
            }
            out.push('{');
            out.push('\n');
            proof {
                assert(whole.skip(0) =~= whole);
                assert(out@ =~= old(out)@ + seq!['{'] + seq!['\n']);
            }
            let mut i: usize = 0;
            while i < fields.len()
                invariant
                    0 <= i <= fields@.len(),
                    sub_indent@ == indent@ + unit@,
                    (match spec_fmt_pretty_fields(whole.skip(i as int), unit@, sub_indent@) {
                        Result::Ok(t) => spec_fmt_pretty_fields(whole, unit@, sub_indent@)
                            matches Result::Ok(wj) && out@ + t == old(out)@ + seq!['{']
                            + seq!['\n'] + wj,
                        Result::Err(er) => spec_fmt_pretty_fields(whole, unit@, sub_indent@)
                            == Result::<Seq<char>, FormatErrorModel>::Err(er),
                    }),
                decreases fields@.len() - i,
            {
                let ghost suffix = whole.skip(i as int);
                proof {
                    assert(decreases_to!(*e => *fields));
                    assert(decreases_to!(*fields => fields@));
                    assert(decreases_to!(fields@ => fields@[i as int]));
                    assert(decreases_to!(fields@[i as int] => fields@[i as int].0));
                    assert(decreases_to!(fields@[i as int] => fields@[i as int].1));
                    assert(suffix[0] == whole[i as int]);
                    assert(whole[i as int] == (fields@[i as int].0@, fields@[i as int].1@));
                    assert(suffix.drop_first() =~= whole.skip(i + 1));
                }
                append_chars(out, &sub_indent);
                match fmt_pretty(&fields[i].0, out, unit, &sub_indent) {
                    Ok(_) => {},
                    Err(er) => {
                        return Err(er);
                    },
                }
                out.push(':');
                out.push(' ');
                match fmt_pretty(&fields[i].1, out, unit, &sub_indent) {
                    Ok(_) => {},
                    Err(er) => {
                        return Err(er);
                    },
                }
                i = i + 1;
                if i < fields.len() {
                    out.push(',');
                }
                out.push('\n');
            }
            proof {
                assert(whole.skip(whole.len() as int).len() == 0);
            }
            append_chars(out, indent);
            out.push('}');
            Ok(())
        },
        Element::BinaryElement { left, operator, right } => Err(Error::UnresolvedSymbol(
            SymbolKind::Operator,
            crate::util::string_from_str(operator.text()),
            e.duplicate(),
        )),
        Element::FunctionCallElement { receiver, name, arguments } => Err(
            Error::UnresolvedSymbol(SymbolKind::Function, crate::util::string_from_str(
                name.as_str()), e.duplicate()),
        ),
        Element::NameElement(n) => Err(Error::UnresolvedSymbol(SymbolKind::Symbol,
            crate::util::string_from_str(n.as_str()), e.duplicate())),
        _ => fmt_simple(e, out),
    }
}

/// Serializes a lowered element tree: pretty with the configured indent
/// width, or compact with no whitespace at all.  Any `Name`, `Binary` or
/// `FunctionCall` node still in the tree is an `UnresolvedSymbol` error.
pub fn format_json(element: Element, options: Options) -> (r: Result<String, Error>)
    ensures
        match spec_format_json(element@, options) {
            Result::Ok(s) => r matches Ok(text) && text@ == s,
            Result::Err(em) => r matches Err(er) && er@ == em,
        },
{
    let mut out: Vec<char> = Vec::new();
    match options {
        Options::Pretty { indentation } => {
            let unit = spaces(indentation);
            let indent: Vec<char> = Vec::new();
            match fmt_pretty(&element, &mut out, &unit, &indent) {
                Ok(_) => {
                    proof {
                        assert(Seq::<char>::empty() + (spec_fmt_pretty(element@, unit@,
                            indent@)->Ok_0) =~= spec_fmt_pretty(element@, unit@,
                            indent@)->Ok_0);
                    }
                    Ok(crate::util::chars_to_string(out))
                },
                Err(er) => Err(er),
            }
        },
        Options::Compressed => {
            match fmt_compact(&element, &mut out) {
                Ok(_) => {
                    proof {
                        assert(Seq::<char>::empty() + (spec_fmt_compact(element@)->Ok_0)
                            =~= spec_fmt_compact(element@)->Ok_0);
                    }
                    Ok(crate::util::chars_to_string(out))
                },
                Err(er) => Err(er),
            }
        },
    }
}

} // verus!
