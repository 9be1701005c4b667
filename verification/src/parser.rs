//! The recursive-descent parser with precedence climbing: turns the token
//! stream of a `LangLexer` into an `Element` tree.

pub mod lexer;

use vstd::prelude::*;

use crate::element::{Element, ElementModel};
use crate::parser::lexer::{
    LangLexer, LangToken, LangTokenType, LexerError, LexerErrorModel, LexerModel, ScanResult,
    TokenModel, TokenPos, spec_scan, spec_advance_pos_seq,
};
use crate::util::EscapeError;

verus! {

broadcast use vstd::seq::group_seq_axioms;

/// The binding strength of an infix or postfix token.  `Lowest` binds
/// nothing; `Any` is used for a whole sub-expression inside brackets, calls
/// and groups; `Sum` and `Factor` are the arithmetic levels; `Call` binds
/// tightest.
#[derive(Clone, Copy, Debug, PartialEq, Eq, Structural)]
pub enum Precedence {
    Lowest,
    Any,
    Sum,
    Factor,
    Call,
}

impl Precedence {
    /// The numeric rank that orders the precedence levels.
    pub open spec fn spec_rank(self) -> int {
        match self {
            Precedence::Lowest => 0,
            Precedence::Any => 1,
            Precedence::Sum => 2,
            Precedence::Factor => 3,
            Precedence::Call => 4,
        }
    }

    /// The numeric rank of this level, lowest first.
    pub fn rank(self) -> (r: u8)
        ensures
            r as int == self.spec_rank(),
    {
        match self {
            Precedence::Lowest => 0,
            Precedence::Any => 1,
            Precedence::Sum => 2,
            Precedence::Factor => 3,
            Precedence::Call => 4,
        }
    }
}

/// The precedence at which a token continues an expression, `None` for a
/// token that cannot.
pub open spec fn spec_get_precedence(t: LangTokenType) -> Option<Precedence> {
    match t {
        LangTokenType::Plus => Option::Some(Precedence::Sum),
        LangTokenType::Minus => Option::Some(Precedence::Sum),
        LangTokenType::Star => Option::Some(Precedence::Factor),
        LangTokenType::Slash => Option::Some(Precedence::Factor),
        LangTokenType::Dot => Option::Some(Precedence::Call),
        LangTokenType::GroupBegin => Option::Some(Precedence::Call),
        _ => Option::None,
    }
}

/// The mathematical model of a `ParseError`.
pub enum ParseErrorModel {
    UnexpectedEof,
    UnexpectedCharacter(TokenPos, char),
    ExpectedCharacter { pos: TokenPos, expected: char, got: char },
    UnexpectedToken(TokenPos, TokenModel),
    ExpectedToken { pos: TokenPos, expected: LangTokenType, got: TokenModel },
    UnexpectedElement { expected: LangTokenType, got: ElementModel },
    OtherError(TokenPos, Seq<char>),
}

/// An error of the parser: every lexer error, or a token or element of the
/// wrong shape.
#[derive(Debug)]
pub enum ParseError {
    UnexpectedEof,
    UnexpectedCharacter(TokenPos, char),
    ExpectedCharacter { pos: TokenPos, expected: char, got: char },
    UnexpectedToken(TokenPos, LangToken),
    ExpectedToken { pos: TokenPos, expected: LangTokenType, got: LangToken },
    UnexpectedElement { expected: LangTokenType, got: Element },
    OtherError(TokenPos, String),
}

impl View for ParseError {
    type V = ParseErrorModel;

    open spec fn view(&self) -> ParseErrorModel {
        match *self {
            ParseError::UnexpectedEof => ParseErrorModel::UnexpectedEof,
            ParseError::UnexpectedCharacter(p, c) => ParseErrorModel::UnexpectedCharacter(p, c),
            ParseError::ExpectedCharacter { pos, expected, got } =>
                ParseErrorModel::ExpectedCharacter { pos, expected, got },
            ParseError::UnexpectedToken(p, ref t) => ParseErrorModel::UnexpectedToken(p, t@),
            ParseError::ExpectedToken { pos, expected, ref got } =>
                ParseErrorModel::ExpectedToken { pos, expected, got: got@ },
            ParseError::UnexpectedElement { expected, ref got } =>
                ParseErrorModel::UnexpectedElement { expected, got: got@ },
            ParseError::OtherError(p, ref m) => ParseErrorModel::OtherError(p, m@),
        }
    }
}

/// The parser-level reading of a lexer error.
pub open spec fn spec_from_lexer_error(e: LexerErrorModel) -> ParseErrorModel {
    match e {
        LexerErrorModel::UnexpectedEof => ParseErrorModel::UnexpectedEof,
        LexerErrorModel::UnexpectedCharacter(pos, c) =>
            ParseErrorModel::UnexpectedCharacter(pos, c),
        LexerErrorModel::ExpectedCharacter { pos, expected, got } =>
            ParseErrorModel::ExpectedCharacter { pos, expected, got },
        LexerErrorModel::OtherError(pos, message) => ParseErrorModel::OtherError(pos, message),
    }
}

impl ParseError {
    /// The parser-level reading of an escape error found at position `pos`,
    /// mirroring the lexer-level one.
    pub open spec fn spec_from_escape_error(e: EscapeError, pos: TokenPos) -> ParseErrorModel {
        spec_from_lexer_error(LexerError::spec_from_escape_error(e, pos))
    }

    pub fn from_escape_error(e: EscapeError, pos: TokenPos) -> (r: ParseError)
        ensures
            r@ == Self::spec_from_escape_error(e, pos),
    {
        ParseError::from_lexer_error(LexerError::from_escape_error(e, pos))
    }

    /// Wraps a lexer error so that parsing can pass it on.
    pub fn from_lexer_error(e: LexerError) -> (r: ParseError)
        ensures
            r@ == spec_from_lexer_error(e@),
    {
        match e {
            LexerError::UnexpectedEof => ParseError::UnexpectedEof,
            LexerError::UnexpectedCharacter(pos, c) => ParseError::UnexpectedCharacter(pos, c),
            LexerError::ExpectedCharacter { pos, expected, got } =>
                ParseError::ExpectedCharacter { pos, expected, got },
            LexerError::OtherError(pos, message) => ParseError::OtherError(pos, message),
        }
    }
}

/// The parser's stream state: the one-token lookahead, the characters behind
/// it, and the position of the first of those characters.
pub struct StreamModel {
    pub cur: TokenModel,
    pub rem: Seq<char>,
    pub pos: TokenPos,
}

/// The termination measure of a stream: every token but `Eof` consumes at
/// least one character, so parsing runs down the remaining characters plus
/// one for a pending non-`Eof` lookahead.
pub open spec fn spec_stream_measure(st: StreamModel) -> int {
    st.rem.len() + if st.cur.token_type == LangTokenType::Eof {
        0int
    } else {
        1int
    }
}

/// Replacing the lookahead by the next scanned token.
pub open spec fn spec_stream_consume(st: StreamModel) -> Result<StreamModel, LexerErrorModel> {
    match spec_scan(st.rem, st.pos) {
        ScanResult::Token { token_type, text, pos, consumed } => Result::Ok(StreamModel {
            cur: TokenModel { token_type, text, pos },
            rem: st.rem.skip(consumed),
            pos: spec_advance_pos_seq(st.pos, st.rem.take(consumed)),
        }),
        ScanResult::Failure(e) => Result::Err(e),
    }
}

/// The result of one token's worth of dispatch: a token scan consumes
/// nothing only at the end of the input.
pub proof fn lemma_dispatch_consumed(t: Seq<char>, q: TokenPos)
    ensures
        lexer::spec_dispatch(t, q) matches ScanResult::Token { token_type, consumed, .. } ==> {
            &&& 0 <= consumed <= t.len()
            &&& t.len() > 0 ==> token_type != LangTokenType::Eof && consumed >= 1
            &&& t.len() == 0 ==> token_type == LangTokenType::Eof && consumed == 0
        },
{
    if t.len() > 0 {
        let c = t[0];
        if c == '-' && !(t.len() >= 2 && crate::util::spec_is_digit(t[1])) {
        } else if c == '-' || crate::util::spec_is_digit(c) {
            lemma_number_len_bounds(t);
        } else if c == '"' {
            lexer::lemma_string_body_len_bounds(t.skip(1));
        } else if crate::util::spec_is_alpha(c) {
            lexer::lemma_class_run_bounds(t);
            assert(lexer::spec_alnum_len(t) >= 1);
        }
    }
}

/// A number literal occupies at least its first character and at most the
/// whole sequence.
pub proof fn lemma_number_len_bounds(t: Seq<char>)
    requires
        t.len() >= 1,
    ensures
        lexer::spec_number_len(t) matches Result::Ok(n) ==> 1 <= n <= t.len(),
{
    lexer::lemma_class_run_bounds(t.skip(1));
    let d = 1 + lexer::spec_digits_len(t.skip(1));
    if d < t.len() && t[d] == '.' && d + 1 < t.len() && crate::util::spec_is_digit(t[d + 1]) {
        lexer::lemma_class_run_bounds(t.skip(d + 1));
    }
    let f = if d < t.len() && t[d] == '.' && d + 1 < t.len() && crate::util::spec_is_digit(
        t[d + 1]) {
        d + 1 + lexer::spec_digits_len(t.skip(d + 1))
    } else {
        d
    };
    if f < t.len() && (t[f] == 'e' || t[f] == 'E') {
        let g = if f + 1 < t.len() && (t[f + 1] == '+' || t[f + 1] == '-') {
            f + 2
        } else {
            f + 1
        };
        if g < t.len() && crate::util::spec_is_digit(t[g]) {
            lexer::lemma_class_run_bounds(t.skip(g));
        }
    }
}

/// A scanned token accounts for at most the whole remaining input.
pub proof fn lemma_scan_consumed_bounds(s: Seq<char>, p: TokenPos)
    ensures
        spec_scan(s, p) matches ScanResult::Token { consumed, .. } ==> 0 <= consumed <= s.len(),
{
    lexer::lemma_trivia_len_bounds(s);
    if let Option::Some(k) = lexer::spec_trivia_len(s) {
        lemma_dispatch_consumed(s.skip(k), spec_advance_pos_seq(p, s.take(k)));
    }
}

/// Consuming from a stream whose lookahead is not `Eof` strictly shrinks the
/// measure, and never grows it in any case.
pub proof fn lemma_stream_consume_measure(st: StreamModel)
    ensures
        spec_stream_consume(st) matches Result::Ok(st2) ==> {
            &&& spec_stream_measure(st2) <= spec_stream_measure(st)
            &&& st.cur.token_type != LangTokenType::Eof ==> spec_stream_measure(st2)
                < spec_stream_measure(st)
        },
{
    if let ScanResult::Token { token_type, text, pos, consumed } = spec_scan(st.rem, st.pos) {
        lexer::lemma_trivia_len_bounds(st.rem);
        if let Option::Some(k) = lexer::spec_trivia_len(st.rem) {
            lemma_dispatch_consumed(st.rem.skip(k), spec_advance_pos_seq(st.pos,
                st.rem.take(k)));
        }
    }
}

/// Whether every character of `s` is a decimal digit.
pub open spec fn spec_all_digits(s: Seq<char>) -> bool {
    forall|i: int| 0 <= i < s.len() ==> crate::util::spec_is_digit(#[trigger] s[i])
}

/// The value of a digit sequence read in base ten.
pub open spec fn spec_digits_value(s: Seq<char>) -> int
    decreases s.len(),
{
    if s.len() == 0 {
        0
    } else {
        spec_digits_value(s.drop_last()) * 10 + (s.last() as u32 - '0' as u32)
    }
}

/// The 32-bit signed integer a literal text denotes: an optional minus sign
/// and at least one digit, with the value in range; `None` otherwise.
pub open spec fn spec_int_of(text: Seq<char>) -> Option<int> {
    let neg = text.len() > 0 && text[0] == '-';
    let ds = if neg {
        text.skip(1)
    } else {
        text
    };
    if ds.len() >= 1 && spec_all_digits(ds) {
        let v = spec_digits_value(ds);
        if neg && v <= 0x8000_0000 {
            Option::Some(-v)
        } else if !neg && v <= 0x7FFF_FFFF {
            Option::Some(v)
        } else {
            Option::None
        }
    } else {
        Option::None
    }
}

/// The element a number literal token denotes: a 32-bit integer when the
/// text is one in range, otherwise the literal kept verbatim as a float.
pub open spec fn spec_number_element(tok: TokenModel) -> ElementModel {
    match spec_int_of(tok.text) {
        Option::Some(v) => ElementModel::Int(v),
        Option::None => ElementModel::Float(tok.text),
    }
}

/// The outcome of parsing one sub-expression: the element and the stream
/// behind it, or the first error.
pub enum ParseStep {
    Good { elem: ElementModel, st: StreamModel },
    Bad(ParseErrorModel),
}

/// The outcome of parsing a comma-separated element list up to a closing
/// token.
pub enum ItemsStep {
    Good { items: Seq<ElementModel>, st: StreamModel },
    Bad(ParseErrorModel),
}

/// The outcome of parsing the `key : value` list of an object.
pub enum FieldsStep {
    Good { fields: Seq<(ElementModel, ElementModel)>, st: StreamModel },
    Bad(ParseErrorModel),
}

/// One primary expression read from the stream: a literal, a name, an
/// object, an array, or a parenthesised group.
pub open spec fn spec_parse_element(st: StreamModel) -> ParseStep
    decreases spec_stream_measure(st), 1int,
        via spec_parse_element_decreases
{
    match spec_stream_consume(st) {
        Result::Err(e) => ParseStep::Bad(spec_from_lexer_error(e)),
        Result::Ok(st1) => {
            let tok = st.cur;
            match tok.token_type {
                LangTokenType::Name => ParseStep::Good {
                    elem: ElementModel::Name(tok.text),
                    st: st1,
                },
                LangTokenType::LiteralString => match crate::util::spec_unescape(tok.text) {
                    Result::Ok(s) => ParseStep::Good { elem: ElementModel::String(s), st: st1 },
                    Result::Err(ee) => ParseStep::Bad(ParseError::spec_from_escape_error(ee,
                        tok.pos)),
                },
                LangTokenType::LiteralNumber => ParseStep::Good {
                    elem: spec_number_element(tok),
                    st: st1,
                },
                LangTokenType::LiteralTrue => ParseStep::Good {
                    elem: ElementModel::Boolean(true),
                    st: st1,
                },
                LangTokenType::LiteralFalse => ParseStep::Good {
                    elem: ElementModel::Boolean(false),
                    st: st1,
                },
                LangTokenType::LiteralNull => ParseStep::Good {
                    elem: ElementModel::Null,
                    st: st1,
                },
                LangTokenType::ObjectBegin => match spec_parse_object_fields(st1) {
                    FieldsStep::Good { fields, st: st2 } => ParseStep::Good {
                        elem: ElementModel::Object(fields),
                        st: st2,
                    },
                    FieldsStep::Bad(e) => ParseStep::Bad(e),
                },
                LangTokenType::ArrayBegin => match spec_parse_items(st1,
                    LangTokenType::ArrayEnd) {
                    ItemsStep::Good { items, st: st2 } => ParseStep::Good {
                        elem: ElementModel::Array(items),
                        st: st2,
                    },
                    ItemsStep::Bad(e) => ParseStep::Bad(e),
                },
                LangTokenType::GroupBegin => spec_parse_group(st1),
                LangTokenType::Eof => ParseStep::Bad(ParseErrorModel::UnexpectedEof),
                _ => ParseStep::Bad(ParseErrorModel::UnexpectedToken(tok.pos, tok)),
            }
        },
    }
}

#[via_fn]
proof fn spec_parse_element_decreases(st: StreamModel) {
    lemma_stream_consume_measure(st);
}

/// A parenthesised group: one expression and the closing parenthesis; the
/// stream stands just behind the opening one.
pub open spec fn spec_parse_group(st: StreamModel) -> ParseStep
    decreases spec_stream_measure(st), 3int,
        via spec_parse_group_decreases
{
    match spec_parse_precedence(st, Precedence::Any) {
        ParseStep::Bad(e) => ParseStep::Bad(e),
        ParseStep::Good { elem, st: st1 } => if st1.cur.token_type == LangTokenType::GroupEnd {
            match spec_stream_consume(st1) {
                Result::Err(e) => ParseStep::Bad(spec_from_lexer_error(e)),
                Result::Ok(st2) => ParseStep::Good { elem, st: st2 },
            }
        } else {
            ParseStep::Bad(ParseErrorModel::ExpectedToken {
                pos: st1.cur.pos,
                expected: LangTokenType::GroupEnd,
                got: st1.cur,
            })
        },
    }
}

#[via_fn]
proof fn spec_parse_group_decreases(st: StreamModel) {
}

/// The `key : value` list of an object, up to and including the closing
/// brace (the end of the input closes an object as well).
pub open spec fn spec_parse_object_fields(st: StreamModel) -> FieldsStep
    decreases spec_stream_measure(st), 3int,
        via spec_parse_object_fields_decreases
{
    if st.cur.token_type == LangTokenType::ObjectEnd || st.cur.token_type == LangTokenType::Eof {
        match spec_stream_consume(st) {
            Result::Err(e) => FieldsStep::Bad(spec_from_lexer_error(e)),
            Result::Ok(st1) => FieldsStep::Good { fields: Seq::empty(), st: st1 },
        }
    } else {
        match spec_parse_precedence(st, Precedence::Any) {
            ParseStep::Bad(e) => FieldsStep::Bad(e),
            ParseStep::Good { elem: key, st: st1 } => if st1.cur.token_type
                != LangTokenType::Colon {
                FieldsStep::Bad(ParseErrorModel::ExpectedToken {
                    pos: st1.cur.pos,
                    expected: LangTokenType::Colon,
                    got: st1.cur,
                })
            } else {
                match spec_stream_consume(st1) {
                    Result::Err(e) => FieldsStep::Bad(spec_from_lexer_error(e)),
                    Result::Ok(st2) => if spec_stream_measure(st2) < spec_stream_measure(st) {
                        match spec_parse_precedence(st2, Precedence::Any) {
                            ParseStep::Bad(e) => FieldsStep::Bad(e),
                            ParseStep::Good { elem: value, st: st3 } =>
                                spec_parse_fields_separator(st, st3, key, value),
                        }
                    } else {
                        // never reached: parsing the key consumed at least
                        // one token
                        FieldsStep::Bad(ParseErrorModel::UnexpectedEof)
                    },
                }
            },
        }
    }
}

#[via_fn]
proof fn spec_parse_object_fields_decreases(st: StreamModel) {
    lemma_stream_consume_measure(st);
}

/// The comma-or-closing-brace step after one `key : value` pair, and the
/// remaining fields.
pub open spec fn spec_parse_fields_separator(
    st: StreamModel,
    st3: StreamModel,
    key: ElementModel,
    value: ElementModel,
) -> FieldsStep
    decreases spec_stream_measure(st), 2int,
        via spec_parse_fields_separator_decreases
{
    if st3.cur.token_type == LangTokenType::Comma {
        match spec_stream_consume(st3) {
            Result::Err(e) => FieldsStep::Bad(spec_from_lexer_error(e)),
            Result::Ok(st4) => if spec_stream_measure(st4) < spec_stream_measure(st) {
                match spec_parse_object_fields(st4) {
                    FieldsStep::Bad(e) => FieldsStep::Bad(e),
                    FieldsStep::Good { fields, st: st5 } => FieldsStep::Good {
                        fields: seq![(key, value)] + fields,
                        st: st5,
                    },
                }
            } else {
                // never reached: the pair and the comma consumed tokens
                FieldsStep::Bad(ParseErrorModel::UnexpectedEof)
            },
        }
    } else if st3.cur.token_type == LangTokenType::ObjectEnd {
        match spec_stream_consume(st3) {
            Result::Err(e) => FieldsStep::Bad(spec_from_lexer_error(e)),
            Result::Ok(st4) => FieldsStep::Good { fields: seq![(key, value)], st: st4 },
        }
    } else {
        FieldsStep::Bad(ParseErrorModel::ExpectedToken {
            pos: st3.cur.pos,
            expected: LangTokenType::Comma,
            got: st3.cur,
        })
    }
}

#[via_fn]
proof fn spec_parse_fields_separator_decreases(
    st: StreamModel,
    st3: StreamModel,
    key: ElementModel,
    value: ElementModel,
) {
}

/// A comma-separated element list up to and including the closing token
/// (the end of the input closes the list as well).
pub open spec fn spec_parse_items(st: StreamModel, close: LangTokenType) -> ItemsStep
    decreases spec_stream_measure(st), 3int,
        via spec_parse_items_decreases
{
    if st.cur.token_type == close || st.cur.token_type == LangTokenType::Eof {
        match spec_stream_consume(st) {
            Result::Err(e) => ItemsStep::Bad(spec_from_lexer_error(e)),
            Result::Ok(st1) => ItemsStep::Good { items: Seq::empty(), st: st1 },
        }
    } else {
        match spec_parse_precedence(st, Precedence::Any) {
            ParseStep::Bad(e) => ItemsStep::Bad(e),
            ParseStep::Good { elem: item, st: st1 } => if st1.cur.token_type
                == LangTokenType::Comma {
                match spec_stream_consume(st1) {
                    Result::Err(e) => ItemsStep::Bad(spec_from_lexer_error(e)),
                    Result::Ok(st2) => if spec_stream_measure(st2) < spec_stream_measure(st) {
                        match spec_parse_items(st2, close) {
                            ItemsStep::Bad(e) => ItemsStep::Bad(e),
                            ItemsStep::Good { items, st: st3 } => ItemsStep::Good {
                                items: seq![item] + items,
                                st: st3,
                            },
                        }
                    } else {
                        // never reached: the item and the comma consumed
                        // tokens
                        ItemsStep::Bad(ParseErrorModel::UnexpectedEof)
                    },
                }
            } else if st1.cur.token_type == close {
                match spec_stream_consume(st1) {
                    Result::Err(e) => ItemsStep::Bad(spec_from_lexer_error(e)),
                    Result::Ok(st2) => ItemsStep::Good { items: seq![item], st: st2 },
                }
            } else {
                ItemsStep::Bad(ParseErrorModel::ExpectedToken {
                    pos: st1.cur.pos,
                    expected: LangTokenType::Comma,
                    got: st1.cur,
                })
            },
        }
    }
}

#[via_fn]
proof fn spec_parse_items_decreases(st: StreamModel, close: LangTokenType) {
    lemma_stream_consume_measure(st);
}

/// Member access or method call: the stream stands just behind the dot.
pub open spec fn spec_parse_member(st: StreamModel, left: ElementModel) -> ParseStep
    decreases spec_stream_measure(st), 3int,
        via spec_parse_member_decreases
{
    if st.cur.token_type != LangTokenType::Name {
        ParseStep::Bad(ParseErrorModel::ExpectedToken {
            pos: st.cur.pos,
            expected: LangTokenType::Name,
            got: st.cur,
        })
    } else {
        match spec_stream_consume(st) {
            Result::Err(e) => ParseStep::Bad(spec_from_lexer_error(e)),
            Result::Ok(st1) => {
                let name = st.cur.text;
                if st1.cur.token_type == LangTokenType::GroupBegin {
                    match spec_stream_consume(st1) {
                        Result::Err(e) => ParseStep::Bad(spec_from_lexer_error(e)),
                        Result::Ok(st2) => match spec_parse_items(st2,
                            LangTokenType::GroupEnd) {
                            ItemsStep::Bad(e) => ParseStep::Bad(e),
                            ItemsStep::Good { items, st: st3 } => ParseStep::Good {
                                elem: ElementModel::FunctionCall {
                                    receiver: Option::Some(Box::new(left)),
                                    name,
                                    arguments: Option::Some(items),
                                },
                                st: st3,
                            },
                        },
                    }
                } else {
                    ParseStep::Good {
                        elem: ElementModel::FunctionCall {
                            receiver: Option::Some(Box::new(left)),
                            name,
                            arguments: Option::None,
                        },
                        st: st1,
                    }
                }
            },
        }
    }
}

#[via_fn]
proof fn spec_parse_member_decreases(st: StreamModel, left: ElementModel) {
    lemma_stream_consume_measure(st);
    if st.cur.token_type == LangTokenType::Name {
        if let Result::Ok(st1) = spec_stream_consume(st) {
            lemma_stream_consume_measure(st1);
        }
    }
}

/// The infix/postfix continuation loop: while the next token binds tighter
/// than `prec`, extend `left` with a binary operator, a member access, or a
/// call.
pub open spec fn spec_parse_infix(st: StreamModel, left: ElementModel, prec: Precedence)
    -> ParseStep
    decreases spec_stream_measure(st), 4int,
        via spec_parse_infix_decreases
{
    match spec_get_precedence(st.cur.token_type) {
        Option::None => ParseStep::Good { elem: left, st },
        Option::Some(p) => if !(prec.spec_rank() < p.spec_rank()) {
            ParseStep::Good { elem: left, st }
        } else {
            match spec_stream_consume(st) {
                Result::Err(e) => ParseStep::Bad(spec_from_lexer_error(e)),
                Result::Ok(st1) => {
                    let op = st.cur;
                    if op.token_type == LangTokenType::Plus || op.token_type
                        == LangTokenType::Minus || op.token_type == LangTokenType::Star
                        || op.token_type == LangTokenType::Slash {
                        let op_prec = if op.token_type == LangTokenType::Plus || op.token_type
                            == LangTokenType::Minus {
                            Precedence::Sum
                        } else {
                            Precedence::Factor
                        };
                        match spec_parse_precedence(st1, op_prec) {
                            ParseStep::Bad(e) => ParseStep::Bad(e),
                            ParseStep::Good { elem: right, st: st2 } => {
                                let combined = ElementModel::Binary {
                                    left: Box::new(left),
                                    operator: op,
                                    right: Box::new(right),
                                };
                                if spec_stream_measure(st2) < spec_stream_measure(st) {
                                    spec_parse_infix(st2, combined, prec)
                                } else {
                                    // never reached: the operator and the
                                    // right operand consumed tokens
                                    ParseStep::Bad(ParseErrorModel::UnexpectedEof)
                                }
                            },
                        }
                    } else if op.token_type == LangTokenType::Dot {
                        match spec_parse_member(st1, left) {
                            ParseStep::Bad(e) => ParseStep::Bad(e),
                            ParseStep::Good { elem: combined, st: st2 } => if
                                spec_stream_measure(st2) < spec_stream_measure(st) {
                                spec_parse_infix(st2, combined, prec)
                            } else {
                                // never reached: the dot and the member name
                                // consumed tokens
                                ParseStep::Bad(ParseErrorModel::UnexpectedEof)
                            },
                        }
                    } else {
                        match left {
                            ElementModel::Name(n) => match spec_parse_items(st1,
                                LangTokenType::GroupEnd) {
                                ItemsStep::Bad(e) => ParseStep::Bad(e),
                                ItemsStep::Good { items, st: st2 } => {
                                    let combined = ElementModel::FunctionCall {
                                        receiver: Option::None,
                                        name: n,
                                        arguments: Option::Some(items),
                                    };
                                    if spec_stream_measure(st2) < spec_stream_measure(st) {
                                        spec_parse_infix(st2, combined, prec)
                                    } else {
                                        // never reached: the parenthesis and
                                        // the argument list consumed tokens
                                        ParseStep::Bad(ParseErrorModel::UnexpectedEof)
                                    }
                                },
                            },
                            _ => ParseStep::Bad(ParseErrorModel::UnexpectedElement {
                                expected: LangTokenType::Name,
                                got: left,
                            }),
                        }
                    }
                },
            }
        },
    }
}

#[via_fn]
proof fn spec_parse_infix_decreases(st: StreamModel, left: ElementModel, prec: Precedence) {
    lemma_stream_consume_measure(st);
}

/// A whole expression: a primary element extended by the infix loop.
pub open spec fn spec_parse_precedence(st: StreamModel, prec: Precedence) -> ParseStep
    decreases spec_stream_measure(st), 2int,
        via spec_parse_precedence_decreases
{
    match spec_parse_element(st) {
        ParseStep::Bad(e) => ParseStep::Bad(e),
        ParseStep::Good { elem: left, st: st1 } => if spec_stream_measure(st1)
            < spec_stream_measure(st) {
            spec_parse_infix(st1, left, prec)
        } else {
            // never reached: the primary element consumed at least one token
            ParseStep::Bad(ParseErrorModel::UnexpectedEof)
        },
    }
}

#[via_fn]
proof fn spec_parse_precedence_decreases(st: StreamModel, prec: Precedence) {
}

/// A whole document: one expression followed by the end of the input.
pub open spec fn spec_parse_full(st: StreamModel) -> Result<ElementModel, ParseErrorModel> {
    match spec_parse_precedence(st, Precedence::Any) {
        ParseStep::Bad(e) => Result::Err(e),
        ParseStep::Good { elem, st: st1 } => if st1.cur.token_type == LangTokenType::Eof {
            Result::Ok(elem)
        } else {
            Result::Err(ParseErrorModel::ExpectedToken {
                pos: st1.cur.pos,
                expected: LangTokenType::Eof,
                got: st1.cur,
            })
        },
    }
}

/// The serialized form of a string element, as both serializer modes
/// produce it: the escaped text between two quotes.
pub open spec fn spec_serialized_string(s: Seq<char>) -> Seq<char> {
    seq!['"'] + crate::util::spec_escape(s) + seq!['"']
}

/// The round-trip law of string serialization: serializing a string element
/// yields one string literal token covering the whole input, whose text
/// unescapes back to the original string; parsing a stream holding that
/// token and nothing else yields the original string element back.
pub proof fn lemma_string_round_trip(s: Seq<char>, p: TokenPos, q: TokenPos, p2: TokenPos)
    ensures
        crate::format::spec_fmt_compact(ElementModel::String(s)) == Result::<Seq<char>,
            crate::format::FormatErrorModel>::Ok(spec_serialized_string(s)),
        spec_scan(spec_serialized_string(s), p) == (ScanResult::Token {
            token_type: LangTokenType::LiteralString,
            text: crate::util::spec_escape(s),
            pos: lexer::spec_advance_pos(p, '"'),
            consumed: spec_serialized_string(s).len() as int,
        }),
        spec_parse_full(
            StreamModel {
                cur: TokenModel {
                    token_type: LangTokenType::LiteralString,
                    text: crate::util::spec_escape(s),
                    pos: q,
                },
                rem: Seq::empty(),
                pos: p2,
            },
        ) == Result::<ElementModel, ParseErrorModel>::Ok(ElementModel::String(s)),
{
    let src = spec_serialized_string(s);
    let esc = crate::util::spec_escape(s);

    // Serializing: definitional.
    assert(crate::format::spec_fmt_compact(ElementModel::String(s)) == Result::<Seq<char>,
        crate::format::FormatErrorModel>::Ok(src));

    // Scanning: the input starts at the quote, the body scan walks over the
    // escaped text, and the closing quote ends the token.
    assert(src[0] == '"');
    assert(!lexer::spec_is_space(src[0]));
    assert(lexer::spec_ws_len(src) == 0);
    lexer::lemma_scan_is_dispatch(src, p);
    assert(lexer::spec_string_body_len(seq!['"']) == Option::Some(0int));
    crate::util::lemma_escape_scans(s, seq!['"']);
    assert(src.skip(1) =~= esc + seq!['"']);
    assert(lexer::spec_string_body_len(src.skip(1)) == Option::Some(esc.len() as int));
    assert(src.skip(1).take(esc.len() as int) =~= esc);
    assert(spec_scan(src, p) == lexer::spec_dispatch(src, p).shifted(0));

    // Parsing back: the lookahead is the literal, nothing follows it.
    let st0 = StreamModel {
        cur: TokenModel {
            token_type: LangTokenType::LiteralString,
            text: esc,
            pos: q,
        },
        rem: Seq::empty(),
        pos: p2,
    };
    assert(lexer::spec_ws_len(Seq::<char>::empty()) == 0);
    lexer::lemma_scan_is_dispatch(Seq::empty(), p2);
    assert(spec_scan(st0.rem, st0.pos) matches ScanResult::Token {
        token_type: LangTokenType::Eof,
        ..
    });
    let st1 = spec_stream_consume(st0)->Ok_0;
    assert(st1.rem =~= Seq::<char>::empty());
    assert(st1.cur.token_type == LangTokenType::Eof);
    crate::util::lemma_unescape_escape(s);
    assert(spec_parse_element(st0) == (ParseStep::Good {
        elem: ElementModel::String(s),
        st: st1,
    }));
    assert(spec_stream_measure(st1) < spec_stream_measure(st0));
    assert(spec_parse_infix(st1, ElementModel::String(s), Precedence::Any)
        == (ParseStep::Good { elem: ElementModel::String(s), st: st1 }));
}

/// The mathematical model of the parser: the one-token lookahead, the token
/// before it, the lexer state behind them, and a lexer error found while
/// reading the first token, if any.
pub struct ParserModel {
    pub cur: TokenModel,
    pub prev: TokenModel,
    pub lex: LexerModel,
    pub pending: Option<LexerErrorModel>,
}

impl ParserModel {
    /// The parser's stream state.
    pub open spec fn stream(self) -> StreamModel {
        StreamModel { cur: self.cur, rem: self.lex.remaining(), pos: self.lex.current_pos }
    }

    pub open spec fn wf(self) -> bool {
        self.lex.wf()
    }
}

/// Rebuilds a token value equal to the given one.
fn copy_token(t: &LangToken) -> (r: LangToken)
    ensures
        r@ == t@,
{
    LangToken::new(t.token_type(), crate::util::string_from_str(t.text()), *t.pos())
}

/// Rebuilds a lexer error value equal to the given one.
fn copy_lexer_error(e: &LexerError) -> (r: LexerError)
    ensures
        r@ == e@,
{
    match e {
        LexerError::UnexpectedEof => LexerError::UnexpectedEof,
        LexerError::UnexpectedCharacter(pos, c) => LexerError::UnexpectedCharacter(*pos, *c),
        LexerError::ExpectedCharacter { pos, expected, got } => LexerError::ExpectedCharacter {
            pos: *pos,
            expected: *expected,
            got: *got,
        },
        LexerError::OtherError(pos, message) => LexerError::OtherError(
            *pos,
            crate::util::string_from_str(message.as_str()),
        ),
    }
}

/// The recursive-descent parser: a lexer plus a one-token lookahead.
pub struct LangParser {
    lexer: LangLexer,
    previous: LangToken,
    current: LangToken,
    pending: Option<LexerError>,
}

pub type ParseResult<T> = Result<T, ParseError>;

impl View for LangParser {
    type V = ParserModel;

    closed spec fn view(&self) -> ParserModel {
        ParserModel {
            cur: self.current@,
            prev: self.previous@,
            lex: self.lexer@,
            pending: match self.pending {
                Option::Some(ref e) => Option::Some(e@),
                Option::None => Option::None,
            },
        }
    }
}

impl LangParser {
    /// Builds a parser over `lexer` and reads the first token; a lexer error
    /// here is kept and reported by the first parsing call.
    pub fn new(lexer: LangLexer) -> (p: LangParser)
        requires
            lexer@.wf(),
        ensures
            p@.wf(),
            match spec_scan(lexer@.remaining(), lexer@.current_pos) {
                ScanResult::Token { token_type, text, pos, consumed } => {
                    &&& p@.pending is None
                    &&& p@.stream() == (StreamModel {
                        cur: TokenModel { token_type, text, pos },
                        rem: lexer@.remaining().skip(consumed),
                        pos: spec_advance_pos_seq(lexer@.current_pos,
                            lexer@.remaining().take(consumed)),
                    })
                },
                ScanResult::Failure(e) => p@.pending == Option::Some(e),
            },
    {
        let ghost rem0 = lexer@.remaining();
        let ghost pos0 = lexer@.current_pos;
        let ghost cur0 = lexer@.current;
        let mut parser = LangParser {
            lexer,
            previous: LangToken::empty(),
            current: LangToken::empty(),
            pending: Option::None,
        };

        match parser.lexer.scan_token() {
            Ok(token) => {
                parser.current = token;
                proof {
                    lemma_scan_consumed_bounds(rem0, pos0);
                    if let ScanResult::Token { token_type, text, pos, consumed } = spec_scan(
                        rem0, pos0) {
                        assert(parser.lexer@.remaining() =~= rem0.skip(consumed));
                        lexer::lemma_pos_advance(parser.lexer@.src, cur0, consumed);
                        assert(rem0.take(consumed) =~= parser.lexer@.src.skip(cur0).take(
                            consumed));
                    }
                }
            },
            Err(e) => {
                parser.pending = Option::Some(e);
            },
        }
        parser
    }

    /// The current lookahead token.
    pub fn peek(&self) -> (t: &LangToken)
        ensures
            t@ == self@.cur,
    {
        &self.current
    }

    /// Whether the lookahead is the end of the input.
    pub fn is_eof(&self) -> (r: bool)
        ensures
            r == (self@.cur.token_type == LangTokenType::Eof),
    {
        self.current.token_type() == LangTokenType::Eof
    }

    /// Moves the lookahead into `previous` and scans the next token.
    fn consume(&mut self) -> (r: ParseResult<()>)
        requires
            old(self)@.wf(),
        ensures
            final(self)@.wf(),
            old(self)@.pending matches Option::Some(e) ==> {
                &&& r matches Err(er) && er@ == spec_from_lexer_error(e)
                &&& *final(self) == *old(self)
            },
            old(self)@.pending is None ==> {
                &&& final(self)@.pending is None
                &&& match spec_stream_consume(old(self)@.stream()) {
                    Result::Ok(st) => {
                        &&& r is Ok
                        &&& final(self)@.stream() == st
                        &&& final(self)@.prev == old(self)@.cur
                    },
                    Result::Err(e) => {
                        &&& r matches Err(er) && er@ == spec_from_lexer_error(e)
                        &&& final(self)@.cur == old(self)@.cur
                        &&& final(self)@.prev == old(self)@.prev
                    },
                }
            },
    {
        match &self.pending {
            Option::Some(e) => {
                return Err(ParseError::from_lexer_error(copy_lexer_error(e)));
            },
            Option::None => {},
        }
        let ghost rem0 = self.lexer@.remaining();
        let ghost pos0 = self.lexer@.current_pos;
        let ghost cur0 = self.lexer@.current;
        match self.lexer.scan_token() {
            Ok(token) => {
                core::mem::swap(&mut self.previous, &mut self.current);
                self.current = token;
                proof {
                    lemma_scan_consumed_bounds(rem0, pos0);
                    if let ScanResult::Token { token_type, text, pos, consumed } = spec_scan(
                        rem0, pos0) {
                        assert(self.lexer@.remaining() =~= rem0.skip(consumed));
                        lexer::lemma_pos_advance(self.lexer@.src, cur0, consumed);
                        assert(rem0.take(consumed) =~= self.lexer@.src.skip(cur0).take(
                            consumed));
                    }
                }
                Ok(())
            },
            Err(e) => Err(ParseError::from_lexer_error(e)),
        }
    }

    /// Consumes the lookahead when it has the given kind, and reports
    /// `ExpectedToken` otherwise, consuming nothing.
    fn expect(&mut self, token_type: LangTokenType) -> (r: ParseResult<()>)
        requires
            old(self)@.wf(),
        ensures
            final(self)@.wf(),
            old(self)@.cur.token_type != token_type ==> {
                &&& r matches Err(er) && er@ == (ParseErrorModel::ExpectedToken {
                    pos: old(self)@.cur.pos,
                    expected: token_type,
                    got: old(self)@.cur,
                })
                &&& *final(self) == *old(self)
            },
            (old(self)@.cur.token_type == token_type && old(self)@.pending is Some) ==> {
                &&& r matches Err(er) && er@ == spec_from_lexer_error(
                    old(self)@.pending.unwrap())
                &&& *final(self) == *old(self)
            },
            old(self)@.cur.token_type == token_type && old(self)@.pending is None ==> {
                &&& final(self)@.pending is None
                &&& match spec_stream_consume(old(self)@.stream()) {
                    Result::Ok(st) => r is Ok && final(self)@.stream() == st
                        && final(self)@.prev == old(self)@.cur,
                    Result::Err(e) => r matches Err(er) && er@ == spec_from_lexer_error(e)
                        && final(self)@.cur == old(self)@.cur,
                }
            },
    {
        if self.current.token_type() == token_type {
            self.consume()
        } else {
            Err(ParseError::ExpectedToken {
                pos: *self.current.pos(),
                expected: token_type,
                got: copy_token(&self.current),
            })
        }
    }

    /// The precedence at which the lookahead continues an expression.
    pub fn get_precedence(&self) -> (r: Option<Precedence>)
        ensures
            r == spec_get_precedence(self@.cur.token_type),
    {
        match self.peek().token_type() {
            LangTokenType::Plus => Some(Precedence::Sum),
            LangTokenType::Minus => Some(Precedence::Sum),
            LangTokenType::Star => Some(Precedence::Factor),
            LangTokenType::Slash => Some(Precedence::Factor),
            LangTokenType::Dot => Some(Precedence::Call),
            LangTokenType::GroupBegin => Some(Precedence::Call),
            _ => None,
        }
    }
}

/// Appending a digit multiplies the value by ten and adds the digit.
proof fn lemma_digits_value_snoc(s: Seq<char>, i: int)
    requires
        0 <= i < s.len(),
    ensures
        spec_digits_value(s.take(i + 1)) == spec_digits_value(s.take(i)) * 10 + (s[i] as u32
            - '0' as u32),
{
    assert(s.take(i + 1).drop_last() =~= s.take(i));
    assert(s.take(i + 1).last() == s[i]);
}

/// A longer digit prefix never has a smaller value.
proof fn lemma_digits_value_monotone(s: Seq<char>, i: int)
    requires
        0 <= i <= s.len(),
        spec_all_digits(s),
    ensures
        spec_digits_value(s.take(i)) <= spec_digits_value(s),
        spec_digits_value(s) >= 0,
    decreases s.len() - i,
{
    if i == s.len() {
        assert(s.take(i) =~= s);
        lemma_digits_value_nonneg(s);
    } else {
        lemma_digits_value_snoc(s, i);
        assert(crate::util::spec_is_digit(s[i]));
        lemma_digits_value_monotone(s, i + 1);
        assert(spec_digits_value(s.take(i)) <= spec_digits_value(s.take(i)) * 10) by {
            lemma_digits_value_nonneg(s.take(i));
        }
    }
}

/// The value of an all-digit sequence is never negative.
proof fn lemma_digits_value_nonneg(s: Seq<char>)
    requires
        spec_all_digits(s),
    ensures
        spec_digits_value(s) >= 0,
    decreases s.len(),
{
    if s.len() > 0 {
        assert(spec_all_digits(s.drop_last())) by {
            assert(forall|i: int| 0 <= i < s.len() - 1 ==> #[trigger] s.drop_last()[i] == s[i]);
        }
        lemma_digits_value_nonneg(s.drop_last());
        assert(crate::util::spec_is_digit(s.last()));
    }
}

/// Reads a 32-bit signed integer out of `s`: an optional minus sign and at
/// least one digit, with the value in range.
fn parse_i32_str(s: &str) -> (r: Option<i32>)
    ensures
        match spec_int_of(s@) {
            Option::Some(v) => r matches Some(x) && x as int == v,
            Option::None => r is None,
        },
{
    let n = s.unicode_len();
    if n == 0 {
        return None;
    }
    let neg = s.get_char(0) == '-';
    let start: usize = if neg { 1 } else { 0 };
    if neg && n == 1 {
        proof {
            assert(s@.skip(1).len() == 0);
        }
        return None;
    }
    let ghost ds = if neg { s@.skip(1) } else { s@ };
    proof {
        if !neg {
            assert(s@.skip(0) =~= s@);
        }
        assert(ds.len() == n - start);
    }

    let mut acc: u64 = 0;
    let mut i: usize = start;
    while i < n
        invariant
            n == s@.len(),
            start <= i <= n,
            start == if neg { 1int } else { 0int },
            neg == (s@.len() > 0 && s@[0] == '-'),
            neg ==> n >= 2,
            ds == (if neg { s@.skip(1) } else { s@ }),
            ds.len() == n - start,
            forall|j: int| 0 <= j < i - start ==> crate::util::spec_is_digit(#[trigger] ds[j]),
            acc as int == spec_digits_value(ds.take(i - start)),
            acc <= 0x8000_0000,
        decreases n - i,
    {
        let c = s.get_char(i);
        proof {
            assert(ds[i - start] == s@[i as int]);
        }
        if !crate::util::is_digit(c) {
            proof {
                assert(!crate::util::spec_is_digit(ds[i - start]));
                assert(!spec_all_digits(ds));
            }
            return None;
        }
        let d = (c as u32) - ('0' as u32);
        proof {
            lemma_digits_value_snoc(ds, i - start);
        }
        acc = acc * 10 + (d as u64);
        i = i + 1;
        if acc > 0x8000_0000 {
            proof {
                if ds.len() >= 1 && spec_all_digits(ds) {
                    lemma_digits_value_monotone(ds, i - start);
                    assert(spec_digits_value(ds) >= acc as int);
                }
                assert(spec_int_of(s@) is None);
            }
            return None;
        }
    }
    proof {
        assert(ds.take(n - start) =~= ds);
        assert(spec_all_digits(ds));
    }
    if neg {
        if acc == 0x8000_0000 {
            Some(i32::MIN)
        } else {
            let v: i32 = acc as i32;
            Some(-v)
        }
    } else {
        if acc <= 0x7FFF_FFFF {
            Some(acc as i32)
        } else {
            None
        }
    }
}

/// How the outcome of an element-producing parse relates the parser's new
/// state and result to a specification step.
pub open spec fn spec_step_matches(
    post: ParserModel,
    r: ParseResult<Element>,
    step: ParseStep,
) -> bool {
    match step {
        ParseStep::Good { elem, st } => {
            &&& r matches Ok(e) && e@ == elem
            &&& post.pending is None
            &&& post.stream() == st
        },
        ParseStep::Bad(e) => r matches Err(er) && er@ == e,
    }
}

impl LangParser {
    /// The element a number literal denotes: a 32-bit integer when the text
    /// is one in range, otherwise the literal kept verbatim as a float.
    fn parse_number(token: &LangToken) -> (r: ParseResult<Element>)
        ensures
            r matches Ok(e) && e@ == spec_number_element(token@),
    {
        match parse_i32_str(token.text()) {
            Some(value) => Ok(Element::IntElement(value)),
            None => Ok(Element::FloatElement(crate::util::string_from_str(token.text()))),
        }
    }

    /// One primary expression: a literal, a name, an object, an array, or a
    /// parenthesised group.
    #[verifier::rlimit(100)]
    pub fn parse_element(&mut self) -> (r: ParseResult<Element>)
        requires
            old(self)@.wf(),
        ensures
            final(self)@.wf(),
            old(self)@.pending matches Option::Some(e) ==> (r matches Err(er) && er@
                == spec_from_lexer_error(e)),
            old(self)@.pending is None ==> {
                &&& spec_step_matches(final(self)@, r, spec_parse_element(old(self)@.stream()))
                &&& (r is Ok ==> spec_stream_measure(final(self)@.stream())
                    < spec_stream_measure(old(self)@.stream()))
            },
        decreases spec_stream_measure(old(self)@.stream()), 1int,
    {
        let ghost st0 = old(self)@.stream();
        proof {
            lemma_stream_consume_measure(st0);
        }
        match self.consume() {
            Ok(_) => {},
            Err(e) => {
                return Err(e);
            },
        }

        match self.previous.token_type() {
            LangTokenType::Name => Ok(Element::NameElement(crate::util::string_from_str(
                self.previous.text()))),
            LangTokenType::LiteralString => match crate::util::unescape_str(
                self.previous.text()) {
                Ok(text) => Ok(Element::StringElement(text)),
                Err(err) => Err(ParseError::from_escape_error(err, *self.previous.pos())),
            },
            LangTokenType::LiteralNumber => Self::parse_number(&self.previous),
            LangTokenType::LiteralTrue => Ok(Element::BooleanElement(true)),
            LangTokenType::LiteralFalse => Ok(Element::BooleanElement(false)),
            LangTokenType::LiteralNull => Ok(Element::NullElement),
            LangTokenType::ObjectBegin => self.parse_object(),
            LangTokenType::ArrayBegin => self.parse_array(),
            LangTokenType::GroupBegin => self.parse_group(),
            LangTokenType::Eof => Err(ParseError::UnexpectedEof),
            _ => Err(ParseError::UnexpectedToken(*self.previous.pos(), copy_token(
                &self.previous))),
        }
    }

    /// An object body: `key : value` pairs up to the closing brace.  The
    /// opening brace has just been consumed.
    #[verifier::loop_isolation(false)]
    #[verifier::rlimit(100)]
    fn parse_object(&mut self) -> (r: ParseResult<Element>)
        requires
            old(self)@.wf(),
            old(self)@.pending is None,
        ensures
            final(self)@.wf(),
            ({
                let step = spec_parse_object_fields(old(self)@.stream());
                match step {
                    FieldsStep::Good { fields, st } => {
                        &&& r matches Ok(e) && e@ == ElementModel::Object(fields)
                        &&& final(self)@.pending is None
                        &&& final(self)@.stream() == st
                        &&& spec_stream_measure(st) <= spec_stream_measure(old(self)@.stream())
                    },
                    FieldsStep::Bad(e) => r matches Err(er) && er@ == e,
                }
            }),
        decreases spec_stream_measure(old(self)@.stream()), 3int,
    {
        let ghost st0 = self@.stream();
        let mut fields: Vec<(Element, Element)> = Vec::new();

        loop
            invariant
                self@.wf(),
                self@.pending is None,
                spec_stream_measure(self@.stream()) <= spec_stream_measure(st0),
                (match spec_parse_object_fields(self@.stream()) {
                    FieldsStep::Good { fields: fs, st } => spec_parse_object_fields(st0)
                        == (FieldsStep::Good {
                        fields: crate::element::view_fields(fields@) + fs,
                        st,
                    }),
                    FieldsStep::Bad(e) => spec_parse_object_fields(st0) == FieldsStep::Bad(e),
                }),
            decreases spec_stream_measure(self@.stream()),
        {
            let ghost st_it = self@.stream();
            proof {
                crate::element::lemma_view_fields(fields@);
                lemma_stream_consume_measure(st_it);
            }
            if !(self.peek().token_type() != LangTokenType::ObjectEnd && !self.is_eof()) {
                let close = self.consume();
                match close {
                    Ok(_) => {},
                    Err(e) => {
                        return Err(e);
                    },
                }
                proof {
                    assert(crate::element::view_fields(fields@) + Seq::<(ElementModel,
                        ElementModel)>::empty() =~= crate::element::view_fields(fields@));
                }
                return Ok(Element::ObjectElement(fields));
            }

            let key = match self.parse_precedence(Precedence::Any) {
                Ok(k) => k,
                Err(e) => {
                    return Err(e);
                },
            };
            let ghost st_k = self@.stream();
            match self.expect(LangTokenType::Colon) {
                Ok(_) => {},
                Err(e) => {
                    return Err(e);
                },
            }
            proof {
                lemma_stream_consume_measure(st_k);
            }
            let value = match self.parse_precedence(Precedence::Any) {
                Ok(v) => v,
                Err(e) => {
                    return Err(e);
                },
            };
            let ghost st_v = self@.stream();
            let ghost key_m = key@;
            let ghost value_m = value@;
            let ghost old_fields = fields@;
            fields.push((key, value));
            proof {
                crate::element::lemma_view_fields_push(old_fields, fields@.last());
                assert(fields@ == old_fields.push(fields@.last()));
                lemma_stream_consume_measure(st_v);
            }

            let comma_present = self.peek().token_type() == LangTokenType::Comma;
            if comma_present {
                match self.consume() {
                    Ok(_) => {},
                    Err(e) => {
                        return Err(e);
                    },
                }
                proof {
                    assert forall|fs: Seq<(ElementModel, ElementModel)>|
                        true implies crate::element::view_fields(old_fields) + (seq![(key_m,
                        value_m)] + fs) =~= crate::element::view_fields(fields@) + fs by {
                        crate::element::lemma_view_fields(fields@);
                    }
                }
            } else {
                if self.peek().token_type() != LangTokenType::ObjectEnd {
                    return Err(ParseError::ExpectedToken {
                        pos: *self.current.pos(),
                        expected: LangTokenType::Comma,
                        got: copy_token(&self.current),
                    });
                }
                proof {
                    assert forall|fs: Seq<(ElementModel, ElementModel)>|
                        true implies crate::element::view_fields(old_fields) + (seq![(key_m,
                        value_m)] + fs) =~= crate::element::view_fields(fields@) + fs by {
                        crate::element::lemma_view_fields(fields@);
                    }
                }
            }
        }
    }

    /// A comma-separated element list up to the closing token `close`, whose
    /// opening counterpart has just been consumed.
    #[verifier::loop_isolation(false)]
    #[verifier::rlimit(100)]
    fn parse_items(&mut self, close: LangTokenType) -> (r: ParseResult<Vec<Element>>)
        requires
            old(self)@.wf(),
            old(self)@.pending is None,
        ensures
            final(self)@.wf(),
            ({
                let step = spec_parse_items(old(self)@.stream(), close);
                match step {
                    ItemsStep::Good { items, st } => {
                        &&& r matches Ok(v) && crate::element::view_elements(v@) == items
                        &&& final(self)@.pending is None
                        &&& final(self)@.stream() == st
                        &&& spec_stream_measure(st) <= spec_stream_measure(old(self)@.stream())
                    },
                    ItemsStep::Bad(e) => r matches Err(er) && er@ == e,
                }
            }),
        decreases spec_stream_measure(old(self)@.stream()), 3int,
    {
        let ghost st0 = self@.stream();
        let mut items: Vec<Element> = Vec::new();

        loop
            invariant
                self@.wf(),
                self@.pending is None,
                spec_stream_measure(self@.stream()) <= spec_stream_measure(st0),
                (match spec_parse_items(self@.stream(), close) {
                    ItemsStep::Good { items: its, st } => spec_parse_items(st0, close)
                        == (ItemsStep::Good {
                        items: crate::element::view_elements(items@) + its,
                        st,
                    }),
                    ItemsStep::Bad(e) => spec_parse_items(st0, close) == ItemsStep::Bad(e),
                }),
            decreases spec_stream_measure(self@.stream()),
        {
            let ghost st_it = self@.stream();
            proof {
                crate::element::lemma_view_elements(items@);
                lemma_stream_consume_measure(st_it);
            }
            if !(self.peek().token_type() != close && !self.is_eof()) {
                match self.consume() {
                    Ok(_) => {},
                    Err(e) => {
                        return Err(e);
                    },
                }
                proof {
                    assert(crate::element::view_elements(items@)
                        + Seq::<ElementModel>::empty() =~= crate::element::view_elements(
                        items@));
                }
                return Ok(items);
            }

            let item = match self.parse_precedence(Precedence::Any) {
                Ok(el) => el,
                Err(e) => {
                    return Err(e);
                },
            };
            let ghost st1 = self@.stream();
            let ghost item_m = item@;
            let ghost old_items = items@;
            items.push(item);
            proof {
                crate::element::lemma_view_elements_push(old_items, items@.last());
                assert(items@ == old_items.push(items@.last()));
                lemma_stream_consume_measure(st1);
            }

            if self.peek().token_type() == LangTokenType::Comma {
                match self.consume() {
                    Ok(_) => {},
                    Err(e) => {
                        return Err(e);
                    },
                }
                proof {
                    assert forall|its: Seq<ElementModel>|
                        true implies crate::element::view_elements(old_items) + (seq![item_m]
                        + its) =~= crate::element::view_elements(items@) + its by {
                        crate::element::lemma_view_elements(items@);
                    }
                }
            } else if self.peek().token_type() == close {
                match self.consume() {
                    Ok(_) => {},
                    Err(e) => {
                        return Err(e);
                    },
                }
                proof {
                    assert(crate::element::view_elements(old_items) + seq![item_m]
                        =~= crate::element::view_elements(items@));
                }
                return Ok(items);
            } else {
                return Err(ParseError::ExpectedToken {
                    pos: *self.current.pos(),
                    expected: LangTokenType::Comma,
                    got: copy_token(&self.current),
                });
            }
        }
    }

    /// An array body: elements up to the closing bracket, which has just
    /// been opened.
    fn parse_array(&mut self) -> (r: ParseResult<Element>)
        requires
            old(self)@.wf(),
            old(self)@.pending is None,
        ensures
            final(self)@.wf(),
            ({
                let step = spec_parse_items(old(self)@.stream(), LangTokenType::ArrayEnd);
                match step {
                    ItemsStep::Good { items, st } => {
                        &&& r matches Ok(e) && e@ == ElementModel::Array(items)
                        &&& final(self)@.pending is None
                        &&& final(self)@.stream() == st
                        &&& spec_stream_measure(st) <= spec_stream_measure(old(self)@.stream())
                    },
                    ItemsStep::Bad(e) => r matches Err(er) && er@ == e,
                }
            }),
        decreases spec_stream_measure(old(self)@.stream()), 4int,
    {
        match self.parse_items(LangTokenType::ArrayEnd) {
            Ok(items) => Ok(Element::ArrayElement(items)),
            Err(e) => Err(e),
        }
    }

    /// A parenthesised group: one expression and the closing parenthesis,
    /// whose opening counterpart has just been consumed.
    fn parse_group(&mut self) -> (r: ParseResult<Element>)
        requires
            old(self)@.wf(),
            old(self)@.pending is None,
        ensures
            final(self)@.wf(),
            spec_step_matches(final(self)@, r, spec_parse_group(old(self)@.stream())),
            r is Ok ==> spec_stream_measure(final(self)@.stream()) <= spec_stream_measure(
                old(self)@.stream()),
        decreases spec_stream_measure(old(self)@.stream()), 3int,
    {
        let element = match self.parse_precedence(Precedence::Any) {
            Ok(el) => el,
            Err(e) => {
                return Err(e);
            },
        };
        let ghost st1 = self@.stream();
        proof {
            lemma_stream_consume_measure(st1);
        }
        match self.expect(LangTokenType::GroupEnd) {
            Ok(_) => {},
            Err(e) => {
                return Err(e);
            },
        }
        Ok(element)
    }

    /// A binary expression: `left`, the operator just consumed (sitting in
    /// `previous`), and a right operand at the operator's own precedence.
    fn parse_binary(&mut self, left: Element, precedence: Precedence) -> (r: ParseResult<
        Element>)
        requires
            old(self)@.wf(),
            old(self)@.pending is None,
        ensures
            final(self)@.wf(),
            ({
                let step = spec_parse_precedence(old(self)@.stream(), precedence);
                match step {
                    ParseStep::Good { elem: right, st } => {
                        &&& r matches Ok(b) && b@ == (ElementModel::Binary {
                            left: Box::new(left@),
                            operator: old(self)@.prev,
                            right: Box::new(right),
                        })
                        &&& final(self)@.pending is None
                        &&& final(self)@.stream() == st
                        &&& spec_stream_measure(st) < spec_stream_measure(old(self)@.stream())
                    },
                    ParseStep::Bad(e) => r matches Err(er) && er@ == e,
                }
            }),
        decreases spec_stream_measure(old(self)@.stream()), 4int,
    {
        let op = copy_token(&self.previous);
        let right = match self.parse_precedence(precedence) {
            Ok(el) => el,
            Err(e) => {
                return Err(e);
            },
        };
        Ok(Element::BinaryElement { left: Box::new(left), operator: op, right: Box::new(right) })
    }

    /// Member access or method call on `left`: the dot has just been
    /// consumed.
    fn parse_member(&mut self, left: Element) -> (r: ParseResult<Element>)
        requires
            old(self)@.wf(),
            old(self)@.pending is None,
        ensures
            final(self)@.wf(),
            ({
                let step = spec_parse_member(old(self)@.stream(), left@);
                match step {
                    ParseStep::Good { elem, st } => {
                        &&& r matches Ok(e) && e@ == elem
                        &&& final(self)@.pending is None
                        &&& final(self)@.stream() == st
                        &&& spec_stream_measure(st) < spec_stream_measure(old(self)@.stream())
                    },
                    ParseStep::Bad(e) => r matches Err(er) && er@ == e,
                }
            }),
        decreases spec_stream_measure(old(self)@.stream()), 4int,
    {
        let ghost st0 = self@.stream();
        proof {
            lemma_stream_consume_measure(st0);
        }
        match self.expect(LangTokenType::Name) {
            Ok(_) => {},
            Err(e) => {
                return Err(e);
            },
        }
        let name = crate::util::string_from_str(self.previous.text());

        if self.peek().token_type() == LangTokenType::GroupBegin {
            let ghost st1 = self@.stream();
            proof {
                lemma_stream_consume_measure(st1);
            }
            match self.consume() {
                Ok(_) => {},
                Err(e) => {
                    return Err(e);
                },
            }
            let arguments = match self.parse_items(LangTokenType::GroupEnd) {
                Ok(items) => items,
                Err(e) => {
                    return Err(e);
                },
            };
            Ok(Element::FunctionCallElement {
                receiver: Some(Box::new(left)),
                name,
                arguments: Some(arguments),
            })
        } else {
            Ok(Element::FunctionCallElement { receiver: Some(Box::new(left)), name, arguments: None })
        }
    }

    /// A call with parentheses directly behind a primary: only legal when
    /// that primary is a bare name.  The opening parenthesis has just been
    /// consumed.
    fn parse_function(&mut self, left: Element) -> (r: ParseResult<Element>)
        requires
            old(self)@.wf(),
            old(self)@.pending is None,
        ensures
            final(self)@.wf(),
            ({
                match left@ {
                    ElementModel::Name(n) => match spec_parse_items(old(self)@.stream(),
                        LangTokenType::GroupEnd) {
                        ItemsStep::Good { items, st } => {
                            &&& r matches Ok(e) && e@ == (ElementModel::FunctionCall {
                                receiver: Option::None,
                                name: n,
                                arguments: Option::Some(items),
                            })
                            &&& final(self)@.pending is None
                            &&& final(self)@.stream() == st
                            &&& spec_stream_measure(st) <= spec_stream_measure(
                                old(self)@.stream())
                        },
                        ItemsStep::Bad(e) => r matches Err(er) && er@ == e,
                    },
                    _ => r matches Err(er) && er@ == (ParseErrorModel::UnexpectedElement {
                        expected: LangTokenType::Name,
                        got: left@,
                    }),
                }
            }),
        decreases spec_stream_measure(old(self)@.stream()), 4int,
    {
        if let Element::NameElement(name) = left {
            let arguments = match self.parse_items(LangTokenType::GroupEnd) {
                Ok(items) => items,
                Err(e) => {
                    return Err(e);
                },
            };
            Ok(Element::FunctionCallElement {
                receiver: None,
                name,
                arguments: Some(arguments),
            })
        } else {
            Err(ParseError::UnexpectedElement { expected: LangTokenType::Name, got: left })
        }
    }

    /// A whole expression: a primary element, extended while the next token
    /// binds tighter than `precedence`.
    #[verifier::loop_isolation(false)]
    #[verifier::rlimit(100)]
    pub fn parse_precedence(&mut self, precedence: Precedence) -> (r: ParseResult<Element>)
        requires
            old(self)@.wf(),
        ensures
            final(self)@.wf(),
            old(self)@.pending matches Option::Some(e) ==> (r matches Err(er) && er@
                == spec_from_lexer_error(e)),
            old(self)@.pending is None ==> {
                &&& spec_step_matches(final(self)@, r, spec_parse_precedence(
                    old(self)@.stream(), precedence))
                &&& (r is Ok ==> spec_stream_measure(final(self)@.stream())
                    < spec_stream_measure(old(self)@.stream()))
            },
        decreases spec_stream_measure(old(self)@.stream()), 2int,
    {
        let ghost st0 = old(self)@.stream();
        let mut left = match self.parse_element() {
            Ok(el) => el,
            Err(e) => {
                return Err(e);
            },
        };

        loop
            invariant
                self@.wf(),
                self@.pending is None,
                spec_stream_measure(self@.stream()) < spec_stream_measure(st0),
                spec_parse_precedence(st0, precedence) == spec_parse_infix(self@.stream(),
                    left@, precedence),
            decreases spec_stream_measure(self@.stream()),
        {
            let go = match self.get_precedence() {
                Some(x) => precedence.rank() < x.rank(),
                None => false,
            };
            if !go {
                break;
            }

            let ghost st_it = self@.stream();
            proof {
                lemma_stream_consume_measure(st_it);
            }
            match self.consume() {
                Ok(_) => {},
                Err(e) => {
                    return Err(e);
                },
            }

            match self.previous.token_type() {
                LangTokenType::Plus => {
                    left = match self.parse_binary(left, Precedence::Sum) {
                        Ok(el) => el,
                        Err(e) => {
                            return Err(e);
                        },
                    };
                },
                LangTokenType::Minus => {
                    left = match self.parse_binary(left, Precedence::Sum) {
                        Ok(el) => el,
                        Err(e) => {
                            return Err(e);
                        },
                    };
                },
                LangTokenType::Star => {
                    left = match self.parse_binary(left, Precedence::Factor) {
                        Ok(el) => el,
                        Err(e) => {
                            return Err(e);
                        },
                    };
                },
                LangTokenType::Slash => {
                    left = match self.parse_binary(left, Precedence::Factor) {
                        Ok(el) => el,
                        Err(e) => {
                            return Err(e);
                        },
                    };
                },
                LangTokenType::Dot => {
                    left = match self.parse_member(left) {
                        Ok(el) => el,
                        Err(e) => {
                            return Err(e);
                        },
                    };
                },
                LangTokenType::GroupBegin => {
                    left = match self.parse_function(left) {
                        Ok(el) => el,
                        Err(e) => {
                            return Err(e);
                        },
                    };
                },
                _ => {
                    proof {
                        assert(false);
                    }
                    return Err(ParseError::UnexpectedEof);
                },
            }
        }
        Ok(left)
    }

    /// A whole document: one expression at the lowest real precedence,
    /// followed by the end of the input.
    pub fn parse_full(&mut self) -> (r: ParseResult<Element>)
        requires
            old(self)@.wf(),
        ensures
            final(self)@.wf(),
            old(self)@.pending matches Option::Some(e) ==> (r matches Err(er) && er@
                == spec_from_lexer_error(e)),
            old(self)@.pending is None ==> match spec_parse_full(old(self)@.stream()) {
                Result::Ok(elem) => r matches Ok(e) && e@ == elem,
                Result::Err(pe) => r matches Err(er) && er@ == pe,
            },
    {
        let element = match self.parse_precedence(Precedence::Any) {
            Ok(el) => el,
            Err(e) => {
                return Err(e);
            },
        };
        if self.is_eof() {
            Ok(element)
        } else {
            Err(ParseError::ExpectedToken {
                pos: *self.current.pos(),
                expected: LangTokenType::Eof,
                got: copy_token(&self.current),
            })
        }
    }
}

} // verus!
