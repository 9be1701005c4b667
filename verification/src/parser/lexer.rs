//! Tokens, source positions, the character-level scanner `Lexer`, and the
//! token-level scanner `LangLexer`.

use vstd::prelude::*;

use crate::util::EscapeError;

verus! {

broadcast use vstd::seq::group_seq_axioms;

/// A zero-based line/column position in the source text.  The column is
/// advanced once per consumed character and resets to zero after a newline.
#[derive(Clone, Copy, Debug, PartialEq, Eq, Structural)]
pub struct TokenPos {
    pub line: i32,
    pub column: i32,
}

impl TokenPos {
    pub fn new(line: i32, column: i32) -> (p: TokenPos)
        ensures
            p == (TokenPos { line, column }),
    {
        TokenPos { line, column }
    }

    pub fn begin() -> (p: TokenPos)
        ensures
            p == (TokenPos { line: 0, column: 0 }),
    {
        TokenPos::new(0, 0)
    }
}

/// How a position advances over one consumed character.
pub open spec fn spec_advance_pos(p: TokenPos, c: char) -> TokenPos {
    if c == '\n' {
        TokenPos { line: (p.line + 1) as i32, column: 0 }
    } else {
        TokenPos { line: p.line, column: (p.column + 1) as i32 }
    }
}

/// How a position advances over a consumed character sequence.
pub open spec fn spec_advance_pos_seq(p: TokenPos, s: Seq<char>) -> TokenPos
    decreases s.len(),
{
    if s.len() == 0 {
        p
    } else {
        spec_advance_pos_seq(spec_advance_pos(p, s[0]), s.drop_first())
    }
}

/// Advancing over a sequence moves line and column forward by at most its
/// length, and never backwards below zero.
pub proof fn lemma_advance_pos_seq_bounds(p: TokenPos, s: Seq<char>)
    requires
        0 <= p.line,
        0 <= p.column,
        p.line + s.len() <= i32::MAX,
        p.column + s.len() <= i32::MAX,
    ensures
        0 <= spec_advance_pos_seq(p, s).line <= p.line + s.len(),
        0 <= spec_advance_pos_seq(p, s).column <= p.column + s.len(),
    decreases s.len(),
{
    if s.len() > 0 {
        lemma_advance_pos_seq_bounds(spec_advance_pos(p, s[0]), s.drop_first());
    }
}

/// Advancing over a concatenation advances over each part in turn.
pub proof fn lemma_advance_pos_seq_concat(p: TokenPos, a: Seq<char>, b: Seq<char>)
    ensures
        spec_advance_pos_seq(p, a + b) == spec_advance_pos_seq(spec_advance_pos_seq(p, a), b),
    decreases a.len(),
{
    if a.len() == 0 {
        assert(a + b =~= b);
    } else {
        lemma_advance_pos_seq_concat(spec_advance_pos(p, a[0]), a.drop_first(), b);
        assert((a + b)[0] == a[0]);
        assert((a + b).drop_first() =~= a.drop_first() + b);
    }
}

/// Advancing over a one-longer prefix is one more single-character step.
pub proof fn lemma_advance_pos_seq_step(p: TokenPos, s: Seq<char>, i: int)
    requires
        0 <= i < s.len(),
    ensures
        spec_advance_pos_seq(p, s.take(i + 1))
            == spec_advance_pos(spec_advance_pos_seq(p, s.take(i)), s[i]),
    decreases s.len(),
{
    assert(s.take(i + 1) =~= s.take(i) + seq![s[i]]);
    lemma_advance_pos_seq_concat(p, s.take(i), seq![s[i]]);
    let q = spec_advance_pos_seq(p, s.take(i));
    let single = seq![s[i]];
    assert(single.len() == 1 && single[0] == s[i]);
    assert(single.drop_first() =~= Seq::<char>::empty());
    assert(spec_advance_pos_seq(q, single)
        == spec_advance_pos_seq(spec_advance_pos(q, s[i]), single.drop_first()));
    assert(spec_advance_pos_seq(spec_advance_pos(q, s[i]), single.drop_first())
        == spec_advance_pos(q, s[i]));
}

/// The mathematical model of a `LexerError`, with the message of
/// `OtherError` as a character sequence.
pub enum LexerErrorModel {
    UnexpectedEof,
    UnexpectedCharacter(TokenPos, char),
    ExpectedCharacter { pos: TokenPos, expected: char, got: char },
    OtherError(TokenPos, Seq<char>),
}

/// An error of the character-level scanner.
#[derive(Debug, Clone)]
pub enum LexerError {
    UnexpectedEof,
    UnexpectedCharacter(TokenPos, char),
    ExpectedCharacter { pos: TokenPos, expected: char, got: char },
    OtherError(TokenPos, String),
}

impl View for LexerError {
    type V = LexerErrorModel;

    open spec fn view(&self) -> LexerErrorModel {
        match *self {
            LexerError::UnexpectedEof => LexerErrorModel::UnexpectedEof,
            LexerError::UnexpectedCharacter(p, c) => LexerErrorModel::UnexpectedCharacter(p, c),
            LexerError::ExpectedCharacter { pos, expected, got } =>
                LexerErrorModel::ExpectedCharacter { pos, expected, got },
            LexerError::OtherError(p, ref m) => LexerErrorModel::OtherError(p, m@),
        }
    }
}

impl LexerError {
    /// The lexer-level reading of an escape error found at position `pos`:
    /// offsets of `UnexpectedCharacter` are made absolute, the two `\u`
    /// decoding failures become `OtherError`s.
    pub open spec fn spec_from_escape_error(e: EscapeError, pos: TokenPos) -> LexerErrorModel {
        match e {
            EscapeError::UnexpectedEof => LexerErrorModel::UnexpectedEof,
            EscapeError::UnexpectedCharacter(pos_i, c) => LexerErrorModel::UnexpectedCharacter(
                TokenPos { line: pos.line, column: (pos.column + pos_i) as i32 },
                c,
            ),
            EscapeError::FailedConversion => LexerErrorModel::OtherError(
                pos,
                "failed conversion of a unicode escape to a code unit"@,
            ),
            EscapeError::InvalidCharacter(_) => LexerErrorModel::OtherError(
                pos,
                "a unicode escape named a surrogate, which is not a character"@,
            ),
        }
    }

    pub fn from_escape_error(e: EscapeError, pos: TokenPos) -> (r: LexerError)
        ensures
            r@ == Self::spec_from_escape_error(e, pos),
    {
        match e {
            EscapeError::UnexpectedEof => LexerError::UnexpectedEof,
            EscapeError::UnexpectedCharacter(pos_i, c) => {
                #[verifier::truncate]
                let column: i32 = ((pos.column as i64) + (pos_i as i64)) as i32;
                LexerError::UnexpectedCharacter(TokenPos::new(pos.line, column), c)
            },
            EscapeError::FailedConversion => LexerError::OtherError(
                pos,
                crate::util::string_from_str(
                    "failed conversion of a unicode escape to a code unit",
                ),
            ),
            EscapeError::InvalidCharacter(_) => LexerError::OtherError(
                pos,
                crate::util::string_from_str(
                    "a unicode escape named a surrogate, which is not a character",
                ),
            ),
        }
    }
}

/// The syntactic kind of a token.
#[derive(Clone, Copy, Debug, PartialEq, Eq, Structural)]
pub enum LangTokenType {
    NoToken,
    Name,
    LiteralString,
    LiteralNumber,
    LiteralTrue,
    LiteralFalse,
    LiteralNull,
    ObjectBegin,
    ObjectEnd,
    ArrayBegin,
    ArrayEnd,
    GroupBegin,
    GroupEnd,
    Comma,
    Dot,
    Colon,
    Plus,
    Minus,
    Star,
    Slash,
    Eof,
}

/// The mathematical model of a token: its kind, its verbatim text as a
/// character sequence, and its position.
pub struct TokenModel {
    pub token_type: LangTokenType,
    pub text: Seq<char>,
    pub pos: TokenPos,
}

/// A token: its kind, the exact source slice it covers (without the quotes,
/// for a string literal), and the position of its first character.
#[derive(Debug, Clone, PartialEq, Eq)]
pub struct LangToken {
    token_type: LangTokenType,
    text: String,
    pos: TokenPos,
}

impl View for LangToken {
    type V = TokenModel;

    closed spec fn view(&self) -> TokenModel {
        TokenModel { token_type: self.token_type, text: self.text@, pos: self.pos }
    }
}

impl LangToken {
    pub fn new(token_type: LangTokenType, text: String, pos: TokenPos) -> (t: LangToken)
        ensures
            t@ == (TokenModel { token_type, text: text@, pos }),
    {
        LangToken { token_type, text, pos }
    }

    pub fn empty() -> (t: LangToken)
        ensures
            t@ == (TokenModel {
                token_type: LangTokenType::NoToken,
                text: Seq::<char>::empty(),
                pos: TokenPos { line: 0, column: 0 },
            }),
    {
        LangToken {
            token_type: LangTokenType::NoToken,
            text: String::new(),
            pos: TokenPos::begin(),
        }
    }

    pub fn token_type(&self) -> (k: LangTokenType)
        ensures
            k == self@.token_type,
    {
        self.token_type
    }

    pub fn text(&self) -> (t: &str)
        ensures
            t@ == self@.text,
    {
        self.text.as_str()
    }

    pub fn pos(&self) -> (p: &TokenPos)
        ensures
            *p == self@.pos,
    {
        &self.pos
    }
}

/// Whether `c` is a whitespace character (the unicode `White_Space` set).
pub open spec fn spec_is_space(c: char) -> bool {
    c == ' ' || c == '\t' || c == '\n' || c == '\r' || c as u32 == 0x0B || c as u32 == 0x0C
        || c as u32 == 0x85 || c as u32 == 0xA0 || c as u32 == 0x1680
        || (0x2000 <= c as u32 <= 0x200A) || c as u32 == 0x2028 || c as u32 == 0x2029
        || c as u32 == 0x202F || c as u32 == 0x205F || c as u32 == 0x3000
}

#[verifier::when_used_as_spec(spec_is_space)]
pub fn is_space(c: char) -> (r: bool)
    ensures
        r == spec_is_space(c),
{
    c == ' ' || c == '\t' || c == '\n' || c == '\r' || c as u32 == 0x0B || c as u32 == 0x0C
        || c as u32 == 0x85 || c as u32 == 0xA0 || c as u32 == 0x1680
        || (c as u32 >= 0x2000 && c as u32 <= 0x200A) || c as u32 == 0x2028
        || c as u32 == 0x2029 || c as u32 == 0x202F || c as u32 == 0x205F || c as u32 == 0x3000
}

/// The length of the leading whitespace run of `s`.
pub open spec fn spec_ws_len(s: Seq<char>) -> int
    decreases s.len(),
{
    if s.len() > 0 && spec_is_space(s[0]) {
        1 + spec_ws_len(s.drop_first())
    } else {
        0
    }
}

/// The length of the rest of the current line, up to but not including the
/// next newline.
pub open spec fn spec_line_len(s: Seq<char>) -> int
    decreases s.len(),
{
    if s.len() > 0 && s[0] != '\n' {
        1 + spec_line_len(s.drop_first())
    } else {
        0
    }
}

/// The number of characters a block comment scan consumes from `s` (the
/// characters after the opening `/*`), given that `depth` comments are open:
/// `/*` opens another one, `*/` closes one, and the scan ends when the last
/// open comment closes.  `None` means the comments never close.
pub open spec fn spec_block_len(s: Seq<char>, depth: int) -> Option<int>
    decreases s.len(),
{
    if s.len() == 0 {
        Option::None
    } else if s[0] == '/' && s.len() >= 2 && s[1] == '*' {
        match spec_block_len(s.skip(2), depth + 1) {
            Option::Some(b) => Option::Some(2 + b),
            Option::None => Option::None,
        }
    } else if s[0] == '*' && s.len() >= 2 && s[1] == '/' {
        if depth <= 1 {
            Option::Some(2)
        } else {
            match spec_block_len(s.skip(2), depth - 1) {
                Option::Some(b) => Option::Some(2 + b),
                Option::None => Option::None,
            }
        }
    } else {
        match spec_block_len(s.drop_first(), depth) {
            Option::Some(b) => Option::Some(1 + b),
            Option::None => Option::None,
        }
    }
}

/// Leading-run lengths never exceed the sequence's length.
pub proof fn lemma_run_len_bounds(s: Seq<char>)
    ensures
        0 <= spec_ws_len(s) <= s.len(),
        0 <= spec_line_len(s) <= s.len(),
    decreases s.len(),
{
    if s.len() > 0 {
        lemma_run_len_bounds(s.drop_first());
    }
}

/// A block comment scan consumes at most the whole sequence.
pub proof fn lemma_block_len_bounds(s: Seq<char>, depth: int)
    ensures
        spec_block_len(s, depth) matches Option::Some(b) ==> 0 <= b <= s.len(),
    decreases s.len(),
{
    if s.len() == 0 {
    } else if s[0] == '/' && s.len() >= 2 && s[1] == '*' {
        lemma_block_len_bounds(s.skip(2), depth + 1);
    } else if s[0] == '*' && s.len() >= 2 && s[1] == '/' {
        if depth > 1 {
            lemma_block_len_bounds(s.skip(2), depth - 1);
        }
    } else {
        lemma_block_len_bounds(s.drop_first(), depth);
    }
}

/// The length of the common prefix of `s` and `t`, stopping at `t`'s end.
pub open spec fn spec_match_len(s: Seq<char>, t: Seq<char>) -> int
    decreases t.len(),
{
    if t.len() > 0 && s.len() > 0 && s[0] == t[0] {
        1 + spec_match_len(s.drop_first(), t.drop_first())
    } else {
        0
    }
}

/// The length of the leading decimal digit run of `s`.
pub open spec fn spec_digits_len(s: Seq<char>) -> int
    decreases s.len(),
{
    if s.len() > 0 && crate::util::spec_is_digit(s[0]) {
        1 + spec_digits_len(s.drop_first())
    } else {
        0
    }
}

/// The length of the leading name-character run of `s`.
pub open spec fn spec_alnum_len(s: Seq<char>) -> int
    decreases s.len(),
{
    if s.len() > 0 && crate::util::spec_is_alpha_numeric(s[0]) {
        1 + spec_alnum_len(s.drop_first())
    } else {
        0
    }
}

/// Leading digit and name runs never exceed the sequence's length, and end
/// at the first character not of their class.
pub proof fn lemma_class_run_bounds(s: Seq<char>)
    ensures
        0 <= spec_digits_len(s) <= s.len(),
        0 <= spec_alnum_len(s) <= s.len(),
        spec_digits_len(s) < s.len() ==> !crate::util::spec_is_digit(s[spec_digits_len(s)]),
        spec_alnum_len(s) < s.len() ==> !crate::util::spec_is_alpha_numeric(
            s[spec_alnum_len(s)]),
    decreases s.len(),
{
    if s.len() > 0 {
        lemma_class_run_bounds(s.drop_first());
    }
}

/// The number of characters a number literal occupies at the front of `s`
/// (whose first character is the sign or the first digit): the integer part,
/// a fraction only when a `.` is directly followed by a digit, and an
/// exponent whose missing digits are an error at the returned offset.
pub open spec fn spec_number_len(s: Seq<char>) -> Result<int, int> {
    let d = 1 + spec_digits_len(s.skip(1));
    let f = if d < s.len() && s[d] == '.' && d + 1 < s.len() && crate::util::spec_is_digit(
        s[d + 1]) {
        d + 1 + spec_digits_len(s.skip(d + 1))
    } else {
        d
    };
    if f < s.len() && (s[f] == 'e' || s[f] == 'E') {
        let g = if f + 1 < s.len() && (s[f + 1] == '+' || s[f + 1] == '-') {
            f + 2
        } else {
            f + 1
        };
        if g < s.len() && crate::util::spec_is_digit(s[g]) {
            Result::Ok(g + spec_digits_len(s.skip(g)))
        } else {
            Result::Err(g)
        }
    } else {
        Result::Ok(f)
    }
}

/// The length of a string literal's body: the characters of `s` (which
/// starts right behind the opening quote) up to the next quote that does not
/// stand behind a backslash.  `None` means the literal never closes.
pub open spec fn spec_string_body_len(s: Seq<char>) -> Option<int>
    decreases s.len(),
{
    if s.len() == 0 {
        Option::None
    } else if s[0] == '"' {
        Option::Some(0)
    } else if s[0] == '\\' {
        if s.len() == 1 {
            Option::None
        } else {
            match spec_string_body_len(s.skip(2)) {
                Option::Some(b) => Option::Some(2 + b),
                Option::None => Option::None,
            }
        }
    } else {
        match spec_string_body_len(s.drop_first()) {
            Option::Some(b) => Option::Some(1 + b),
            Option::None => Option::None,
        }
    }
}

/// A string body, when it closes, ends strictly before the sequence's end:
/// the closing quote follows it.
pub proof fn lemma_string_body_len_bounds(s: Seq<char>)
    ensures
        spec_string_body_len(s) matches Option::Some(b) ==> 0 <= b < s.len(),
    decreases s.len(),
{
    if s.len() == 0 {
    } else if s[0] == '"' {
    } else if s[0] == '\\' {
        if s.len() > 1 {
            lemma_string_body_len_bounds(s.skip(2));
        }
    } else {
        lemma_string_body_len_bounds(s.drop_first());
    }
}

/// The number of characters of whitespace and comments in front of the next
/// token of `s`: whitespace, `//` to the end of the line, and `/*` to the
/// matching `*/` with nesting.  `None` means a block comment never closes.
pub open spec fn spec_trivia_len(s: Seq<char>) -> Option<int>
    decreases s.len(),
        via spec_trivia_len_decreases
{
    let w = spec_ws_len(s);
    let t = s.skip(w);
    if t.len() >= 2 && t[0] == '/' && t[1] == '/' {
        let l = spec_line_len(t.skip(2));
        match spec_trivia_len(t.skip(2 + l)) {
            Option::Some(k) => Option::Some(w + 2 + l + k),
            Option::None => Option::None,
        }
    } else if t.len() >= 2 && t[0] == '/' && t[1] == '*' {
        match spec_block_len(t.skip(2), 1) {
            Option::Some(b) => match spec_trivia_len(t.skip(2 + b)) {
                Option::Some(k) => Option::Some(w + 2 + b + k),
                Option::None => Option::None,
            },
            Option::None => Option::None,
        }
    } else {
        Option::Some(w)
    }
}

#[via_fn]
proof fn spec_trivia_len_decreases(s: Seq<char>) {
    lemma_ws_len_end(s);
    let w = spec_ws_len(s);
    let t = s.skip(w);
    if t.len() >= 2 && t[0] == '/' && t[1] == '/' {
        lemma_run_len_bounds(t.skip(2));
    } else if t.len() >= 2 && t[0] == '/' && t[1] == '*' {
        lemma_block_len_bounds(t.skip(2), 1);
    }
}

/// The whitespace run stops at the first non-space character, and skipping
/// it leaves no leading whitespace.
pub proof fn lemma_ws_len_end(s: Seq<char>)
    ensures
        0 <= spec_ws_len(s) <= s.len(),
        spec_ws_len(s) < s.len() ==> !spec_is_space(s[spec_ws_len(s)]),
        spec_ws_len(s.skip(spec_ws_len(s))) == 0,
    decreases s.len(),
{
    lemma_run_len_bounds(s);
    if s.len() > 0 && spec_is_space(s[0]) {
        lemma_ws_len_end(s.drop_first());
        assert(s.skip(spec_ws_len(s)) =~= s.drop_first().skip(spec_ws_len(s) - 1));
        assert(forall|i: int| 0 <= i < s.drop_first().len()
            ==> #[trigger] s.drop_first()[i] == s[i + 1]);
    } else {
        if s.len() > 0 {
            assert(s.skip(0) =~= s);
        } else {
            assert(s.skip(0) =~= s);
        }
    }
}

/// The result of scanning for one token: the token itself together with the
/// number of characters it consumed, or a scan error.
pub enum ScanResult {
    Token { token_type: LangTokenType, text: Seq<char>, pos: TokenPos, consumed: int },
    Failure(LexerErrorModel),
}

impl ScanResult {
    /// The same result with `d` more characters accounted as consumed.
    pub open spec fn shifted(self, d: int) -> ScanResult {
        match self {
            ScanResult::Token { token_type, text, pos, consumed } => ScanResult::Token {
                token_type,
                text,
                pos,
                consumed: consumed + d,
            },
            ScanResult::Failure(e) => ScanResult::Failure(e),
        }
    }
}

/// One token read from the front of `t`, which carries no leading whitespace
/// or comment; `q` is the position of `t[0]`.  `consumed` is relative to
/// `t`.
pub open spec fn spec_dispatch(t: Seq<char>, q: TokenPos) -> ScanResult {
    if t.len() == 0 {
        ScanResult::Token {
            token_type: LangTokenType::Eof,
            text: Seq::empty(),
            pos: q,
            consumed: 0,
        }
    } else {
        let c = t[0];
        if c == '{' {
            spec_single(LangTokenType::ObjectBegin, c, q)
        } else if c == '}' {
            spec_single(LangTokenType::ObjectEnd, c, q)
        } else if c == '[' {
            spec_single(LangTokenType::ArrayBegin, c, q)
        } else if c == ']' {
            spec_single(LangTokenType::ArrayEnd, c, q)
        } else if c == '(' {
            spec_single(LangTokenType::GroupBegin, c, q)
        } else if c == ')' {
            spec_single(LangTokenType::GroupEnd, c, q)
        } else if c == ',' {
            spec_single(LangTokenType::Comma, c, q)
        } else if c == ':' {
            spec_single(LangTokenType::Colon, c, q)
        } else if c == '.' {
            spec_single(LangTokenType::Dot, c, q)
        } else if c == '+' {
            spec_single(LangTokenType::Plus, c, q)
        } else if c == '*' {
            spec_single(LangTokenType::Star, c, q)
        } else if c == '/' {
            spec_single(LangTokenType::Slash, c, q)
        } else if c == '-' && !(t.len() >= 2 && crate::util::spec_is_digit(t[1])) {
            spec_single(LangTokenType::Minus, c, q)
        } else if c == '-' || crate::util::spec_is_digit(c) {
            match spec_number_len(t) {
                Result::Ok(n) => ScanResult::Token {
                    token_type: LangTokenType::LiteralNumber,
                    text: t.take(n),
                    pos: q,
                    consumed: n,
                },
                Result::Err(j) => if j >= t.len() {
                    ScanResult::Failure(LexerErrorModel::UnexpectedEof)
                } else {
                    ScanResult::Failure(LexerErrorModel::UnexpectedCharacter(
                        spec_advance_pos_seq(q, t.take(j)),
                        t[j],
                    ))
                },
            }
        } else if c == '"' {
            match spec_string_body_len(t.skip(1)) {
                Option::Some(b) => ScanResult::Token {
                    token_type: LangTokenType::LiteralString,
                    text: t.skip(1).take(b),
                    pos: spec_advance_pos(q, '"'),
                    consumed: 1 + b + 1,
                },
                Option::None => ScanResult::Failure(LexerErrorModel::UnexpectedEof),
            }
        } else if crate::util::spec_is_alpha(c) {
            let n = spec_alnum_len(t);
            let text = t.take(n);
            let token_type = if text == "true"@ {
                LangTokenType::LiteralTrue
            } else if text == "false"@ {
                LangTokenType::LiteralFalse
            } else if text == "null"@ {
                LangTokenType::LiteralNull
            } else {
                LangTokenType::Name
            };
            ScanResult::Token { token_type, text, pos: q, consumed: n }
        } else {
            ScanResult::Failure(LexerErrorModel::UnexpectedCharacter(q, c))
        }
    }
}

/// A single-character token.
pub open spec fn spec_single(token_type: LangTokenType, c: char, q: TokenPos) -> ScanResult {
    ScanResult::Token { token_type, text: seq![c], pos: q, consumed: 1 }
}

/// One token read from the front of `s`, after skipping whitespace and
/// comments; `p` is the position of `s[0]`.  `consumed` counts the trivia
/// too.
pub open spec fn spec_scan(s: Seq<char>, p: TokenPos) -> ScanResult {
    match spec_trivia_len(s) {
        Option::None => ScanResult::Failure(LexerErrorModel::UnexpectedEof),
        Option::Some(k) => spec_dispatch(s.skip(k), spec_advance_pos_seq(p, s.take(k))).shifted(
            k),
    }
}

/// The trivia in front of the next token never exceeds the sequence's
/// length.
pub proof fn lemma_trivia_len_bounds(s: Seq<char>)
    ensures
        spec_trivia_len(s) matches Option::Some(k) ==> 0 <= k <= s.len(),
    decreases s.len(),
{
    lemma_ws_len_end(s);
    let w = spec_ws_len(s);
    let t = s.skip(w);
    if t.len() >= 2 && t[0] == '/' && t[1] == '/' {
        let l = spec_line_len(t.skip(2));
        lemma_run_len_bounds(t.skip(2));
        lemma_trivia_len_bounds(t.skip(2 + l));
    } else if t.len() >= 2 && t[0] == '/' && t[1] == '*' {
        if let Option::Some(b) = spec_block_len(t.skip(2), 1) {
            lemma_block_len_bounds(t.skip(2), 1);
            lemma_trivia_len_bounds(t.skip(2 + b));
        }
    }
}

/// Scanning commutes with taking one trivia step off the front of `s`: the
/// leading whitespace run, a whole line comment, or a whole block comment.
#[verifier::rlimit(60)]
pub proof fn lemma_scan_step(s: Seq<char>, p: TokenPos, d: int)
    requires
        d == spec_ws_len(s) || (spec_ws_len(s) == 0 && s.len() >= 2 && s[0] == '/' && s[1]
            == '/' && d == 2 + spec_line_len(s.skip(2))) || (spec_ws_len(s) == 0 && s.len() >= 2
            && s[0] == '/' && s[1] == '*' && (spec_block_len(s.skip(2), 1) matches
            Option::Some(b) && d == 2 + b)),
    ensures
        spec_scan(s, p) == spec_scan(s.skip(d), spec_advance_pos_seq(p, s.take(d))).shifted(d),
{
    lemma_ws_len_end(s);
    let w = spec_ws_len(s);
    let t = s.skip(w);
    if d == w {
        assert(t.skip(0) =~= t);
        lemma_ws_len_end(t);
        assert(spec_ws_len(t) == 0) by {
            if t.len() > 0 {
                assert(t[0] == s[w]);
            }
        }
        if t.len() >= 2 && t[0] == '/' && t[1] == '/' {
            let l = spec_line_len(t.skip(2));
            assert(t.skip(0).skip(2) == t.skip(2));
            assert(t.skip(0).skip(2 + l) == t.skip(2 + l));
        } else if t.len() >= 2 && t[0] == '/' && t[1] == '*' {
            assert(t.skip(0).skip(2) == t.skip(2));
            if let Option::Some(b) = spec_block_len(t.skip(2), 1) {
                assert(t.skip(0).skip(2 + b) == t.skip(2 + b));
            }
        }
        assert(match spec_trivia_len(s.skip(d)) {
            Option::Some(k) => spec_trivia_len(s) == Option::Some(d + k),
            Option::None => spec_trivia_len(s) is None,
        });
    } else {
        assert(w == 0);
        assert(s.skip(0) =~= s);
        assert(t == s);
        if s[1] == '/' {
            let l = spec_line_len(s.skip(2));
            assert(d == 2 + l);
            lemma_run_len_bounds(s.skip(2));
        } else {
            lemma_block_len_bounds(s.skip(2), 1);
        }
        assert(match spec_trivia_len(s.skip(d)) {
            Option::Some(k) => spec_trivia_len(s) == Option::Some(d + k),
            Option::None => spec_trivia_len(s) is None,
        });
    }
    assert(0 <= d <= s.len()) by {
        lemma_ws_len_end(s);
        if d != spec_ws_len(s) {
            lemma_run_len_bounds(s.skip(2));
            lemma_block_len_bounds(s.skip(2), 1);
        }
    }
    match spec_trivia_len(s.skip(d)) {
        Option::Some(k) => {
            lemma_trivia_len_bounds(s.skip(d));
            assert(s.skip(d + k) =~= s.skip(d).skip(k));
            assert(s.take(d + k) =~= s.take(d) + s.skip(d).take(k));
            lemma_advance_pos_seq_concat(p, s.take(d), s.skip(d).take(k));
        },
        Option::None => {},
    }
}

/// A block comment that never closes makes the whole scan fail.
pub proof fn lemma_scan_unterminated(s: Seq<char>, p: TokenPos)
    requires
        spec_ws_len(s) == 0,
        s.len() >= 2,
        s[0] == '/',
        s[1] == '*',
        spec_block_len(s.skip(2), 1) is None,
    ensures
        spec_scan(s, p) == ScanResult::Failure(LexerErrorModel::UnexpectedEof),
{
    assert(s.skip(0) =~= s);
}

/// When `s` carries no leading whitespace or comment, scanning is exactly
/// the dispatch on its first characters.
pub proof fn lemma_scan_is_dispatch(s: Seq<char>, p: TokenPos)
    requires
        spec_ws_len(s) == 0,
        !(s.len() >= 2 && s[0] == '/' && (s[1] == '/' || s[1] == '*')),
    ensures
        spec_scan(s, p) == spec_dispatch(s, p).shifted(0),
        spec_trivia_len(s) == Option::<int>::Some(0),
    decreases 0int,
{
    assert(s.skip(0) =~= s);
    assert(s.take(0) =~= Seq::<char>::empty());
}

/// The mathematical model of the character-level scanner: the source, the
/// two cursors, and their positions.
pub struct LexerModel {
    pub src: Seq<char>,
    pub start: int,
    pub current: int,
    pub pos: TokenPos,
    pub current_pos: TokenPos,
}

impl LexerModel {
    /// The characters not yet consumed.
    pub open spec fn remaining(self) -> Seq<char> {
        self.src.skip(self.current)
    }

    /// Well-formedness: the cursors are in range, the source length fits the
    /// position type, and both positions are what advancing over the
    /// respective consumed prefix gives.
    pub open spec fn wf(self) -> bool {
        &&& 0 <= self.start <= self.current <= self.src.len()
        &&& self.src.len() <= i32::MAX
        &&& self.pos == spec_advance_pos_seq(TokenPos { line: 0, column: 0 },
            self.src.take(self.start))
        &&& self.current_pos == spec_advance_pos_seq(TokenPos { line: 0, column: 0 },
            self.src.take(self.current))
    }
}

/// The character-level scanner: a cursor over the source characters plus the
/// start cursor of the token being scanned, each with its position.
pub struct Lexer {
    source: Vec<char>,
    start: usize,
    current: usize,
    pos: TokenPos,
    current_pos: TokenPos,
}

pub type LexerResult<T> = Result<T, LexerError>;

impl View for Lexer {
    type V = LexerModel;

    closed spec fn view(&self) -> LexerModel {
        LexerModel {
            src: self.source@,
            start: self.start as int,
            current: self.current as int,
            pos: self.pos,
            current_pos: self.current_pos,
        }
    }
}

impl Lexer {
    pub fn new(source: &str) -> (l: Lexer)
        requires
            source@.len() <= i32::MAX,
        ensures
            l@.wf(),
            l@.src == source@,
            l@.start == 0,
            l@.current == 0,
    {
        let l = Lexer {
            source: crate::util::str_to_chars(source),
            start: 0,
            current: 0,
            pos: TokenPos::begin(),
            current_pos: TokenPos::begin(),
        };
        proof {
            assert(l@.src.take(0) =~= Seq::<char>::empty());
        }
        l
    }

    pub fn pos(&self) -> (p: TokenPos)
        ensures
            p == self@.pos,
    {
        self.pos
    }

    /// The next character, without consuming it; `UnexpectedEof` at the end.
    pub fn peek(&mut self) -> (r: LexerResult<&char>)
        ensures
            *final(self) == *old(self),
            old(self)@.current < old(self)@.src.len() ==> (r matches Ok(c)
                && *c == old(self)@.src[old(self)@.current]),
            old(self)@.current >= old(self)@.src.len() ==> (r matches Err(e)
                && e@ == LexerErrorModel::UnexpectedEof),
    {
        if self.current < self.source.len() {
            Ok(&self.source[self.current])
        } else {
            Err(LexerError::UnexpectedEof)
        }
    }

    /// Consumes and returns the next character, advancing the position;
    /// `UnexpectedEof` at the end.
    pub fn consume(&mut self) -> (r: LexerResult<char>)
        requires
            old(self)@.wf(),
        ensures
            final(self)@.wf(),
            final(self)@.src == old(self)@.src,
            final(self)@.start == old(self)@.start,
            final(self)@.pos == old(self)@.pos,
            old(self)@.current < old(self)@.src.len() ==> {
                &&& r matches Ok(c) && c == old(self)@.src[old(self)@.current]
                &&& final(self)@.current == old(self)@.current + 1
                &&& final(self)@.current_pos == spec_advance_pos(old(self)@.current_pos,
                    old(self)@.src[old(self)@.current])
            },
            old(self)@.current >= old(self)@.src.len() ==> (r matches Err(e)
                && e@ == LexerErrorModel::UnexpectedEof && *final(self) == *old(self)),
    {
        if self.current < self.source.len() {
            let c = self.source[self.current];
            proof {
                lemma_advance_pos_seq_bounds(TokenPos { line: 0, column: 0 },
                    self@.src.take(self@.current));
                lemma_advance_pos_seq_step(TokenPos { line: 0, column: 0 }, self@.src,
                    self@.current);
            }
            if c == '\n' {
                self.current_pos.line = self.current_pos.line + 1;
                self.current_pos.column = 0;
            } else {
                self.current_pos.column = self.current_pos.column + 1;
            }
            self.current = self.current + 1;
            Ok(c)
        } else {
            Err(LexerError::UnexpectedEof)
        }
    }

    /// Consumes the next character if it is `expected`; reports
    /// `ExpectedCharacter` (at the start position of the current token) if it
    /// is another one, `UnexpectedEof` at the end.
    pub fn expect(&mut self, expected: char) -> (r: LexerResult<char>)
        requires
            old(self)@.wf(),
        ensures
            final(self)@.wf(),
            final(self)@.src == old(self)@.src,
            final(self)@.start == old(self)@.start,
            final(self)@.pos == old(self)@.pos,
            old(self)@.current < old(self)@.src.len()
                && old(self)@.src[old(self)@.current] == expected ==> {
                &&& r matches Ok(c) && c == expected
                &&& final(self)@.current == old(self)@.current + 1
                &&& final(self)@.current_pos == spec_advance_pos(old(self)@.current_pos,
                    expected)
            },
            old(self)@.current < old(self)@.src.len()
                && old(self)@.src[old(self)@.current] != expected ==> (r matches Err(e)
                && e@ == (LexerErrorModel::ExpectedCharacter {
                    pos: old(self)@.pos,
                    expected,
                    got: old(self)@.src[old(self)@.current],
                }) && *final(self) == *old(self)),
            old(self)@.current >= old(self)@.src.len() ==> (r matches Err(e)
                && e@ == LexerErrorModel::UnexpectedEof && *final(self) == *old(self)),
    {
        let pos = self.pos;
        let c = match self.peek() {
            Ok(c) => *c,
            Err(e) => {
                return Err(e);
            },
        };

        if expected == c {
            self.consume()
        } else {
            Err(LexerError::ExpectedCharacter { pos, expected, got: c })
        }
    }

    /// Consumes the leading whitespace run.
    pub fn skip_whitespace(&mut self)
        requires
            old(self)@.wf(),
        ensures
            final(self)@.wf(),
            final(self)@.src == old(self)@.src,
            final(self)@.start == old(self)@.start,
            final(self)@.pos == old(self)@.pos,
            final(self)@.current == old(self)@.current + spec_ws_len(old(self)@.remaining()),
    {
        let ghost r0 = self@.remaining();
        let ghost c0 = self@.current;
        loop
            invariant
                self@.wf(),
                self@.src == old(self)@.src,
                self@.start == old(self)@.start,
                self@.pos == old(self)@.pos,
                c0 <= self@.current <= self@.src.len(),
                r0 == old(self)@.remaining(),
                c0 == old(self)@.current,
                spec_ws_len(r0) == (self@.current - c0) + spec_ws_len(self@.remaining()),
            ensures
                spec_ws_len(self@.remaining()) == 0,
            decreases self@.src.len() - self@.current,
        {
            let go = match self.peek() {
                Ok(c) => is_space(*c),
                Err(_) => false,
            };
            if !go {
                break;
            }
            let ghost rem = self@.remaining();
            let _ = self.consume();
            proof {
                assert(rem[0] == self@.src[self@.current - 1]);
                assert(rem.drop_first() =~= self@.remaining());
            }
        }
    }

    /// Consumes the rest of the line, up to but not including the next
    /// newline.
    pub fn skip_line(&mut self)
        requires
            old(self)@.wf(),
        ensures
            final(self)@.wf(),
            final(self)@.src == old(self)@.src,
            final(self)@.start == old(self)@.start,
            final(self)@.pos == old(self)@.pos,
            final(self)@.current == old(self)@.current + spec_line_len(old(self)@.remaining()),
    {
        let ghost r0 = self@.remaining();
        let ghost c0 = self@.current;
        loop
            invariant
                self@.wf(),
                self@.src == old(self)@.src,
                self@.start == old(self)@.start,
                self@.pos == old(self)@.pos,
                c0 <= self@.current <= self@.src.len(),
                r0 == old(self)@.remaining(),
                c0 == old(self)@.current,
                spec_line_len(r0) == (self@.current - c0) + spec_line_len(self@.remaining()),
            ensures
                spec_line_len(self@.remaining()) == 0,
            decreases self@.src.len() - self@.current,
        {
            let go = match self.peek() {
                Ok(c) => *c != '\n',
                Err(_) => false,
            };
            if !go {
                break;
            }
            let ghost rem = self@.remaining();
            let _ = self.consume();
            proof {
                assert(rem[0] == self@.src[self@.current - 1]);
                assert(rem.drop_first() =~= self@.remaining());
            }
        }
    }

    /// Skips a comment whose opening `/` has already been consumed: a second
    /// `/` starts a line comment (skipped up to the newline), a `*` starts a
    /// block comment (skipped with nesting; `UnexpectedEof` if it never
    /// closes), anything else is `UnexpectedCharacter` at the token start
    /// position, and nothing is consumed.
    pub fn skip_comment(&mut self) -> (r: LexerResult<()>)
        requires
            old(self)@.wf(),
        ensures
            final(self)@.wf(),
            final(self)@.src == old(self)@.src,
            final(self)@.start == old(self)@.start,
            final(self)@.pos == old(self)@.pos,
            ({
                let rem = old(self)@.remaining();
                if rem.len() == 0 {
                    &&& r matches Err(e) && e@ == LexerErrorModel::UnexpectedEof
                    &&& *final(self) == *old(self)
                } else if rem[0] == '/' {
                    &&& r is Ok
                    &&& final(self)@.current == old(self)@.current + 1 + spec_line_len(
                        rem.skip(1))
                } else if rem[0] == '*' {
                    match spec_block_len(rem.skip(1), 1) {
                        Option::Some(b) => r is Ok && final(self)@.current == old(self)@.current
                            + 1 + b,
                        Option::None => r matches Err(e) && e@ == LexerErrorModel::UnexpectedEof
                            && final(self)@.current == final(self)@.src.len(),
                    }
                } else {
                    &&& r matches Err(e) && e@ == LexerErrorModel::UnexpectedCharacter(
                        old(self)@.pos, rem[0])
                    &&& *final(self) == *old(self)
                }
            }),
    {
        let ghost rem = self@.remaining();
        proof {
            if rem.len() > 0 {
                assert(rem[0] == self@.src[self@.current]);
            }
        }
        if let Ok(_) = self.expect('/') {
            proof {
                assert(rem.skip(1) =~= self@.remaining());
            }
            self.skip_line();
            Ok(())
        } else if let Ok(_) = self.expect('*') {
            proof {
                assert(rem.skip(1) =~= self@.remaining());
            }
            let ghost r1 = self@.remaining();
            let ghost c1 = self@.current;
            let mut depth: usize = 1;

            loop
                invariant
                    self@.wf(),
                    self@.src == old(self)@.src,
                    self@.start == old(self)@.start,
                    self@.pos == old(self)@.pos,
                    old(self)@.remaining().len() > 0,
                    old(self)@.remaining()[0] == '*',
                    r1 == old(self)@.remaining().skip(1),
                    c1 == old(self)@.current + 1,
                    c1 <= self@.current <= self@.src.len(),
                    r1 == self@.src.skip(c1),
                    1 <= depth,
                    depth <= 1 + self@.current,
                    2 * depth <= 2 + (self@.current - c1),
                    spec_block_len(r1, 1) == (match spec_block_len(self@.remaining(),
                        depth as int) {
                        Option::Some(b) => Option::Some(self@.current - c1 + b),
                        Option::None => Option::<int>::None,
                    }),
                decreases self@.src.len() - self@.current,
            {
                let ghost pre = self@.remaining();
                let c = match self.consume() {
                    Ok(c) => c,
                    Err(e) => {
                        proof {
                            assert(pre.len() == 0);
                        }
                        return Err(e);
                    },
                };
                proof {
                    assert(pre[0] == c);
                    assert(pre.drop_first() =~= self@.remaining());
                }

                if c == '/' {
                    let ghost mid = self@.remaining();
                    if let Ok(_) = self.expect('*') {
                        proof {
                            assert(pre[1] == mid[0]);
                            assert(pre.skip(2) =~= self@.remaining());
                        }
                        depth = depth + 1;
                    } else {
                        proof {
                            assert(pre.len() >= 2 ==> pre[1] == mid[0]);
                        }
                    }
                } else if c == '*' {
                    let ghost mid = self@.remaining();
                    if let Ok(_) = self.expect('/') {
                        proof {
                            assert(pre[1] == mid[0]);
                            assert(pre.skip(2) =~= self@.remaining());
                        }
                        depth = depth - 1;

                        if depth == 0 {
                            return Ok(());
                        }
                    } else {
                        proof {
                            assert(pre.len() >= 2 ==> pre[1] == mid[0]);
                        }
                    }
                }
            }
        } else {
            let pos = self.pos;
            let c = match self.peek() {
                Ok(c) => *c,
                Err(e) => {
                    return Err(e);
                },
            };
            Err(LexerError::UnexpectedCharacter(pos, c))
        }
    }

    /// Consumes `number` characters; `UnexpectedEof` if fewer are left.
    pub fn skip(&mut self, number: i32) -> (r: LexerResult<()>)
        requires
            old(self)@.wf(),
            number >= 0,
        ensures
            final(self)@.wf(),
            final(self)@.src == old(self)@.src,
            final(self)@.start == old(self)@.start,
            final(self)@.pos == old(self)@.pos,
            number <= old(self)@.remaining().len() ==> r is Ok && final(self)@.current
                == old(self)@.current + number,
            number > old(self)@.remaining().len() ==> (r matches Err(e)
                && e@ == LexerErrorModel::UnexpectedEof
                && final(self)@.current == final(self)@.src.len()),
    {
        let mut i: i32 = 0;
        while i < number
            invariant
                self@.wf(),
                self@.src == old(self)@.src,
                self@.start == old(self)@.start,
                self@.pos == old(self)@.pos,
                0 <= i <= number,
                i <= old(self)@.remaining().len(),
                self@.current == old(self)@.current + i,
            decreases number - i,
        {
            match self.consume() {
                Ok(_) => {},
                Err(e) => {
                    return Err(e);
                },
            }
            i = i + 1;
        }
        Ok(())
    }

    /// Consumes the characters of `expected` one by one, stopping with
    /// `expect`'s error at the first one that differs.
    pub fn expect_str<'b>(&mut self, expected: &'b str) -> (r: LexerResult<&'b str>)
        requires
            old(self)@.wf(),
        ensures
            final(self)@.wf(),
            final(self)@.src == old(self)@.src,
            final(self)@.start == old(self)@.start,
            final(self)@.pos == old(self)@.pos,
            ({
                let rem = old(self)@.remaining();
                let t = expected@;
                let m = spec_match_len(rem, t);
                &&& final(self)@.current == old(self)@.current + m
                &&& if m == t.len() {
                    r matches Ok(x) && x@ == t
                } else if m == rem.len() {
                    r matches Err(e) && e@ == LexerErrorModel::UnexpectedEof
                } else {
                    r matches Err(e) && e@ == (LexerErrorModel::ExpectedCharacter {
                        pos: old(self)@.pos,
                        expected: t[m],
                        got: rem[m],
                    })
                }
            }),
    {
        let ghost rem = self@.remaining();
        let ghost t = expected@;
        let n = expected.unicode_len();
        let mut i: usize = 0;
        proof {
            assert(rem.skip(0) =~= rem);
            assert(t.skip(0) =~= t);
        }
        while i < n
            invariant
                self@.wf(),
                self@.src == old(self)@.src,
                self@.start == old(self)@.start,
                self@.pos == old(self)@.pos,
                rem == old(self)@.remaining(),
                t == expected@,
                n == t.len(),
                0 <= i <= n,
                i <= rem.len(),
                self@.current == old(self)@.current + i,
                forall|j: int| 0 <= j < i ==> rem[j] == t[j],
                spec_match_len(rem, t) == i + spec_match_len(rem.skip(i as int),
                    t.skip(i as int)),
            decreases n - i,
        {
            let c = expected.get_char(i);
            let ghost rem_i = rem.skip(i as int);
            let ghost t_i = t.skip(i as int);
            proof {
                assert(t_i[0] == t[i as int]);
                assert(rem.len() > i ==> rem_i[0] == rem[i as int]);
                assert(rem_i.len() == rem.len() - i);
                if self@.current < self@.src.len() {
                    assert(rem[i as int] == self@.src[self@.current]);
                }
            }
            match self.expect(c) {
                Ok(_) => {
                    proof {
                        assert(rem_i.drop_first() =~= rem.skip(i + 1));
                        assert(t_i.drop_first() =~= t.skip(i + 1));
                    }
                    i = i + 1;
                },
                Err(e) => {
                    proof {
                        assert(spec_match_len(rem_i, t_i) == 0);
                    }
                    return Err(e);
                },
            }
        }
        proof {
            assert(t.skip(n as int).len() == 0);
            assert(spec_match_len(rem.skip(n as int), t.skip(n as int)) == 0);
        }
        Ok(expected)
    }

    /// The exact text between the start cursor and the current cursor.
    pub fn get_token_text(&self) -> (t: String)
        requires
            self@.wf(),
        ensures
            t@ == self@.src.subrange(self@.start, self@.current),
    {
        let mut v: Vec<char> = Vec::new();
        let mut i: usize = self.start;
        while i < self.current
            invariant
                self@.wf(),
                self@.start <= i <= self@.current,
                v@ == self@.src.subrange(self@.start, i as int),
            decreases self@.current - i,
        {
            v.push(self.source[i]);
            i = i + 1;
            proof {
                assert(self@.src.subrange(self@.start, i as int)
                    =~= self@.src.subrange(self@.start, i - 1).push(self@.src[i - 1]));
            }
        }
        crate::util::chars_to_string(v)
    }

    /// Moves the start cursor (and the token start position) to the current
    /// cursor.
    pub fn set_start_pos_to_current(&mut self)
        requires
            old(self)@.wf(),
        ensures
            final(self)@.wf(),
            final(self)@ == (LexerModel {
                start: old(self)@.current,
                pos: old(self)@.current_pos,
                ..old(self)@
            }),
    {
        self.start = self.current;
        self.pos = self.current_pos;
    }
}

impl Lexer {
    /// The current position of the cursor.
    pub fn current_pos(&self) -> (p: TokenPos)
        ensures
            p == self@.current_pos,
    {
        self.current_pos
    }

    /// The character after the next one, if there is one.
    pub fn peek_second(&self) -> (r: Option<char>)
        requires
            self@.wf(),
        ensures
            self@.current + 1 < self@.src.len() ==> r == Some(self@.src[self@.current + 1]),
            self@.current + 1 >= self@.src.len() ==> r is None,
    {
        if self.current < usize::MAX && self.current + 1 < self.source.len() {
            Some(self.source[self.current + 1])
        } else {
            None
        }
    }
}

/// The token-level scanner: wraps the character-level scanner and produces
/// one token per call.
pub struct LangLexer {
    lexer: Lexer,
}

impl View for LangLexer {
    type V = LexerModel;

    closed spec fn view(&self) -> LexerModel {
        self.lexer@
    }
}

impl LangLexer {
    pub fn new(source: &str) -> (l: LangLexer)
        requires
            source@.len() <= i32::MAX,
        ensures
            l@.wf(),
            l@.src == source@,
            l@.start == 0,
            l@.current == 0,
    {
        LangLexer { lexer: Lexer::new(source) }
    }

    /// A token of the given kind whose text is the current token slice and
    /// whose position is the token start position.
    fn make_token(&self, token_type: LangTokenType) -> (t: LangToken)
        requires
            self@.wf(),
        ensures
            t@ == (TokenModel {
                token_type,
                text: self@.src.subrange(self@.start, self@.current),
                pos: self@.pos,
            }),
    {
        LangToken::new(token_type, self.lexer.get_token_text(), self.lexer.pos())
    }

    /// Scans one token: skips whitespace and comments, then reads the token
    /// that `spec_scan` describes.  At the end of the input it returns an
    /// `Eof` token, never an error.
    #[verifier::rlimit(100)]
    #[verifier::loop_isolation(false)]
    pub fn scan_token(&mut self) -> (r: LexerResult<LangToken>)
        requires
            old(self)@.wf(),
        ensures
            final(self)@.wf(),
            final(self)@.src == old(self)@.src,
            match spec_scan(old(self)@.remaining(), old(self)@.current_pos) {
                ScanResult::Token { token_type, text, pos, consumed } => {
                    &&& r matches Ok(t) && t@ == (TokenModel { token_type, text, pos })
                    &&& final(self)@.current == old(self)@.current + consumed
                },
                ScanResult::Failure(e) => r matches Err(er) && er@ == e,
            },
    {
        let ghost s0 = old(self)@.remaining();
        let ghost p0 = old(self)@.current_pos;
        let ghost src = old(self)@.src;

        loop
            invariant
                self@.wf(),
                self@.src == src,
                s0 == src.skip(old(self)@.current),
                p0 == old(self)@.current_pos,
                old(self)@.current <= self@.current,
                spec_scan(s0, p0) == spec_scan(self@.remaining(), self@.current_pos).shifted(
                    self@.current - old(self)@.current),
            decreases self@.src.len() - self@.current,
        {
            let ghost cur_a = self@.current;
            let ghost rem_a = self@.remaining();
            let ghost pos_a = self@.current_pos;

            self.lexer.skip_whitespace();

            proof {
                let w = spec_ws_len(rem_a);
                lemma_ws_len_end(rem_a);
                lemma_scan_step(rem_a, pos_a, w);
                lemma_pos_advance(src, cur_a, w);
                assert(rem_a.skip(w) =~= src.skip(cur_a + w));
                assert(spec_ws_len(self@.remaining()) == 0);
            }

            self.lexer.set_start_pos_to_current();

            let ghost cur1 = self@.current;
            let ghost t = self@.remaining();
            let ghost q = self@.current_pos;

            let c = match self.lexer.consume() {
                Ok(c) => c,
                Err(_) => {
                    proof {
                        assert(t.len() == 0);
                        lemma_scan_is_dispatch(t, q);
                        assert(t.skip(0) =~= t);
                        assert(t.take(0) =~= Seq::<char>::empty());
                    }
                    return Ok(LangToken::new(LangTokenType::Eof, String::new(),
                        self.lexer.pos()));
                },
            };
            proof {
                assert(t[0] == c);
            }

            if c == '{' || c == '}' || c == '[' || c == ']' || c == '(' || c == ')' || c == ','
                || c == ':' || c == '.' || c == '+' || c == '*' {
                let token_type = if c == '{' { LangTokenType::ObjectBegin }
                    else if c == '}' { LangTokenType::ObjectEnd }
                    else if c == '[' { LangTokenType::ArrayBegin }
                    else if c == ']' { LangTokenType::ArrayEnd }
                    else if c == '(' { LangTokenType::GroupBegin }
                    else if c == ')' { LangTokenType::GroupEnd }
                    else if c == ',' { LangTokenType::Comma }
                    else if c == ':' { LangTokenType::Colon }
                    else if c == '.' { LangTokenType::Dot }
                    else if c == '+' { LangTokenType::Plus }
                    else { LangTokenType::Star };
                proof {
                    lemma_scan_is_dispatch(t, q);
                    assert(src.subrange(cur1, cur1 + 1) =~= seq![c]);
                }
                return Ok(self.make_token(token_type));
            } else if c == '/' {
                let next = match self.lexer.peek() {
                    Ok(nc) => Some(*nc),
                    Err(_) => None,
                };
                let is_comment = match next {
                    Some(nc) => nc == '/' || nc == '*',
                    None => false,
                };
                if !is_comment {
                    proof {
                        if let Some(nc) = next {
                            assert(t.len() >= 2 && t[1] == nc);
                        } else {
                            assert(t.len() == 1);
                        }
                        lemma_scan_is_dispatch(t, q);
                        assert(src.subrange(cur1, cur1 + 1) =~= seq![c]);
                    }
                    return Ok(self.make_token(LangTokenType::Slash));
                }
                let nc = if let Some(x) = next { x } else { '/' };
                proof {
                    assert(t[1] == nc);
                }
                let ghost rem2 = self@.remaining();
                match self.lexer.skip_comment() {
                    Ok(_) => {
                        proof {
                            assert(rem2 =~= t.skip(1));
                            if nc == '/' {
                                assert(rem2.skip(1) =~= t.skip(2));
                                let d = 2 + spec_line_len(t.skip(2));
                                lemma_scan_step(t, q, d);
                                lemma_pos_advance(src, cur1, d);
                                assert(t.skip(d) =~= src.skip(cur1 + d));
                            } else {
                                assert(rem2.skip(1) =~= t.skip(2));
                                if let Option::Some(b) = spec_block_len(t.skip(2), 1) {
                                    let d = 2 + b;
                                    lemma_scan_step(t, q, d);
                                    lemma_pos_advance(src, cur1, d);
                                    assert(t.skip(d) =~= src.skip(cur1 + d));
                                }
                            }
                            lemma_run_len_bounds(t.skip(2));
                            lemma_block_len_bounds(t.skip(2), 1);
                            assert(cur_a + 2 <= self@.current);
                        }
                    },
                    Err(e) => {
                        proof {
                            assert(rem2 =~= t.skip(1));
                            assert(rem2.skip(1) =~= t.skip(2));
                            lemma_scan_unterminated(t, q);
                        }
                        return Err(e);
                    },
                }
            } else if c == '-' || is_digit_char(c) {
                if c == '-' {
                    let next_digit = match self.lexer.peek() {
                        Ok(nc) => crate::util::is_digit(*nc),
                        Err(_) => false,
                    };
                    if !next_digit {
                        proof {
                            lemma_scan_is_dispatch(t, q);
                            assert(src.subrange(cur1, cur1 + 1) =~= seq![c]);
                            if t.len() >= 2 {
                                assert(t[1] == src[cur1 + 1]);
                            }
                        }
                        return Ok(self.make_token(LangTokenType::Minus));
                    }
                    proof {
                        assert(t[1] == src[cur1 + 1]);
                    }
                }
                proof {
                    lemma_scan_is_dispatch(t, q);
                }
                return self.scan_number();
            } else if c == '"' {
                proof {
                    lemma_scan_is_dispatch(t, q);
                }
                return self.scan_string();
            } else if crate::util::is_alpha(c) {
                proof {
                    lemma_scan_is_dispatch(t, q);
                }
                return self.scan_name();
            } else {
                proof {
                    lemma_scan_is_dispatch(t, q);
                }
                return Err(LexerError::UnexpectedCharacter(self.lexer.pos(), c));
            }
        }
    }
}

impl LangLexer {
    /// Consumes the leading digit run.
    fn consume_digits(&mut self)
        requires
            old(self)@.wf(),
        ensures
            final(self)@.wf(),
            final(self)@.src == old(self)@.src,
            final(self)@.start == old(self)@.start,
            final(self)@.pos == old(self)@.pos,
            final(self)@.current == old(self)@.current + spec_digits_len(
                old(self)@.remaining()),
    {
        let ghost r0 = self@.remaining();
        let ghost c0 = self@.current;
        loop
            invariant
                self@.wf(),
                self@.src == old(self)@.src,
                self@.start == old(self)@.start,
                self@.pos == old(self)@.pos,
                c0 <= self@.current <= self@.src.len(),
                r0 == old(self)@.remaining(),
                c0 == old(self)@.current,
                spec_digits_len(r0) == (self@.current - c0) + spec_digits_len(
                    self@.remaining()),
            ensures
                spec_digits_len(self@.remaining()) == 0,
            decreases self@.src.len() - self@.current,
        {
            let go = match self.lexer.peek() {
                Ok(c) => crate::util::is_digit(*c),
                Err(_) => false,
            };
            if !go {
                break;
            }
            let ghost rem = self@.remaining();
            let _ = self.lexer.consume();
            proof {
                assert(rem[0] == self@.src[self@.current - 1]);
                assert(rem.drop_first() =~= self@.remaining());
            }
        }
    }

    /// Consumes the leading run of name characters.
    fn consume_alnum(&mut self)
        requires
            old(self)@.wf(),
        ensures
            final(self)@.wf(),
            final(self)@.src == old(self)@.src,
            final(self)@.start == old(self)@.start,
            final(self)@.pos == old(self)@.pos,
            final(self)@.current == old(self)@.current + spec_alnum_len(old(self)@.remaining()),
    {
        let ghost r0 = self@.remaining();
        let ghost c0 = self@.current;
        loop
            invariant
                self@.wf(),
                self@.src == old(self)@.src,
                self@.start == old(self)@.start,
                self@.pos == old(self)@.pos,
                c0 <= self@.current <= self@.src.len(),
                r0 == old(self)@.remaining(),
                c0 == old(self)@.current,
                spec_alnum_len(r0) == (self@.current - c0) + spec_alnum_len(self@.remaining()),
            ensures
                spec_alnum_len(self@.remaining()) == 0,
            decreases self@.src.len() - self@.current,
        {
            let go = match self.lexer.peek() {
                Ok(c) => crate::util::is_alpha_numeric(*c),
                Err(_) => false,
            };
            if !go {
                break;
            }
            let ghost rem = self@.remaining();
            let _ = self.lexer.consume();
            proof {
                assert(rem[0] == self@.src[self@.current - 1]);
                assert(rem.drop_first() =~= self@.remaining());
            }
        }
    }

    /// Scans the tail of a number literal whose first character (the sign or
    /// the first digit) has just been consumed and sits at the token start.
    fn scan_number(&mut self) -> (r: LexerResult<LangToken>)
        requires
            old(self)@.wf(),
            old(self)@.start + 1 == old(self)@.current,
            ({
                let t = old(self)@.src.skip(old(self)@.start);
                t[0] == '-' || crate::util::spec_is_digit(t[0])
            }),
        ensures
            final(self)@.wf(),
            final(self)@.src == old(self)@.src,
            ({
                let t = old(self)@.src.skip(old(self)@.start);
                match spec_number_len(t) {
                    Result::Ok(n) => {
                        &&& r matches Ok(tok) && tok@ == (TokenModel {
                            token_type: LangTokenType::LiteralNumber,
                            text: t.take(n),
                            pos: old(self)@.pos,
                        })
                        &&& final(self)@.current == old(self)@.start + n
                    },
                    Result::Err(j) => if j >= t.len() {
                        r matches Err(e) && e@ == LexerErrorModel::UnexpectedEof
                    } else {
                        r matches Err(e) && e@ == LexerErrorModel::UnexpectedCharacter(
                            spec_advance_pos_seq(old(self)@.pos, t.take(j)),
                            t[j],
                        )
                    },
                }
            }),
    {
        let ghost src = old(self)@.src;
        let ghost st = old(self)@.start;
        let ghost t = src.skip(st);

        proof {
            assert(self@.remaining() =~= t.skip(1));
        }
        self.consume_digits();
        let ghost d = 1 + spec_digits_len(t.skip(1));
        proof {
            assert(self@.current == st + d);
            lemma_class_run_bounds(t.skip(1));
            assert(self@.remaining() =~= t.skip(d));
            if st + d < src.len() {
                assert(t[d] == src[st + d]);
            }
            if st + d + 1 < src.len() {
                assert(t[d + 1] == src[st + d + 1]);
            }
        }

        let has_frac = match self.lexer.peek() {
            Ok(c) => *c == '.',
            Err(_) => false,
        };
        let frac_digit = if has_frac {
            match self.lexer.peek_second() {
                Some(c2) => crate::util::is_digit(c2),
                None => false,
            }
        } else {
            false
        };

        if has_frac && frac_digit {
            let _ = self.lexer.consume();
            proof {
                assert(self@.remaining() =~= t.skip(d + 1));
            }
            self.consume_digits();
        }
        let ghost f = if d < t.len() && t[d] == '.' && d + 1 < t.len()
            && crate::util::spec_is_digit(t[d + 1]) {
            d + 1 + spec_digits_len(t.skip(d + 1))
        } else {
            d
        };
        proof {
            assert(self@.current == st + f);
            lemma_class_run_bounds(t.skip(d + 1));
            assert(self@.remaining() =~= t.skip(f));
            if st + f < src.len() {
                assert(t[f] == src[st + f]);
            }
        }

        let has_exp = match self.lexer.peek() {
            Ok(c) => *c == 'e' || *c == 'E',
            Err(_) => false,
        };
        if !has_exp {
            proof {
                assert(src.subrange(st, st + f) =~= t.take(f));
            }
            return Ok(self.make_token(LangTokenType::LiteralNumber));
        }
        let _ = self.lexer.consume();
        proof {
            if st + f + 1 < src.len() {
                assert(t[f + 1] == src[st + f + 1]);
            }
        }
        let has_sign = match self.lexer.peek() {
            Ok(c) => *c == '+' || *c == '-',
            Err(_) => false,
        };
        if has_sign {
            let _ = self.lexer.consume();
        }
        let ghost g = if f + 1 < t.len() && (t[f + 1] == '+' || t[f + 1] == '-') {
            f + 2
        } else {
            f + 1
        };
        proof {
            assert(self@.current == st + g);
            assert(self@.remaining() =~= t.skip(g));
            if st + g < src.len() {
                assert(t[g] == src[st + g]);
            }
        }

        match self.lexer.peek() {
            Ok(c) => {
                let cc = *c;
                if !crate::util::is_digit(cc) {
                    proof {
                        lemma_pos_advance(src, st, g);
                        assert(t.take(g) =~= src.skip(st).take(g));
                    }
                    return Err(LexerError::UnexpectedCharacter(self.lexer.current_pos(), cc));
                }
            },
            Err(_) => {
                return Err(LexerError::UnexpectedEof);
            },
        }
        self.consume_digits();
        let ghost n = g + spec_digits_len(t.skip(g));
        proof {
            assert(self@.current == st + n);
            lemma_class_run_bounds(t.skip(g));
            assert(src.subrange(st, st + n) =~= t.take(n));
        }
        Ok(self.make_token(LangTokenType::LiteralNumber))
    }

    /// Scans the tail of a string literal whose opening quote has just been
    /// consumed and sits at the token start.
    #[verifier::loop_isolation(false)]
    fn scan_string(&mut self) -> (r: LexerResult<LangToken>)
        requires
            old(self)@.wf(),
            old(self)@.start + 1 == old(self)@.current,
            old(self)@.src.skip(old(self)@.start)[0] == '"',
        ensures
            final(self)@.wf(),
            final(self)@.src == old(self)@.src,
            ({
                let t = old(self)@.src.skip(old(self)@.start);
                match spec_string_body_len(t.skip(1)) {
                    Option::Some(b) => {
                        &&& r matches Ok(tok) && tok@ == (TokenModel {
                            token_type: LangTokenType::LiteralString,
                            text: t.skip(1).take(b),
                            pos: spec_advance_pos(old(self)@.pos, '"'),
                        })
                        &&& final(self)@.current == old(self)@.start + 2 + b
                    },
                    Option::None => r matches Err(e) && e@ == LexerErrorModel::UnexpectedEof,
                }
            }),
    {
        let ghost src = old(self)@.src;
        let ghost st = old(self)@.start;
        let ghost t = src.skip(st);

        proof {
            lemma_advance_pos_seq_step(TokenPos { line: 0, column: 0 }, src, st);
            assert(src[st] == t[0]);
        }
        self.lexer.set_start_pos_to_current();
        proof {
            assert(t.skip(1) =~= self@.remaining());
        }

        loop
            invariant
                self@.wf(),
                self@.src == src,
                self@.start == st + 1,
                st + 1 <= self@.current,
                t == src.skip(st),
                st + 1 <= src.len(),
                self@.pos == spec_advance_pos(old(self)@.pos, '"'),
                spec_string_body_len(t.skip(1)) == (match spec_string_body_len(
                    self@.remaining()) {
                    Option::Some(b) => Option::Some((self@.current - st - 1) + b),
                    Option::None => Option::<int>::None,
                }),
            decreases self@.src.len() - self@.current,
        {
            let ghost rem = self@.remaining();
            let c = match self.lexer.peek() {
                Ok(c) => *c,
                Err(_) => {
                    proof {
                        assert(rem.len() == 0);
                    }
                    return Err(LexerError::UnexpectedEof);
                },
            };
            proof {
                assert(rem[0] == c);
            }

            if c == '"' {
                let ghost j = self@.current - st - 1;
                let text = self.lexer.get_token_text();
                let _ = self.lexer.consume();
                proof {
                    assert(src.subrange(st + 1, st + 1 + j) =~= t.skip(1).take(j));
                }
                return Ok(LangToken::new(LangTokenType::LiteralString, text,
                    self.lexer.pos()));
            } else if c == '\\' {
                let _ = self.lexer.consume();
                match self.lexer.consume() {
                    Ok(_) => {
                        proof {
                            assert(rem[1] == src[self@.current - 1]);
                            assert(rem.skip(2) =~= self@.remaining());
                        }
                    },
                    Err(_) => {
                        proof {
                            assert(rem.len() == 1);
                        }
                        return Err(LexerError::UnexpectedEof);
                    },
                }
            } else {
                let _ = self.lexer.consume();
                proof {
                    assert(rem.drop_first() =~= self@.remaining());
                }
            }
        }
    }

    /// Scans the tail of a name whose first character has just been consumed
    /// and sits at the token start, folding the three reserved words.
    fn scan_name(&mut self) -> (r: LexerResult<LangToken>)
        requires
            old(self)@.wf(),
            old(self)@.start + 1 == old(self)@.current,
            crate::util::spec_is_alpha(old(self)@.src.skip(old(self)@.start)[0]),
        ensures
            final(self)@.wf(),
            final(self)@.src == old(self)@.src,
            ({
                let t = old(self)@.src.skip(old(self)@.start);
                let n = spec_alnum_len(t);
                let text = t.take(n);
                let token_type = if text == "true"@ {
                    LangTokenType::LiteralTrue
                } else if text == "false"@ {
                    LangTokenType::LiteralFalse
                } else if text == "null"@ {
                    LangTokenType::LiteralNull
                } else {
                    LangTokenType::Name
                };
                &&& r matches Ok(tok) && tok@ == (TokenModel {
                    token_type,
                    text,
                    pos: old(self)@.pos,
                })
                &&& final(self)@.current == old(self)@.start + n
            }),
    {
        let ghost src = old(self)@.src;
        let ghost st = old(self)@.start;
        let ghost t = src.skip(st);

        proof {
            assert(self@.remaining() =~= t.skip(1));
            assert(t[0] == src[st]);
        }
        self.consume_alnum();
        let ghost n = 1 + spec_alnum_len(t.skip(1));
        proof {
            assert(spec_alnum_len(t) == n);
            lemma_class_run_bounds(t.skip(1));
            assert(src.subrange(st, st + n) =~= t.take(n));
        }
        let text = self.lexer.get_token_text();
        let token_type = if crate::util::str_eq(text.as_str(), "true") {
            LangTokenType::LiteralTrue
        } else if crate::util::str_eq(text.as_str(), "false") {
            LangTokenType::LiteralFalse
        } else if crate::util::str_eq(text.as_str(), "null") {
            LangTokenType::LiteralNull
        } else {
            LangTokenType::Name
        };
        Ok(LangToken::new(token_type, text, self.lexer.pos()))
    }
}

/// `crate::util::is_digit` under a local name, so the scanner's dispatch
/// reads like the specification.
fn is_digit_char(c: char) -> (r: bool)
    ensures
        r == crate::util::spec_is_digit(c),
{
    crate::util::is_digit(c)
}

/// Splitting a consumed prefix: advancing over `cur + d` characters is
/// advancing over the first `cur` and then over the next `d`.
pub proof fn lemma_pos_advance(src: Seq<char>, cur: int, d: int)
    requires
        0 <= cur,
        0 <= d,
        cur + d <= src.len(),
    ensures
        spec_advance_pos_seq(TokenPos { line: 0, column: 0 }, src.take(cur + d))
            == spec_advance_pos_seq(
            spec_advance_pos_seq(TokenPos { line: 0, column: 0 }, src.take(cur)),
            src.skip(cur).take(d),
        ),
{
    assert(src.take(cur + d) =~= src.take(cur) + src.skip(cur).take(d));
    lemma_advance_pos_seq_concat(TokenPos { line: 0, column: 0 }, src.take(cur),
        src.skip(cur).take(d));
}

} // verus!
