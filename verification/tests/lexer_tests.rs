use worldgen_lang::parser::lexer::{LangLexer, LangToken, LangTokenType, Lexer, LexerError, TokenPos};

fn scan_all(source: &str) -> Vec<LangToken> {
    let mut lexer = LangLexer::new(source);
    let mut tokens = Vec::new();
    loop {
        let token = lexer.scan_token().expect("scan failed");
        let done = token.token_type() == LangTokenType::Eof;
        tokens.push(token);
        if done {
            return tokens;
        }
    }
}

fn kinds(tokens: &[LangToken]) -> Vec<LangTokenType> {
    tokens.iter().map(|t| t.token_type()).collect()
}

#[test]
fn single_character_tokens() {
    let tokens = scan_all("{ } [ ] ( ) , : . + * /");
    assert_eq!(
        kinds(&tokens),
        vec![
            LangTokenType::ObjectBegin,
            LangTokenType::ObjectEnd,
            LangTokenType::ArrayBegin,
            LangTokenType::ArrayEnd,
            LangTokenType::GroupBegin,
            LangTokenType::GroupEnd,
            LangTokenType::Comma,
            LangTokenType::Colon,
            LangTokenType::Dot,
            LangTokenType::Plus,
            LangTokenType::Star,
            LangTokenType::Slash,
            LangTokenType::Eof,
        ]
    );
}

#[test]
fn negative_number_is_one_token() {
    let tokens = scan_all("-5");
    assert_eq!(tokens.len(), 2);
    assert_eq!(tokens[0].token_type(), LangTokenType::LiteralNumber);
    assert_eq!(tokens[0].text(), "-5");
}

#[test]
fn minus_without_digit_is_minus() {
    let tokens = scan_all("- 5");
    assert_eq!(tokens[0].token_type(), LangTokenType::Minus);
    assert_eq!(tokens[1].token_type(), LangTokenType::LiteralNumber);
    assert_eq!(tokens[1].text(), "5");
}

#[test]
fn dot_without_digit_is_not_consumed() {
    let tokens = scan_all("5.");
    assert_eq!(tokens[0].token_type(), LangTokenType::LiteralNumber);
    assert_eq!(tokens[0].text(), "5");
    assert_eq!(tokens[1].token_type(), LangTokenType::Dot);
}

#[test]
fn method_call_after_number() {
    let tokens = scan_all("5.toString");
    assert_eq!(tokens[0].token_type(), LangTokenType::LiteralNumber);
    assert_eq!(tokens[0].text(), "5");
    assert_eq!(tokens[1].token_type(), LangTokenType::Dot);
    assert_eq!(tokens[2].token_type(), LangTokenType::Name);
    assert_eq!(tokens[2].text(), "toString");
}

#[test]
fn fraction_and_exponent() {
    let tokens = scan_all("384.1 5e3 2.5E-4");
    assert_eq!(tokens[0].text(), "384.1");
    assert_eq!(tokens[1].text(), "5e3");
    assert_eq!(tokens[2].text(), "2.5E-4");
    assert_eq!(tokens[3].token_type(), LangTokenType::Eof);
}

#[test]
fn malformed_exponent_is_an_error() {
    let mut lexer = LangLexer::new("5e+x");
    let err = lexer.scan_token().unwrap_err();
    assert!(matches!(err, LexerError::UnexpectedCharacter(_, 'x')));
}

#[test]
fn exponent_at_end_of_input_is_an_error() {
    let mut lexer = LangLexer::new("5e");
    let err = lexer.scan_token().unwrap_err();
    assert!(matches!(err, LexerError::UnexpectedEof));
}

#[test]
fn keywords_fold() {
    let tokens = scan_all("true false null truthy");
    assert_eq!(tokens[0].token_type(), LangTokenType::LiteralTrue);
    assert_eq!(tokens[1].token_type(), LangTokenType::LiteralFalse);
    assert_eq!(tokens[2].token_type(), LangTokenType::LiteralNull);
    assert_eq!(tokens[3].token_type(), LangTokenType::Name);
    assert_eq!(tokens[3].text(), "truthy");
}

#[test]
fn string_token_excludes_quotes() {
    let tokens = scan_all(" \"hello world\" ");
    assert_eq!(tokens[0].token_type(), LangTokenType::LiteralString);
    assert_eq!(tokens[0].text(), "hello world");
}

#[test]
fn string_with_escaped_quote_scans_whole_literal() {
    let tokens = scan_all("\"a\\\"b\"");
    assert_eq!(tokens[0].token_type(), LangTokenType::LiteralString);
    assert_eq!(tokens[0].text(), "a\\\"b");
    assert_eq!(tokens[1].token_type(), LangTokenType::Eof);
}

#[test]
fn unterminated_string_is_an_error() {
    let mut lexer = LangLexer::new("\"open");
    let err = lexer.scan_token().unwrap_err();
    assert!(matches!(err, LexerError::UnexpectedEof));
}

#[test]
fn line_comments_are_skipped() {
    let tokens = scan_all("1 // the rest of the line\n2");
    assert_eq!(tokens[0].text(), "1");
    assert_eq!(tokens[1].text(), "2");
    assert_eq!(tokens[2].token_type(), LangTokenType::Eof);
}

#[test]
fn block_comments_nest() {
    let tokens = scan_all("1 /* a /* nested */ comment */ 2");
    assert_eq!(tokens[0].text(), "1");
    assert_eq!(tokens[1].text(), "2");
}

#[test]
fn unterminated_block_comment_is_an_error() {
    let mut lexer = LangLexer::new("/* never closed");
    let err = lexer.scan_token().unwrap_err();
    assert!(matches!(err, LexerError::UnexpectedEof));
}

#[test]
fn slash_alone_is_a_token() {
    let tokens = scan_all("1 / 2");
    assert_eq!(tokens[1].token_type(), LangTokenType::Slash);
}

#[test]
fn positions_track_lines_and_columns() {
    let tokens = scan_all("1\n  2");
    assert_eq!(*tokens[0].pos(), TokenPos { line: 0, column: 0 });
    assert_eq!(*tokens[1].pos(), TokenPos { line: 1, column: 2 });
}

#[test]
fn unexpected_character_is_reported() {
    let mut lexer = LangLexer::new("@");
    let err = lexer.scan_token().unwrap_err();
    assert!(matches!(err, LexerError::UnexpectedCharacter(_, '@')));
}

#[test]
fn eof_token_repeats() {
    let mut lexer = LangLexer::new("");
    assert_eq!(lexer.scan_token().unwrap().token_type(), LangTokenType::Eof);
    assert_eq!(lexer.scan_token().unwrap().token_type(), LangTokenType::Eof);
}

#[test]
fn character_level_lexer_operations() {
    let mut lexer = Lexer::new("abc def");
    assert_eq!(*lexer.peek().unwrap(), 'a');
    assert_eq!(lexer.consume().unwrap(), 'a');
    assert_eq!(lexer.expect('b').unwrap(), 'b');
    assert!(lexer.expect('x').is_err());
    assert_eq!(lexer.expect_str("c").unwrap(), "c");
    lexer.skip_whitespace();
    assert_eq!(*lexer.peek().unwrap(), 'd');
    lexer.set_start_pos_to_current();
    lexer.skip(3).unwrap();
    assert_eq!(lexer.get_token_text(), "def");
    assert!(lexer.consume().is_err());
}

#[test]
fn expect_str_stops_at_the_first_mismatch() {
    let mut lexer = Lexer::new("abx");
    assert!(lexer.expect_str("abc").is_err());
    assert_eq!(*lexer.peek().unwrap(), 'x');
}

#[test]
fn skip_line_stops_at_the_newline() {
    let mut lexer = Lexer::new("one\ntwo");
    lexer.skip_line();
    assert_eq!(lexer.consume().unwrap(), '\n');
    assert_eq!(*lexer.peek().unwrap(), 't');
}
