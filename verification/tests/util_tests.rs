use worldgen_lang::util::{
    distinct, escape_character, escape_str, is_alpha, is_alpha_numeric, is_digit,
    unescape_str, EscapeError,
};

#[test]
fn character_classes() {
    assert!(is_digit('0') && is_digit('9'));
    assert!(!is_digit('a'));
    assert!(is_alpha('a') && is_alpha('Z') && is_alpha('$') && is_alpha('_'));
    assert!(!is_alpha('1'));
    assert!(is_alpha_numeric('a') && is_alpha_numeric('7'));
    assert!(!is_alpha_numeric(' '));
}

#[test]
fn unescape_handles_simple_escapes() {
    assert_eq!(unescape_str("").unwrap(), "");
    assert_eq!(unescape_str("plain").unwrap(), "plain");
    assert_eq!(
        unescape_str("a\\\"b\\\\c\\/d\\ne\\rf\\tg").unwrap(),
        "a\"b\\c/d\ne\rf\tg"
    );
}

#[test]
fn unescape_handles_unicode_escapes() {
    assert_eq!(unescape_str("\\u0041").unwrap(), "A");
    assert_eq!(unescape_str("\\u00e9").unwrap(), "\u{e9}");
    assert_eq!(unescape_str("x\\u4E16y").unwrap(), "x\u{4e16}y");
}

#[test]
fn unescape_reports_bad_escapes() {
    assert!(matches!(
        unescape_str("tail\\").unwrap_err(),
        EscapeError::UnexpectedEof
    ));
    assert!(matches!(
        unescape_str("\\q").unwrap_err(),
        EscapeError::UnexpectedCharacter(0, 'q')
    ));
    assert!(matches!(
        unescape_str("\\u00").unwrap_err(),
        EscapeError::UnexpectedEof
    ));
    assert!(matches!(
        unescape_str("\\u00zz").unwrap_err(),
        EscapeError::UnexpectedCharacter(3, 'z')
    ));
    assert!(matches!(
        unescape_str("\\ud800").unwrap_err(),
        EscapeError::InvalidCharacter(0xD800)
    ));
}

#[test]
fn escape_character_covers_the_classes() {
    assert_eq!(escape_character('"'), "\\\"");
    assert_eq!(escape_character('\\'), "\\\\");
    assert_eq!(escape_character('\n'), "\\n");
    assert_eq!(escape_character('\r'), "\\r");
    assert_eq!(escape_character('\t'), "\\t");
    assert_eq!(escape_character('a'), "a");
    assert_eq!(escape_character('~'), "~");
    assert_eq!(escape_character('\u{1}'), "\\u0001");
    assert_eq!(escape_character('\u{e9}'), "\\u00e9");
    assert_eq!(escape_character('\u{4e16}'), "\\u4e16");
    assert_eq!(escape_character('\u{10000}'), "\u{10000}");
    assert_eq!(escape_character('\u{1d11e}'), "\u{1d11e}");
}

#[test]
fn escape_then_unescape_is_identity() {
    let samples = [
        "",
        "hello",
        "with \"quotes\" and \\slashes\\",
        "\t\n\r",
        "\u{1} \u{7f} \u{80} \u{e9} \u{ffff}",
        "beyond the plane: \u{10000} \u{1d11e} \u{10ffff}",
    ];
    for sample in samples {
        let escaped = escape_str(sample);
        assert_eq!(unescape_str(&escaped).unwrap(), sample);
    }
}

#[test]
fn distinct_keeps_first_occurrences() {
    let mut values = vec![3, 1, 3, 2, 1, 3];
    distinct(&mut values);
    assert_eq!(values, vec![3, 1, 2]);

    let mut strings = vec![
        String::from("a"),
        String::from("b"),
        String::from("a"),
    ];
    distinct(&mut strings);
    assert_eq!(strings, vec![String::from("a"), String::from("b")]);

    let mut empty: Vec<i32> = vec![];
    distinct(&mut empty);
    assert!(empty.is_empty());
}
