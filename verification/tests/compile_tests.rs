use easy_sgr::parse_string;
use easy_sgr::compile_literal;
use easy_sgr::unwrap_string;
use easy_sgr::parse_raw_string;
use easy_sgr::CompileError;
use easy_sgr::UnwrappedLiteral;
use easy_sgr::literal::correct_string;
use easy_sgr::tables::parse_add_style;
use easy_sgr::tables::parse_sub_style;
use easy_sgr::tables::parse_color_simple;

#[test]
fn add_styles_compile_to_table_codes() {
    let cases = [
        ("Reset", "0"),
        ("Bold", "1"),
        ("Dim", "2"),
        ("Italic", "3"),
        ("Underline", "4"),
        ("Blinking", "5"),
        ("Inverse", "7"),
        ("Hidden", "8"),
        ("Strikethrough", "9"),
    ];
    for (kw, code) in cases {
        let template = format!("{{+{}}}", kw);
        let expected = format!("\x1b[{}m", code);
        assert_eq!(parse_string(&template).unwrap(), expected);
    }
}

#[test]
fn sub_styles_compile_to_table_codes() {
    let cases = [
        ("Bold", "22"),
        ("Dim", "22"),
        ("Italic", "23"),
        ("Underline", "24"),
        ("Blinking", "25"),
        ("Inverse", "27"),
        ("Hidden", "28"),
        ("Strikethrough", "29"),
    ];
    for (kw, code) in cases {
        let template = format!("{{-{}}}", kw);
        let expected = format!("\x1b[{}m", code);
        assert_eq!(parse_string(&template).unwrap(), expected);
    }
}

#[test]
fn named_colors_round_trip() {
    let cases = [
        ("BlackFg", "30"),
        ("RedFg", "31"),
        ("GreenFg", "32"),
        ("YellowFg", "33"),
        ("BlueFg", "34"),
        ("MagentaFg", "35"),
        ("CyanFg", "36"),
        ("WhiteFg", "37"),
        ("DefaultFg", "39"),
        ("BlackBg", "40"),
        ("RedBg", "41"),
        ("GreenBg", "42"),
        ("YellowBg", "43"),
        ("BlueBg", "44"),
        ("MagentaBg", "45"),
        ("CyanBg", "46"),
        ("WhiteBg", "47"),
        ("DefaultBg", "49"),
    ];
    for (kw, code) in cases {
        let template = format!("{{#{}}}", kw);
        let expected = format!("\x1b[{}m", code);
        assert_eq!(parse_string(&template).unwrap(), expected);
    }
}

#[test]
fn doubled_braces_collapse() {
    assert_eq!(parse_string("{{").unwrap(), "{");
    assert_eq!(parse_string("}}").unwrap(), "}");
    assert_eq!(parse_string("a{{b}}c").unwrap(), "a{b}c");
}

#[test]
fn plain_text_is_unchanged() {
    assert_eq!(parse_string("").unwrap(), "");
    assert_eq!(parse_string("hello world!").unwrap(), "hello world!");
    assert_eq!(parse_string("héllo 😀 wörld").unwrap(), "héllo 😀 wörld");
}

#[test]
fn hex_and_decimal_truecolor_agree() {
    let hex = parse_string("{#f[aabbcc]}").unwrap();
    let dec = parse_string("{#f(170,187,204)}").unwrap();
    assert_eq!(hex, dec);
    assert_eq!(hex, "\x1b[38;2;170;187;204m");
}

#[test]
fn hex_and_decimal_indexed_agree() {
    let hex = parse_string("{#b[1f]}").unwrap();
    let dec = parse_string("{#b(31)}").unwrap();
    assert_eq!(hex, dec);
    assert_eq!(hex, "\x1b[48;5;31m");
}

#[test]
fn chained_directives_share_one_sequence() {
    assert_eq!(parse_string("{+Bold-Dim#RedFg}").unwrap(), "\x1b[1;22;31m");
}

#[test]
fn passthrough_splits_the_sequence() {
    assert_eq!(
        parse_string("{+Bold&name-Dim}").unwrap(),
        "\x1b[1m{name}\x1b[22m"
    );
}

#[test]
fn unterminated_group_fails() {
    assert_eq!(
        parse_string("{+Bold").unwrap_err(),
        CompileError::MissingCloseBracket
    );
}

#[test]
fn unknown_keyword_fails() {
    assert_eq!(
        parse_string("{+Sparkle}").unwrap_err(),
        CompileError::InvalidKeyword
    );
    assert_eq!(
        parse_string("{-Sparkle}").unwrap_err(),
        CompileError::InvalidKeyword
    );
}

#[test]
fn bad_colors_fail() {
    assert_eq!(
        parse_string("{#Sparkle}").unwrap_err(),
        CompileError::InvalidColor
    );
    assert_eq!(
        parse_string("{#f(300)}").unwrap_err(),
        CompileError::InvalidColor
    );
    assert_eq!(
        parse_string("{#f[zz]}").unwrap_err(),
        CompileError::InvalidColor
    );
    assert_eq!(
        parse_string("{#f(1,2)}").unwrap_err(),
        CompileError::InvalidColor
    );
    assert_eq!(
        parse_string("{#f(1,2,3,4)}").unwrap_err(),
        CompileError::InvalidColor
    );
    assert_eq!(
        parse_string("{#f[abcd]}").unwrap_err(),
        CompileError::InvalidColor
    );
}

#[test]
fn escapes_decode() {
    assert_eq!(parse_string("\\x41").unwrap(), "A");
    assert_eq!(parse_string("\\u{1F600}").unwrap(), "\u{1F600}");
    // up to six digits are accepted
    assert_eq!(parse_string("\\u{01F600}").unwrap(), "\u{1F600}");
    assert_eq!(parse_string("\\n\\r\\t\\\\\\'\\\"").unwrap(), "\n\r\t\\'\"");
    assert_eq!(parse_string("\\0").unwrap(), "\0");
}

#[test]
fn line_continuation_absorbs_whitespace() {
    assert_eq!(parse_string("a\\\n   \t X").unwrap(), "aX");
    // a continuation running to the end of input is silently absorbed
    assert_eq!(parse_string("a\\\n   ").unwrap(), "a");
}

#[test]
fn invalid_escapes_fail() {
    assert_eq!(parse_string("\\q").unwrap_err(), CompileError::InvalidEscape);
    assert_eq!(parse_string("\\x4z").unwrap_err(), CompileError::InvalidEscape);
    assert_eq!(parse_string("\\u{}").unwrap_err(), CompileError::InvalidEscape);
    assert_eq!(
        parse_string("\\u{D800}").unwrap_err(),
        CompileError::InvalidEscape
    );
    assert_eq!(
        parse_string("\\u{110000}").unwrap_err(),
        CompileError::InvalidEscape
    );
    assert_eq!(parse_string("\\").unwrap_err(), CompileError::InvalidEscape);
    // more than six digits is outside the escape grammar
    assert_eq!(
        parse_string("\\u{0001F600}").unwrap_err(),
        CompileError::InvalidEscape
    );
}

#[test]
fn plain_placeholders_pass_through() {
    assert_eq!(parse_string("{}").unwrap(), "{}");
    assert_eq!(parse_string("{name}").unwrap(), "{name}");
    assert_eq!(parse_string("{").unwrap(), "{");
    assert_eq!(parse_string("{name").unwrap(), "{name");
    assert_eq!(parse_string("}").unwrap(), "}");
}

#[test]
fn leading_name_is_re_emitted_after_the_codes() {
    assert_eq!(parse_string("{name+Bold}").unwrap(), "\x1b[1m{name}");
}

#[test]
fn compile_literal_handles_quoting() {
    assert_eq!(compile_literal("\"{+Bold}\"").unwrap(), "\x1b[1m");
    assert_eq!(
        compile_literal("abc").unwrap_err(),
        CompileError::NotAStringLiteral
    );
    // raw literals skip escape resolution but still compile directives
    assert_eq!(compile_literal("r#\"{+Bold}\\n\"#").unwrap(), "\x1b[1m\\n");
    // escapes resolve only in ordinary literals
    assert_eq!(compile_literal("\"\\x41\"").unwrap(), "A");
}

#[test]
fn unwrap_string_recognises_literals() {
    match unwrap_string("\"abc\"") {
        Some(UnwrappedLiteral::String(t)) => assert_eq!(t, "abc"),
        other => panic!("unexpected: {:?}", other),
    }
    match unwrap_string("r\"abc\"") {
        Some(UnwrappedLiteral::RawString(t, n)) => {
            assert_eq!(t, "abc");
            assert_eq!(n, 0);
        }
        other => panic!("unexpected: {:?}", other),
    }
    match unwrap_string("r##\"abc\"##") {
        Some(UnwrappedLiteral::RawString(t, n)) => {
            assert_eq!(t, "abc");
            assert_eq!(n, 2);
        }
        other => panic!("unexpected: {:?}", other),
    }
    assert!(unwrap_string("abc").is_none());
    assert!(unwrap_string("r####").is_none());
    assert!(unwrap_string("\"abc").is_none());
}

#[test]
fn parse_raw_string_rebuilds_quoting() {
    assert_eq!(parse_raw_string("abc", 0), "r\"abc\"");
    assert_eq!(parse_raw_string("abc", 2), "r##\"abc\"##");
}

#[test]
fn correct_string_strips_plain_quotes() {
    assert_eq!(correct_string("\"abc\""), Some("abc"));
    assert_eq!(correct_string("abc"), None);
    assert_eq!(correct_string("\""), None);
}

#[test]
fn table_lookups_match_the_tables() {
    let bold: Vec<char> = "Bold".chars().collect();
    assert_eq!(parse_add_style(&bold, 0, 4), Some(1));
    assert_eq!(parse_sub_style(&bold, 0, 4), Some(22));
    assert_eq!(parse_color_simple(&bold, 0, 4), None);
    let red: Vec<char> = "RedFg".chars().collect();
    assert_eq!(parse_color_simple(&red, 0, 5), Some(31));
    assert_eq!(parse_add_style(&red, 0, 5), None);
}

#[test]
fn error_messages_name_the_defect() {
    assert_eq!(CompileError::NotAStringLiteral.message(), "not a string literal");
    assert_eq!(CompileError::InvalidEscape.message(), "invalid escape");
    assert_eq!(CompileError::InvalidKeyword.message(), "invalid keyword");
    assert_eq!(CompileError::InvalidColor.message(), "invalid color");
    assert_eq!(
        CompileError::MissingCloseBracket.message(),
        "missing close bracket"
    );
}
