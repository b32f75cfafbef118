use stc::lexer::Lexer;
use stc::token::{Marker, NumberValue, TimeValue, Token};

fn tokens(src: &str) -> Vec<Token> {
    let mut l = Lexer::create("t.st", src);
    let mut out = Vec::new();
    while let Some(t) = l.next() {
        out.push(t.token);
    }
    out
}

#[test]
fn whitespace_only_input_yields_nothing() {
    let src = "\n\n  \t\r\x0c";
    let mut l = Lexer::create("t.st", src);
    assert!(l.next().is_none());
    let mut expected = Marker::create("t.st", src);
    expected.set(7, 2, 5);
    assert_eq!(l.marker(), expected);
    assert!(l.next().is_none());
}

#[test]
fn empty_input_yields_nothing() {
    assert!(tokens("").is_empty());
}

#[test]
fn keyword_spelling_lexes_to_one_token() {
    let cases = [
        ("NOT", Token::Not),
        ("ELSIF", Token::Elsif),
        ("ELSE", Token::Else),
        ("END_IF", Token::EndIf),
        ("FUNCTION", Token::Function),
        ("FUNCTION_BLOCK", Token::FunctionBlock),
        ("END_FUNCTION", Token::EndFunction),
        ("END_FUNCTION_BLOCK", Token::EndFunctionBlock),
        ("VAR", Token::Var),
        ("VAR_INPUT", Token::VarInput),
        ("VAR_OUTPUT", Token::VarOutput),
        ("END_UNION", Token::EndUnion),
    ];
    for (src, kind) in cases {
        assert_eq!(tokens(src), vec![kind]);
    }
}

#[test]
fn keywords_match_by_prefix() {
    assert_eq!(tokens("IFX"), vec![Token::If, Token::Identifier("X".to_string())]);
}

#[test]
fn two_character_operators_win() {
    assert_eq!(tokens(":="), vec![Token::Assign]);
    assert_eq!(tokens("<>"), vec![Token::NotEquals]);
    assert_eq!(tokens(">="), vec![Token::GreaterThanOrEquals]);
    assert_eq!(tokens("<="), vec![Token::LessThanOrEquals]);
    assert_eq!(tokens(": ="), vec![Token::Colon, Token::Equals]);
}

fn time(days: usize, hours: u8, minutes: u8, seconds: u8, milli_seconds: u16) -> TimeValue {
    TimeValue { days, hours, minutes, seconds, milli_seconds }
}

#[test]
fn time_literals_fill_their_units() {
    assert_eq!(tokens("T#1D1H1M1S1MS"), vec![Token::Time("T#1D1H1M1S1MS".to_string(), time(1, 1, 1, 1, 1))]);
    assert_eq!(tokens("T#1m1ms"), vec![Token::Time("T#1m1ms".to_string(), time(0, 0, 1, 0, 1))]);
    assert_eq!(tokens("T#30h"), vec![Token::Time("T#30h".to_string(), time(0, 30, 0, 0, 0))]);
}

#[test]
fn time_fields_keep_their_width() {
    assert_eq!(tokens("T#300h"), vec![Token::Time("T#300h".to_string(), time(0, 44, 0, 0, 0))]);
    assert_eq!(tokens("T#70000ms"), vec![Token::Time("T#70000ms".to_string(), time(0, 0, 0, 0, 4464))]);
    assert_eq!(tokens("T#2d70000s"), vec![Token::Time("T#2d70000s".to_string(), time(2, 0, 0, 112, 0))]);
}

#[test]
fn millisecond_unit_alone() {
    assert_eq!(tokens("T#1ms"), vec![Token::Time("T#1ms".to_string(), time(0, 0, 0, 0, 1))]);
    assert_eq!(tokens("T#5MS"), vec![Token::Time("T#5MS".to_string(), time(0, 0, 0, 0, 5))]);
    assert_eq!(tokens("T#2m"), vec![Token::Time("T#2m".to_string(), time(0, 0, 2, 0, 0))]);
}

#[test]
fn caret_stands_under_its_column() {
    let src = "ab\nxyz";
    for col in 0..3 {
        let mut m = Marker::create("f.st", src);
        m.set(3 + col, 1, col);
        let text = m.format_as_printable();
        let lines: Vec<&str> = text.split('\n').collect();
        assert_eq!(lines[2], " 2  | xyz");
        assert_eq!(lines[3].find('^'), Some(6 + col));
        assert_eq!(lines[2].as_bytes()[6 + col], b"xyz"[col]);
    }
}

#[test]
fn time_literal_needs_a_number() {
    assert_eq!(tokens("T#"), vec![Token::Identifier("T".to_string()), Token::Pragma("#".to_string())]);
}

#[test]
fn numbers_read_as_integers_or_floats() {
    assert_eq!(tokens("234"), vec![Token::Number("234".to_string(), NumberValue::Int(234))]);
    for (src, value) in [("1.23e8", 123000000.0), ("4.21e-4", 0.000421), (".5", 0.5)] {
        match &tokens(src)[..] {
            [Token::Number(text, NumberValue::Float(f))] => {
                assert_eq!(text, src);
                assert_eq!(f, src);
                assert_eq!(f.parse::<f64>().unwrap(), value);
            }
            other => panic!("{:?} lexed as {:?}", src, other),
        }
    }
}

#[test]
fn integer_too_large_for_usize_is_a_float() {
    let src = "99999999999999999999999";
    assert_eq!(tokens(src), vec![Token::Number(src.to_string(), NumberValue::Float(src.to_string()))]);
}

#[test]
fn numeral_stops_before_a_delimiter() {
    assert_eq!(
        tokens("12;"),
        vec![Token::Number("12".to_string(), NumberValue::Int(12)), Token::SemiColon]
    );
}

#[test]
fn strings_are_quote_symmetric() {
    assert_eq!(tokens("\"Hello World'\""), vec![Token::String("\"Hello World'\"".to_string())]);
    assert_eq!(tokens("'a\"b'"), vec![Token::String("'a\"b'".to_string())]);
}

#[test]
fn unterminated_string_is_illegal() {
    let mut l = Lexer::create("t.st", "x 'abc");
    assert_eq!(l.next().unwrap().token, Token::Identifier("x".to_string()));
    let t = l.next().unwrap();
    assert_eq!(t.token, Token::Illegal);
    let mut expected = Marker::create("t.st", "x 'abc");
    expected.set(2, 0, 2);
    assert_eq!(t.marker, expected);
    assert!(l.next().is_none());
}

#[test]
fn unterminated_block_comment_is_no_comment() {
    assert_eq!(
        tokens("(* open"),
        vec![Token::LeftParenthesis, Token::Asterisk, Token::Identifier("open".to_string())]
    );
}

#[test]
fn identifiers_take_unicode_letters_after_the_first() {
    assert_eq!(tokens("_é1 x"), vec![Token::Identifier("_é1".to_string()), Token::Identifier("x".to_string())]);
}

#[test]
fn diagnostic_formatting_is_repeatable() {
    let src = "A\n  B";
    let mut m = Marker::create("f.st", src);
    m.set(4, 1, 2);
    let first = m.format_as_printable();
    let second = m.format_as_printable();
    assert_eq!(first, second);
    assert_eq!(first, "f.st:2:2\n    |\n 2  |   B\n    |   ^");
}

#[test]
fn line_numbers_wider_than_the_gutter() {
    let src = "\n".repeat(12345);
    let mut m = Marker::create("f.st", &src);
    m.set(12345, 12345, 0);
    assert_eq!(m.format_as_printable(), "f.st:12346:0\n    |\n12346| \n    | ^");
}

#[test]
fn marker_advances() {
    let mut m = Marker::create("f.st", "ab\nc");
    m.advance();
    m.advance();
    m.advance_new_line();
    let mut expected = Marker::create("f.st", "ab\nc");
    expected.set(3, 1, 0);
    assert_eq!(m, expected);
}

#[test]
fn exponent_marker_without_digits_ends_the_numeral() {
    assert_eq!(
        tokens("1e"),
        vec![Token::Number("1".to_string(), NumberValue::Int(1)), Token::Identifier("e".to_string())]
    );
    assert_eq!(
        tokens("2E+;"),
        vec![
            Token::Number("2".to_string(), NumberValue::Int(2)),
            Token::Identifier("E".to_string()),
            Token::Plus,
            Token::SemiColon,
        ]
    );
    assert_eq!(
        tokens("1else"),
        vec![Token::Number("1".to_string(), NumberValue::Int(1)), Token::Identifier("else".to_string())]
    );
    assert_eq!(
        tokens("1.5e"),
        vec![
            Token::Number("1.5".to_string(), NumberValue::Float("1.5".to_string())),
            Token::Identifier("e".to_string()),
        ]
    );
}

#[test]
fn exponent_with_digits_stays_in_the_numeral() {
    assert_eq!(
        tokens("2.34E+3;"),
        vec![Token::Number("2.34E+3".to_string(), NumberValue::Float("2.34E+3".to_string())), Token::SemiColon]
    );
}
