use stc::lexer::Lexer;
use stc::token::{MarkedToken, Marker, NumberValue, TimeValue, Token};

fn marker(
    src_file: &'static str,
    src: &'static str,
    pos: usize,
    line: usize,
    col: usize,
) -> Marker<'static> {
    let mut marker = Marker::create(src_file, src);
    marker.set(pos, line, col);
    marker
}

fn exp(
    t: Token,
    src_file: &'static str,
    src: &'static str,
    pos: usize,
    line: usize,
    col: usize,
) -> Option<MarkedToken<'static>> {
    Some(t.mark(marker(src_file, src, pos, line, col)))
}

/// A numeral token whose value is a float: checks the text and the value it reads as.
fn exp_float(
    text: &'static str,
    value: f64,
    src_file: &'static str,
    src: &'static str,
    pos: usize,
    line: usize,
    col: usize,
    got: Option<MarkedToken<'static>>,
) {
    let got = got.expect("a token");
    assert_eq!(got.marker, marker(src_file, src, pos, line, col));
    match got.token {
        Token::Number(t, NumberValue::Float(f)) => {
            assert_eq!(t, text);
            assert_eq!(f, text);
            assert_eq!(f.parse::<f64>().unwrap(), value);
        }
        other => panic!("expected a float numeral, got {:?}", other),
    }
}

#[test]
fn test_whitespace() {
    let src_file = "Some file.st";
    let src = " \t\n\r\n  ";
    let mut l = Lexer::create(src_file, src);

    assert_eq!(l.next(), None);
    assert_eq!(l.marker(), marker(src_file, src, 7, 2, 2));
}

#[test]
fn test_keywords() {
    let src_file = "Some file.st";
    let src = r#"NOT
TRUE
FALSE
AND
OR
XOR
IF
THEN
ELSIF
ELSE
END_IF
CASE
OF
END_CASE
FOR
TO
BY
DO
END_FOR
WHILE
END_WHILE
PROGRAM
END_PROGRAM
EXIT
ACTION
END_ACTION
FUNCTION
END_FUNCTION
FUNCTION_BLOCK
END_FUNCTION_BLOCK
RETURN
VAR
VAR_INPUT
VAR_OUTPUT
CONSTANT
END_VAR
TYPE
END_TYPE
STRUCT
END_STRUCT
UNION
END_UNION
"#;
    let mut l = Lexer::create(src_file, src);

    assert_eq!(l.next(), exp(Token::Not, src_file, src, 0, 0, 0));
    assert_eq!(l.next(), exp(Token::True, src_file, src, 4, 1, 0));
    assert_eq!(l.next(), exp(Token::False, src_file, src, 9, 2, 0));
    assert_eq!(l.next(), exp(Token::And, src_file, src, 15, 3, 0));
    assert_eq!(l.next(), exp(Token::Or, src_file, src, 19, 4, 0));
    assert_eq!(l.next(), exp(Token::Xor, src_file, src, 22, 5, 0));
    assert_eq!(l.next(), exp(Token::If, src_file, src, 26, 6, 0));
    assert_eq!(l.next(), exp(Token::Then, src_file, src, 29, 7, 0));
    assert_eq!(l.next(), exp(Token::Elsif, src_file, src, 34, 8, 0));
    assert_eq!(l.next(), exp(Token::Else, src_file, src, 40, 9, 0));
    assert_eq!(l.next(), exp(Token::EndIf, src_file, src, 45, 10, 0));
    assert_eq!(l.next(), exp(Token::Case, src_file, src, 52, 11, 0));
    assert_eq!(l.next(), exp(Token::Of, src_file, src, 57, 12, 0));
    assert_eq!(l.next(), exp(Token::EndCase, src_file, src, 60, 13, 0));
    assert_eq!(l.next(), exp(Token::For, src_file, src, 69, 14, 0));
    assert_eq!(l.next(), exp(Token::To, src_file, src, 73, 15, 0));
    assert_eq!(l.next(), exp(Token::By, src_file, src, 76, 16, 0));
    assert_eq!(l.next(), exp(Token::Do, src_file, src, 79, 17, 0));
    assert_eq!(l.next(), exp(Token::EndFor, src_file, src, 82, 18, 0));
    assert_eq!(l.next(), exp(Token::While, src_file, src, 90, 19, 0));
    assert_eq!(l.next(), exp(Token::EndWhile, src_file, src, 96, 20, 0));
    assert_eq!(l.next(), exp(Token::Program, src_file, src, 106, 21, 0));
    assert_eq!(l.next(), exp(Token::EndProgram, src_file, src, 114, 22, 0));
    assert_eq!(l.next(), exp(Token::Exit, src_file, src, 126, 23, 0));
    assert_eq!(l.next(), exp(Token::Action, src_file, src, 131, 24, 0));
    assert_eq!(l.next(), exp(Token::EndAction, src_file, src, 138, 25, 0));
    assert_eq!(l.next(), exp(Token::Function, src_file, src, 149, 26, 0));
    assert_eq!(l.next(), exp(Token::EndFunction, src_file, src, 158, 27, 0));
    assert_eq!(
        l.next(),
        exp(Token::FunctionBlock, src_file, src, 171, 28, 0)
    );
    assert_eq!(
        l.next(),
        exp(Token::EndFunctionBlock, src_file, src, 186, 29, 0)
    );
    assert_eq!(l.next(), exp(Token::Return, src_file, src, 205, 30, 0));
    assert_eq!(l.next(), exp(Token::Var, src_file, src, 212, 31, 0));
    assert_eq!(l.next(), exp(Token::VarInput, src_file, src, 216, 32, 0));
    assert_eq!(l.next(), exp(Token::VarOutput, src_file, src, 226, 33, 0));
    assert_eq!(l.next(), exp(Token::Constant, src_file, src, 237, 34, 0));
    assert_eq!(l.next(), exp(Token::EndVar, src_file, src, 246, 35, 0));
    assert_eq!(l.next(), exp(Token::Type, src_file, src, 254, 36, 0));
    assert_eq!(l.next(), exp(Token::EndType, src_file, src, 259, 37, 0));
    assert_eq!(l.next(), exp(Token::Struct, src_file, src, 268, 38, 0));
    assert_eq!(l.next(), exp(Token::EndStruct, src_file, src, 275, 39, 0));
    assert_eq!(l.next(), exp(Token::Union, src_file, src, 286, 40, 0));
    assert_eq!(l.next(), exp(Token::EndUnion, src_file, src, 292, 41, 0));

    assert_eq!(l.next(), None);
}

#[test]
fn test_operators() {
    let src_file = "Some file.st";
    let src = r#"+
-
*
/
%
:=
=
<>
>
>=
<
<="#;
    let mut l = Lexer::create(src_file, src);

    assert_eq!(l.next(), exp(Token::Plus, src_file, src, 0, 0, 0));
    assert_eq!(l.next(), exp(Token::Minus, src_file, src, 2, 1, 0));
    assert_eq!(l.next(), exp(Token::Asterisk, src_file, src, 4, 2, 0));
    assert_eq!(l.next(), exp(Token::Slash, src_file, src, 6, 3, 0));
    assert_eq!(l.next(), exp(Token::Percent, src_file, src, 8, 4, 0));
    assert_eq!(l.next(), exp(Token::Assign, src_file, src, 10, 5, 0));
    assert_eq!(l.next(), exp(Token::Equals, src_file, src, 13, 6, 0));
    assert_eq!(l.next(), exp(Token::NotEquals, src_file, src, 15, 7, 0));
    assert_eq!(l.next(), exp(Token::GreaterThan, src_file, src, 18, 8, 0));
    assert_eq!(
        l.next(),
        exp(Token::GreaterThanOrEquals, src_file, src, 20, 9, 0)
    );
    assert_eq!(l.next(), exp(Token::LessThan, src_file, src, 23, 10, 0));
    assert_eq!(
        l.next(),
        exp(Token::LessThanOrEquals, src_file, src, 25, 11, 0)
    );

    assert_eq!(l.next(), None);
}

#[test]
fn test_delimiters() {
    let src_file = "Some file.st";
    let src = r#".
,
:
;
(
)
[
]
{
}"#;
    let mut l = Lexer::create(src_file, src);

    assert_eq!(l.next(), exp(Token::Dot, src_file, src, 0, 0, 0));
    assert_eq!(l.next(), exp(Token::Comma, src_file, src, 2, 1, 0));
    assert_eq!(l.next(), exp(Token::Colon, src_file, src, 4, 2, 0));
    assert_eq!(l.next(), exp(Token::SemiColon, src_file, src, 6, 3, 0));
    assert_eq!(
        l.next(),
        exp(Token::LeftParenthesis, src_file, src, 8, 4, 0)
    );
    assert_eq!(
        l.next(),
        exp(Token::RightParenthesis, src_file, src, 10, 5, 0)
    );
    assert_eq!(l.next(), exp(Token::LeftBracket, src_file, src, 12, 6, 0));
    assert_eq!(l.next(), exp(Token::RightBracket, src_file, src, 14, 7, 0));
    assert_eq!(l.next(), exp(Token::LeftBrace, src_file, src, 16, 8, 0));
    assert_eq!(l.next(), exp(Token::RightBrace, src_file, src, 18, 9, 0));

    assert_eq!(l.next(), None);
}

#[test]
fn test_literals() {
    let src_file = "Some file.st";
    let src = r#""Hello World'"
'Hello World"'
Identier_123
_private_Identifier321
_123Identifier
1
234
1.23
1.23e8
2.34E+3
4.21e-4
T#1s
T#1D1H1M1S1MS
T#1d1h1m1s1ms
T#1m1ms"#;
    let mut l = Lexer::create(src_file, src);

    assert_eq!(
        l.next(),
        exp(Token::String("\"Hello World'\"".to_string()), src_file, src, 0, 0, 0)
    );
    assert_eq!(
        l.next(),
        exp(Token::String("'Hello World\"'".to_string()), src_file, src, 15, 1, 0)
    );
    assert_eq!(
        l.next(),
        exp(Token::Identifier("Identier_123".to_string()), src_file, src, 30, 2, 0)
    );
    assert_eq!(
        l.next(),
        exp(
            Token::Identifier("_private_Identifier321".to_string()),
            src_file,
            src,
            43,
            3,
            0
        )
    );
    assert_eq!(
        l.next(),
        exp(Token::Identifier("_123Identifier".to_string()), src_file, src, 66, 4, 0)
    );
    assert_eq!(
        l.next(),
        exp(
            Token::Number("1".to_string(), NumberValue::Int(1)),
            src_file,
            src,
            81,
            5,
            0
        )
    );
    assert_eq!(
        l.next(),
        exp(
            Token::Number("234".to_string(), NumberValue::Int(234)),
            src_file,
            src,
            83,
            6,
            0
        )
    );
    exp_float("1.23", 1.23, src_file, src, 87, 7, 0, l.next());
    exp_float("1.23e8", 1.23e8, src_file, src, 92, 8, 0, l.next());
    exp_float("2.34E+3", 2.34e3, src_file, src, 99, 9, 0, l.next());
    exp_float("4.21e-4", 4.21e-4, src_file, src, 107, 10, 0, l.next());
    assert_eq!(
        l.next(),
        exp(
            Token::Time(
                    "T#1s".to_string(),
                TimeValue {
                    days: 0,
                    hours: 0,
                    minutes: 0,
                    seconds: 1,
                    milli_seconds: 0
                }
            ),
            src_file,
            src,
            115,
            11,
            0
        )
    );
    assert_eq!(
        l.next(),
        exp(
            Token::Time(
                    "T#1D1H1M1S1MS".to_string(),
                TimeValue {
                    days: 1,
                    hours: 1,
                    minutes: 1,
                    seconds: 1,
                    milli_seconds: 1
                }
            ),
            src_file,
            src,
            120,
            12,
            0
        )
    );
    assert_eq!(
        l.next(),
        exp(
            Token::Time(
                    "T#1d1h1m1s1ms".to_string(),
                TimeValue {
                    days: 1,
                    hours: 1,
                    minutes: 1,
                    seconds: 1,
                    milli_seconds: 1
                }
            ),
            src_file,
            src,
            134,
            13,
            0
        )
    );
    assert_eq!(
        l.next(),
        exp(
            Token::Time(
                    "T#1m1ms".to_string(),
                TimeValue {
                    days: 0,
                    hours: 0,
                    minutes: 1,
                    seconds: 0,
                    milli_seconds: 1
                }
            ),
            src_file,
            src,
            148,
            14,
            0
        )
    );

    assert_eq!(l.next(), None);
}

#[test]
fn test_pragma() {
    let src_file = "Some file.st";
    let src = "#include \"header.h\" #load \"variables.var\"";
    let mut l = Lexer::create(src_file, src);

    assert_eq!(
        l.next(),
        exp(Token::Pragma("#include".to_string()), src_file, src, 0, 0, 0)
    );
    assert_eq!(
        l.next(),
        exp(Token::String("\"header.h\"".to_string()), src_file, src, 9, 0, 9)
    );
    assert_eq!(
        l.next(),
        exp(Token::Pragma("#load".to_string()), src_file, src, 20, 0, 20)
    );
    assert_eq!(
        l.next(),
        exp(Token::String("\"variables.var\"".to_string()), src_file, src, 26, 0, 26)
    );

    assert_eq!(l.next(), None);
}

#[test]
fn test_comment() {
    let src_file = "Some file.st";
    let src = r#"// Hello
// World
(*
 Stuff
*)"#;
    let mut l = Lexer::create(src_file, src);

    assert_eq!(
        l.next(),
        exp(Token::Comment("// Hello".to_string()), src_file, src, 0, 0, 0)
    );
    assert_eq!(
        l.next(),
        exp(Token::Comment("// World".to_string()), src_file, src, 9, 1, 0)
    );
    assert_eq!(
        l.next(),
        exp(Token::Comment("(*\n Stuff\n*)".to_string()), src_file, src, 18, 2, 0)
    );

    assert_eq!(l.next(), None);
}
