use stc::ast::{
    Ast, Block, Expression, IfCondition, IfConditionalBranch, InfixExpression, InfixOperator, LiteralExpression,
    Statement,
};
use stc::lexer::Lexer;
use stc::parser::parse;
use stc::token::NumberValue;

fn parse_src(src: &str) -> Ast {
    let (ast, errors) = parse(Lexer::create("main.st", src));
    assert!(errors.is_empty(), "unexpected diagnostics: {:?}", errors);
    ast
}

fn parse_errors(src: &str) -> Vec<String> {
    let (_, errors) = parse(Lexer::create("main.st", src));
    assert!(!errors.is_empty(), "expected diagnostics");
    errors
}

fn int_lit(n: usize) -> Expression {
    Expression::Literal(LiteralExpression::Number(NumberValue::Int(n)))
}

fn infix(left: Expression, op: InfixOperator, right: Expression) -> Expression {
    Expression::Infix(InfixExpression { left: Box::new(left), right: Box::new(right), op })
}

#[test]
fn test_empty_program_block() {
    let ast = parse_src("PROGRAM MyProgram END_PROGRAM\n");

    assert_eq!(
        ast.blocks[0],
        Block::Program("MyProgram".to_string(), vec![])
    );
}

#[test]
fn test_statements() {
    let ast = parse_src(
        r#"
    PROGRAM MyProgram
        ;
        1;
        EXIT;
        RETURN;
    END_PROGRAM
    "#,
    );

    assert_eq!(
        ast.blocks[0],
        Block::Program(
            "MyProgram".to_string(),
            vec![
                Statement::Empty,
                Statement::Expression(Expression::Literal(LiteralExpression::Number(
                    NumberValue::Int(1)
                ))),
                Statement::Exit,
                Statement::Return
            ]
        )
    );
}

#[test]
fn test_if_conditions() {
    let ast = parse_src(
        r#"
    PROGRAM MyProgram
        IF TRUE THEN
            ;
        END_IF;
        IF FALSE THEN
            1;
        ELSIF TRUE THEN
            2;
        ELSIF FALSE THEN
            3;
        ELSE
            4;
        END_IF;
    END_PROGRAM
    "#,
    );

    assert_eq!(
        ast.blocks[0],
        Block::Program(
            "MyProgram".to_string(),
            vec![
                Statement::If(IfCondition {
                    branch: IfConditionalBranch {
                        condition: Expression::Literal(LiteralExpression::True),
                        statements: vec![Statement::Empty],
                    },
                    alt_branches: vec![],
                    fallback: None,
                }),
                Statement::If(IfCondition {
                    branch: IfConditionalBranch {
                        condition: Expression::Literal(LiteralExpression::False),
                        statements: vec![Statement::Expression(Expression::Literal(
                            LiteralExpression::Number(NumberValue::Int(1))
                        ))]
                    },
                    alt_branches: vec![
                        IfConditionalBranch {
                            condition: Expression::Literal(LiteralExpression::True),
                            statements: vec![Statement::Expression(Expression::Literal(
                                LiteralExpression::Number(NumberValue::Int(2))
                            ))]
                        },
                        IfConditionalBranch {
                            condition: Expression::Literal(LiteralExpression::False),
                            statements: vec![Statement::Expression(Expression::Literal(
                                LiteralExpression::Number(NumberValue::Int(3))
                            ))]
                        },
                    ],
                    fallback: Some(vec![Statement::Expression(Expression::Literal(
                        LiteralExpression::Number(NumberValue::Int(4))
                    ))]),
                })
            ]
        )
    );
}

#[test]
fn empty_program_round_trip() {
    let ast = parse_src("PROGRAM P END_PROGRAM\n");
    assert_eq!(ast.blocks, vec![Block::Program("P".to_string(), vec![])]);
}

#[test]
fn numeric_expression_statement() {
    let ast = parse_src("PROGRAM P 1; END_PROGRAM\n");
    assert_eq!(ast.blocks, vec![Block::Program("P".to_string(), vec![Statement::Expression(int_lit(1))])]);
}

#[test]
fn if_chain_keeps_branch_order() {
    let ast = parse_src(
        "PROGRAM P IF FALSE THEN 1; ELSIF TRUE THEN 2; ELSIF FALSE THEN 3; ELSE 4; END_IF; END_PROGRAM",
    );
    match &ast.blocks[0] {
        Block::Program(_, statements) => match &statements[0] {
            Statement::If(c) => {
                assert_eq!(c.alt_branches.len(), 2);
                assert_eq!(c.alt_branches[0].statements, vec![Statement::Expression(int_lit(2))]);
                assert_eq!(c.alt_branches[1].statements, vec![Statement::Expression(int_lit(3))]);
                assert_eq!(c.fallback, Some(vec![Statement::Expression(int_lit(4))]));
            }
            other => panic!("expected an if statement, got {:?}", other),
        },
    }
}

#[test]
fn multiplication_binds_tighter_than_addition() {
    let ast = parse_src("PROGRAM P 1 + 2 * 3; END_PROGRAM");
    let expected = infix(int_lit(1), InfixOperator::Addition, infix(int_lit(2), InfixOperator::Multiplication, int_lit(3)));
    assert_eq!(ast.blocks, vec![Block::Program("P".to_string(), vec![Statement::Expression(expected)])]);
}

#[test]
fn operators_of_one_level_fold_to_the_left() {
    let ast = parse_src("PROGRAM P 7 - 2 - 1; 8 / 4 % 3; END_PROGRAM");
    let first = infix(infix(int_lit(7), InfixOperator::Subtraction, int_lit(2)), InfixOperator::Subtraction, int_lit(1));
    let second = infix(infix(int_lit(8), InfixOperator::Division, int_lit(4)), InfixOperator::Modulo, int_lit(3));
    assert_eq!(
        ast.blocks,
        vec![Block::Program("P".to_string(), vec![Statement::Expression(first), Statement::Expression(second)])]
    );
}

#[test]
fn parentheses_group_first() {
    let ast = parse_src("PROGRAM P (1 + 2) * 3; END_PROGRAM");
    let expected = infix(infix(int_lit(1), InfixOperator::Addition, int_lit(2)), InfixOperator::Multiplication, int_lit(3));
    assert_eq!(ast.blocks, vec![Block::Program("P".to_string(), vec![Statement::Expression(expected)])]);
}

#[test]
fn comments_never_reach_the_parser() {
    let ast = parse_src("(* header *) PROGRAM P // name\n TRUE; END_PROGRAM");
    assert_eq!(
        ast.blocks,
        vec![Block::Program(
            "P".to_string(),
            vec![Statement::Expression(Expression::Literal(LiteralExpression::True))]
        )]
    );
}

#[test]
fn two_programs_both_parse() {
    let ast = parse_src("PROGRAM A END_PROGRAM PROGRAM B EXIT; END_PROGRAM");
    assert_eq!(
        ast.blocks,
        vec![
            Block::Program("A".to_string(), vec![]),
            Block::Program("B".to_string(), vec![Statement::Exit]),
        ]
    );
}

#[test]
fn other_block_keywords_are_reported() {
    let cases = [
        ("ACTION", "ACTION blocks are not supported yet."),
        ("FUNCTION", "FUNCTION blocks are not supported yet."),
        ("FUNCTION_BLOCK", "FUNCTION_BLOCK blocks are not supported yet."),
        ("VAR", "VAR blocks are not supported yet."),
        ("TYPE", "TYPE blocks are not supported yet."),
    ];
    for (src, msg) in cases {
        let errors = parse_errors(src);
        assert_eq!(errors.len(), 1);
        assert!(errors[0].starts_with("[ERR] in main.st:1:0\n"));
        assert!(errors[0].ends_with(msg));
    }
}

#[test]
fn not_a_block_opening_token() {
    let errors = parse_errors("1");
    assert_eq!(errors, vec!["[ERR] in main.st:1:0\n    |\n 1  | 1\n    | ^ Expected a block opening token.".to_string()]);
}

#[test]
fn missing_semicolon_is_reported_at_the_offending_token() {
    let errors = parse_errors("PROGRAM P\n  1\nEND_PROGRAM");
    assert_eq!(
        errors[0],
        "[ERR] in main.st:3:0\n    |\n 3  | END_PROGRAM\n    | ^ Expected a semi colon at the end of the statement."
    );
}

#[test]
fn missing_semicolon_at_the_end_of_the_file() {
    let errors = parse_errors("PROGRAM P 1");
    assert_eq!(errors[0], "[ERR] Statement at the end of the file is missing a semi colon.");
}

#[test]
fn unclosed_program_names_the_program() {
    let errors = parse_errors("PROGRAM Main ;");
    assert_eq!(
        errors,
        vec!["[ERR] Program Main is not properly closed. Try adding a END_PROGRAM to the end.".to_string()]
    );
}

#[test]
fn program_without_a_name() {
    let errors = parse_errors("PROGRAM 1; END_PROGRAM");
    assert!(errors[0].ends_with("Expected an identifier token after the PROGRAM declaration."));
}

#[test]
fn unclosed_if_is_reported() {
    let errors = parse_errors("PROGRAM P IF TRUE THEN 1;");
    assert!(errors.iter().any(|e| e == "[ERR] If statement is not properly closed. Try adding a END_IF to the end."));
}

#[test]
fn if_without_then_is_reported() {
    let errors = parse_errors("PROGRAM P IF TRUE 1; END_IF; END_PROGRAM");
    assert!(errors[0].ends_with("Expected the THEN keyword to separate the condition and the conditional code."));
}

#[test]
fn unsupported_statements_are_reported() {
    for (src, msg) in [
        ("PROGRAM P CASE END_PROGRAM", "CASE statements are not supported yet."),
        ("PROGRAM P FOR END_PROGRAM", "FOR statements are not supported yet."),
        ("PROGRAM P WHILE END_PROGRAM", "WHILE statements are not supported yet."),
        ("PROGRAM P #pragma END_PROGRAM", "Pragmas are currently not supported"),
        ("PROGRAM P x; END_PROGRAM", "Identifiers, strings, times and prefix operators are not supported in expressions yet."),
        ("PROGRAM P ); END_PROGRAM", "Invalid token kind for an expression."),
        ("PROGRAM P (1; END_PROGRAM", "Expected a closing parenthesis."),
    ] {
        let errors = parse_errors(src);
        assert!(errors[0].ends_with(msg), "{:?} gave {:?}", src, errors);
    }
}

#[test]
fn float_literal_in_an_expression() {
    let ast = parse_src("PROGRAM P 2.5; END_PROGRAM");
    assert_eq!(
        ast.blocks,
        vec![Block::Program(
            "P".to_string(),
            vec![Statement::Expression(Expression::Literal(LiteralExpression::Number(NumberValue::Float(
                "2.5".to_string()
            ))))]
        )]
    );
}

#[test]
fn blocks_after_a_diagnostic_are_kept() {
    let (ast, errors) = parse(Lexer::create("main.st", "; PROGRAM P END_PROGRAM\n"));
    assert_eq!(errors.len(), 1);
    assert!(errors[0].ends_with("Expected a block opening token."));
    assert_eq!(ast.blocks, vec![Block::Program("P".to_string(), vec![])]);
}
