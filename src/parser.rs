use vstd::prelude::*;
use crate::ast::{
    block_model, blocks_model, branch_model, branches_model, expr_model, opt_block_model, opt_expr_model,
    opt_stmt_model, push_branch, push_statement, stmt_model, stmts_model, Ast, Block, BlockModel, BranchModel,
    ExprModel, Expression, IfCondition, IfConditionalBranch, InfixExpression, InfixOperator, LiteralExpression,
    Statement, StmtModel,
};
use crate::lexer::{lemma_position_bounds, lemma_whitespace_end_bounds, lexes, stream_from, whitespace_end, Lexer};
use crate::token::{printable, MarkedToken, NumberValue, Token};

verus! {

pub const LOWEST_PRECEDENCE: u8 = 1;
pub const EQUALS_PRECEDENCE: u8 = 2;
pub const LESS_GREATER_PRECEDENCE: u8 = 3;
pub const SUM_PRECEDENCE: u8 = 4;
pub const PRODUCT_PRECEDENCE: u8 = 5;
pub const PREFIX_PRECEDENCE: u8 = 6;
pub const CALL_PRECEDENCE: u8 = 7;
pub const INDEX_PRECEDENCE: u8 = 8;

pub const BLOCK_EXPECTED: &'static str = "Expected a block opening token.";
pub const ACTION_UNSUPPORTED: &'static str = "ACTION blocks are not supported yet.";
pub const FUNCTION_UNSUPPORTED: &'static str = "FUNCTION blocks are not supported yet.";
pub const FUNCTION_BLOCK_UNSUPPORTED: &'static str = "FUNCTION_BLOCK blocks are not supported yet.";
pub const VAR_UNSUPPORTED: &'static str = "VAR blocks are not supported yet.";
pub const TYPE_UNSUPPORTED: &'static str = "TYPE blocks are not supported yet.";
pub const IDENTIFIER_EXPECTED: &'static str = "Expected an identifier token after the PROGRAM declaration.";
pub const STATEMENT_EXPECTED: &'static str = "Expected a statement but no more tokens left.";
pub const CASE_UNSUPPORTED: &'static str = "CASE statements are not supported yet.";
pub const FOR_UNSUPPORTED: &'static str = "FOR statements are not supported yet.";
pub const WHILE_UNSUPPORTED: &'static str = "WHILE statements are not supported yet.";
pub const PRAGMA_UNSUPPORTED: &'static str = "Pragmas are currently not supported";
pub const IF_CONDITION_EXPECTED: &'static str = "Expected an expression as a condition of an if statement.";
pub const THEN_EXPECTED: &'static str = "Expected the THEN keyword to separate the condition and the conditional code.";
pub const ELSIF_CONDITION_EXPECTED: &'static str = "Expected an expression as a condition of an else if branch.";
pub const IF_STATEMENT_EXPECTED: &'static str = "Expected statement inside code blocks of an if statement.";
pub const IF_UNCLOSED: &'static str = "If statement is not properly closed. Try adding a END_IF to the end.";
pub const SEMICOLON_EXPECTED: &'static str = "Expected a semi colon at the end of the statement.";
pub const SEMICOLON_MISSING_AT_END: &'static str = "Statement at the end of the file is missing a semi colon.";
pub const EXPRESSION_KIND_INVALID: &'static str = "Invalid token kind for an expression.";
pub const EXPRESSION_EXPECTED: &'static str = "No more tokens left but expected an expression.";
pub const EXPRESSION_UNSUPPORTED: &'static str = "Identifiers, strings, times and prefix operators are not supported in expressions yet.";
pub const PARENTHESIS_EXPECTED: &'static str = "Expected a closing parenthesis.";
pub const PROGRAM_UNCLOSED_START: &'static str = "Program ";
pub const PROGRAM_UNCLOSED_END: &'static str = " is not properly closed. Try adding a END_PROGRAM to the end.";
pub const ERR_AT: &'static str = "[ERR] in ";
pub const ERR: &'static str = "[ERR] ";

/// How tightly an operator token binds; every other token binds loosest.
pub open spec fn precedence(t: Token) -> u8 {
    match t {
        Token::Plus => SUM_PRECEDENCE,
        Token::Minus => SUM_PRECEDENCE,
        Token::Asterisk => PRODUCT_PRECEDENCE,
        Token::Slash => PRODUCT_PRECEDENCE,
        Token::Percent => PRODUCT_PRECEDENCE,
        Token::Equals => EQUALS_PRECEDENCE,
        Token::NotEquals => EQUALS_PRECEDENCE,
        Token::GreaterThan => LESS_GREATER_PRECEDENCE,
        Token::GreaterThanOrEquals => LESS_GREATER_PRECEDENCE,
        Token::LessThan => LESS_GREATER_PRECEDENCE,
        Token::LessThanOrEquals => LESS_GREATER_PRECEDENCE,
        Token::Dot => INDEX_PRECEDENCE,
        Token::LeftParenthesis => CALL_PRECEDENCE,
        Token::LeftBracket => INDEX_PRECEDENCE,
        Token::Not => PREFIX_PRECEDENCE,
        _ => LOWEST_PRECEDENCE,
    }
}

/// The binary operator a token stands for in an expression.
pub open spec fn infix_operator(t: Token) -> Option<InfixOperator> {
    match t {
        Token::Plus => Some(InfixOperator::Addition),
        Token::Minus => Some(InfixOperator::Subtraction),
        Token::Asterisk => Some(InfixOperator::Multiplication),
        Token::Slash => Some(InfixOperator::Division),
        Token::Percent => Some(InfixOperator::Modulo),
        _ => None,
    }
}

/// Where the parser stands in the token list, and the diagnostics so far.
pub struct PState {
    pub i: int,
    pub errs: Seq<Seq<char>>,
}

pub open spec fn tok(t: Seq<MarkedToken>, i: int) -> Option<Token> {
    if 0 <= i < t.len() {
        Some(t[i].token)
    } else {
        None
    }
}

pub open spec fn in_range(t: Seq<MarkedToken>, st: PState) -> bool {
    0 <= st.i <= t.len()
}

/// The index after `i`; at the end it stays.
pub open spec fn next_index(t: Seq<MarkedToken>, i: int) -> int {
    if i < t.len() {
        i + 1
    } else {
        i
    }
}

/// Moves to the next token.
pub open spec fn adv(t: Seq<MarkedToken>, st: PState) -> PState {
    PState { i: next_index(t, st.i), ..st }
}

/// A diagnostic: the position of the token at `i`, if any, and the message.
pub open spec fn diagnostic(t: Seq<MarkedToken>, i: int, msg: Seq<char>) -> Seq<char> {
    if 0 <= i < t.len() {
        ERR_AT@ + printable(t[i].marker@) + seq![' '] + msg
    } else {
        ERR@ + msg
    }
}

/// Records a diagnostic at the current token.
pub open spec fn fail(t: Seq<MarkedToken>, st: PState, msg: Seq<char>) -> PState {
    PState { errs: st.errs.push(diagnostic(t, st.i, msg)), ..st }
}

/// An expression whose operators bind tighter than `min`, starting at the current token;
/// the parser stops on its last token.
pub open spec fn expr(t: Seq<MarkedToken>, st: PState, min: u8) -> (PState, Option<ExprModel>)
    decreases t.len() - st.i, 2nat,
{
    if !in_range(t, st) {
        (st, None)
    } else {
        let (st1, left) = prefix_expr(t, st);
        match left {
            None => (st1, None),
            Some(l) => if st1.i < st.i || st1.i > t.len() {
                (st1, None)
            } else {
                infix_chain(t, st1, l, min)
            },
        }
    }
}

/// A literal, or an expression in parentheses.
pub open spec fn prefix_expr(t: Seq<MarkedToken>, st: PState) -> (PState, Option<ExprModel>)
    decreases t.len() - st.i, 1nat,
{
    if !in_range(t, st) {
        (st, None)
    } else {
        match tok(t, st.i) {
            None => (fail(t, st, EXPRESSION_EXPECTED@), None),
            Some(k) => match k {
                Token::Number(_, v) => (st, Some(ExprModel::Literal(LiteralExpression::Number(v)))),
                Token::True => (st, Some(ExprModel::Literal(LiteralExpression::True))),
                Token::False => (st, Some(ExprModel::Literal(LiteralExpression::False))),
                Token::LeftParenthesis => {
                    let (st1, inner) = expr(t, adv(t, st), LOWEST_PRECEDENCE);
                    match inner {
                        None => (st1, None),
                        Some(e) => {
                            let st2 = adv(t, st1);
                            if tok(t, st2.i) == Some(Token::RightParenthesis) {
                                (st2, Some(e))
                            } else {
                                (fail(t, st2, PARENTHESIS_EXPECTED@), None)
                            }
                        },
                    }
                },
                Token::Identifier(_) => (fail(t, st, EXPRESSION_UNSUPPORTED@), None),
                Token::String(_) => (fail(t, st, EXPRESSION_UNSUPPORTED@), None),
                Token::Time(_, _) => (fail(t, st, EXPRESSION_UNSUPPORTED@), None),
                Token::Plus => (fail(t, st, EXPRESSION_UNSUPPORTED@), None),
                Token::Minus => (fail(t, st, EXPRESSION_UNSUPPORTED@), None),
                Token::Not => (fail(t, st, EXPRESSION_UNSUPPORTED@), None),
                _ => (fail(t, st, EXPRESSION_KIND_INVALID@), None),
            },
        }
    }
}

/// Folds `left` with the operators that follow while they bind tighter than `min`.
pub open spec fn infix_chain(t: Seq<MarkedToken>, st: PState, left: ExprModel, min: u8) -> (PState, Option<ExprModel>)
    decreases t.len() - st.i, 0nat,
{
    if !in_range(t, st) {
        (st, Some(left))
    } else {
        match tok(t, st.i + 1) {
            Some(k) => match infix_operator(k) {
                Some(op) => if precedence(k) > min {
                    let st1 = adv(t, adv(t, st));
                    let (st2, right) = expr(t, st1, precedence(k));
                    match right {
                        None => (st2, None),
                        Some(r) => if st2.i < st1.i || st2.i > t.len() {
                            (st2, None)
                        } else {
                            infix_chain(t, st2, ExprModel::Infix(Box::new(left), op, Box::new(r)), min)
                        },
                    }
                } else {
                    (st, Some(left))
                },
                None => (st, Some(left)),
            },
            None => (st, Some(left)),
        }
    }
}

/// An expression statement: an expression and the semicolon after it.
pub open spec fn expression_statement(t: Seq<MarkedToken>, st: PState) -> (PState, Option<StmtModel>) {
    let (st1, e) = expr(t, st, LOWEST_PRECEDENCE);
    match e {
        None => (st1, None),
        Some(x) => {
            let st2 = adv(t, st1);
            match tok(t, st2.i) {
                None => (fail(t, st2, SEMICOLON_MISSING_AT_END@), None),
                Some(k) => if k == Token::SemiColon {
                    (st2, Some(StmtModel::Expression(x)))
                } else {
                    (fail(t, st2, SEMICOLON_EXPECTED@), None)
                },
            }
        },
    }
}

/// A statement at the current token.
pub open spec fn statement(t: Seq<MarkedToken>, st: PState) -> (PState, Option<StmtModel>)
    decreases t.len() - st.i, 1nat,
{
    if !in_range(t, st) {
        (st, None)
    } else {
        match tok(t, st.i) {
            None => (fail(t, st, STATEMENT_EXPECTED@), None),
            Some(k) => match k {
                Token::SemiColon => (st, Some(StmtModel::Empty)),
                Token::Exit => (adv(t, st), Some(StmtModel::Exit)),
                Token::Return => (adv(t, st), Some(StmtModel::Return)),
                Token::If => if_chain(t, st),
                Token::Case => (fail(t, st, CASE_UNSUPPORTED@), None),
                Token::For => (fail(t, st, FOR_UNSUPPORTED@), None),
                Token::While => (fail(t, st, WHILE_UNSUPPORTED@), None),
                Token::Pragma(_) => (fail(t, st, PRAGMA_UNSUPPORTED@), None),
                _ => expression_statement(t, st),
            },
        }
    }
}

/// An if-chain under construction; `target` says which body takes the next statement:
/// the first branch, the last alternate, or the fallback.
pub struct IfModel {
    pub branch: BranchModel,
    pub alts: Seq<BranchModel>,
    pub fallback: Option<Seq<StmtModel>>,
    pub target: int,
}

pub open spec fn append_to_target(m: IfModel, s: StmtModel) -> IfModel {
    if m.target == 0 {
        IfModel { branch: BranchModel { statements: m.branch.statements.push(s), ..m.branch }, ..m }
    } else if m.target == 1 {
        let last = m.alts.last();
        IfModel { alts: m.alts.update(m.alts.len() - 1, BranchModel { statements: last.statements.push(s), ..last }), ..m }
    } else {
        match m.fallback {
            Some(f) => IfModel { fallback: Some(f.push(s)), ..m },
            None => m,
        }
    }
}

/// An if-chain: `IF`, a condition, `THEN`, then the bodies up to `END_IF`.
pub open spec fn if_chain(t: Seq<MarkedToken>, st: PState) -> (PState, Option<StmtModel>)
    decreases t.len() - st.i, 0nat,
{
    if !(0 <= st.i < t.len()) {
        (st, None)
    } else {
        let (st1, c) = expr(t, adv(t, st), LOWEST_PRECEDENCE);
        match c {
            None => (fail(t, st1, IF_CONDITION_EXPECTED@), None),
            Some(cond) => {
                let st2 = adv(t, st1);
                if tok(t, st2.i) == Some(Token::Then) {
                    let st3 = adv(t, st2);
                    if st3.i <= st.i || st3.i > t.len() {
                        (st3, None)
                    } else {
                        if_body(t, st3, IfModel {
                            branch: BranchModel { condition: cond, statements: Seq::empty() },
                            alts: Seq::empty(),
                            fallback: None,
                            target: 0,
                        })
                    }
                } else {
                    (fail(t, st2, THEN_EXPECTED@), None)
                }
            },
        }
    }
}

/// The bodies of an if-chain, from the current token to `END_IF`.
pub open spec fn if_body(t: Seq<MarkedToken>, st: PState, m: IfModel) -> (PState, Option<StmtModel>)
    decreases t.len() - st.i, 2nat,
{
    if !in_range(t, st) {
        (st, None)
    } else {
        match tok(t, st.i) {
            None => (fail(t, st, IF_UNCLOSED@), None),
            Some(k) => if k == Token::EndIf {
                (adv(t, st), Some(StmtModel::If(m.branch, m.alts, m.fallback)))
            } else if k == Token::Else {
                if_body(t, adv(t, st), IfModel { fallback: Some(Seq::empty()), target: 2, ..m })
            } else if k == Token::Elsif {
                let (st1, c) = expr(t, adv(t, st), LOWEST_PRECEDENCE);
                match c {
                    None => (fail(t, st1, ELSIF_CONDITION_EXPECTED@), None),
                    Some(cond) => {
                        let m2 = IfModel {
                            alts: m.alts.push(BranchModel { condition: cond, statements: Seq::empty() }),
                            target: 1,
                            ..m
                        };
                        let st2 = adv(t, st1);
                        if tok(t, st2.i) == Some(Token::Then) {
                            let st3 = adv(t, st2);
                            if st3.i <= st.i || st3.i > t.len() {
                                (st3, None)
                            } else {
                                if_body(t, st3, m2)
                            }
                        } else {
                            (fail(t, st2, THEN_EXPECTED@), None)
                        }
                    },
                }
            } else {
                let (st1, s) = statement(t, st);
                if st1.i < st.i || st1.i > t.len() {
                    (st1, None)
                } else {
                    match s {
                        Some(x) => if_body(t, adv(t, st1), append_to_target(m, x)),
                        None => if_body(t, adv(t, fail(t, st1, IF_STATEMENT_EXPECTED@)), m),
                    }
                }
            },
        }
    }
}

pub open spec fn program_unclosed(name: Seq<char>) -> Seq<char> {
    PROGRAM_UNCLOSED_START@ + name + PROGRAM_UNCLOSED_END@
}

/// The statements of a program up to `END_PROGRAM`, which is left as the current token.
pub open spec fn program_body(t: Seq<MarkedToken>, st: PState, name: Seq<char>, body: Seq<StmtModel>) -> (PState, Option<BlockModel>)
    decreases t.len() - st.i,
{
    if !in_range(t, st) {
        (st, None)
    } else {
        match tok(t, st.i) {
            None => (fail(t, st, program_unclosed(name)), None),
            Some(k) => if k == Token::EndProgram {
                (st, Some(BlockModel::Program(name, body)))
            } else {
                let (st1, s) = statement(t, st);
                if st1.i < st.i || st1.i > t.len() {
                    (st1, None)
                } else {
                    match s {
                        Some(x) => program_body(t, adv(t, st1), name, body.push(x)),
                        None => program_body(t, adv(t, st1), name, body),
                    }
                }
            },
        }
    }
}

/// A program block: `PROGRAM`, its name, and its statements.
pub open spec fn program(t: Seq<MarkedToken>, st: PState) -> (PState, Option<BlockModel>) {
    let st1 = adv(t, st);
    match tok(t, st1.i) {
        Some(k) => match k {
            Token::Identifier(name) => program_body(t, adv(t, st1), name@, Seq::empty()),
            _ => (fail(t, st1, IDENTIFIER_EXPECTED@), None),
        },
        None => (fail(t, st1, IDENTIFIER_EXPECTED@), None),
    }
}

/// A top-level block at the current token.
pub open spec fn block(t: Seq<MarkedToken>, st: PState) -> (PState, Option<BlockModel>) {
    match tok(t, st.i) {
        Some(k) => match k {
            Token::Program => program(t, st),
            Token::Action => (fail(t, st, ACTION_UNSUPPORTED@), None),
            Token::Function => (fail(t, st, FUNCTION_UNSUPPORTED@), None),
            Token::FunctionBlock => (fail(t, st, FUNCTION_BLOCK_UNSUPPORTED@), None),
            Token::Var => (fail(t, st, VAR_UNSUPPORTED@), None),
            Token::Type => (fail(t, st, TYPE_UNSUPPORTED@), None),
            _ => (fail(t, st, BLOCK_EXPECTED@), None),
        },
        None => (fail(t, st, BLOCK_EXPECTED@), None),
    }
}

/// The blocks from the current token on: after each attempt the parser moves one token on.
pub open spec fn blocks(t: Seq<MarkedToken>, st: PState, acc: Seq<BlockModel>) -> (PState, Seq<BlockModel>)
    decreases t.len() - st.i,
{
    if !(0 <= st.i < t.len()) {
        (st, acc)
    } else {
        let (st1, b) = block(t, st);
        if st1.i < st.i || st1.i > t.len() {
            (st1, acc)
        } else {
            match b {
                Some(x) => blocks(t, adv(t, st1), acc.push(x)),
                None => blocks(t, adv(t, st1), acc),
            }
        }
    }
}

/// The blocks and diagnostics of a token list.
pub open spec fn parse_model(t: Seq<MarkedToken>) -> (PState, Seq<BlockModel>) {
    blocks(t, PState { i: 0, errs: Seq::empty() }, Seq::empty())
}

/// `r` is the outcome for token list `t`: every block that was parsed, and every
/// diagnostic, in order. The parse is clean when there is no diagnostic.
pub open spec fn parse_outcome(t: Seq<MarkedToken>, r: (Ast, Vec<String>)) -> bool {
    let (st, bs) = parse_model(t);
    blocks_model(r.0.blocks) == bs && errors_model(r.1) == st.errs
}

pub open spec fn errors_model(v: Vec<String>) -> Seq<Seq<char>> {
    v@.map_values(|e: String| e@)
}

/// Every marker of the token list can be rendered in a diagnostic.
pub open spec fn tokens_ok(t: Seq<MarkedToken>) -> bool {
    forall|k: int| 0 <= k < t.len() ==> (#[trigger] t[k]).marker@.pos <= t[k].marker@.src.len()
}

pub open spec fn st_of(i: usize, errors: Vec<String>) -> PState {
    PState { i: i as int, errs: errors_model(errors) }
}

fn advance(toks: &Vec<MarkedToken>, i: usize) -> (r: usize)
    requires
        i <= toks@.len(),
    ensures
        r == next_index(toks@, i as int),
        r <= toks@.len(),
{
    if i < toks.len() {
        i + 1
    } else {
        i
    }
}

/// Records a diagnostic at token `i`.
fn error_out(toks: &Vec<MarkedToken>, i: usize, errors: &mut Vec<String>, msg: &str)
    requires
        tokens_ok(toks@),
        i <= toks@.len(),
    ensures
        errors_model(*final(errors)) == errors_model(*old(errors)).push(diagnostic(toks@, i as int, msg@)),
{
    let mut d = String::new();
    if i < toks.len() {
        d.push_str(ERR_AT);
        let p = toks[i].marker.format_as_printable();
        d.push_str(p.as_str());
        d.push(' ');
        d.push_str(msg);
    } else {
        d.push_str(ERR);
        d.push_str(msg);
    }
    assert(d@ =~= diagnostic(toks@, i as int, msg@));
    errors.push(d);
    assert(errors_model(*final(errors)) =~= errors_model(*old(errors)).push(diagnostic(toks@, i as int, msg@)));
}

fn copy_number(v: &NumberValue) -> (r: NumberValue)
    ensures
        r == *v,
{
    match v {
        NumberValue::Int(n) => NumberValue::Int(*n),
        NumberValue::Float(s) => NumberValue::Float(s.clone()),
    }
}

/// The precedence table.
fn get_precedence(t: &Token) -> (r: u8)
    ensures
        r == precedence(*t),
{
    match t {
        Token::Plus => SUM_PRECEDENCE,
        Token::Minus => SUM_PRECEDENCE,
        Token::Asterisk => PRODUCT_PRECEDENCE,
        Token::Slash => PRODUCT_PRECEDENCE,
        Token::Percent => PRODUCT_PRECEDENCE,
        Token::Equals => EQUALS_PRECEDENCE,
        Token::NotEquals => EQUALS_PRECEDENCE,
        Token::GreaterThan => LESS_GREATER_PRECEDENCE,
        Token::GreaterThanOrEquals => LESS_GREATER_PRECEDENCE,
        Token::LessThan => LESS_GREATER_PRECEDENCE,
        Token::LessThanOrEquals => LESS_GREATER_PRECEDENCE,
        Token::Dot => INDEX_PRECEDENCE,
        Token::LeftParenthesis => CALL_PRECEDENCE,
        Token::LeftBracket => INDEX_PRECEDENCE,
        Token::Not => PREFIX_PRECEDENCE,
        _ => LOWEST_PRECEDENCE,
    }
}

fn get_infix_operator(t: &Token) -> (r: Option<InfixOperator>)
    ensures
        r == infix_operator(*t),
{
    match t {
        Token::Plus => Some(InfixOperator::Addition),
        Token::Minus => Some(InfixOperator::Subtraction),
        Token::Asterisk => Some(InfixOperator::Multiplication),
        Token::Slash => Some(InfixOperator::Division),
        Token::Percent => Some(InfixOperator::Modulo),
        _ => None,
    }
}

/// Parses an expression whose operators bind tighter than `min`.
fn parse_expression(toks: &Vec<MarkedToken>, i: usize, errors: &mut Vec<String>, min: u8) -> (r: (usize, Option<Expression>))
    requires
        tokens_ok(toks@),
        i <= toks@.len(),
    ensures
        ({
            let (st, e) = expr(toks@, st_of(i, *old(errors)), min);
            st == st_of(r.0, *final(errors)) && opt_expr_model(r.1) == e
        }),
        i <= r.0 <= toks@.len(),
    decreases toks@.len() - i, 2nat,
{
    let (j, left) = parse_prefix(toks, i, errors);
    match left {
        None => (j, None),
        Some(l) => parse_infix(toks, j, errors, l, min),
    }
}

/// Parses a literal or a parenthesised expression.
fn parse_prefix(toks: &Vec<MarkedToken>, i: usize, errors: &mut Vec<String>) -> (r: (usize, Option<Expression>))
    requires
        tokens_ok(toks@),
        i <= toks@.len(),
    ensures
        ({
            let (st, e) = prefix_expr(toks@, st_of(i, *old(errors)));
            st == st_of(r.0, *final(errors)) && opt_expr_model(r.1) == e
        }),
        i <= r.0 <= toks@.len(),
    decreases toks@.len() - i, 1nat,
{
    if i >= toks.len() {
        error_out(toks, i, errors, EXPRESSION_EXPECTED);
        return (i, None);
    }
    match &toks[i].token {
        Token::Number(_, v) => (i, Some(Expression::Literal(LiteralExpression::Number(copy_number(v))))),
        Token::True => (i, Some(Expression::Literal(LiteralExpression::True))),
        Token::False => (i, Some(Expression::Literal(LiteralExpression::False))),
        Token::LeftParenthesis => {
            let (j, inner) = parse_expression(toks, i + 1, errors, LOWEST_PRECEDENCE);
            match inner {
                None => (j, None),
                Some(e) => {
                    let k = advance(toks, j);
                    if k < toks.len() && matches!(toks[k].token, Token::RightParenthesis) {
                        (k, Some(e))
                    } else {
                        error_out(toks, k, errors, PARENTHESIS_EXPECTED);
                        (k, None)
                    }
                },
            }
        },
        Token::Identifier(_) | Token::String(_) | Token::Time(_, _) | Token::Plus | Token::Minus | Token::Not => {
            error_out(toks, i, errors, EXPRESSION_UNSUPPORTED);
            (i, None)
        },
        _ => {
            error_out(toks, i, errors, EXPRESSION_KIND_INVALID);
            (i, None)
        },
    }
}

/// Folds `left` with the operators that follow while they bind tighter than `min`.
fn parse_infix(toks: &Vec<MarkedToken>, i: usize, errors: &mut Vec<String>, left: Expression, min: u8) -> (r: (usize, Option<Expression>))
    requires
        tokens_ok(toks@),
        i <= toks@.len(),
    ensures
        ({
            let (st, e) = infix_chain(toks@, st_of(i, *old(errors)), expr_model(left), min);
            st == st_of(r.0, *final(errors)) && opt_expr_model(r.1) == e
        }),
        i <= r.0 <= toks@.len(),
    decreases toks@.len() - i, 0nat,
{
    if i >= toks.len() || toks.len() - i < 2 {
        return (i, Some(left));
    }
    match get_infix_operator(&toks[i + 1].token) {
        None => (i, Some(left)),
        Some(op) => {
            let p = get_precedence(&toks[i + 1].token);
            if p > min {
                let (j, right) = parse_expression(toks, i + 2, errors, p);
                match right {
                    None => (j, None),
                    Some(r) => {
                        let e = Expression::Infix(InfixExpression { left: Box::new(left), right: Box::new(r), op });
                        parse_infix(toks, j, errors, e, min)
                    },
                }
            } else {
                (i, Some(left))
            }
        },
    }
}

/// Parses an expression and the semicolon after it.
fn parse_expression_statement(toks: &Vec<MarkedToken>, i: usize, errors: &mut Vec<String>) -> (r: (usize, Option<Statement>))
    requires
        tokens_ok(toks@),
        i <= toks@.len(),
    ensures
        ({
            let (st, s) = expression_statement(toks@, st_of(i, *old(errors)));
            st == st_of(r.0, *final(errors)) && opt_stmt_model(r.1) == s
        }),
        i <= r.0 <= toks@.len(),
{
    let (j, e) = parse_expression(toks, i, errors, LOWEST_PRECEDENCE);
    match e {
        None => (j, None),
        Some(x) => {
            let k = advance(toks, j);
            if k >= toks.len() {
                error_out(toks, k, errors, SEMICOLON_MISSING_AT_END);
                (k, None)
            } else if matches!(toks[k].token, Token::SemiColon) {
                (k, Some(Statement::Expression(x)))
            } else {
                error_out(toks, k, errors, SEMICOLON_EXPECTED);
                (k, None)
            }
        },
    }
}

/// Parses the statement at token `i`.
fn parse_statement(toks: &Vec<MarkedToken>, i: usize, errors: &mut Vec<String>) -> (r: (usize, Option<Statement>))
    requires
        tokens_ok(toks@),
        i <= toks@.len(),
    ensures
        ({
            let (st, s) = statement(toks@, st_of(i, *old(errors)));
            st == st_of(r.0, *final(errors)) && opt_stmt_model(r.1) == s
        }),
        i <= r.0 <= toks@.len(),
    decreases toks@.len() - i, 1nat,
{
    if i >= toks.len() {
        error_out(toks, i, errors, STATEMENT_EXPECTED);
        return (i, None);
    }
    match &toks[i].token {
        Token::SemiColon => (i, Some(Statement::Empty)),
        Token::Exit => (advance(toks, i), Some(Statement::Exit)),
        Token::Return => (advance(toks, i), Some(Statement::Return)),
        Token::If => parse_if_condition(toks, i, errors),
        Token::Case => {
            error_out(toks, i, errors, CASE_UNSUPPORTED);
            (i, None)
        },
        Token::For => {
            error_out(toks, i, errors, FOR_UNSUPPORTED);
            (i, None)
        },
        Token::While => {
            error_out(toks, i, errors, WHILE_UNSUPPORTED);
            (i, None)
        },
        Token::Pragma(_) => {
            error_out(toks, i, errors, PRAGMA_UNSUPPORTED);
            (i, None)
        },
        _ => parse_expression_statement(toks, i, errors),
    }
}

/// The if-chain being built, as its model.
pub open spec fn parts_model(
    branch: IfConditionalBranch,
    alts: Vec<IfConditionalBranch>,
    fallback: Option<Vec<Statement>>,
    target: u8,
) -> IfModel {
    IfModel {
        branch: branch_model(branch),
        alts: branches_model(alts, alts@.len() as int),
        fallback: match fallback {
            Some(v) => Some(stmts_model(v, v@.len() as int)),
            None => None,
        },
        target: target as int,
    }
}

/// Appends a statement to the body that `target` names.
fn append_statement(
    branch: &mut IfConditionalBranch,
    alts: &mut Vec<IfConditionalBranch>,
    fallback: &mut Option<Vec<Statement>>,
    target: u8,
    s: Statement,
)
    requires
        target <= 2,
        target == 1 ==> old(alts)@.len() > 0,
    ensures
        parts_model(*final(branch), *final(alts), *final(fallback), target)
            == append_to_target(parts_model(*old(branch), *old(alts), *old(fallback), target), stmt_model(s)),
        final(alts)@.len() == old(alts)@.len(),
{
    if target == 0 {
        push_statement(&mut branch.statements, s);
        assert(branch_model(*final(branch)) =~= (BranchModel {
            statements: branch_model(*old(branch)).statements.push(stmt_model(s)),
            ..branch_model(*old(branch))
        }));
    } else if target == 1 {
        let ghost n = alts@.len() as int;
        let mut last = alts.pop().unwrap();
        let ghost last0 = last;
        push_statement(&mut last.statements, s);
        let ghost rest = *alts;
        push_branch(alts, last);
        proof {
            crate::ast::lemma_branches_model_prefix(*old(alts), rest, n - 1);
            crate::ast::lemma_branches_model_len(*old(alts), n - 1);
            let m0 = branches_model(*old(alts), n);
            let b0 = branch_model(last0);
            assert(branch_model(last) == BranchModel { statements: b0.statements.push(stmt_model(s)), ..b0 });
            assert(branches_model(*final(alts), n) =~= m0.update(n - 1, BranchModel { statements: b0.statements.push(stmt_model(s)), ..b0 }));
        }
    } else {
        match fallback {
            Some(v) => {
                push_statement(v, s);
            },
            None => {},
        }
    }
}

/// Parses an if-chain; token `i` is `IF`.
fn parse_if_condition(toks: &Vec<MarkedToken>, i: usize, errors: &mut Vec<String>) -> (r: (usize, Option<Statement>))
    requires
        tokens_ok(toks@),
        i < toks@.len(),
    ensures
        ({
            let (st, s) = if_chain(toks@, st_of(i, *old(errors)));
            st == st_of(r.0, *final(errors)) && opt_stmt_model(r.1) == s
        }),
        i <= r.0 <= toks@.len(),
    decreases toks@.len() - i, 0nat,
{
    let (j0, c) = parse_expression(toks, advance(toks, i), errors, LOWEST_PRECEDENCE);
    let condition = match c {
        None => {
            error_out(toks, j0, errors, IF_CONDITION_EXPECTED);
            return (j0, None);
        },
        Some(x) => x,
    };
    let k0 = advance(toks, j0);
    if !(k0 < toks.len() && matches!(toks[k0].token, Token::Then)) {
        error_out(toks, k0, errors, THEN_EXPECTED);
        return (k0, None);
    }
    let mut j = advance(toks, k0);
    let mut branch = IfConditionalBranch { condition, statements: Vec::new() };
    let mut alts: Vec<IfConditionalBranch> = Vec::new();
    let mut fallback: Option<Vec<Statement>> = None;
    let mut target: u8 = 0;
    let ghost result = if_chain(toks@, st_of(i, *old(errors)));
    proof {
        assert(branches_model(alts, 0) =~= Seq::<BranchModel>::empty());
        assert(stmts_model(branch.statements, 0) =~= Seq::<StmtModel>::empty());
    }
    loop
        invariant
            tokens_ok(toks@),
            i < j <= toks@.len(),
            target <= 2,
            target == 1 ==> alts@.len() > 0,
            if_body(toks@, st_of(j, *errors), parts_model(branch, alts, fallback, target)) == result,
            result == if_chain(toks@, st_of(i, *old(errors))),
        decreases toks@.len() - j,
    {
        if j >= toks.len() {
            error_out(toks, j, errors, IF_UNCLOSED);
            return (j, None);
        }
        if matches!(toks[j].token, Token::EndIf) {
            let chain = IfCondition { branch, alt_branches: alts, fallback };
            return (advance(toks, j), Some(Statement::If(chain)));
        } else if matches!(toks[j].token, Token::Else) {
            fallback = Some(Vec::new());
            target = 2;
            proof {
                assert(stmts_model(fallback->0, 0) =~= Seq::<StmtModel>::empty());
            }
            j = advance(toks, j);
        } else if matches!(toks[j].token, Token::Elsif) {
            let (j1, c) = parse_expression(toks, advance(toks, j), errors, LOWEST_PRECEDENCE);
            match c {
                None => {
                    error_out(toks, j1, errors, ELSIF_CONDITION_EXPECTED);
                    return (j1, None);
                },
                Some(x) => {
                    let alt = IfConditionalBranch { condition: x, statements: Vec::new() };
                    proof {
                        assert(stmts_model(alt.statements, 0) =~= Seq::<StmtModel>::empty());
                    }
                    push_branch(&mut alts, alt);
                    target = 1;
                    let k = advance(toks, j1);
                    if !(k < toks.len() && matches!(toks[k].token, Token::Then)) {
                        error_out(toks, k, errors, THEN_EXPECTED);
                        return (k, None);
                    }
                    j = advance(toks, k);
                },
            }
        } else {
            let (j1, s) = parse_statement(toks, j, errors);
            match s {
                Some(x) => {
                    append_statement(&mut branch, &mut alts, &mut fallback, target, x);
                },
                None => {
                    error_out(toks, j1, errors, IF_STATEMENT_EXPECTED);
                },
            }
            j = advance(toks, j1);
        }
    }
}

/// Parses a program block; token `i` is `PROGRAM`. On success the parser stops on `END_PROGRAM`.
fn parse_program(toks: &Vec<MarkedToken>, i: usize, errors: &mut Vec<String>) -> (r: (usize, Option<Block>))
    requires
        tokens_ok(toks@),
        i < toks@.len(),
    ensures
        ({
            let (st, b) = program(toks@, st_of(i, *old(errors)));
            st == st_of(r.0, *final(errors)) && opt_block_model(r.1) == b
        }),
        i <= r.0 <= toks@.len(),
{
    let j = advance(toks, i);
    if j >= toks.len() {
        error_out(toks, j, errors, IDENTIFIER_EXPECTED);
        return (j, None);
    }
    let name = match &toks[j].token {
        Token::Identifier(n) => n.clone(),
        _ => {
            error_out(toks, j, errors, IDENTIFIER_EXPECTED);
            return (j, None);
        },
    };
    let mut k = advance(toks, j);
    let mut statements: Vec<Statement> = Vec::new();
    let ghost result = program(toks@, st_of(i, *old(errors)));
    assert(stmts_model(statements, 0) =~= Seq::<StmtModel>::empty());
    while k < toks.len()
        invariant
            tokens_ok(toks@),
            i <= k <= toks@.len(),
            result == program(toks@, st_of(i, *old(errors))),
            program_body(toks@, st_of(k, *errors), name@, stmts_model(statements, statements@.len() as int)) == result,
        decreases toks@.len() - k,
    {
        if matches!(toks[k].token, Token::EndProgram) {
            return (k, Some(Block::Program(name, statements)));
        }
        let (k1, s) = parse_statement(toks, k, errors);
        match s {
            Some(x) => push_statement(&mut statements, x),
            None => {},
        }
        k = advance(toks, k1);
    }
    let mut msg = String::new();
    msg.push_str(PROGRAM_UNCLOSED_START);
    msg.push_str(name.as_str());
    msg.push_str(PROGRAM_UNCLOSED_END);
    assert(msg@ =~= program_unclosed(name@));
    error_out(toks, k, errors, msg.as_str());
    (k, None)
}

/// Parses the top-level block at token `i`.
fn parse_block(toks: &Vec<MarkedToken>, i: usize, errors: &mut Vec<String>) -> (r: (usize, Option<Block>))
    requires
        tokens_ok(toks@),
        i < toks@.len(),
    ensures
        ({
            let (st, b) = block(toks@, st_of(i, *old(errors)));
            st == st_of(r.0, *final(errors)) && opt_block_model(r.1) == b
        }),
        i <= r.0 <= toks@.len(),
{
    match &toks[i].token {
        Token::Program => parse_program(toks, i, errors),
        Token::Action => {
            error_out(toks, i, errors, ACTION_UNSUPPORTED);
            (i, None)
        },
        Token::Function => {
            error_out(toks, i, errors, FUNCTION_UNSUPPORTED);
            (i, None)
        },
        Token::FunctionBlock => {
            error_out(toks, i, errors, FUNCTION_BLOCK_UNSUPPORTED);
            (i, None)
        },
        Token::Var => {
            error_out(toks, i, errors, VAR_UNSUPPORTED);
            (i, None)
        },
        Token::Type => {
            error_out(toks, i, errors, TYPE_UNSUPPORTED);
            (i, None)
        },
        _ => {
            error_out(toks, i, errors, BLOCK_EXPECTED);
            (i, None)
        },
    }
}

/// Parses a token list: every block, then the outcome.
fn parse_tokens(toks: &Vec<MarkedToken>) -> (r: (Ast, Vec<String>))
    requires
        tokens_ok(toks@),
    ensures
        parse_outcome(toks@, r),
{
    let mut errors: Vec<String> = Vec::new();
    let mut ast = Ast::new();
    let mut i: usize = 0;
    let ghost result = parse_model(toks@);
    assert(errors_model(errors) =~= Seq::<Seq<char>>::empty());
    assert(blocks_model(ast.blocks) =~= Seq::<BlockModel>::empty());
    while i < toks.len()
        invariant
            tokens_ok(toks@),
            i <= toks@.len(),
            result == parse_model(toks@),
            blocks(toks@, st_of(i, errors), blocks_model(ast.blocks)) == result,
        decreases toks@.len() - i,
    {
        let (j, b) = parse_block(toks, i, &mut errors);
        match b {
            Some(x) => {
                let ghost old_blocks = ast.blocks;
                ast.blocks.push(x);
                assert(blocks_model(ast.blocks) =~= blocks_model(old_blocks).push(block_model(x)));
            },
            None => {},
        }
        i = advance(toks, j);
    }
    (ast, errors)
}

/// One token that the lexer yields extends the stream from where it stood.
proof fn lemma_stream_step(file: Seq<char>, src: Seq<char>, before: int, t: MarkedToken, after: int)
    requires
        0 <= before <= src.len(),
        src.len() <= usize::MAX,
        lexes(file, src, before, Some(t), after),
    ensures
        t.marker@.pos <= t.marker@.src.len(),
        forall|rest: Seq<MarkedToken>| #[trigger] stream_from(file, src, after, rest) ==> {
            if t.token is Comment {
                stream_from(file, src, before, rest)
            } else {
                stream_from(file, src, before, seq![t] + rest)
            }
        },
{
    reveal(stream_from);
    lemma_whitespace_end_bounds(src, before);
    let j = whitespace_end(src, before);
    lemma_position_bounds(src, j);
    assert forall|rest: Seq<MarkedToken>| #[trigger] stream_from(file, src, after, rest) implies {
        if t.token is Comment {
            stream_from(file, src, before, rest)
        } else {
            stream_from(file, src, before, seq![t] + rest)
        }
    } by {
        let rest2 = seq![t] + rest;
        assert(rest2.drop_first() =~= rest);
        assert(rest2[0] == t);
    }
}

/// Where the lexer yields nothing, the stream from there is empty.
proof fn lemma_stream_end(file: Seq<char>, src: Seq<char>, before: int, after: int)
    requires
        0 <= before <= src.len(),
        lexes(file, src, before, None, after),
    ensures
        stream_from(file, src, before, Seq::empty()),
        forall|rest: Seq<MarkedToken>| #[trigger] stream_from(file, src, after, rest) ==> rest == Seq::<MarkedToken>::empty(),
{
    reveal(stream_from);
    lemma_whitespace_end_bounds(src, before);
    assert forall|rest: Seq<MarkedToken>| #[trigger] stream_from(file, src, after, rest) implies rest == Seq::<MarkedToken>::empty() by {
        lemma_whitespace_end_bounds(src, after);
        assert(rest =~= Seq::<MarkedToken>::empty());
    }
}

/// Drains the lexer, leaving the comments out.
fn collect_tokens<'a>(lexer: &mut Lexer<'a>) -> (r: Vec<MarkedToken<'a>>)
    requires
        old(lexer).wf(),
    ensures
        stream_from(old(lexer)@.file, old(lexer)@.src, old(lexer)@.idx, r@),
        tokens_ok(r@),
{
    let mut toks: Vec<MarkedToken<'a>> = Vec::new();
    let ghost file = lexer@.file;
    let ghost src = lexer@.src;
    let ghost start = lexer@.idx;
    proof {
        lexer.lemma_wf_bounds();
        assert forall|rest: Seq<MarkedToken>| #[trigger] stream_from(file, src, lexer@.idx, rest)
            implies stream_from(file, src, start, toks@ + rest) by {
            assert(toks@ + rest =~= rest);
        }
    }
    loop
        invariant
            lexer.wf(),
            lexer@.src == src,
            lexer@.file == file,
            0 <= lexer@.idx <= src.len(),
            src.len() <= usize::MAX,
            forall|rest: Seq<MarkedToken>| #[trigger] stream_from(file, src, lexer@.idx, rest)
                ==> stream_from(file, src, start, toks@ + rest),
            tokens_ok(toks@),
        ensures
            stream_from(file, src, start, toks@),
            tokens_ok(toks@),
        decreases src.len() - lexer@.idx,
    {
        let ghost before = lexer@.idx;
        let ghost old_toks = toks@;
        match lexer.next() {
            None => {
                proof {
                    lemma_stream_end(file, src, before, lexer@.idx);
                    assert(toks@ + Seq::<MarkedToken>::empty() =~= toks@);
                }
                break;
            },
            Some(t) => {
                let ghost after = lexer@.idx;
                proof {
                    lemma_stream_step(file, src, before, t, after);
                }
                if !matches!(t.token, Token::Comment(_)) {
                    toks.push(t);
                    proof {
                        assert forall|rest: Seq<MarkedToken>| #[trigger] stream_from(file, src, after, rest)
                            implies stream_from(file, src, start, toks@ + rest) by {
                            let rest2 = seq![t] + rest;
                            assert(stream_from(file, src, before, rest2));
                            assert(old_toks + rest2 =~= toks@ + rest);
                        }
                        assert forall|k: int| 0 <= k < toks@.len() implies (#[trigger] toks@[k]).marker@.pos
                            <= toks@[k].marker@.src.len() by {
                            if k < old_toks.len() {
                                assert(toks@[k] == old_toks[k]);
                            }
                        }
                    }
                }
            },
        }
    }
    toks
}

/// Parses what the lexer yields from where it stands, comments left out. The outcome
/// holds the blocks that were parsed and the diagnostics; a failed block does not stop
/// the next one.
pub fn parse(lexer: Lexer) -> (r: (Ast, Vec<String>))
    requires
        lexer.wf(),
    ensures
        exists|toks: Seq<MarkedToken>| stream_from(lexer@.file, lexer@.src, lexer@.idx, toks) && parse_outcome(toks, r),
{
    let mut lexer = lexer;
    let toks = collect_tokens(&mut lexer);
    parse_tokens(&toks)
}

/// `b` holds the diagnostics of `a`, in order, and maybe more after them.
pub open spec fn extends(a: Seq<Seq<char>>, b: Seq<Seq<char>>) -> bool {
    a.len() <= b.len() && b.subrange(0, a.len() as int) == a
}

proof fn lemma_extends_trans(a: Seq<Seq<char>>, b: Seq<Seq<char>>, c: Seq<Seq<char>>)
    requires
        extends(a, b),
        extends(b, c),
    ensures
        extends(a, c),
{
    assert(c.subrange(0, a.len() as int) =~= b.subrange(0, a.len() as int));
}

proof fn lemma_extends_fail(t: Seq<MarkedToken>, st: PState, msg: Seq<char>)
    ensures
        extends(st.errs, fail(t, st, msg).errs),
{
    assert(fail(t, st, msg).errs.subrange(0, st.errs.len() as int) =~= st.errs);
}

proof fn lemma_extends_refl(a: Seq<Seq<char>>)
    ensures
        extends(a, a),
{
    assert(a.subrange(0, a.len() as int) =~= a);
}

proof fn lemma_expr_extends(t: Seq<MarkedToken>, st: PState, min: u8)
    ensures
        extends(st.errs, expr(t, st, min).0.errs),
    decreases t.len() - st.i, 2nat,
{
    lemma_extends_refl(st.errs);
    if in_range(t, st) {
        let (st1, left) = prefix_expr(t, st);
        lemma_prefix_extends(t, st);
        match left {
            None => {},
            Some(l) => if !(st1.i < st.i || st1.i > t.len()) {
                lemma_infix_extends(t, st1, l, min);
                lemma_extends_trans(st.errs, st1.errs, expr(t, st, min).0.errs);
            },
        }
    }
}

proof fn lemma_prefix_extends(t: Seq<MarkedToken>, st: PState)
    ensures
        extends(st.errs, prefix_expr(t, st).0.errs),
    decreases t.len() - st.i, 1nat,
{
    lemma_extends_refl(st.errs);
    if in_range(t, st) {
        match tok(t, st.i) {
            None => lemma_extends_fail(t, st, EXPRESSION_EXPECTED@),
            Some(k) => match k {
                Token::LeftParenthesis => {
                    let (st1, inner) = expr(t, adv(t, st), LOWEST_PRECEDENCE);
                    lemma_expr_extends(t, adv(t, st), LOWEST_PRECEDENCE);
                    let st2 = adv(t, st1);
                    lemma_extends_fail(t, st2, PARENTHESIS_EXPECTED@);
                    lemma_extends_trans(st.errs, st1.errs, fail(t, st2, PARENTHESIS_EXPECTED@).errs);
                },
                _ => {
                    lemma_extends_fail(t, st, EXPRESSION_UNSUPPORTED@);
                    lemma_extends_fail(t, st, EXPRESSION_KIND_INVALID@);
                },
            },
        }
    }
}

proof fn lemma_infix_extends(t: Seq<MarkedToken>, st: PState, left: ExprModel, min: u8)
    ensures
        extends(st.errs, infix_chain(t, st, left, min).0.errs),
    decreases t.len() - st.i, 0nat,
{
    lemma_extends_refl(st.errs);
    if in_range(t, st) {
        match tok(t, st.i + 1) {
            Some(k) => match infix_operator(k) {
                Some(op) => if precedence(k) > min {
                    let st1 = adv(t, adv(t, st));
                    let (st2, right) = expr(t, st1, precedence(k));
                    lemma_expr_extends(t, st1, precedence(k));
                    match right {
                        None => {},
                        Some(r) => if !(st2.i < st1.i || st2.i > t.len()) {
                            let e = ExprModel::Infix(Box::new(left), op, Box::new(r));
                            lemma_infix_extends(t, st2, e, min);
                            lemma_extends_trans(st.errs, st2.errs, infix_chain(t, st2, e, min).0.errs);
                        },
                    }
                },
                None => {},
            },
            None => {},
        }
    }
}

proof fn lemma_expression_statement_extends(t: Seq<MarkedToken>, st: PState)
    ensures
        extends(st.errs, expression_statement(t, st).0.errs),
{
    let (st1, e) = expr(t, st, LOWEST_PRECEDENCE);
    lemma_expr_extends(t, st, LOWEST_PRECEDENCE);
    let st2 = adv(t, st1);
    lemma_extends_fail(t, st2, SEMICOLON_MISSING_AT_END@);
    lemma_extends_fail(t, st2, SEMICOLON_EXPECTED@);
    lemma_extends_trans(st.errs, st1.errs, fail(t, st2, SEMICOLON_MISSING_AT_END@).errs);
    lemma_extends_trans(st.errs, st1.errs, fail(t, st2, SEMICOLON_EXPECTED@).errs);
}

proof fn lemma_statement_extends(t: Seq<MarkedToken>, st: PState)
    ensures
        extends(st.errs, statement(t, st).0.errs),
    decreases t.len() - st.i, 1nat,
{
    lemma_extends_refl(st.errs);
    if in_range(t, st) {
        match tok(t, st.i) {
            None => lemma_extends_fail(t, st, STATEMENT_EXPECTED@),
            Some(k) => match k {
                Token::If => lemma_if_chain_extends(t, st),
                Token::Case => lemma_extends_fail(t, st, CASE_UNSUPPORTED@),
                Token::For => lemma_extends_fail(t, st, FOR_UNSUPPORTED@),
                Token::While => lemma_extends_fail(t, st, WHILE_UNSUPPORTED@),
                Token::Pragma(_) => lemma_extends_fail(t, st, PRAGMA_UNSUPPORTED@),
                _ => lemma_expression_statement_extends(t, st),
            },
        }
    }
}

proof fn lemma_if_chain_extends(t: Seq<MarkedToken>, st: PState)
    ensures
        extends(st.errs, if_chain(t, st).0.errs),
    decreases t.len() - st.i, 0nat,
{
    lemma_extends_refl(st.errs);
    if 0 <= st.i < t.len() {
        let (st1, c) = expr(t, adv(t, st), LOWEST_PRECEDENCE);
        lemma_expr_extends(t, adv(t, st), LOWEST_PRECEDENCE);
        match c {
            None => {
                lemma_extends_fail(t, st1, IF_CONDITION_EXPECTED@);
                lemma_extends_trans(st.errs, st1.errs, fail(t, st1, IF_CONDITION_EXPECTED@).errs);
            },
            Some(cond) => {
                let st2 = adv(t, st1);
                if tok(t, st2.i) == Some(Token::Then) {
                    let st3 = adv(t, st2);
                    if !(st3.i <= st.i || st3.i > t.len()) {
                        let m = IfModel {
                            branch: BranchModel { condition: cond, statements: Seq::empty() },
                            alts: Seq::empty(),
                            fallback: None,
                            target: 0,
                        };
                        lemma_if_body_extends(t, st3, m);
                        lemma_extends_trans(st.errs, st3.errs, if_body(t, st3, m).0.errs);
                    }
                } else {
                    lemma_extends_fail(t, st2, THEN_EXPECTED@);
                    lemma_extends_trans(st.errs, st2.errs, fail(t, st2, THEN_EXPECTED@).errs);
                }
            },
        }
    }
}

proof fn lemma_if_body_extends(t: Seq<MarkedToken>, st: PState, m: IfModel)
    ensures
        extends(st.errs, if_body(t, st, m).0.errs),
    decreases t.len() - st.i, 2nat,
{
    lemma_extends_refl(st.errs);
    if in_range(t, st) {
        match tok(t, st.i) {
            None => lemma_extends_fail(t, st, IF_UNCLOSED@),
            Some(k) => if k == Token::EndIf {
            } else if k == Token::Else {
                let m2 = IfModel { fallback: Some(Seq::empty()), target: 2, ..m };
                lemma_if_body_extends(t, adv(t, st), m2);
            } else if k == Token::Elsif {
                let (st1, c) = expr(t, adv(t, st), LOWEST_PRECEDENCE);
                lemma_expr_extends(t, adv(t, st), LOWEST_PRECEDENCE);
                match c {
                    None => {
                        lemma_extends_fail(t, st1, ELSIF_CONDITION_EXPECTED@);
                        lemma_extends_trans(st.errs, st1.errs, fail(t, st1, ELSIF_CONDITION_EXPECTED@).errs);
                    },
                    Some(cond) => {
                        let m2 = IfModel {
                            alts: m.alts.push(BranchModel { condition: cond, statements: Seq::empty() }),
                            target: 1,
                            ..m
                        };
                        let st2 = adv(t, st1);
                        if tok(t, st2.i) == Some(Token::Then) {
                            let st3 = adv(t, st2);
                            if !(st3.i <= st.i || st3.i > t.len()) {
                                lemma_if_body_extends(t, st3, m2);
                                lemma_extends_trans(st.errs, st3.errs, if_body(t, st3, m2).0.errs);
                            }
                        } else {
                            lemma_extends_fail(t, st2, THEN_EXPECTED@);
                            lemma_extends_trans(st.errs, st2.errs, fail(t, st2, THEN_EXPECTED@).errs);
                        }
                    },
                }
            } else {
                let (st1, s) = statement(t, st);
                lemma_statement_extends(t, st);
                if !(st1.i < st.i || st1.i > t.len()) {
                    match s {
                        Some(x) => {
                            let m2 = append_to_target(m, x);
                            lemma_if_body_extends(t, adv(t, st1), m2);
                            lemma_extends_trans(st.errs, st1.errs, if_body(t, adv(t, st1), m2).0.errs);
                        },
                        None => {
                            let st2 = fail(t, st1, IF_STATEMENT_EXPECTED@);
                            lemma_extends_fail(t, st1, IF_STATEMENT_EXPECTED@);
                            lemma_extends_trans(st.errs, st1.errs, st2.errs);
                            lemma_if_body_extends(t, adv(t, st2), m);
                            lemma_extends_trans(st.errs, st2.errs, if_body(t, adv(t, st2), m).0.errs);
                        },
                    }
                }
            },
        }
    }
}

proof fn lemma_program_body_extends(t: Seq<MarkedToken>, st: PState, name: Seq<char>, body: Seq<StmtModel>)
    ensures
        extends(st.errs, program_body(t, st, name, body).0.errs),
    decreases t.len() - st.i,
{
    lemma_extends_refl(st.errs);
    if in_range(t, st) {
        match tok(t, st.i) {
            None => lemma_extends_fail(t, st, program_unclosed(name)),
            Some(k) => if k != Token::EndProgram {
                let (st1, s) = statement(t, st);
                lemma_statement_extends(t, st);
                if !(st1.i < st.i || st1.i > t.len()) {
                    let body2 = match s {
                        Some(x) => body.push(x),
                        None => body,
                    };
                    lemma_program_body_extends(t, adv(t, st1), name, body2);
                    lemma_extends_trans(st.errs, st1.errs, program_body(t, adv(t, st1), name, body2).0.errs);
                }
            },
        }
    }
}

proof fn lemma_block_extends(t: Seq<MarkedToken>, st: PState)
    ensures
        extends(st.errs, block(t, st).0.errs),
{
    lemma_extends_refl(st.errs);
    lemma_extends_fail(t, st, BLOCK_EXPECTED@);
    lemma_extends_fail(t, st, ACTION_UNSUPPORTED@);
    lemma_extends_fail(t, st, FUNCTION_UNSUPPORTED@);
    lemma_extends_fail(t, st, FUNCTION_BLOCK_UNSUPPORTED@);
    lemma_extends_fail(t, st, VAR_UNSUPPORTED@);
    lemma_extends_fail(t, st, TYPE_UNSUPPORTED@);
    if tok(t, st.i) == Some(Token::Program) {
        let st1 = adv(t, st);
        lemma_extends_fail(t, st1, IDENTIFIER_EXPECTED@);
        match tok(t, st1.i) {
            Some(k) => match k {
                Token::Identifier(name) => lemma_program_body_extends(t, adv(t, st1), name@, Seq::empty()),
                _ => {},
            },
            None => {},
        }
    }
}

/// Parsing never takes back a diagnostic: the blocks that follow only add to them.
pub proof fn lemma_blocks_extends(t: Seq<MarkedToken>, st: PState, acc: Seq<BlockModel>)
    ensures
        extends(st.errs, blocks(t, st, acc).0.errs),
    decreases t.len() - st.i,
{
    lemma_extends_refl(st.errs);
    if 0 <= st.i < t.len() {
        let (st1, b) = block(t, st);
        lemma_block_extends(t, st);
        if !(st1.i < st.i || st1.i > t.len()) {
            let acc2 = match b {
                Some(x) => acc.push(x),
                None => acc,
            };
            lemma_blocks_extends(t, adv(t, st1), acc2);
            lemma_extends_trans(st.errs, st1.errs, blocks(t, adv(t, st1), acc2).0.errs);
        }
    }
}

} // verus!
