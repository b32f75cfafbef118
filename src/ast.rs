use vstd::prelude::*;
use crate::token::NumberValue;

verus! {

broadcast use vstd::std_specs::vec::axiom_vec_index_decreases;

/// The blocks of a parsed source, in source order.
pub struct Ast {
    pub blocks: Vec<Block>,
}

impl Ast {
    pub fn new() -> (r: Self)
        ensures
            r.blocks@.len() == 0,
    {
        Self { blocks: Vec::new() }
    }
}

#[derive(Debug, PartialEq)]
pub enum Block {
    Program(String, Vec<Statement>),
}

#[derive(Debug, PartialEq)]
pub enum Statement {
    Empty,
    Expression(Expression),
    Return,
    Exit,
    If(IfCondition),
}

#[derive(Debug, PartialEq)]
pub enum Expression {
    Literal(LiteralExpression),
    Infix(InfixExpression),
}

#[derive(Debug, PartialEq)]
pub enum LiteralExpression {
    Number(NumberValue),
    True,
    False,
}

#[derive(Debug, PartialEq)]
pub struct InfixExpression {
    pub left: Box<Expression>,
    pub right: Box<Expression>,
    pub op: InfixOperator,
}

#[derive(Debug, PartialEq, Eq, Structural)]
pub enum InfixOperator {
    Addition,
    Subtraction,
    Multiplication,
    Division,
    Modulo,
}

#[derive(Debug, PartialEq)]
pub struct IfCondition {
    pub branch: IfConditionalBranch,
    pub alt_branches: Vec<IfConditionalBranch>,
    pub fallback: Option<Vec<Statement>>,
}

#[derive(Debug, PartialEq)]
pub struct IfConditionalBranch {
    pub condition: Expression,
    pub statements: Vec<Statement>,
}

/// The value of an expression tree.
pub enum ExprModel {
    Literal(LiteralExpression),
    Infix(Box<ExprModel>, InfixOperator, Box<ExprModel>),
}

/// The value of a statement, its bodies as sequences.
pub enum StmtModel {
    Empty,
    Expression(ExprModel),
    Return,
    Exit,
    If(BranchModel, Seq<BranchModel>, Option<Seq<StmtModel>>),
}

pub struct BranchModel {
    pub condition: ExprModel,
    pub statements: Seq<StmtModel>,
}

pub enum BlockModel {
    Program(Seq<char>, Seq<StmtModel>),
}

pub open spec fn expr_model(e: Expression) -> ExprModel
    decreases e,
{
    match e {
        Expression::Literal(l) => ExprModel::Literal(l),
        Expression::Infix(x) => ExprModel::Infix(Box::new(expr_model(*x.left)), x.op, Box::new(expr_model(*x.right))),
    }
}

pub open spec fn stmt_model(s: Statement) -> StmtModel
    decreases s, 0nat,
{
    match s {
        Statement::Empty => StmtModel::Empty,
        Statement::Expression(e) => StmtModel::Expression(expr_model(e)),
        Statement::Return => StmtModel::Return,
        Statement::Exit => StmtModel::Exit,
        Statement::If(c) => StmtModel::If(
            branch_model(c.branch),
            branches_model(c.alt_branches, c.alt_branches@.len() as int),
            match c.fallback {
                Some(v) => Some(stmts_model(v, v@.len() as int)),
                None => None,
            },
        ),
    }
}

pub open spec fn branch_model(b: IfConditionalBranch) -> BranchModel
    decreases b, 0nat,
{
    BranchModel { condition: expr_model(b.condition), statements: stmts_model(b.statements, b.statements@.len() as int) }
}

pub open spec fn stmts_model(v: Vec<Statement>, n: int) -> Seq<StmtModel>
    decreases v, n,
{
    if n <= 0 || n > v@.len() {
        Seq::empty()
    } else {
        stmts_model(v, n - 1).push(stmt_model(v@[n - 1]))
    }
}

pub open spec fn branches_model(v: Vec<IfConditionalBranch>, n: int) -> Seq<BranchModel>
    decreases v, n,
{
    if n <= 0 || n > v@.len() {
        Seq::empty()
    } else {
        branches_model(v, n - 1).push(branch_model(v@[n - 1]))
    }
}

pub open spec fn block_model(b: Block) -> BlockModel {
    match b {
        Block::Program(name, statements) => BlockModel::Program(name@, stmts_model(statements, statements@.len() as int)),
    }
}

pub open spec fn blocks_model(v: Vec<Block>) -> Seq<BlockModel> {
    v@.map_values(|b: Block| block_model(b))
}

pub open spec fn opt_expr_model(e: Option<Expression>) -> Option<ExprModel> {
    match e {
        Some(x) => Some(expr_model(x)),
        None => None,
    }
}

pub open spec fn opt_stmt_model(s: Option<Statement>) -> Option<StmtModel> {
    match s {
        Some(x) => Some(stmt_model(x)),
        None => None,
    }
}

pub open spec fn opt_block_model(b: Option<Block>) -> Option<BlockModel> {
    match b {
        Some(x) => Some(block_model(x)),
        None => None,
    }
}

/// The statement model of a list depends only on the statements up to `n`.
pub proof fn lemma_stmts_model_prefix(v: Vec<Statement>, w: Vec<Statement>, n: int)
    requires
        0 <= n <= v@.len(),
        n <= w@.len(),
        forall|k: int| 0 <= k < n ==> v@[k] == w@[k],
    ensures
        stmts_model(v, n) == stmts_model(w, n),
    decreases n,
{
    if n > 0 {
        lemma_stmts_model_prefix(v, w, n - 1);
    }
}

/// The branch model of a list depends only on the branches up to `n`.
pub proof fn lemma_branches_model_prefix(v: Vec<IfConditionalBranch>, w: Vec<IfConditionalBranch>, n: int)
    requires
        0 <= n <= v@.len(),
        n <= w@.len(),
        forall|k: int| 0 <= k < n ==> v@[k] == w@[k],
    ensures
        branches_model(v, n) == branches_model(w, n),
    decreases n,
{
    if n > 0 {
        lemma_branches_model_prefix(v, w, n - 1);
    }
}

/// Appends a statement, keeping the model in step.
pub fn push_statement(v: &mut Vec<Statement>, s: Statement)
    ensures
        stmts_model(*final(v), final(v)@.len() as int) == stmts_model(*old(v), old(v)@.len() as int).push(stmt_model(s)),
        final(v)@ == old(v)@.push(s),
{
    v.push(s);
    proof {
        lemma_stmts_model_prefix(*old(v), *final(v), old(v)@.len() as int);
    }
}

/// Appends a branch, keeping the model in step.
pub fn push_branch(v: &mut Vec<IfConditionalBranch>, b: IfConditionalBranch)
    ensures
        branches_model(*final(v), final(v)@.len() as int) == branches_model(*old(v), old(v)@.len() as int).push(branch_model(b)),
        final(v)@ == old(v)@.push(b),
{
    v.push(b);
    proof {
        lemma_branches_model_prefix(*old(v), *final(v), old(v)@.len() as int);
    }
}

pub proof fn lemma_branches_model_len(v: Vec<IfConditionalBranch>, n: int)
    requires
        0 <= n <= v@.len(),
    ensures
        branches_model(v, n).len() == n,
    decreases n,
{
    if n > 0 {
        lemma_branches_model_len(v, n - 1);
    }
}

} // verus!
