//! The abstract syntax tree produced by the parser and walked by the
//! evaluator, together with its mathematical mirror (`ProgramModel`,
//! `StmtModel`, `ExprModel`) used by every contract.

use vstd::prelude::*;

use crate::token::Token;

verus! {

/// Prefix and infix operators of the language.
#[derive(Debug, Clone, Copy, PartialEq, Eq, Structural)]
pub enum Operator {
    Not,
    Neg,
    Add,
    Sub,
    Mul,
    Div,
    Greater,
    Less,
    Equal,
    NotEqual,
    Call,
    Index,
}

/// An ordered run of statements: the top-level unit, and likewise the body
/// of every block (function bodies, if/else branches).
#[derive(Debug, PartialEq)]
pub struct Program {
    pub statements: Vec<StatementNode>,
}

/// A name appearing in the source.
#[derive(Debug, PartialEq)]
pub struct Identifier(pub String);

#[derive(Debug, PartialEq)]
pub enum StatementNode {
    Let(Identifier, Box<ExpressionNode>),
    Return(Box<ExpressionNode>),
    If {
        condition: Box<ExpressionNode>,
        consequence: Box<Program>,
        alternative: Option<Box<Program>>,
    },
    Expression { expression: Box<ExpressionNode> },
}

#[derive(Debug, PartialEq)]
pub enum ExpressionNode {
    Identifier(Identifier),
    Bool(bool),
    Int(i64),
    String(String),
    Call { function: Box<ExpressionNode>, params: Vec<Box<ExpressionNode>> },
    Function { params: Vec<Identifier>, body: Box<Program> },
    Infix { operator: Operator, left: Box<ExpressionNode>, right: Box<ExpressionNode> },
    Prefix { operator: Operator, expression: Box<ExpressionNode> },
    ArrayLiteral { params: Vec<Box<ExpressionNode>> },
    Index { left: Box<ExpressionNode>, index: Box<ExpressionNode> },
    HashLiteral { params: Vec<(Box<ExpressionNode>, Box<ExpressionNode>)> },
}

/// A parsed program together with the token that introduced it.
pub struct Node {
    pub token: Token,
    pub program: Program,
}

/// Mathematical mirror of a [`Program`].
pub struct ProgramModel {
    pub statements: Seq<StmtModel>,
}

/// Mathematical mirror of a [`StatementNode`].
pub enum StmtModel {
    Let(Seq<char>, ExprModel),
    Return(ExprModel),
    If { condition: ExprModel, consequence: ProgramModel, alternative: Option<ProgramModel> },
    Expression(ExprModel),
}

/// Mathematical mirror of an [`ExpressionNode`].
pub enum ExprModel {
    Identifier(Seq<char>),
    Bool(bool),
    Int(int),
    Str(Seq<char>),
    Call { function: Box<ExprModel>, params: Seq<ExprModel> },
    Function { params: Seq<Seq<char>>, body: ProgramModel },
    Infix { operator: Operator, left: Box<ExprModel>, right: Box<ExprModel> },
    Prefix { operator: Operator, expression: Box<ExprModel> },
    ArrayLiteral { params: Seq<ExprModel> },
    Index { left: Box<ExprModel>, index: Box<ExprModel> },
    HashLiteral { params: Seq<(ExprModel, ExprModel)> },
}

/// The view of one expression, defined mutually with the views of runs of
/// sub-expressions.
pub open spec fn spec_view_expr(e: ExpressionNode) -> ExprModel
    decreases e,
{
    match e {
        ExpressionNode::Identifier(i) => ExprModel::Identifier(i@),
        ExpressionNode::Bool(b) => ExprModel::Bool(b),
        ExpressionNode::Int(n) => ExprModel::Int(n as int),
        ExpressionNode::String(s) => ExprModel::Str(s@),
        ExpressionNode::Call { function, params } => ExprModel::Call {
            function: Box::new(spec_view_expr(*function)),
            params: view_exprs(params@),
        },
        ExpressionNode::Function { params, body } => ExprModel::Function {
            params: view_idents(params@),
            body: spec_view_prog(*body),
        },
        ExpressionNode::Infix { operator, left, right } => ExprModel::Infix {
            operator,
            left: Box::new(spec_view_expr(*left)),
            right: Box::new(spec_view_expr(*right)),
        },
        ExpressionNode::Prefix { operator, expression } => ExprModel::Prefix {
            operator,
            expression: Box::new(spec_view_expr(*expression)),
        },
        ExpressionNode::ArrayLiteral { params } => ExprModel::ArrayLiteral {
            params: view_exprs(params@),
        },
        ExpressionNode::Index { left, index } => ExprModel::Index {
            left: Box::new(spec_view_expr(*left)),
            index: Box::new(spec_view_expr(*index)),
        },
        ExpressionNode::HashLiteral { params } => ExprModel::HashLiteral {
            params: view_pairs(params@),
        },
    }
}

/// The view of one statement.
pub open spec fn spec_view_stmt(s: StatementNode) -> StmtModel
    decreases s,
{
    match s {
        StatementNode::Let(name, e) => StmtModel::Let(name@, spec_view_expr(*e)),
        StatementNode::Return(e) => StmtModel::Return(spec_view_expr(*e)),
        StatementNode::If { condition, consequence, alternative } => StmtModel::If {
            condition: spec_view_expr(*condition),
            consequence: spec_view_prog(*consequence),
            alternative: match alternative {
                Some(p) => Some(spec_view_prog(*p)),
                None => None,
            },
        },
        StatementNode::Expression { expression } => StmtModel::Expression(
            spec_view_expr(*expression),
        ),
    }
}

/// The view of a program.
pub open spec fn spec_view_prog(p: Program) -> ProgramModel
    decreases p,
{
    ProgramModel { statements: view_stmts(p.statements@) }
}

/// The views of a run of boxed sub-expressions.
pub open spec fn view_exprs(v: Seq<Box<ExpressionNode>>) -> Seq<ExprModel>
    decreases v,
{
    if v.len() == 0 {
        Seq::empty()
    } else {
        view_exprs(v.drop_last()).push(spec_view_expr(*v.last()))
    }
}

/// The views of a run of key/value sub-expression pairs.
pub open spec fn view_pairs(v: Seq<(Box<ExpressionNode>, Box<ExpressionNode>)>) -> Seq<(
    ExprModel,
    ExprModel,
)>
    decreases v,
{
    if v.len() == 0 {
        Seq::empty()
    } else {
        view_pairs(v.drop_last()).push(
            (spec_view_expr(*v.last().0), spec_view_expr(*v.last().1)),
        )
    }
}

/// The views of a run of statements.
pub open spec fn view_stmts(v: Seq<StatementNode>) -> Seq<StmtModel>
    decreases v,
{
    if v.len() == 0 {
        Seq::empty()
    } else {
        view_stmts(v.drop_last()).push(spec_view_stmt(v.last()))
    }
}

/// The views of a parameter name list.
pub open spec fn view_idents(v: Seq<Identifier>) -> Seq<Seq<char>> {
    v.map_values(|i: Identifier| i@)
}

impl View for Identifier {
    type V = Seq<char>;

    open spec fn view(&self) -> Seq<char> {
        self.0@
    }
}

impl View for ExpressionNode {
    type V = ExprModel;

    open spec fn view(&self) -> ExprModel {
        spec_view_expr(*self)
    }
}

impl View for StatementNode {
    type V = StmtModel;

    open spec fn view(&self) -> StmtModel {
        spec_view_stmt(*self)
    }
}

impl View for Program {
    type V = ProgramModel;

    open spec fn view(&self) -> ProgramModel {
        spec_view_prog(*self)
    }
}


/// `view_exprs` over one appended element.
pub proof fn lemma_view_exprs_push(s: Seq<Box<ExpressionNode>>, x: Box<ExpressionNode>)
    ensures
        view_exprs(s.push(x)) == view_exprs(s).push(spec_view_expr(*x)),
{
    assert(s.push(x).drop_last() =~= s);
    assert(s.push(x).last() == x);
    assert(view_exprs(s.push(x)) == view_exprs(s).push(spec_view_expr(*x)));
}

/// `view_pairs` over one appended pair.
pub proof fn lemma_view_pairs_push(
    s: Seq<(Box<ExpressionNode>, Box<ExpressionNode>)>,
    x: (Box<ExpressionNode>, Box<ExpressionNode>),
)
    ensures
        view_pairs(s.push(x)) == view_pairs(s).push(
            (spec_view_expr(*x.0), spec_view_expr(*x.1)),
        ),
{
    assert(s.push(x).drop_last() =~= s);
    assert(s.push(x).last() == x);
}

/// `view_stmts` over one appended statement.
pub proof fn lemma_view_stmts_push(s: Seq<StatementNode>, x: StatementNode)
    ensures
        view_stmts(s.push(x)) == view_stmts(s).push(spec_view_stmt(x)),
{
    assert(s.push(x).drop_last() =~= s);
    assert(s.push(x).last() == x);
}

impl Clone for Identifier {
    fn clone(&self) -> (r: Self)
        ensures
            r == *self,
    {
        Identifier(self.0.clone())
    }
}

/// Clones every expression of a run.
fn clone_exprs(v: &Vec<Box<ExpressionNode>>) -> (r: Vec<Box<ExpressionNode>>)
    ensures
        view_exprs(r@) == view_exprs(v@),
    decreases v,
{
    let mut r: Vec<Box<ExpressionNode>> = Vec::new();
    let mut i: usize = 0;
    while i < v.len()
        invariant
            i <= v@.len(),
            view_exprs(r@) == view_exprs(v@.subrange(0, i as int)),
        decreases v@.len() - i,
    {
        let ghost r0 = r@;
        let e = Box::new((**(&v[i])).clone());
        r.push(e);
        proof {
            lemma_view_exprs_push(r0, e);
            lemma_view_exprs_push(v@.subrange(0, i as int), v@[i as int]);
            assert(v@.subrange(0, i + 1 as int) =~= v@.subrange(0, i as int).push(v@[i as int]));
        }
        i = i + 1;
    }
    proof {
        assert(v@.subrange(0, v@.len() as int) =~= v@);
    }
    r
}

/// Clones every key/value pair of a hash literal.
fn clone_pairs(v: &Vec<(Box<ExpressionNode>, Box<ExpressionNode>)>) -> (r: Vec<(
    Box<ExpressionNode>,
    Box<ExpressionNode>,
)>)
    ensures
        view_pairs(r@) == view_pairs(v@),
    decreases v,
{
    let mut r: Vec<(Box<ExpressionNode>, Box<ExpressionNode>)> = Vec::new();
    let mut i: usize = 0;
    while i < v.len()
        invariant
            i <= v@.len(),
            view_pairs(r@) == view_pairs(v@.subrange(0, i as int)),
        decreases v@.len() - i,
    {
        let ghost r0 = r@;
        let k = Box::new((*v[i].0).clone());
        let val = Box::new((*v[i].1).clone());
        r.push((k, val));
        proof {
            lemma_view_pairs_push(r0, (k, val));
            lemma_view_pairs_push(v@.subrange(0, i as int), v@[i as int]);
            assert(v@.subrange(0, i + 1 as int) =~= v@.subrange(0, i as int).push(v@[i as int]));
        }
        i = i + 1;
    }
    proof {
        assert(v@.subrange(0, v@.len() as int) =~= v@);
    }
    r
}

/// Clones every name of a parameter list.
pub(crate) fn clone_idents(v: &Vec<Identifier>) -> (r: Vec<Identifier>)
    ensures
        r@ == v@,
{
    let mut r: Vec<Identifier> = Vec::new();
    let mut i: usize = 0;
    while i < v.len()
        invariant
            i <= v@.len(),
            r@ == v@.subrange(0, i as int),
        decreases v@.len() - i,
    {
        r.push(v[i].clone());
        i = i + 1;
        proof {
            assert(r@ =~= v@.subrange(0, i as int));
        }
    }
    proof {
        assert(r@ =~= v@);
    }
    r
}

/// Clones every statement of a run.
fn clone_stmts(v: &Vec<StatementNode>) -> (r: Vec<StatementNode>)
    ensures
        view_stmts(r@) == view_stmts(v@),
    decreases v,
{
    let mut r: Vec<StatementNode> = Vec::new();
    let mut i: usize = 0;
    while i < v.len()
        invariant
            i <= v@.len(),
            view_stmts(r@) == view_stmts(v@.subrange(0, i as int)),
        decreases v@.len() - i,
    {
        let ghost r0 = r@;
        let s = v[i].clone();
        r.push(s);
        proof {
            lemma_view_stmts_push(r0, s);
            lemma_view_stmts_push(v@.subrange(0, i as int), v@[i as int]);
            assert(v@.subrange(0, i + 1 as int) =~= v@.subrange(0, i as int).push(v@[i as int]));
        }
        i = i + 1;
    }
    proof {
        assert(v@.subrange(0, v@.len() as int) =~= v@);
    }
    r
}

impl Clone for ExpressionNode {
    fn clone(&self) -> (r: Self)
        ensures
            r@ == self@,
        decreases self,
    {
        match self {
            ExpressionNode::Identifier(i) => ExpressionNode::Identifier(i.clone()),
            ExpressionNode::Bool(b) => ExpressionNode::Bool(*b),
            ExpressionNode::Int(n) => ExpressionNode::Int(*n),
            ExpressionNode::String(s) => ExpressionNode::String(s.clone()),
            ExpressionNode::Call { function, params } => ExpressionNode::Call {
                function: Box::new((**function).clone()),
                params: clone_exprs(params),
            },
            ExpressionNode::Function { params, body } => ExpressionNode::Function {
                params: clone_idents(params),
                body: Box::new((**body).clone()),
            },
            ExpressionNode::Infix { operator, left, right } => ExpressionNode::Infix {
                operator: *operator,
                left: Box::new((**left).clone()),
                right: Box::new((**right).clone()),
            },
            ExpressionNode::Prefix { operator, expression } => ExpressionNode::Prefix {
                operator: *operator,
                expression: Box::new((**expression).clone()),
            },
            ExpressionNode::ArrayLiteral { params } => ExpressionNode::ArrayLiteral {
                params: clone_exprs(params),
            },
            ExpressionNode::Index { left, index } => ExpressionNode::Index {
                left: Box::new((**left).clone()),
                index: Box::new((**index).clone()),
            },
            ExpressionNode::HashLiteral { params } => ExpressionNode::HashLiteral {
                params: clone_pairs(params),
            },
        }
    }
}

impl Clone for StatementNode {
    fn clone(&self) -> (r: Self)
        ensures
            r@ == self@,
        decreases self,
    {
        match self {
            StatementNode::Let(name, e) => StatementNode::Let(
                name.clone(),
                Box::new((**e).clone()),
            ),
            StatementNode::Return(e) => StatementNode::Return(Box::new((**e).clone())),
            StatementNode::If { condition, consequence, alternative } => StatementNode::If {
                condition: Box::new((**condition).clone()),
                consequence: Box::new((**consequence).clone()),
                alternative: match alternative {
                    Some(p) => Some(Box::new((**p).clone())),
                    None => None,
                },
            },
            StatementNode::Expression { expression } => StatementNode::Expression {
                expression: Box::new((**expression).clone()),
            },
        }
    }
}

impl Clone for Program {
    fn clone(&self) -> (r: Self)
        ensures
            r@ == self@,
        decreases self,
    {
        Program { statements: clone_stmts(&self.statements) }
    }
}

/// `view_exprs` read off at one index.
pub proof fn lemma_view_exprs_index(v: Seq<Box<ExpressionNode>>, i: int)
    requires
        0 <= i < v.len(),
    ensures
        view_exprs(v).len() == v.len(),
        view_exprs(v)[i] == spec_view_expr(*v[i]),
    decreases v.len(),
{
    lemma_view_exprs_len(v);
    if i < v.len() - 1 {
        lemma_view_exprs_index(v.drop_last(), i);
    }
}

/// `view_exprs` keeps the length.
pub proof fn lemma_view_exprs_len(v: Seq<Box<ExpressionNode>>)
    ensures
        view_exprs(v).len() == v.len(),
    decreases v.len(),
{
    if v.len() > 0 {
        lemma_view_exprs_len(v.drop_last());
    }
}

/// `view_pairs` read off at one index.
pub proof fn lemma_view_pairs_index(v: Seq<(Box<ExpressionNode>, Box<ExpressionNode>)>, i: int)
    requires
        0 <= i < v.len(),
    ensures
        view_pairs(v).len() == v.len(),
        view_pairs(v)[i] == (spec_view_expr(*v[i].0), spec_view_expr(*v[i].1)),
    decreases v.len(),
{
    lemma_view_pairs_len(v);
    if i < v.len() - 1 {
        lemma_view_pairs_index(v.drop_last(), i);
    }
}

/// `view_pairs` keeps the length.
pub proof fn lemma_view_pairs_len(v: Seq<(Box<ExpressionNode>, Box<ExpressionNode>)>)
    ensures
        view_pairs(v).len() == v.len(),
    decreases v.len(),
{
    if v.len() > 0 {
        lemma_view_pairs_len(v.drop_last());
    }
}

/// `view_stmts` read off at one index.
pub proof fn lemma_view_stmts_index(v: Seq<StatementNode>, i: int)
    requires
        0 <= i < v.len(),
    ensures
        view_stmts(v).len() == v.len(),
        view_stmts(v)[i] == spec_view_stmt(v[i]),
    decreases v.len(),
{
    lemma_view_stmts_len(v);
    if i < v.len() - 1 {
        lemma_view_stmts_index(v.drop_last(), i);
    }
}

/// `view_stmts` keeps the length.
pub proof fn lemma_view_stmts_len(v: Seq<StatementNode>)
    ensures
        view_stmts(v).len() == v.len(),
    decreases v.len(),
{
    if v.len() > 0 {
        lemma_view_stmts_len(v.drop_last());
    }
}

} // verus!
