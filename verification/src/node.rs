//! The statement tree the parser builds, and its mathematical view: the same
//! shapes over `Seq<char>`, which the parser's contracts are stated over.

use vstd::prelude::*;

verus! {

/// A literal value: a string or a boolean. (The grammar has no numeric
/// literals.)
#[derive(Debug, PartialEq, Eq)]
pub enum LiteralExpr {
    String(String),
    Bool(bool),
}

/// A call of a named function, with its optional argument list.
#[derive(Debug, PartialEq, Eq)]
pub struct FunctionCall {
    pub func: Box<Expr>,
    pub args: Option<Vec<Box<Expr>>>,
}

/// A binary operator phrase. The set is currently restricted to equality
/// (`IS EQUAL TO`).
#[derive(Debug, Clone, Copy, PartialEq, Eq, Structural)]
pub enum BinaryOperators {
    EqualTo,
}

/// A binary operation over two expressions.
#[derive(Debug, PartialEq, Eq)]
pub struct Binary {
    pub l: Box<Expr>,
    pub r: Box<Expr>,
    pub op: BinaryOperators,
}

/// A conditional: the test expression, the block run when it holds, and an
/// optional else block (not yet produced by the grammar).
#[derive(Debug, PartialEq, Eq)]
pub struct Condition {
    pub then_branch: Box<Stmt>,
    pub el: Option<Box<Stmt>>,
    pub condition: Box<Expr>,
}

/// An expression: a literal, a call, or a binary operation.
#[derive(Debug, PartialEq, Eq)]
pub enum Expr {
    Literal(LiteralExpr),
    Call(FunctionCall),
    BinaryOp(Binary),
}

/// The declared type of a variable.
#[derive(Debug, Clone, Copy, PartialEq, Eq, Structural)]
pub enum VariableType {
    String,
    Bool,
}

/// A statement: an ordered block, a named module or function whose body is
/// always a block, a variable binding, a bare expression, or a conditional.
#[derive(Debug, PartialEq, Eq)]
pub enum Stmt {
    Block(Vec<Box<Stmt>>),
    Module { name: LiteralExpr, nodes: Box<Stmt> },
    Expr(Expr),
    Variable { name: String, ty: VariableType, value: Option<Expr> },
    Function { name: LiteralExpr, nodes: Box<Stmt> },
    Condition(Condition),
}

/// The view of a literal, over `Seq<char>`.
pub enum LiteralExprView {
    String(Seq<char>),
    Bool(bool),
}

/// The view of a function call.
pub struct FunctionCallView {
    pub func: Box<ExprView>,
    pub args: Option<Seq<ExprView>>,
}

/// The view of a binary operation.
pub struct BinaryView {
    pub l: Box<ExprView>,
    pub r: Box<ExprView>,
    pub op: BinaryOperators,
}

/// The view of a conditional.
pub struct ConditionView {
    pub then_branch: Box<StmtView>,
    pub el: Option<Box<StmtView>>,
    pub condition: Box<ExprView>,
}

/// The view of an expression.
pub enum ExprView {
    Literal(LiteralExprView),
    Call(FunctionCallView),
    BinaryOp(BinaryView),
}

/// The view of a statement.
pub enum StmtView {
    Block(Seq<StmtView>),
    Module { name: LiteralExprView, nodes: Box<StmtView> },
    Expr(ExprView),
    Variable { name: Seq<char>, ty: VariableType, value: Option<ExprView> },
    Function { name: LiteralExprView, nodes: Box<StmtView> },
    Condition(ConditionView),
}

impl View for LiteralExpr {
    type V = LiteralExprView;

    open spec fn view(&self) -> LiteralExprView {
        match self {
            LiteralExpr::String(s) => LiteralExprView::String(s@),
            LiteralExpr::Bool(b) => LiteralExprView::Bool(*b),
        }
    }
}

/// The view of an expression value.
pub open spec fn expr_view(e: Expr) -> ExprView
    decreases e,
{
    match e {
        Expr::Literal(l) => ExprView::Literal(l@),
        Expr::Call(c) => ExprView::Call(FunctionCallView {
            func: Box::new(expr_view(*c.func)),
            args: match c.args {
                Some(v) => Some(exprs_view(v@)),
                None => None,
            },
        }),
        Expr::BinaryOp(b) => ExprView::BinaryOp(BinaryView {
            l: Box::new(expr_view(*b.l)),
            r: Box::new(expr_view(*b.r)),
            op: b.op,
        }),
    }
}

/// The views of a sequence of boxed expressions.
pub open spec fn exprs_view(s: Seq<Box<Expr>>) -> Seq<ExprView>
    decreases s,
{
    if s.len() == 0 {
        Seq::empty()
    } else {
        seq![expr_view(*s[0])] + exprs_view(s.drop_first())
    }
}

/// The view of a statement value.
pub open spec fn stmt_view(s: Stmt) -> StmtView
    decreases s,
{
    match s {
        Stmt::Block(v) => StmtView::Block(stmts_view(v@)),
        Stmt::Module { name, nodes } => StmtView::Module {
            name: name@,
            nodes: Box::new(stmt_view(*nodes)),
        },
        Stmt::Expr(e) => StmtView::Expr(expr_view(e)),
        Stmt::Variable { name, ty, value } => StmtView::Variable {
            name: name@,
            ty,
            value: match value {
                Some(e) => Some(expr_view(e)),
                None => None,
            },
        },
        Stmt::Function { name, nodes } => StmtView::Function {
            name: name@,
            nodes: Box::new(stmt_view(*nodes)),
        },
        Stmt::Condition(c) => StmtView::Condition(ConditionView {
            then_branch: Box::new(stmt_view(*c.then_branch)),
            el: match c.el {
                Some(s2) => Some(Box::new(stmt_view(*s2))),
                None => None,
            },
            condition: Box::new(expr_view(*c.condition)),
        }),
    }
}

/// The views of a sequence of boxed statements.
pub open spec fn stmts_view(s: Seq<Box<Stmt>>) -> Seq<StmtView>
    decreases s,
{
    if s.len() == 0 {
        Seq::empty()
    } else {
        seq![stmt_view(*s[0])] + stmts_view(s.drop_first())
    }
}

impl View for Expr {
    type V = ExprView;

    open spec fn view(&self) -> ExprView {
        expr_view(*self)
    }
}

impl View for Stmt {
    type V = StmtView;

    open spec fn view(&self) -> StmtView {
        stmt_view(*self)
    }
}

/// The view of a pushed sequence is the pushed sequence of views.
pub proof fn lemma_stmts_view_push(s: Seq<Box<Stmt>>, x: Box<Stmt>)
    ensures
        stmts_view(s.push(x)) == stmts_view(s).push(stmt_view(*x)),
    decreases s,
{
    if s.len() == 0 {
        assert(s.push(x).drop_first() =~= Seq::<Box<Stmt>>::empty());
        assert(s.push(x)[0] == x);
        assert(stmts_view(s.push(x)) == seq![stmt_view(*x)] + stmts_view(
            s.push(x).drop_first(),
        ));
        assert(stmts_view(Seq::<Box<Stmt>>::empty()) =~= Seq::<StmtView>::empty());
        assert(stmts_view(s) =~= Seq::<StmtView>::empty());
        assert(stmts_view(s.push(x)) =~= stmts_view(s).push(stmt_view(*x)));
    } else {
        lemma_stmts_view_push(s.drop_first(), x);
        assert(s.push(x).drop_first() =~= s.drop_first().push(x));
        assert(stmts_view(s.push(x)) =~= stmts_view(s).push(stmt_view(*x)));
    }
}

/// The views of a sequence of statements.
pub open spec fn stmt_seq_view(s: Seq<Stmt>) -> Seq<StmtView>
    decreases s,
{
    if s.len() == 0 {
        Seq::empty()
    } else {
        seq![stmt_view(s[0])] + stmt_seq_view(s.drop_first())
    }
}

/// The view of a pushed statement sequence is the pushed sequence of views.
pub proof fn lemma_stmt_seq_view_push(s: Seq<Stmt>, x: Stmt)
    ensures
        stmt_seq_view(s.push(x)) == stmt_seq_view(s).push(stmt_view(x)),
    decreases s,
{
    if s.len() == 0 {
        assert(s.push(x).drop_first() =~= Seq::<Stmt>::empty());
        assert(s.push(x)[0] == x);
        assert(stmt_seq_view(s.push(x)) == seq![stmt_view(x)] + stmt_seq_view(
            s.push(x).drop_first(),
        ));
        assert(stmt_seq_view(Seq::<Stmt>::empty()) =~= Seq::<StmtView>::empty());
        assert(stmt_seq_view(s) =~= Seq::<StmtView>::empty());
        assert(stmt_seq_view(s.push(x)) =~= stmt_seq_view(s).push(stmt_view(x)));
    } else {
        lemma_stmt_seq_view_push(s.drop_first(), x);
        assert(s.push(x).drop_first() =~= s.drop_first().push(x));
        assert(stmt_seq_view(s.push(x)) =~= stmt_seq_view(s).push(stmt_view(x)));
    }
}

} // verus!
