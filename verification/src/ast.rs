use vstd::prelude::*;

verus! {

// ---------------------------------------------------------------------------
// The syntax subset that call discovery and token-path extraction read.
//
// The grammar is a closed set of tagged variants; every shape the analysis
// does not distinguish collapses into an `Other` variant.
// ---------------------------------------------------------------------------

/// An index suffix of a variable expression: a dot-style member access by
/// name, or a computed (bracket) access.
pub enum Index {
    Dot(String),
    Bracket,
}

/// The arguments attached to a call suffix.
pub enum Args {
    /// A parenthesized, ordered argument list.
    Parentheses(Vec<Expr>),
    /// Any other argument shape (a string or table argument).
    Other,
}

/// A suffix of a prefix expression: an index or a call.
pub enum Suffix {
    Index(Index),
    Call(Args),
}

/// The head of a variable or call expression.
pub enum Prefix {
    /// A bare identifier token. The text is the raw token text and may
    /// carry leading trivia (comments, whitespace) on earlier lines.
    Name(String),
    /// A computed head (a parenthesized expression).
    Expr(Box<Expr>),
}

/// A variable expression.
pub enum Var {
    /// A bare identifier.
    Name(String),
    /// A head followed by suffixes (a dotted or indexed chain).
    Expr { prefix: Prefix, suffixes: Vec<Suffix> },
}

/// A call expression: a callee prefix with its suffixes; for a plain call
/// the single suffix is the parenthesized argument list.
pub struct FnCall {
    pub prefix: Prefix,
    pub suffixes: Vec<Suffix>,
}

/// An expression, restricted to the shapes the analysis distinguishes.
pub enum Expr {
    /// A parenthesized expression (transparent wrapping).
    Paren(Box<Expr>),
    /// A call expression.
    Call(Box<FnCall>),
    /// A binary-branch conditional expression.
    IfExpr { then_expr: Box<Expr>, else_expr: Box<Expr> },
    /// A variable expression.
    Var(Var),
    /// Any other shape (a literal, arithmetic, ...).
    Other,
}

/// A statement of a block.
pub enum Stmt {
    /// A bare call statement.
    Call(FnCall),
    /// A local assignment; the expressions are its right-hand sides.
    LocalAssignment(Vec<Expr>),
    /// An ordinary assignment; the expressions are its right-hand sides.
    Assignment(Vec<Expr>),
    /// An unconditional grouping construct around a nested block.
    Do(Block),
    /// A conditional construct.
    If(IfStmt),
    /// Any other statement shape.
    Other,
}

/// A conditional statement: call discovery walks the primary branch only;
/// the alternate branch is intentionally not traversed.
pub struct IfStmt {
    pub block: Block,
    pub else_block: Option<Box<Block>>,
}

/// The trailing statement of a block.
pub enum LastStmt {
    /// A return statement; the expressions are the returned values.
    Return(Vec<Expr>),
    /// Any other trailing statement shape.
    Other,
}

/// A block: ordered statements with an optional trailing statement.
pub struct Block {
    pub stmts: Vec<Stmt>,
    pub last_stmt: Option<LastStmt>,
}

// ---------------------------------------------------------------------------
// The mathematical model of expressions: strings become character
// sequences and vectors become sequences, so that two expressions with the
// same shape and text are equal values.
// ---------------------------------------------------------------------------

pub enum IndexV {
    Dot(Seq<char>),
    Bracket,
}

pub enum ArgsV {
    Parentheses(Seq<ExprV>),
    Other,
}

pub enum SuffixV {
    Index(IndexV),
    Call(ArgsV),
}

pub enum PrefixV {
    Name(Seq<char>),
    Expr(Box<ExprV>),
}

pub enum VarV {
    Name(Seq<char>),
    Expr { prefix: PrefixV, suffixes: Seq<SuffixV> },
}

pub struct FnCallV {
    pub prefix: PrefixV,
    pub suffixes: Seq<SuffixV>,
}

pub enum ExprV {
    Paren(Box<ExprV>),
    Call(Box<FnCallV>),
    IfExpr { then_expr: Box<ExprV>, else_expr: Box<ExprV> },
    Var(VarV),
    Other,
}

// ---------------------------------------------------------------------------
// View functions from the executable syntax to its model.
// ---------------------------------------------------------------------------

pub open spec fn index_view(i: Index) -> IndexV {
    match i {
        Index::Dot(name) => IndexV::Dot(name@),
        Index::Bracket => IndexV::Bracket,
    }
}

pub open spec fn args_view(a: Args) -> ArgsV
    decreases a,
{
    match a {
        Args::Parentheses(es) => ArgsV::Parentheses(exprs_view(es@)),
        Args::Other => ArgsV::Other,
    }
}

pub open spec fn suffix_view(s: Suffix) -> SuffixV
    decreases s,
{
    match s {
        Suffix::Index(i) => SuffixV::Index(index_view(i)),
        Suffix::Call(a) => SuffixV::Call(args_view(a)),
    }
}

pub open spec fn suffixes_view(ss: Seq<Suffix>) -> Seq<SuffixV>
    decreases ss,
{
    if ss.len() == 0 {
        Seq::empty()
    } else {
        suffixes_view(ss.drop_last()).push(suffix_view(ss.last()))
    }
}

pub open spec fn prefix_view(p: Prefix) -> PrefixV
    decreases p,
{
    match p {
        Prefix::Name(name) => PrefixV::Name(name@),
        Prefix::Expr(e) => PrefixV::Expr(Box::new(expr_view(*e))),
    }
}

pub open spec fn var_view(v: Var) -> VarV
    decreases v,
{
    match v {
        Var::Name(name) => VarV::Name(name@),
        Var::Expr { prefix, suffixes } => VarV::Expr {
            prefix: prefix_view(prefix),
            suffixes: suffixes_view(suffixes@),
        },
    }
}

pub open spec fn fncall_view(c: FnCall) -> FnCallV
    decreases c,
{
    FnCallV { prefix: prefix_view(c.prefix), suffixes: suffixes_view(c.suffixes@) }
}

pub open spec fn expr_view(e: Expr) -> ExprV
    decreases e,
{
    match e {
        Expr::Paren(inner) => ExprV::Paren(Box::new(expr_view(*inner))),
        Expr::Call(c) => ExprV::Call(Box::new(fncall_view(*c))),
        Expr::IfExpr { then_expr, else_expr } => ExprV::IfExpr {
            then_expr: Box::new(expr_view(*then_expr)),
            else_expr: Box::new(expr_view(*else_expr)),
        },
        Expr::Var(v) => ExprV::Var(var_view(v)),
        Expr::Other => ExprV::Other,
    }
}

pub open spec fn exprs_view(es: Seq<Expr>) -> Seq<ExprV>
    decreases es,
{
    if es.len() == 0 {
        Seq::empty()
    } else {
        exprs_view(es.drop_last()).push(expr_view(es.last()))
    }
}

pub proof fn lemma_suffixes_view_index(ss: Seq<Suffix>)
    ensures
        suffixes_view(ss).len() == ss.len(),
        forall|i: int| 0 <= i < ss.len() ==> suffixes_view(ss)[i] == suffix_view(ss[i]),
    decreases ss.len(),
{
    if ss.len() > 0 {
        lemma_suffixes_view_index(ss.drop_last());
    }
}

pub proof fn lemma_exprs_view_index(es: Seq<Expr>)
    ensures
        exprs_view(es).len() == es.len(),
        forall|i: int| 0 <= i < es.len() ==> exprs_view(es)[i] == expr_view(es[i]),
    decreases es.len(),
{
    if es.len() > 0 {
        lemma_exprs_view_index(es.drop_last());
    }
}

} // verus!
