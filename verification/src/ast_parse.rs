use vstd::prelude::*;

use crate::ast::{Args, Block, Expr, FnCall, FnCallV, LastStmt, Stmt, fncall_view};

verus! {

// ---------------------------------------------------------------------------
// Call discovery: every call expression reachable from a block through the
// supported constructs, in source order, depth first.
//
// A conditional statement contributes the calls of its primary branch
// only; alternate branches are intentionally not traversed. Within an
// expression, calls are found through parenthesized wrapping and through
// both branches of a binary-branch conditional expression.
// ---------------------------------------------------------------------------

/// The calls found in one expression, in source order.
pub open spec fn calls_of_expr(e: Expr) -> Seq<FnCallV>
    decreases e,
{
    match e {
        Expr::Paren(inner) => calls_of_expr(*inner),
        Expr::Call(c) => seq![fncall_view(*c)],
        Expr::IfExpr { then_expr, else_expr } => calls_of_expr(*then_expr) + calls_of_expr(
            *else_expr,
        ),
        Expr::Var(_) => Seq::empty(),
        Expr::Other => Seq::empty(),
    }
}

/// The calls found in an ordered sequence of expressions.
pub open spec fn calls_of_exprs(es: Seq<Expr>) -> Seq<FnCallV>
    decreases es,
{
    if es.len() == 0 {
        Seq::empty()
    } else {
        calls_of_exprs(es.drop_last()) + calls_of_expr(es.last())
    }
}

/// The calls contributed by one statement.
pub open spec fn calls_of_stmt(s: Stmt) -> Seq<FnCallV>
    decreases s,
{
    match s {
        Stmt::Call(c) => seq![fncall_view(c)],
        Stmt::LocalAssignment(es) => calls_of_exprs(es@),
        Stmt::Assignment(es) => calls_of_exprs(es@),
        Stmt::Do(b) => calls_of_block(b),
        Stmt::If(ifs) => calls_of_block(ifs.block),
        Stmt::Other => Seq::empty(),
    }
}

/// The calls contributed by an ordered sequence of statements.
pub open spec fn calls_of_stmts(ss: Seq<Stmt>) -> Seq<FnCallV>
    decreases ss,
{
    if ss.len() == 0 {
        Seq::empty()
    } else {
        calls_of_stmts(ss.drop_last()) + calls_of_stmt(ss.last())
    }
}

/// The calls contributed by a block's trailing statement.
pub open spec fn calls_of_last_stmt(l: LastStmt) -> Seq<FnCallV>
    decreases l,
{
    match l {
        LastStmt::Return(es) => calls_of_exprs(es@),
        LastStmt::Other => Seq::empty(),
    }
}

/// The calls of a whole block: its statements in order, then its trailing
/// statement.
pub open spec fn calls_of_block(b: Block) -> Seq<FnCallV>
    decreases b,
{
    calls_of_stmts(b.stmts@) + match b.last_stmt {
        Some(l) => calls_of_last_stmt(l),
        None => Seq::empty(),
    }
}

/// The values named by a sequence of borrowed calls.
pub open spec fn calls_view(cs: Seq<&FnCall>) -> Seq<FnCallV> {
    cs.map(|i: int, c: &FnCall| fncall_view(*c))
}

/// A block with no statements contributes no calls.
pub proof fn lemma_empty_block_no_calls(b: Block)
    requires
        b.stmts@.len() == 0,
        b.last_stmt is None,
    ensures
        calls_of_block(b) == Seq::<FnCallV>::empty(),
{
    assert(calls_of_block(b) =~= Seq::<FnCallV>::empty());
}

/// Finds the calls of one expression.
pub fn expression_get_functions<'a>(e: &'a Expr) -> (r: Vec<&'a FnCall>)
    ensures
        calls_view(r@) == calls_of_expr(*e),
    decreases *e,
{
    match e {
        Expr::Paren(inner) => {
            let r = expression_get_functions(inner);
            proof {
                assert(calls_view(r@) =~= calls_of_expr(*e));
            }
            r
        },
        Expr::Call(c) => {
            let mut r: Vec<&'a FnCall> = Vec::new();
            r.push(c);
            proof {
                assert(calls_view(r@) =~= calls_of_expr(*e));
            }
            r
        },
        Expr::IfExpr { then_expr, else_expr } => {
            let mut r = expression_get_functions(then_expr);
            let mut rest = expression_get_functions(else_expr);
            r.append(&mut rest);
            proof {
                assert(calls_view(r@) =~= calls_of_expr(*e));
            }
            r
        },
        Expr::Var(_) => {
            let r: Vec<&'a FnCall> = Vec::new();
            proof {
                assert(calls_view(r@) =~= calls_of_expr(*e));
            }
            r
        },
        Expr::Other => {
            let r: Vec<&'a FnCall> = Vec::new();
            proof {
                assert(calls_view(r@) =~= calls_of_expr(*e));
            }
            r
        },
    }
}

/// Finds the calls of each expression of a list, in order.
pub fn expressions_get_functions<'a>(es: &'a Vec<Expr>) -> (r: Vec<&'a FnCall>)
    ensures
        calls_view(r@) == calls_of_exprs(es@),
    decreases *es,
{
    let mut r: Vec<&'a FnCall> = Vec::new();
    proof {
        assert(calls_view(r@) =~= calls_of_exprs(es@.take(0)));
    }
    let mut i: usize = 0;
    while i < es.len()
        invariant
            i <= es@.len(),
            calls_view(r@) == calls_of_exprs(es@.take(i as int)),
        decreases es@.len() - i,
    {
        let mut found = expression_get_functions(&es[i]);
        r.append(&mut found);
        proof {
            assert(es@.take(i + 1 as int).drop_last() =~= es@.take(i as int));
            assert(es@.take(i + 1 as int).last() == es@[i as int]);
            assert(calls_view(r@) =~= calls_of_exprs(es@.take(i + 1 as int)));
        }
        i = i + 1;
    }
    proof {
        assert(es@.take(i as int) =~= es@);
    }
    r
}

/// Finds the calls contributed by one statement.
pub fn stmt_get_functions<'a>(s: &'a Stmt) -> (r: Vec<&'a FnCall>)
    ensures
        calls_view(r@) == calls_of_stmt(*s),
    decreases *s,
{
    match s {
        Stmt::Call(c) => {
            let mut r: Vec<&'a FnCall> = Vec::new();
            r.push(c);
            proof {
                assert(calls_view(r@) =~= calls_of_stmt(*s));
            }
            r
        },
        Stmt::LocalAssignment(es) => expressions_get_functions(es),
        Stmt::Assignment(es) => expressions_get_functions(es),
        Stmt::Do(b) => get_functions(b),
        Stmt::If(ifs) => get_functions(&ifs.block),
        Stmt::Other => {
            let r: Vec<&'a FnCall> = Vec::new();
            proof {
                assert(calls_view(r@) =~= calls_of_stmt(*s));
            }
            r
        },
    }
}

/// Finds the calls contributed by a block's trailing statement.
pub fn last_stmt_get_functions<'a>(l: &'a LastStmt) -> (r: Vec<&'a FnCall>)
    ensures
        calls_view(r@) == calls_of_last_stmt(*l),
    decreases *l,
{
    match l {
        LastStmt::Return(es) => expressions_get_functions(es),
        LastStmt::Other => {
            let r: Vec<&'a FnCall> = Vec::new();
            proof {
                assert(calls_view(r@) =~= calls_of_last_stmt(*l));
            }
            r
        },
    }
}

/// Finds every call expression of a block reachable through the supported
/// constructs, in source order, depth first.
pub fn get_functions<'a>(block: &'a Block) -> (r: Vec<&'a FnCall>)
    ensures
        calls_view(r@) == calls_of_block(*block),
    decreases *block,
{
    let mut r: Vec<&'a FnCall> = Vec::new();
    proof {
        assert(calls_view(r@) =~= calls_of_stmts(block.stmts@.take(0)));
    }
    let mut i: usize = 0;
    while i < block.stmts.len()
        invariant
            i <= block.stmts@.len(),
            calls_view(r@) == calls_of_stmts(block.stmts@.take(i as int)),
        decreases block.stmts@.len() - i,
    {
        let mut found = stmt_get_functions(&block.stmts[i]);
        r.append(&mut found);
        proof {
            assert(block.stmts@.take(i + 1 as int).drop_last() =~= block.stmts@.take(i as int));
            assert(block.stmts@.take(i + 1 as int).last() == block.stmts@[i as int]);
            assert(calls_view(r@) =~= calls_of_stmts(block.stmts@.take(i + 1 as int)));
        }
        i = i + 1;
    }
    proof {
        assert(block.stmts@.take(i as int) =~= block.stmts@);
    }
    match &block.last_stmt {
        Some(l) => {
            let mut found = last_stmt_get_functions(l);
            r.append(&mut found);
            proof {
                assert(calls_view(r@) =~= calls_of_block(*block));
            }
        },
        None => {
            proof {
                assert(calls_view(r@) =~= calls_of_block(*block));
            }
        },
    }
    r
}

} // verus!
