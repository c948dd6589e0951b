use require_graph::ast::{Args, Block, Expr, FnCall, IfStmt, Index, LastStmt, Prefix, Stmt, Suffix, Var};
use require_graph::ast_parse::get_functions;
use require_graph::function_parse::{
    expression_to_string, get_require_argument, get_require_tokens, remove_preceding_comments,
};

fn name_expr(name: &str) -> Expr {
    Expr::Var(Var::Name(name.to_string()))
}

fn dotted_expr(base: &str, rest: &[&str]) -> Expr {
    let suffixes: Vec<Suffix> = rest
        .iter()
        .map(|s| Suffix::Index(Index::Dot(s.to_string())))
        .collect();
    Expr::Var(Var::Expr { prefix: Prefix::Name(base.to_string()), suffixes })
}

fn call_with_callee(callee: &str, arg: Expr) -> FnCall {
    FnCall {
        prefix: Prefix::Name(callee.to_string()),
        suffixes: vec![Suffix::Call(Args::Parentheses(vec![arg]))],
    }
}

fn require_call(arg: Expr) -> FnCall {
    call_with_callee("require", arg)
}

fn tokens(parts: &[&str]) -> Option<Vec<String>> {
    Some(parts.iter().map(|s| s.to_string()).collect())
}

#[test]
fn extractor_bare_identifier() {
    assert_eq!(expression_to_string(&name_expr("Shared")), tokens(&["Shared"]));
}

#[test]
fn extractor_dotted_chain() {
    let e = dotted_expr("script", &["Parent", "Utils"]);
    assert_eq!(expression_to_string(&e), tokens(&["script", "Parent", "Utils"]));
}

#[test]
fn extractor_parentheses_transparent() {
    let e = Expr::Paren(Box::new(Expr::Paren(Box::new(name_expr("M")))));
    assert_eq!(expression_to_string(&e), tokens(&["M"]));
}

#[test]
fn extractor_bracket_index_gives_no_path() {
    let e = Expr::Var(Var::Expr {
        prefix: Prefix::Name("a".to_string()),
        suffixes: vec![
            Suffix::Index(Index::Dot("b".to_string())),
            Suffix::Index(Index::Bracket),
        ],
    });
    assert_eq!(expression_to_string(&e), None);
}

#[test]
fn extractor_nested_call_gives_no_path() {
    let inner = call_with_callee("getModule", name_expr("x"));
    let e = Expr::Call(Box::new(inner));
    assert_eq!(expression_to_string(&e), None);
}

#[test]
fn extractor_literal_gives_no_path() {
    assert_eq!(expression_to_string(&Expr::Other), None);
}

#[test]
fn extractor_is_deterministic() {
    let e = dotted_expr("script", &["Parent", "B"]);
    let first = expression_to_string(&e);
    let second = expression_to_string(&e);
    assert_eq!(first, second);
    assert_eq!(first, tokens(&["script", "Parent", "B"]));
}

#[test]
fn strip_trivia_keeps_plain_name() {
    assert_eq!(
        remove_preceding_comments(&"require".to_string()),
        Some("require".to_string())
    );
}

#[test]
fn strip_trivia_takes_last_line() {
    assert_eq!(
        remove_preceding_comments(&"-- a comment\nrequire".to_string()),
        Some("require".to_string())
    );
    assert_eq!(
        remove_preceding_comments(&"--[[ block ]]\r\nrequire".to_string()),
        Some("require".to_string())
    );
}

#[test]
fn strip_trivia_trims_whitespace() {
    assert_eq!(
        remove_preceding_comments(&"  require\t".to_string()),
        Some("require".to_string())
    );
}

#[test]
fn strip_trivia_ignores_one_trailing_newline() {
    assert_eq!(remove_preceding_comments(&"require\n".to_string()), Some("require".to_string()));
}

#[test]
fn strip_trivia_of_empty_text_is_absent() {
    assert_eq!(remove_preceding_comments(&String::new()), None);
}

#[test]
fn require_argument_of_dotted_path() {
    let c = require_call(dotted_expr("script", &["Parent", "B"]));
    assert_eq!(get_require_argument(&c), tokens(&["script", "Parent", "B"]));
}

#[test]
fn require_argument_with_comment_trivia_on_callee() {
    let c = call_with_callee("-- note\nrequire", dotted_expr("Shared", &["Utils"]));
    assert_eq!(get_require_argument(&c), tokens(&["Shared", "Utils"]));
}

#[test]
fn non_require_callee_is_ignored() {
    let c = call_with_callee("import", name_expr("M"));
    assert_eq!(get_require_argument(&c), None);
}

#[test]
fn require_with_extra_suffix_is_ignored() {
    let mut c = require_call(name_expr("M"));
    c.suffixes.push(Suffix::Index(Index::Dot("extra".to_string())));
    assert_eq!(get_require_argument(&c), None);
}

#[test]
fn require_without_arguments_is_ignored() {
    let c = FnCall {
        prefix: Prefix::Name("require".to_string()),
        suffixes: vec![Suffix::Call(Args::Parentheses(vec![]))],
    };
    assert_eq!(get_require_argument(&c), None);
}

#[test]
fn require_with_string_style_argument_is_ignored() {
    let c = FnCall {
        prefix: Prefix::Name("require".to_string()),
        suffixes: vec![Suffix::Call(Args::Other)],
    };
    assert_eq!(get_require_argument(&c), None);
}

#[test]
fn require_tokens_reads_first_suffix_arguments() {
    let c = require_call(name_expr("M"));
    assert_eq!(get_require_tokens(&c), tokens(&["M"]));
}

#[test]
fn empty_block_yields_no_calls() {
    let b = Block { stmts: vec![], last_stmt: None };
    assert_eq!(get_functions(&b).len(), 0);
}

#[test]
fn finder_collects_calls_in_source_order() {
    let c1 = require_call(name_expr("A"));
    let c2 = require_call(name_expr("B"));
    let c3 = require_call(name_expr("C"));
    let c4 = require_call(name_expr("D"));
    let c5 = require_call(name_expr("E"));
    let b = Block {
        stmts: vec![
            Stmt::Call(c1),
            Stmt::LocalAssignment(vec![Expr::Call(Box::new(c2))]),
            Stmt::Do(Block { stmts: vec![Stmt::Call(c3)], last_stmt: None }),
            Stmt::Assignment(vec![Expr::Call(Box::new(c4))]),
        ],
        last_stmt: Some(LastStmt::Return(vec![Expr::Call(Box::new(c5))])),
    };
    let found = get_functions(&b);
    let names: Vec<Option<Vec<String>>> =
        found.iter().map(|c| get_require_tokens(c)).collect();
    assert_eq!(
        names,
        vec![
            tokens(&["A"]),
            tokens(&["B"]),
            tokens(&["C"]),
            tokens(&["D"]),
            tokens(&["E"]),
        ]
    );
}

#[test]
fn finder_searches_primary_branch_only() {
    let in_then = require_call(name_expr("Kept"));
    let in_else = require_call(name_expr("Skipped"));
    let b = Block {
        stmts: vec![Stmt::If(IfStmt {
            block: Block { stmts: vec![Stmt::Call(in_then)], last_stmt: None },
            else_block: Some(Box::new(Block {
                stmts: vec![Stmt::Call(in_else)],
                last_stmt: None,
            })),
        })],
        last_stmt: None,
    };
    let found = get_functions(&b);
    assert_eq!(found.len(), 1);
    assert_eq!(get_require_tokens(found[0]), tokens(&["Kept"]));
}

#[test]
fn finder_searches_both_branches_of_if_expression() {
    let left = require_call(name_expr("L"));
    let right = require_call(name_expr("R"));
    let e = Expr::IfExpr {
        then_expr: Box::new(Expr::Call(Box::new(left))),
        else_expr: Box::new(Expr::Call(Box::new(right))),
    };
    let b = Block { stmts: vec![Stmt::LocalAssignment(vec![e])], last_stmt: None };
    let found = get_functions(&b);
    assert_eq!(found.len(), 2);
    assert_eq!(get_require_tokens(found[0]), tokens(&["L"]));
    assert_eq!(get_require_tokens(found[1]), tokens(&["R"]));
}
