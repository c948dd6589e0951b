use require_graph::ast::{Args, Block, Expr, FnCall, Index, Prefix, Stmt, Suffix, Var};
use require_graph::builder::{Diagnostic, SourceTable, collect_source_files, parse_source};
use require_graph::require_map::RequireMap;
use require_graph::sourcemap::{SourcemapKey, SourcemapNode};

fn node(name: &str, class: &str, paths: &[&str], children: Vec<SourcemapNode>) -> SourcemapNode {
    SourcemapNode {
        name: name.to_string(),
        class_name: class.to_string(),
        file_paths: paths.iter().map(|p| p.to_string()).collect(),
        children,
    }
}

fn module(name: &str, path: &str, children: Vec<SourcemapNode>) -> SourcemapNode {
    node(name, "ModuleScript", &[path], children)
}

fn require_stmt(parts: &[&str]) -> Stmt {
    let arg = if parts.len() == 1 {
        Expr::Var(Var::Name(parts[0].to_string()))
    } else {
        Expr::Var(Var::Expr {
            prefix: Prefix::Name(parts[0].to_string()),
            suffixes: parts[1..]
                .iter()
                .map(|s| Suffix::Index(Index::Dot(s.to_string())))
                .collect(),
        })
    };
    Stmt::Call(FnCall {
        prefix: Prefix::Name("require".to_string()),
        suffixes: vec![Suffix::Call(Args::Parentheses(vec![arg]))],
    })
}

fn block_of(stmts: Vec<Stmt>) -> Block {
    Block { stmts, last_stmt: None }
}

fn entry_names(map: &RequireMap, key_name: &str) -> Vec<String> {
    for (key, targets) in map.entries.iter() {
        if key.name == key_name {
            return targets.iter().map(|t| t.name.clone()).collect();
        }
    }
    panic!("no entry named {}", key_name);
}

fn has_entry(map: &RequireMap, key_name: &str) -> bool {
    map.entries.iter().any(|(key, _)| key.name == key_name)
}

#[test]
fn sibling_require_adds_one_edge() {
    // A module requiring a sibling through the self and parent tokens.
    let root = node(
        "root",
        "DataModel",
        &[],
        vec![node(
            "P",
            "Folder",
            &[],
            vec![module("A", "src/P/A.lua", vec![]), module("B", "src/P/B.lua", vec![])],
        )],
    );
    let mut sources = SourceTable::new();
    sources.add(
        "src/P/A.lua".to_string(),
        Some(block_of(vec![require_stmt(&["script", "Parent", "B"])])),
    );
    sources.add("src/P/B.lua".to_string(), Some(block_of(vec![])));
    let mut stack = Vec::new();
    let (map, diags) = parse_source(&root, &mut stack, &sources);
    assert_eq!(diags.len(), 0);
    assert_eq!(entry_names(&map, "A"), vec!["B".to_string()]);
    assert_eq!(entry_names(&map, "B"), Vec::<String>::new());
}

#[test]
fn absolute_require_resolves_via_root() {
    let root = node(
        "root",
        "DataModel",
        &[],
        vec![
            node("Shared", "Folder", &[], vec![module("Utils", "src/Shared/Utils.lua", vec![])]),
            module("M", "src/M.lua", vec![]),
        ],
    );
    let mut sources = SourceTable::new();
    sources.add("src/Shared/Utils.lua".to_string(), Some(block_of(vec![])));
    sources.add("src/M.lua".to_string(), Some(block_of(vec![require_stmt(&["Shared", "Utils"])])));
    let mut stack = Vec::new();
    let (map, diags) = parse_source(&root, &mut stack, &sources);
    assert_eq!(diags.len(), 0);
    assert_eq!(entry_names(&map, "M"), vec!["Utils".to_string()]);
}

#[test]
fn dynamic_require_is_dropped_silently() {
    // require(getModule()) is not a static path: no edge and no diagnostic.
    let root = node("root", "DataModel", &[], vec![module("M", "src/M.lua", vec![])]);
    let inner = FnCall {
        prefix: Prefix::Name("getModule".to_string()),
        suffixes: vec![Suffix::Call(Args::Parentheses(vec![]))],
    };
    let dynamic_require = Stmt::Call(FnCall {
        prefix: Prefix::Name("require".to_string()),
        suffixes: vec![Suffix::Call(Args::Parentheses(vec![Expr::Call(Box::new(inner))]))],
    });
    let mut sources = SourceTable::new();
    sources.add("src/M.lua".to_string(), Some(block_of(vec![dynamic_require])));
    let mut stack = Vec::new();
    let (map, diags) = parse_source(&root, &mut stack, &sources);
    assert_eq!(diags.len(), 0);
    assert_eq!(entry_names(&map, "M"), Vec::<String>::new());
}

#[test]
fn unresolved_require_records_diagnostic() {
    let root = node(
        "root",
        "DataModel",
        &[],
        vec![node("P", "Folder", &[], vec![module("A", "src/P/A.lua", vec![])])],
    );
    let mut sources = SourceTable::new();
    sources.add(
        "src/P/A.lua".to_string(),
        Some(block_of(vec![require_stmt(&["script", "Parent", "Parent", "Missing"])])),
    );
    let mut stack = Vec::new();
    let (map, diags) = parse_source(&root, &mut stack, &sources);
    assert_eq!(entry_names(&map, "A"), Vec::<String>::new());
    assert_eq!(diags.len(), 1);
    match &diags[0] {
        Diagnostic::UnresolvedRequire { key, path } => {
            assert_eq!(key.name, "A");
            assert_eq!(
                path,
                &vec![
                    "script".to_string(),
                    "Parent".to_string(),
                    "Parent".to_string(),
                    "Missing".to_string(),
                ]
            );
        },
        _ => panic!("expected an unresolved-require diagnostic"),
    }
}

#[test]
fn index_marker_subtree_is_skipped() {
    // Vendored modules under the aggregation marker never enter the map,
    // even though they require each other.
    let root = node(
        "root",
        "DataModel",
        &[],
        vec![
            node(
                "_Index",
                "Folder",
                &[],
                vec![
                    module("X", "vendor/X.lua", vec![]),
                    module("Y", "vendor/Y.lua", vec![]),
                ],
            ),
            module("M", "src/M.lua", vec![]),
        ],
    );
    let mut sources = SourceTable::new();
    sources.add("vendor/X.lua".to_string(), Some(block_of(vec![require_stmt(&["Y"])])));
    sources.add("vendor/Y.lua".to_string(), Some(block_of(vec![require_stmt(&["X"])])));
    sources.add("src/M.lua".to_string(), Some(block_of(vec![])));
    let mut stack = Vec::new();
    let (map, diags) = parse_source(&root, &mut stack, &sources);
    assert_eq!(diags.len(), 0);
    assert_eq!(map.entries.len(), 1);
    assert!(has_entry(&map, "M"));
    assert!(!has_entry(&map, "X"));
    assert!(!has_entry(&map, "Y"));
}

#[test]
fn source_failure_records_diagnostic_and_empty_entry() {
    let root = node("root", "DataModel", &[], vec![module("M", "src/M.lua", vec![])]);
    let mut sources = SourceTable::new();
    sources.add("src/M.lua".to_string(), None);
    let mut stack = Vec::new();
    let (map, diags) = parse_source(&root, &mut stack, &sources);
    assert_eq!(entry_names(&map, "M"), Vec::<String>::new());
    assert_eq!(diags.len(), 1);
    assert!(matches!(&diags[0], Diagnostic::SourceFailure { key } if key.name == "M"));
}

#[test]
fn source_backed_node_descends_into_children() {
    let root = node(
        "root",
        "DataModel",
        &[],
        vec![module(
            "Outer",
            "src/Outer.lua",
            vec![module("Inner", "src/Outer/Inner.lua", vec![])],
        )],
    );
    let mut sources = SourceTable::new();
    sources.add("src/Outer.lua".to_string(), Some(block_of(vec![])));
    sources.add(
        "src/Outer/Inner.lua".to_string(),
        Some(block_of(vec![require_stmt(&["script", "Parent"])])),
    );
    let mut stack = Vec::new();
    let (map, diags) = parse_source(&root, &mut stack, &sources);
    assert_eq!(diags.len(), 0);
    assert!(has_entry(&map, "Outer"));
    assert_eq!(entry_names(&map, "Inner"), vec!["Outer".to_string()]);
}

#[test]
fn module_without_source_file_contributes_nothing() {
    let root = node(
        "root",
        "DataModel",
        &[],
        vec![node("M", "ModuleScript", &["src/M.json"], vec![])],
    );
    let sources = SourceTable::new();
    let mut stack = Vec::new();
    let (map, diags) = parse_source(&root, &mut stack, &sources);
    assert_eq!(map.entries.len(), 0);
    assert_eq!(diags.len(), 0);
}

#[test]
fn stack_is_restored_after_build() {
    let root = node("root", "DataModel", &[], vec![module("M", "src/M.lua", vec![])]);
    let mut sources = SourceTable::new();
    sources.add("src/M.lua".to_string(), Some(block_of(vec![])));
    let mut stack = Vec::new();
    let _ = parse_source(&root, &mut stack, &sources);
    assert_eq!(stack.len(), 0);
}

#[test]
fn collect_source_files_lists_build_inputs() {
    let root = node(
        "root",
        "DataModel",
        &[],
        vec![
            node("_Index", "Folder", &[], vec![module("V", "vendor/V.lua", vec![])]),
            module("A", "src/A.lua", vec![module("Sub", "src/A/Sub.lua", vec![])]),
            node("F", "Folder", &[], vec![module("B", "src/B.lua", vec![])]),
            node("NoFile", "ModuleScript", &[], vec![]),
        ],
    );
    let files = collect_source_files(&root);
    assert_eq!(
        files,
        vec![
            "src/A.lua".to_string(),
            "src/A/Sub.lua".to_string(),
            "src/B.lua".to_string(),
        ]
    );
}

#[test]
fn merge_order_keeps_key_set_and_edge_multisets() {
    let t1 = module("T1", "src/T1.lua", vec![]);
    let t2 = module("T2", "src/T2.lua", vec![]);
    let key_a = || SourcemapKey {
        name: "A".to_string(),
        class_name: "ModuleScript".to_string(),
        file_path: "src/A.lua".to_string(),
    };
    let key_b = || SourcemapKey {
        name: "B".to_string(),
        class_name: "ModuleScript".to_string(),
        file_path: "src/B.lua".to_string(),
    };
    let make_first = || {
        let mut m = RequireMap::new();
        m.push_entry(key_a(), vec![&t1]);
        m
    };
    let make_second = || {
        let mut m = RequireMap::new();
        m.push_entry(key_a(), vec![&t2]);
        m.push_entry(key_b(), vec![&t1, &t2]);
        m
    };
    let mut one_way = make_first();
    one_way.merge(make_second());
    let mut other_way = make_second();
    other_way.merge(make_first());
    let mut keys1: Vec<String> = one_way.entries.iter().map(|(k, _)| k.name.clone()).collect();
    let mut keys2: Vec<String> = other_way.entries.iter().map(|(k, _)| k.name.clone()).collect();
    keys1.sort();
    keys2.sort();
    assert_eq!(keys1, keys2);
    for name in ["A", "B"] {
        let mut edges1 = entry_names(&one_way, name);
        let mut edges2 = entry_names(&other_way, name);
        edges1.sort();
        edges2.sort();
        assert_eq!(edges1, edges2);
    }
    // Within one key's list, each module's own require order is kept.
    assert_eq!(entry_names(&one_way, "A"), vec!["T1".to_string(), "T2".to_string()]);
    assert_eq!(entry_names(&other_way, "A"), vec!["T2".to_string(), "T1".to_string()]);
}
