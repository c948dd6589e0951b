use require_graph::sourcemap::{SourcemapNode, node_search_name, resolve_require};

fn node(name: &str, class: &str, paths: &[&str], children: Vec<SourcemapNode>) -> SourcemapNode {
    SourcemapNode {
        name: name.to_string(),
        class_name: class.to_string(),
        file_paths: paths.iter().map(|p| p.to_string()).collect(),
        children,
    }
}

fn module(name: &str, path: &str, children: Vec<SourcemapNode>) -> SourcemapNode {
    node(name, "ModuleScript", &[path], children)
}

fn tokens(parts: &[&str]) -> Vec<String> {
    parts.iter().map(|s| s.to_string()).collect()
}

#[test]
fn lua_file_picks_first_lua_path() {
    let n = node("A", "ModuleScript", &["src/A.json", "src/A.lua", "other/A.lua"], vec![]);
    assert_eq!(n.lua_file(), Some(&"src/A.lua".to_string()));
}

#[test]
fn lua_file_absent_without_lua_path() {
    let n = node("A", "Folder", &["src/A.json"], vec![]);
    assert_eq!(n.lua_file(), None);
}

#[test]
fn key_present_only_for_source_backed_nodes() {
    let a = module("A", "src/A.lua", vec![]);
    let key = a.as_key().expect("source-backed node has a key");
    assert_eq!(key.name, "A");
    assert_eq!(key.class_name, "ModuleScript");
    assert_eq!(key.file_path, "src/A.lua");
    let folder = node("F", "Folder", &[], vec![]);
    assert!(folder.as_key().is_none());
}

#[test]
fn search_finds_first_child_by_name() {
    let root = node(
        "root",
        "DataModel",
        &[],
        vec![
            module("A", "src/A1.lua", vec![]),
            module("B", "src/B.lua", vec![]),
            module("A", "src/A2.lua", vec![]),
        ],
    );
    let found = node_search_name(&root, "A").expect("child exists");
    assert_eq!(found.file_paths, vec!["src/A1.lua".to_string()]);
    assert!(node_search_name(&root, "Missing").is_none());
}

#[test]
fn script_token_resolves_to_requiring_module() {
    let a = module("A", "src/A.lua", vec![]);
    let root = node("root", "DataModel", &[], vec![]);
    let stack = vec![&root, &a];
    let target = resolve_require(&stack, &tokens(&["script"])).expect("resolves");
    assert_eq!(target.name, "A");
}

#[test]
fn absolute_path_resolves_from_project_root() {
    let utils = module("Utils", "src/Shared/Utils.lua", vec![]);
    let shared = node("Shared", "Folder", &[], vec![utils]);
    let root = node("root", "DataModel", &[], vec![shared]);
    let a = module("A", "src/A.lua", vec![]);
    let stack = vec![&root, &a];
    let target = resolve_require(&stack, &tokens(&["Shared", "Utils"])).expect("resolves");
    assert_eq!(target.name, "Utils");
}

#[test]
fn sibling_reached_through_parent_token() {
    let root = node(
        "root",
        "DataModel",
        &[],
        vec![node(
            "P",
            "Folder",
            &[],
            vec![module("A", "src/P/A.lua", vec![]), module("B", "src/P/B.lua", vec![])],
        )],
    );
    let p = &root.children[0];
    let a = &p.children[0];
    let stack = vec![&root, p, a];
    let target = resolve_require(&stack, &tokens(&["script", "Parent", "B"])).expect("resolves");
    assert_eq!(target.name, "B");
    assert_eq!(target.file_paths, vec!["src/P/B.lua".to_string()]);
}

#[test]
fn parent_at_root_is_a_noop() {
    let b = module("B", "src/B.lua", vec![]);
    let root = node("root", "DataModel", &[], vec![b]);
    let a = module("A", "src/A.lua", vec![]);
    let stack = vec![&root, &a];
    // Ascending past the root stays at the root; the lookup then continues
    // from the root rather than failing.
    let target = resolve_require(
        &stack,
        &tokens(&["script", "Parent", "Parent", "Parent", "B"]),
    )
    .expect("resolves");
    assert_eq!(target.name, "B");
}

#[test]
fn absolute_path_parent_token_stays_at_root() {
    let b = module("B", "src/B.lua", vec![]);
    let root = node("root", "DataModel", &[], vec![b]);
    let a = module("A", "src/A.lua", vec![]);
    let stack = vec![&root, &a];
    let target = resolve_require(&stack, &tokens(&["Parent", "B"])).expect("resolves");
    assert_eq!(target.name, "B");
}

#[test]
fn missing_child_fails_whole_resolution() {
    let root = node(
        "root",
        "DataModel",
        &[],
        vec![node("P", "Folder", &[], vec![module("A", "src/P/A.lua", vec![])])],
    );
    let p = &root.children[0];
    let a = &p.children[0];
    let stack = vec![&root, p, a];
    assert!(resolve_require(&stack, &tokens(&["script", "Parent", "Parent", "Missing"])).is_none());
}

#[test]
fn empty_path_fails() {
    let root = node("root", "DataModel", &[], vec![]);
    let stack = vec![&root];
    assert!(resolve_require(&stack, &Vec::new()).is_none());
}
