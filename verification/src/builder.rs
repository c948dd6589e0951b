use vstd::prelude::*;
use vstd::pervasive::unreached;

use crate::ast::{Block, FnCallV, fncall_view};
use crate::ast_parse::{calls_of_block, calls_view, get_functions};
use crate::function_parse::{get_require_argument, require_arg};
use crate::require_map::{RequireMap, lemma_merge_associative, merge_views};
use crate::sourcemap::{
    KeyView, SourcemapKey, SourcemapNode, first_lua_file, nodes_view, resolve_path,
    resolve_require,
};
use crate::util::{string_eq_str, strings_view};

verus! {

// ---------------------------------------------------------------------------
// The source table: parsed blocks by source file path.
//
// Reading and parsing source files happens outside the library; the
// builder receives the outcome per path, with a missing or failed parse
// recorded as an absent block.
// ---------------------------------------------------------------------------

/// Parsed source per file path. An entry with no block records a file
/// that could not be read or parsed.
pub struct SourceTable {
    pub entries: Vec<(String, Option<Block>)>,
}

/// The first entry with the given path, if any.
pub open spec fn source_find(entries: Seq<(String, Option<Block>)>, path: Seq<char>) -> Option<
    Option<Block>,
>
    decreases entries.len(),
{
    if entries.len() == 0 {
        None
    } else if entries[0].0@ == path {
        Some(entries[0].1)
    } else {
        source_find(entries.drop_first(), path)
    }
}

/// The parsed block recorded for a path: absent both when the table has
/// no entry for the path and when the entry records a failure.
pub open spec fn source_of(t: SourceTable, path: Seq<char>) -> Option<Block> {
    match source_find(t.entries@, path) {
        Some(Some(b)) => Some(b),
        _ => None,
    }
}

proof fn lemma_source_find_skip(entries: Seq<(String, Option<Block>)>, path: Seq<char>, i: int)
    requires
        0 <= i <= entries.len(),
        forall|j: int| 0 <= j < i ==> (#[trigger] entries[j].0@) != path,
    ensures
        source_find(entries, path) == source_find(entries.skip(i), path),
    decreases i,
{
    if i > 0 {
        assert(entries[0].0@ != path);
        assert(entries.drop_first() == entries.skip(1));
        lemma_source_find_skip(entries.skip(1), path, i - 1);
        assert(entries.skip(1).skip(i - 1) =~= entries.skip(i));
    } else {
        assert(entries.skip(0) =~= entries);
    }
}

impl SourceTable {
    /// Creates an empty source table.
    pub fn new() -> (r: Self)
        ensures
            r.entries@.len() == 0,
    {
        SourceTable { entries: Vec::new() }
    }

    /// Records the parse outcome for a path. An earlier entry for the
    /// same path keeps precedence.
    pub fn add(&mut self, path: String, block: Option<Block>)
        ensures
            final(self).entries@ == old(self).entries@.push((path, block)),
    {
        self.entries.push((path, block));
    }

    /// Looks up the parsed block recorded for a path.
    pub fn get<'b>(&'b self, path: &String) -> (r: Option<&'b Block>)
        ensures
            match r {
                Some(b) => source_of(*self, path@) == Some(*b),
                None => source_of(*self, path@) is None,
            },
    {
        let mut i: usize = 0;
        while i < self.entries.len()
            invariant
                i <= self.entries@.len(),
                forall|j: int| 0 <= j < i ==> (#[trigger] self.entries@[j].0@) != path@,
            decreases self.entries@.len() - i,
        {
            if string_eq_str(&self.entries[i].0, path.as_str()) {
                proof {
                    lemma_source_find_skip(self.entries@, path@, i as int);
                }
                return match &self.entries[i].1 {
                    Some(b) => Some(b),
                    None => None,
                };
            }
            i = i + 1;
        }
        proof {
            lemma_source_find_skip(self.entries@, path@, i as int);
        }
        None
    }
}

// ---------------------------------------------------------------------------
// Diagnostics: per-edge and per-module failures collected, never thrown.
// ---------------------------------------------------------------------------

/// A recoverable failure recorded while building the dependency map.
pub enum Diagnostic {
    /// A require path that could not be resolved against the tree, named
    /// by the requiring module and the token path.
    UnresolvedRequire { key: SourcemapKey, path: Vec<String> },
    /// A module whose source could not be read or parsed.
    SourceFailure { key: SourcemapKey },
}

/// The mathematical content of a diagnostic.
pub enum DiagnosticV {
    UnresolvedRequire { key: KeyView, path: Seq<Seq<char>> },
    SourceFailure { key: KeyView },
}

pub open spec fn diag_view(d: Diagnostic) -> DiagnosticV {
    match d {
        Diagnostic::UnresolvedRequire { key, path } => DiagnosticV::UnresolvedRequire {
            key: key@,
            path: strings_view(path@),
        },
        Diagnostic::SourceFailure { key } => DiagnosticV::SourceFailure { key: key@ },
    }
}

pub open spec fn diags_view(ds: Seq<Diagnostic>) -> Seq<DiagnosticV> {
    ds.map(|i: int, d: Diagnostic| diag_view(d))
}

// ---------------------------------------------------------------------------
// The build: a depth-first traversal with an explicit ancestor stack.
// ---------------------------------------------------------------------------

/// Holds for the class names of source-bearing nodes.
pub open spec fn is_script_class(c: Seq<char>) -> bool {
    c == "ModuleScript"@ || c == "Script"@ || c == "LocalScript"@
}

/// Decides whether a class name marks a source-bearing node.
pub fn is_script_node(class_name: &String) -> (r: bool)
    ensures
        r == is_script_class(class_name@),
{
    string_eq_str(class_name, "ModuleScript") || string_eq_str(class_name, "Script")
        || string_eq_str(class_name, "LocalScript")
}

/// The identity of a node backed by the source file `p`.
pub open spec fn node_key(n: SourcemapNode, p: String) -> KeyView {
    KeyView { name: n.name@, class_name: n.class_name@, file_path: p@ }
}

/// The modules that a list of calls requires, in source order: one target
/// per require call whose token path resolves.
pub open spec fn resolved_targets(calls: Seq<FnCallV>, stack: Seq<SourcemapNode>) -> Seq<
    SourcemapNode,
>
    decreases calls.len(),
{
    if calls.len() == 0 {
        Seq::empty()
    } else {
        let prefix = resolved_targets(calls.drop_last(), stack);
        match require_arg(calls.last()) {
            Some(p) => match resolve_path(stack, p) {
                Some(n) => prefix.push(n),
                None => prefix,
            },
            None => prefix,
        }
    }
}

/// The token paths of require calls that fail to resolve, in source
/// order. A call that is not a require, or whose argument is not a static
/// path, is silently absent: only a resolvable-looking path that finds no
/// node is a diagnostic.
pub open spec fn unresolved_paths(calls: Seq<FnCallV>, stack: Seq<SourcemapNode>) -> Seq<
    Seq<Seq<char>>,
>
    decreases calls.len(),
{
    if calls.len() == 0 {
        Seq::empty()
    } else {
        let prefix = unresolved_paths(calls.drop_last(), stack);
        match require_arg(calls.last()) {
            Some(p) => match resolve_path(stack, p) {
                Some(_) => prefix,
                None => prefix.push(p),
            },
            None => prefix,
        }
    }
}

/// The diagnostics of one module's calls: each unresolved path named with
/// the requiring module's key.
pub open spec fn unresolved_diags(
    calls: Seq<FnCallV>,
    stack: Seq<SourcemapNode>,
    key: KeyView,
) -> Seq<DiagnosticV> {
    unresolved_paths(calls, stack).map(
        |i: int, p: Seq<Seq<char>>| DiagnosticV::UnresolvedRequire { key, path: p },
    )
}

/// The map entry and diagnostics that one source-bearing node
/// contributes: its resolved targets when its source parsed, an empty
/// entry and a failure diagnostic when it did not. A node of any other
/// class contributes nothing of its own.
pub open spec fn own_entry(node: SourcemapNode, stack1: Seq<SourcemapNode>, t: SourceTable) -> (
    Map<KeyView, Seq<SourcemapNode>>,
    Seq<DiagnosticV>,
) {
    if is_script_class(node.class_name@) {
        match first_lua_file(node.file_paths@) {
            Some(p) => {
                let key = node_key(node, p);
                match source_of(t, p@) {
                    Some(b) => (
                        Map::<KeyView, Seq<SourcemapNode>>::empty().insert(
                            key,
                            resolved_targets(calls_of_block(b), stack1),
                        ),
                        unresolved_diags(calls_of_block(b), stack1, key),
                    ),
                    None => (
                        Map::<KeyView, Seq<SourcemapNode>>::empty().insert(key, Seq::empty()),
                        seq![DiagnosticV::SourceFailure { key }],
                    ),
                }
            },
            None => (Map::empty(), Seq::empty()),
        }
    } else {
        (Map::empty(), Seq::empty())
    }
}

/// The dependency map and diagnostics of one subtree, built against the
/// ancestor stack `stack`: the aggregation marker's subtree is skipped
/// whole; a source-bearing node with no source file is a leaf; otherwise
/// the node's own entry is merged with its children's maps in order.
pub open spec fn build_spec(node: SourcemapNode, stack: Seq<SourcemapNode>, t: SourceTable) -> (
    Map<KeyView, Seq<SourcemapNode>>,
    Seq<DiagnosticV>,
)
    decreases node,
{
    let stack1 = stack.push(node);
    if node.name@ == "_Index"@ {
        (Map::empty(), Seq::empty())
    } else if is_script_class(node.class_name@) && first_lua_file(node.file_paths@) is None {
        (Map::empty(), Seq::empty())
    } else {
        let own = own_entry(node, stack1, t);
        let rest = build_children(node.children@, stack1, t);
        (merge_views(own.0, rest.0), own.1 + rest.1)
    }
}

/// The merged maps and concatenated diagnostics of a list of sibling
/// subtrees, processed in order.
pub open spec fn build_children(
    children: Seq<SourcemapNode>,
    stack: Seq<SourcemapNode>,
    t: SourceTable,
) -> (Map<KeyView, Seq<SourcemapNode>>, Seq<DiagnosticV>)
    decreases children,
{
    if children.len() == 0 {
        (Map::empty(), Seq::empty())
    } else {
        let acc = build_children(children.drop_last(), stack, t);
        let last = build_spec(children.last(), stack, t);
        (merge_views(acc.0, last.0), acc.1 + last.1)
    }
}

/// The source file paths that the build will consult, in traversal
/// order: one per source-bearing node reached, skipping the aggregation
/// marker's subtree and the subtrees of source-bearing nodes without a
/// source file.
pub open spec fn source_files_spec(node: SourcemapNode) -> Seq<String>
    decreases node,
{
    if node.name@ == "_Index"@ {
        Seq::empty()
    } else if is_script_class(node.class_name@) {
        match first_lua_file(node.file_paths@) {
            None => Seq::empty(),
            Some(p) => seq![p] + children_files_spec(node.children@),
        }
    } else {
        children_files_spec(node.children@)
    }
}

pub open spec fn children_files_spec(children: Seq<SourcemapNode>) -> Seq<String>
    decreases children,
{
    if children.len() == 0 {
        Seq::empty()
    } else {
        children_files_spec(children.drop_last()) + source_files_spec(children.last())
    }
}

/// Collects the source file paths that building the dependency map of
/// this subtree will consult, in traversal order.
pub fn collect_source_files(node: &SourcemapNode) -> (r: Vec<String>)
    ensures
        r@ == source_files_spec(*node),
    decreases *node,
{
    let mut out: Vec<String> = Vec::new();
    if string_eq_str(&node.name, "_Index") {
        proof {
            assert(out@ =~= source_files_spec(*node));
        }
        return out;
    }
    if is_script_node(&node.class_name) {
        match node.lua_file() {
            None => {
                proof {
                    assert(out@ =~= source_files_spec(*node));
                }
                return out;
            },
            Some(p) => {
                out.push(p.clone());
            },
        }
    }
    let ghost own = out@;
    proof {
        assert(own + children_files_spec(node.children@.take(0)) =~= own);
    }
    let mut i: usize = 0;
    while i < node.children.len()
        invariant
            i <= node.children@.len(),
            out@ == own + children_files_spec(node.children@.take(i as int)),
        decreases node.children@.len() - i,
    {
        proof {
            assert(node.children@.take(i + 1 as int).drop_last() =~= node.children@.take(i as int));
            assert(node.children@.take(i + 1 as int).last() == node.children@[i as int]);
        }
        let mut sub = collect_source_files(&node.children[i]);
        out.append(&mut sub);
        proof {
            assert(out@ =~= own + children_files_spec(node.children@.take(i + 1 as int)));
        }
        i = i + 1;
    }
    proof {
        assert(node.children@.take(i as int) =~= node.children@);
        assert(out@ =~= source_files_spec(*node));
    }
    out
}

/// Builds the dependency map of the subtree rooted at `source_node`,
/// pushing the node on the ancestor stack for the duration of the visit
/// and restoring the stack before returning. The map holds one entry per
/// source-bearing node whose source file is known, listing its resolved
/// require targets in source order; the diagnostics list every source
/// failure and every unresolved require path, in traversal order.
pub fn parse_source<'a>(
    source_node: &'a SourcemapNode,
    node_path: &mut Vec<&'a SourcemapNode>,
    sources: &SourceTable,
) -> (r: (RequireMap<'a>, Vec<Diagnostic>))
    ensures
        final(node_path)@ == old(node_path)@,
        r.0.wf(),
        r.0@ == build_spec(*source_node, nodes_view(old(node_path)@), *sources).0,
        diags_view(r.1@) == build_spec(*source_node, nodes_view(old(node_path)@), *sources).1,
    decreases *source_node,
{
    let ghost stack0 = nodes_view(old(node_path)@);
    node_path.push(source_node);
    let ghost stack1 = nodes_view(node_path@);
    proof {
        assert(stack1 =~= stack0.push(*source_node));
    }
    let mut map = RequireMap::new();
    let mut diags: Vec<Diagnostic> = Vec::new();
    if string_eq_str(&source_node.name, "_Index") {
        node_path.pop();
        proof {
            assert(node_path@ =~= old(node_path)@);
            assert(diags_view(diags@) =~= Seq::<DiagnosticV>::empty());
        }
        return (map, diags);
    }
    let is_script = is_script_node(&source_node.class_name);
    if is_script {
        match source_node.lua_file() {
            None => {
                node_path.pop();
                proof {
                    assert(node_path@ =~= old(node_path)@);
                    assert(diags_view(diags@) =~= Seq::<DiagnosticV>::empty());
                }
                return (map, diags);
            },
            Some(path) => {
                let key = match source_node.as_key() {
                    Some(k) => k,
                    None => unreached(),
                };
                let ghost keyv = key@;
                match sources.get(path) {
                    None => {
                        diags.push(Diagnostic::SourceFailure { key: key.clone() });
                        map.push_entry(key, Vec::new());
                        proof {
                            let own = own_entry(*source_node, stack1, *sources);
                            assert(nodes_view(Seq::<&SourcemapNode>::empty())
                                =~= Seq::<SourcemapNode>::empty());
                            assert(diags_view(diags@) =~= own.1);
                            assert(map@ == own.0);
                        }
                    },
                    Some(block) => {
                        let funcs = get_functions(block);
                        let ghost callsv = calls_view(funcs@);
                        let mut resolved: Vec<&'a SourcemapNode> = Vec::new();
                        proof {
                            assert(nodes_view(resolved@) =~= resolved_targets(
                                callsv.take(0),
                                stack1,
                            ));
                            assert(diags_view(diags@) =~= unresolved_diags(
                                callsv.take(0),
                                stack1,
                                keyv,
                            ));
                        }
                        let mut i: usize = 0;
                        while i < funcs.len()
                            invariant
                                i <= funcs@.len(),
                                keyv == key@,
                                callsv == calls_view(funcs@),
                                callsv.len() == funcs@.len(),
                                node_path@.len() >= 1,
                                stack1 == nodes_view(node_path@),
                                nodes_view(resolved@) == resolved_targets(
                                    callsv.take(i as int),
                                    stack1,
                                ),
                                diags_view(diags@) == unresolved_diags(
                                    callsv.take(i as int),
                                    stack1,
                                    keyv,
                                ),
                            decreases funcs@.len() - i,
                        {
                            proof {
                                assert(callsv.take(i + 1 as int).drop_last() =~= callsv.take(
                                    i as int,
                                ));
                                assert(callsv.take(i + 1 as int).last() == callsv[i as int]);
                                assert(callsv[i as int] == fncall_view(
                                    *funcs@[i as int],
                                ));
                            }
                            match get_require_argument(funcs[i]) {
                                Some(args) => {
                                    match resolve_require(node_path, &args) {
                                        Some(target) => {
                                            resolved.push(target);
                                            proof {
                                                assert(nodes_view(resolved@) =~= nodes_view(
                                                    resolved@.drop_last(),
                                                ).push(*target));
                                            }
                                        },
                                        None => {
                                            let cloned_key = key.clone();
                                            let ghost pathv = strings_view(args@);
                                            diags.push(
                                                Diagnostic::UnresolvedRequire {
                                                    key: cloned_key,
                                                    path: args,
                                                },
                                            );
                                            proof {
                                                assert(require_arg(callsv[i as int]) == Some(
                                                    pathv,
                                                ));
                                                assert(resolve_path(stack1, pathv) is None);
                                                assert(unresolved_paths(
                                                    callsv.take(i + 1 as int),
                                                    stack1,
                                                ) == unresolved_paths(
                                                    callsv.take(i as int),
                                                    stack1,
                                                ).push(pathv));
                                                assert(diag_view(diags@.last())
                                                    == DiagnosticV::UnresolvedRequire {
                                                    key: keyv,
                                                    path: pathv,
                                                });
                                                assert(diags_view(diags@) =~= diags_view(
                                                    diags@.drop_last(),
                                                ).push(diag_view(diags@.last())));
                                                assert(unresolved_diags(
                                                    callsv.take(i + 1 as int),
                                                    stack1,
                                                    keyv,
                                                ) =~= unresolved_diags(
                                                    callsv.take(i as int),
                                                    stack1,
                                                    keyv,
                                                ).push(diag_view(diags@.last())));
                                            }
                                        },
                                    }
                                },
                                None => {
                                },
                            }
                            i = i + 1;
                        }
                        proof {
                            assert(callsv.take(i as int) =~= callsv);
                        }
                        map.push_entry(key, resolved);
                        proof {
                            let own = own_entry(*source_node, stack1, *sources);
                            assert(map@ == own.0);
                            assert(diags_view(diags@) == own.1);
                        }
                    },
                }
            },
        }
    }
    proof {
        let own = own_entry(*source_node, stack1, *sources);
        assert(map@ == own.0 && diags_view(diags@) == own.1);
    }
    let ghost own = own_entry(*source_node, stack1, *sources);
    proof {
        assert(merge_views(map@, Map::empty()) =~= map@);
        assert(map@ =~= merge_views(
            own.0,
            build_children(source_node.children@.take(0), stack1, *sources).0,
        ));
    }
    let mut i: usize = 0;
    while i < source_node.children.len()
        invariant
            i <= source_node.children@.len(),
            node_path@ == old(node_path)@.push(source_node),
            stack1 == nodes_view(node_path@),
            own == own_entry(*source_node, stack1, *sources),
            map.wf(),
            map@ == merge_views(
                own.0,
                build_children(source_node.children@.take(i as int), stack1, *sources).0,
            ),
            diags_view(diags@) == own.1 + build_children(
                source_node.children@.take(i as int),
                stack1,
                *sources,
            ).1,
        decreases source_node.children@.len() - i,
    {
        let ghost taken = source_node.children@.take(i as int);
        let ghost taken1 = source_node.children@.take(i + 1 as int);
        proof {
            assert(taken1.drop_last() =~= taken);
            assert(taken1.last() == source_node.children@[i as int]);
        }
        let (child_map, mut child_diags) = parse_source(&source_node.children[i], node_path, sources);
        let ghost child = build_spec(source_node.children@[i as int], stack1, *sources);
        let ghost before_diags = diags@;
        let ghost childd = child_diags@;
        proof {
            assert(child_map@ == child.0);
            assert(diags_view(childd) == child.1);
        }
        map.merge(child_map);
        diags.append(&mut child_diags);
        proof {
            lemma_merge_associative(own.0, build_children(taken, stack1, *sources).0, child.0);
            assert(diags@ == before_diags + childd);
            assert(diags_view(diags@) =~= diags_view(before_diags) + diags_view(childd));
            assert(diags_view(diags@) =~= own.1 + (build_children(taken, stack1, *sources).1
                + child.1));
        }
        i = i + 1;
    }
    proof {
        assert(source_node.children@.take(i as int) =~= source_node.children@);
    }
    node_path.pop();
    proof {
        assert(node_path@ =~= old(node_path)@);
    }
    (map, diags)
}

} // verus!
