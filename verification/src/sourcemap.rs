use vstd::prelude::*;
use vstd::string::StrSliceExecFns;

use crate::util::{string_eq_str, strings_view};

verus! {

/// A node of the project tree: a name, a class (kind), the source files
/// backing the node, and the child nodes it owns.
pub struct SourcemapNode {
    pub name: String,
    pub class_name: String,
    pub file_paths: Vec<String>,
    pub children: Vec<SourcemapNode>,
}

/// The identity of a source-bearing node, used as the key of the
/// dependency map: the name alone is not unique across a project.
pub struct SourcemapKey {
    pub name: String,
    pub class_name: String,
    pub file_path: String,
}

/// The mathematical identity of a [`SourcemapKey`]: its three fields as
/// character sequences.
pub struct KeyView {
    pub name: Seq<char>,
    pub class_name: Seq<char>,
    pub file_path: Seq<char>,
}

impl View for SourcemapKey {
    type V = KeyView;

    open spec fn view(&self) -> KeyView {
        KeyView { name: self.name@, class_name: self.class_name@, file_path: self.file_path@ }
    }
}

impl Clone for SourcemapKey {
    fn clone(&self) -> (r: Self)
        ensures
            r == *self,
    {
        SourcemapKey {
            name: self.name.clone(),
            class_name: self.class_name.clone(),
            file_path: self.file_path.clone(),
        }
    }
}

/// Compares two map keys by their contents.
pub fn key_eq(a: &SourcemapKey, b: &SourcemapKey) -> (r: bool)
    ensures
        r == (a@ == b@),
{
    a.name == b.name && a.class_name == b.class_name && a.file_path == b.file_path
}

/// Holds when a path names a Lua source file: it is longer than the
/// `.lua` suffix it ends in.
pub open spec fn is_lua_path(p: Seq<char>) -> bool {
    &&& p.len() > 4
    &&& p[p.len() - 4] == '.'
    &&& p[p.len() - 3] == 'l'
    &&& p[p.len() - 2] == 'u'
    &&& p[p.len() - 1] == 'a'
}

/// The first path of `paths` that names a Lua source file, if any.
pub open spec fn first_lua_file(paths: Seq<String>) -> Option<String>
    decreases paths.len(),
{
    if paths.len() == 0 {
        None
    } else if is_lua_path(paths[0]@) {
        Some(paths[0])
    } else {
        first_lua_file(paths.drop_first())
    }
}

proof fn lemma_first_lua_file_skip(paths: Seq<String>, i: int)
    requires
        0 <= i <= paths.len(),
        forall|j: int| 0 <= j < i ==> !is_lua_path(#[trigger] paths[j]@),
    ensures
        first_lua_file(paths) == first_lua_file(paths.skip(i)),
    decreases i,
{
    if i > 0 {
        assert(!is_lua_path(paths[0]@));
        assert(paths.drop_first() == paths.skip(1));
        lemma_first_lua_file_skip(paths.skip(1), i - 1);
        assert(paths.skip(1).skip(i - 1) =~= paths.skip(i));
    } else {
        assert(paths.skip(0) =~= paths);
    }
}

/// Decides whether a path names a Lua source file.
pub fn has_lua_extension(p: &String) -> (r: bool)
    ensures
        r == is_lua_path(p@),
{
    let s: &str = p.as_str();
    let n = s.unicode_len();
    if n <= 4 {
        return false;
    }
    s.get_char(n - 4) == '.' && s.get_char(n - 3) == 'l' && s.get_char(n - 2) == 'u'
        && s.get_char(n - 1) == 'a'
}

impl SourcemapNode {
    /// The first of this node's file paths that names a Lua source file.
    pub fn lua_file(&self) -> (r: Option<&String>)
        ensures
            match r {
                Some(p) => first_lua_file(self.file_paths@) == Some(*p),
                None => first_lua_file(self.file_paths@) is None,
            },
    {
        let mut i: usize = 0;
        while i < self.file_paths.len()
            invariant
                i <= self.file_paths@.len(),
                forall|j: int| 0 <= j < i ==> !is_lua_path(#[trigger] self.file_paths@[j]@),
            decreases self.file_paths@.len() - i,
        {
            let p = &self.file_paths[i];
            if has_lua_extension(p) {
                proof {
                    lemma_first_lua_file_skip(self.file_paths@, i as int);
                }
                return Some(p);
            }
            i = i + 1;
        }
        proof {
            lemma_first_lua_file_skip(self.file_paths@, i as int);
        }
        None
    }

    /// The map key identifying this node, present exactly when the node is
    /// backed by a Lua source file.
    pub fn as_key(&self) -> (r: Option<SourcemapKey>)
        ensures
            match first_lua_file(self.file_paths@) {
                Some(p) => r == Some(
                    SourcemapKey {
                        name: self.name,
                        class_name: self.class_name,
                        file_path: p,
                    },
                ),
                None => r is None,
            },
    {
        match self.lua_file() {
            Some(file) => Some(
                SourcemapKey {
                    name: self.name.clone(),
                    class_name: self.class_name.clone(),
                    file_path: file.clone(),
                },
            ),
            None => None,
        }
    }
}

/// The first direct child of `children` whose name is `name`, if any.
pub open spec fn search_child(children: Seq<SourcemapNode>, name: Seq<char>) -> Option<
    SourcemapNode,
>
    decreases children.len(),
{
    if children.len() == 0 {
        None
    } else if children[0].name@ == name {
        Some(children[0])
    } else {
        search_child(children.drop_first(), name)
    }
}

proof fn lemma_search_child_skip(children: Seq<SourcemapNode>, name: Seq<char>, i: int)
    requires
        0 <= i <= children.len(),
        forall|j: int| 0 <= j < i ==> #[trigger] children[j].name@ != name,
    ensures
        search_child(children, name) == search_child(children.skip(i), name),
    decreases i,
{
    if i > 0 {
        assert(children[0].name@ != name);
        assert(children.drop_first() == children.skip(1));
        lemma_search_child_skip(children.skip(1), name, i - 1);
        assert(children.skip(1).skip(i - 1) =~= children.skip(i));
    } else {
        assert(children.skip(0) =~= children);
    }
}

/// Looks up the first direct child of `root` named `search_name`.
pub fn node_search_name<'a>(root: &'a SourcemapNode, search_name: &str) -> (r: Option<
    &'a SourcemapNode,
>)
    ensures
        match r {
            Some(c) => search_child(root.children@, search_name@) == Some(*c),
            None => search_child(root.children@, search_name@) is None,
        },
{
    let mut i: usize = 0;
    while i < root.children.len()
        invariant
            i <= root.children@.len(),
            forall|j: int| 0 <= j < i ==> #[trigger] root.children@[j].name@ != search_name@,
        decreases root.children@.len() - i,
    {
        let c = &root.children[i];
        if string_eq_str(&c.name, search_name) {
            proof {
                lemma_search_child_skip(root.children@, search_name@, i as int);
            }
            return Some(c);
        }
        i = i + 1;
    }
    proof {
        lemma_search_child_skip(root.children@, search_name@, i as int);
    }
    None
}

/// The values on an ancestor stack of borrowed nodes.
pub open spec fn nodes_view(s: Seq<&SourcemapNode>) -> Seq<SourcemapNode> {
    s.map(|i: int, n: &SourcemapNode| *n)
}

/// Walks the remaining `tokens` of a require path from `cursor`, with `idx`
/// the position on the ancestor `stack` that the next parent token ascends
/// to. A parent token moves one level closer to the root and stays at the
/// root once there; any other token is a child-name lookup, which fails the
/// whole resolution when no child matches.
pub open spec fn resolve_from(
    stack: Seq<SourcemapNode>,
    idx: int,
    cursor: SourcemapNode,
    tokens: Seq<Seq<char>>,
) -> Option<SourcemapNode>
    recommends
        0 <= idx < stack.len(),
    decreases tokens.len(),
{
    if tokens.len() == 0 {
        Some(cursor)
    } else if tokens[0] == "Parent"@ {
        let nidx = if idx > 0 {
            idx - 1
        } else {
            0
        };
        resolve_from(stack, nidx, stack[nidx], tokens.drop_first())
    } else {
        match search_child(cursor.children@, tokens[0]) {
            Some(child) => resolve_from(stack, idx, child, tokens.drop_first()),
            None => None,
        }
    }
}

/// Resolves a token path against an ancestor stack. An empty path fails. A
/// path beginning with the self token starts at the requiring module (the
/// top of the stack) and consumes that token; any other path starts at the
/// project root (the bottom of the stack).
pub open spec fn resolve_path(stack: Seq<SourcemapNode>, tokens: Seq<Seq<char>>) -> Option<
    SourcemapNode,
>
    recommends
        stack.len() >= 1,
{
    if tokens.len() == 0 {
        None
    } else if tokens[0] == "script"@ {
        resolve_from(stack, stack.len() - 1, stack.last(), tokens.drop_first())
    } else {
        resolve_from(stack, 0, stack[0], tokens)
    }
}

/// Resolves a require token path against the current ancestor stack,
/// returning the target node or nothing when the path cannot be resolved.
pub fn resolve_require<'a>(node_path: &Vec<&'a SourcemapNode>, require: &Vec<String>) -> (r: Option<
    &'a SourcemapNode,
>)
    requires
        node_path@.len() >= 1,
    ensures
        match r {
            Some(n) => resolve_path(nodes_view(node_path@), strings_view(require@)) == Some(*n),
            None => resolve_path(nodes_view(node_path@), strings_view(require@)) is None,
        },
{
    let ghost stackv = nodes_view(node_path@);
    let ghost reqv = strings_view(require@);
    if require.len() == 0 {
        return None;
    }
    let mut k: usize;
    let mut idx: usize;
    let mut cursor: &SourcemapNode;
    if string_eq_str(&require[0], "script") {
        k = 1;
        idx = node_path.len() - 1;
        cursor = node_path[node_path.len() - 1];
        proof {
            assert(stackv.last() == *cursor);
            assert(reqv.drop_first() =~= reqv.skip(1));
        }
    } else {
        k = 0;
        idx = 0;
        cursor = node_path[0];
        proof {
            assert(reqv.skip(0) =~= reqv);
        }
    }
    while k < require.len()
        invariant
            k <= require@.len(),
            idx < stackv.len(),
            stackv.len() == node_path@.len() >= 1,
            stackv == nodes_view(node_path@),
            reqv == strings_view(require@),
            reqv.len() == require@.len(),
            resolve_from(stackv, idx as int, *cursor, reqv.skip(k as int)) == resolve_path(
                stackv,
                reqv,
            ),
        decreases require@.len() - k,
    {
        let ghost rest = reqv.skip(k as int);
        proof {
            assert(rest[0] == reqv[k as int]);
            assert(reqv[k as int] == require@[k as int]@);
            assert(rest.drop_first() =~= reqv.skip(k as int + 1));
        }
        let tok = &require[k];
        if string_eq_str(tok, "Parent") {
            if idx > 0 {
                idx = idx - 1;
            }
            cursor = node_path[idx];
        } else {
            match node_search_name(cursor, tok.as_str()) {
                Some(child) => {
                    cursor = child;
                },
                None => {
                    return None;
                },
            }
        }
        k = k + 1;
    }
    proof {
        assert(reqv.skip(k as int) =~= Seq::<Seq<char>>::empty());
    }
    Some(cursor)
}

/// The resolution of a token path starts from the requiring module itself
/// when the path begins with the self token, and from the project root
/// otherwise.
pub proof fn lemma_resolution_start(stack: Seq<SourcemapNode>, tokens: Seq<Seq<char>>)
    requires
        stack.len() >= 1,
        tokens.len() >= 1,
    ensures
        tokens[0] == "script"@ ==> resolve_path(stack, tokens) == resolve_from(
            stack,
            stack.len() - 1,
            stack.last(),
            tokens.drop_first(),
        ),
        tokens[0] != "script"@ ==> resolve_path(stack, tokens) == resolve_from(
            stack,
            0,
            stack[0],
            tokens,
        ),
{
}

/// A path of the single self token resolves to the requiring module
/// itself: the top of the ancestor stack, never the project root.
pub proof fn lemma_script_path_is_module(stack: Seq<SourcemapNode>, t: Seq<char>)
    requires
        stack.len() >= 1,
        t == "script"@,
    ensures
        resolve_path(stack, seq![t]) == Some(stack.last()),
{
    let tokens = seq![t];
    assert(tokens.drop_first() =~= Seq::<Seq<char>>::empty());
}

/// Ascending with a parent token while already at the project root is a
/// no-op: resolution does not fail and does not move off the root.
pub proof fn lemma_parent_at_root_noop(
    stack: Seq<SourcemapNode>,
    t: Seq<char>,
    rest: Seq<Seq<char>>,
)
    requires
        stack.len() >= 1,
        t == "Parent"@,
    ensures
        resolve_from(stack, 0, stack[0], seq![t] + rest) == resolve_from(stack, 0, stack[0], rest),
{
    let tokens = seq![t] + rest;
    assert(tokens[0] == t);
    assert(tokens.drop_first() =~= rest);
}

} // verus!
