use vstd::prelude::*;
use vstd::pervasive::unreached;

use crate::require_map::RequireMap;
use crate::sourcemap::{KeyView, SourcemapKey, SourcemapNode, first_lua_file, nodes_view};

verus! {

// ---------------------------------------------------------------------------
// The flat node/edge view of the dependency map.
// ---------------------------------------------------------------------------

/// One node record of the flat graph: a densely packed id and the module
/// name.
pub struct Node {
    pub id: i32,
    pub name: String,
}

/// One edge record of the flat graph: the required module's id and the
/// requiring module's id.
pub struct Link {
    pub source: i32,
    pub target: i32,
}

/// The flat graph: one node record per map key, one link record per
/// resolved require.
pub struct Graph {
    pub nodes: Vec<Node>,
    pub links: Vec<Link>,
}

/// The id assigned to a file path: the position of the first entry backed
/// by that path.
pub open spec fn path_index(
    entries: Seq<(SourcemapKey, Vec<&SourcemapNode>)>,
    path: Seq<char>,
) -> Option<int>
    decreases entries.len(),
{
    if entries.len() == 0 {
        None
    } else if entries[0].0.file_path@ == path {
        Some(0)
    } else {
        match path_index(entries.drop_first(), path) {
            Some(j) => Some(j + 1),
            None => None,
        }
    }
}

proof fn lemma_path_index_found(
    entries: Seq<(SourcemapKey, Vec<&SourcemapNode>)>,
    path: Seq<char>,
    j: int,
)
    requires
        0 <= j < entries.len(),
        entries[j].0.file_path@ == path,
        forall|k: int| 0 <= k < j ==> (#[trigger] entries[k].0.file_path@) != path,
    ensures
        path_index(entries, path) == Some(j),
    decreases j,
{
    if j > 0 {
        assert(entries[0].0.file_path@ != path);
        lemma_path_index_found(entries.drop_first(), path, j - 1);
    }
}

proof fn lemma_path_index_none(entries: Seq<(SourcemapKey, Vec<&SourcemapNode>)>, path: Seq<char>)
    requires
        forall|k: int| 0 <= k < entries.len() ==> (#[trigger] entries[k].0.file_path@) != path,
    ensures
        path_index(entries, path) is None,
    decreases entries.len(),
{
    if entries.len() > 0 {
        lemma_path_index_none(entries.drop_first(), path);
    }
}

proof fn lemma_path_index_in_range(
    entries: Seq<(SourcemapKey, Vec<&SourcemapNode>)>,
    path: Seq<char>,
)
    ensures
        path_index(entries, path) matches Some(j) ==> 0 <= j < entries.len(),
    decreases entries.len(),
{
    if entries.len() > 0 {
        lemma_path_index_in_range(entries.drop_first(), path);
    }
}

/// The links contributed by one entry's target list, in order: one link
/// per target whose source file has an id, from the target's id to the
/// entry's id.
pub open spec fn entry_links(
    entries: Seq<(SourcemapKey, Vec<&SourcemapNode>)>,
    targets: Seq<SourcemapNode>,
    entry_id: int,
) -> Seq<(int, int)>
    decreases targets.len(),
{
    if targets.len() == 0 {
        Seq::empty()
    } else {
        entry_links(entries, targets.drop_last(), entry_id) + match first_lua_file(
            targets.last().file_paths@,
        ) {
            Some(p) => match path_index(entries, p@) {
                Some(s) => seq![(s, entry_id)],
                None => Seq::empty(),
            },
            None => Seq::empty(),
        }
    }
}

/// The links of the first `n` entries, in entry order.
pub open spec fn links_upto(entries: Seq<(SourcemapKey, Vec<&SourcemapNode>)>, n: int) -> Seq<
    (int, int),
>
    decreases n,
{
    if n <= 0 {
        Seq::empty()
    } else {
        links_upto(entries, n - 1) + entry_links(entries, nodes_view(entries[n - 1].1@), n - 1)
    }
}

/// The id pairs named by a list of link records.
pub open spec fn links_view(ls: Seq<Link>) -> Seq<(int, int)> {
    ls.map(|i: int, l: Link| (l.source as int, l.target as int))
}

/// Holds when the map can be presented as a flat graph: keys are pairwise
/// distinct with pairwise distinct file paths, the entry count fits the
/// id type, and every resolved target is backed by a source file that
/// some key of the map is backed by.
pub open spec fn graph_ready(m: RequireMap) -> bool {
    &&& m.wf()
    &&& m.entries@.len() <= i32::MAX
    &&& forall|i: int, j: int|
        #![trigger m.entries@[i], m.entries@[j]]
        0 <= i < j < m.entries@.len() ==> m.entries@[i].0.file_path@
            != m.entries@[j].0.file_path@
    &&& forall|i: int, t: int|
        0 <= i < m.entries@.len() && 0 <= t < m.entries@[i].1@.len() ==> {
            let tn = *(#[trigger] m.entries@[i].1@[t]);
            &&& first_lua_file(tn.file_paths@) is Some
            &&& path_index(m.entries@, first_lua_file(tn.file_paths@).unwrap()@) is Some
        }
}

/// The number of resolved edges among the first `n` entries.
pub open spec fn edge_count(entries: Seq<(SourcemapKey, Vec<&SourcemapNode>)>, n: int) -> int
    decreases n,
{
    if n <= 0 {
        0
    } else {
        edge_count(entries, n - 1) + entries[n - 1].1@.len()
    }
}

impl Graph {
    /// Builds the flat graph of a dependency map: one node record per
    /// key, with ids assigned in entry order, and one link record per
    /// resolved require, from the required module's id to the requiring
    /// module's id; every link joins two valid node ids.
    pub fn from_map<'a>(map: &RequireMap<'a>) -> (r: Graph)
        requires
            graph_ready(*map),
        ensures
            r.nodes@.len() == map.entries@.len(),
            forall|i: int|
                0 <= i < map.entries@.len() ==> (#[trigger] r.nodes@[i]).id == i as i32
                    && r.nodes@[i].name@ == map.entries@[i].0.name@,
            links_view(r.links@) == links_upto(map.entries@, map.entries@.len() as int),
            r.links@.len() == edge_count(map.entries@, map.entries@.len() as int),
            forall|x: int|
                0 <= x < r.links@.len() ==> 0 <= (#[trigger] r.links@[x]).source
                    < map.entries@.len() && 0 <= r.links@[x].target < map.entries@.len(),
    {
        proof {
            lemma_flat_graph_counts(*map);
        }
        let n = map.entries.len();
        let mut nodes: Vec<Node> = Vec::new();
        let mut i: usize = 0;
        while i < n
            invariant
                n == map.entries@.len() <= i32::MAX,
                i <= n,
                nodes@.len() == i,
                forall|j: int|
                    0 <= j < i ==> (#[trigger] nodes@[j]).id == j as i32 && nodes@[j].name@
                        == map.entries@[j].0.name@,
            decreases n - i,
        {
            nodes.push(Node { id: i as i32, name: map.entries[i].0.name.clone() });
            i = i + 1;
        }
        let mut links: Vec<Link> = Vec::new();
        proof {
            assert(links_view(links@) =~= links_upto(map.entries@, 0));
        }
        let mut e: usize = 0;
        while e < n
            invariant
                n == map.entries@.len() <= i32::MAX,
                graph_ready(*map),
                e <= n,
                links_view(links@) == links_upto(map.entries@, e as int),
            decreases n - e,
        {
            let targets: &Vec<&'a SourcemapNode> = &map.entries[e].1;
            let ghost targetsv = nodes_view(targets@);
            let mut t: usize = 0;
            proof {
                assert(targetsv.take(0) =~= Seq::<SourcemapNode>::empty());
            }
            while t < targets.len()
                invariant
                    n == map.entries@.len() <= i32::MAX,
                    graph_ready(*map),
                    e < n,
                    t <= targets@.len(),
                    targets@ == map.entries@[e as int].1@,
                    targetsv == nodes_view(targets@),
                    targetsv.len() == targets@.len(),
                    links_view(links@) == links_upto(map.entries@, e as int) + entry_links(
                        map.entries@,
                        targetsv.take(t as int),
                        e as int,
                    ),
                decreases targets@.len() - t,
            {
                proof {
                    assert(targetsv.take(t + 1 as int).drop_last() =~= targetsv.take(t as int));
                    assert(targetsv.take(t + 1 as int).last() == targetsv[t as int]);
                    assert(targetsv[t as int] == *targets@[t as int]);
                }
                let target: &SourcemapNode = targets[t];
                match target.lua_file() {
                    Some(p) => {
                        match find_path_id(map, p) {
                            Some(s) => {
                                proof {
                                    lemma_path_index_in_range(map.entries@, p@);
                                }
                                let ghost old_links = links@;
                                links.push(Link { source: s as i32, target: e as i32 });
                                proof {
                                    assert(links_view(links@) =~= links_view(old_links).push(
                                        (s as int, e as int),
                                    ));
                                    assert(entry_links(
                                        map.entries@,
                                        targetsv.take(t + 1 as int),
                                        e as int,
                                    ) =~= entry_links(
                                        map.entries@,
                                        targetsv.take(t as int),
                                        e as int,
                                    ).push((s as int, e as int)));
                                    assert(links_view(links@) =~= links_upto(
                                        map.entries@,
                                        e as int,
                                    ) + entry_links(
                                        map.entries@,
                                        targetsv.take(t + 1 as int),
                                        e as int,
                                    ));
                                }
                            },
                            None => {
                                proof {
                                    assert(entry_links(
                                        map.entries@,
                                        targetsv.take(t + 1 as int),
                                        e as int,
                                    ) =~= entry_links(
                                        map.entries@,
                                        targetsv.take(t as int),
                                        e as int,
                                    ));
                                }
                            },
                        }
                    },
                    None => {
                        proof {
                            assert(entry_links(
                                map.entries@,
                                targetsv.take(t + 1 as int),
                                e as int,
                            ) =~= entry_links(map.entries@, targetsv.take(t as int), e as int));
                        }
                    },
                }
                t = t + 1;
            }
            proof {
                assert(targetsv.take(t as int) =~= targetsv);
                assert(links_view(links@) =~= links_upto(map.entries@, e as int + 1));
            }
            e = e + 1;
        }
        proof {
            assert forall|x: int|
                0 <= x < links@.len() implies 0 <= (#[trigger] links@[x]).source
                < map.entries@.len() && 0 <= links@[x].target < map.entries@.len() by {
                assert(links_view(links@)[x] == (links@[x].source as int, links@[x].target as int));
                assert(links_view(links@)[x] == links_upto(
                    map.entries@,
                    map.entries@.len() as int,
                )[x]);
            }
        }
        Graph { nodes, links }
    }
}

/// Looks up the id assigned to a file path: the position of the first
/// map entry backed by that path.
fn find_path_id<'a>(map: &RequireMap<'a>, path: &String) -> (r: Option<usize>)
    requires
        map.entries@.len() <= i32::MAX,
    ensures
        match r {
            Some(s) => path_index(map.entries@, path@) == Some(s as int),
            None => path_index(map.entries@, path@) is None,
        },
{
    let mut j: usize = 0;
    while j < map.entries.len()
        invariant
            j <= map.entries@.len(),
            forall|k: int| 0 <= k < j ==> (#[trigger] map.entries@[k].0.file_path@) != path@,
        decreases map.entries@.len() - j,
    {
        if map.entries[j].0.file_path == *path {
            proof {
                lemma_path_index_found(map.entries@, path@, j as int);
            }
            return Some(j);
        }
        j = j + 1;
    }
    proof {
        lemma_path_index_none(map.entries@, path@);
    }
    None
}

/// Every link of the flat graph joins two valid node ids, and a graph
/// built from a map whose targets all carry ids has exactly one link per
/// resolved edge: the flat view loses no node and no edge.
pub proof fn lemma_flat_graph_counts(m: RequireMap)
    requires
        graph_ready(m),
    ensures
        links_upto(m.entries@, m.entries@.len() as int).len() == edge_count(
            m.entries@,
            m.entries@.len() as int,
        ),
        forall|x: int|
            0 <= x < links_upto(m.entries@, m.entries@.len() as int).len() ==> {
                let l = #[trigger] links_upto(m.entries@, m.entries@.len() as int)[x];
                0 <= l.0 < m.entries@.len() && 0 <= l.1 < m.entries@.len()
            },
{
    lemma_links_upto_counts(m, m.entries@.len() as int);
}

proof fn lemma_entry_links_counts(m: RequireMap, e: int, t: int)
    requires
        graph_ready(m),
        0 <= e < m.entries@.len(),
        0 <= t <= m.entries@[e].1@.len(),
    ensures
        entry_links(m.entries@, nodes_view(m.entries@[e].1@).take(t), e).len() == t,
        forall|x: int|
            0 <= x < t ==> {
                let l = #[trigger] entry_links(m.entries@, nodes_view(m.entries@[e].1@).take(t), e)[x];
                0 <= l.0 < m.entries@.len() && 0 <= l.1 < m.entries@.len()
            },
    decreases t,
{
    let targets = nodes_view(m.entries@[e].1@);
    if t > 0 {
        lemma_entry_links_counts(m, e, t - 1);
        assert(targets.take(t).drop_last() =~= targets.take(t - 1));
        assert(targets.take(t).last() == targets[t - 1]);
        assert(targets[t - 1] == *m.entries@[e].1@[t - 1]);
        let tn = *m.entries@[e].1@[t - 1];
        assert(first_lua_file(tn.file_paths@) is Some);
        let p = first_lua_file(tn.file_paths@).unwrap();
        lemma_path_index_in_range(m.entries@, p@);
        let s = path_index(m.entries@, p@).unwrap();
        assert(entry_links(m.entries@, targets.take(t), e) =~= entry_links(
            m.entries@,
            targets.take(t - 1),
            e,
        ).push((s, e)));
    } else {
        assert(targets.take(0) =~= Seq::<SourcemapNode>::empty());
    }
}

// ---------------------------------------------------------------------------
// The depth-bounded tree view of the dependency map.
// ---------------------------------------------------------------------------

/// The rendering of one module and, below it, of the modules it
/// requires, cut off at a depth bound.
pub struct RequireTree {
    pub name: String,
    pub children: Vec<RequireTree>,
}

/// The mathematical content of a rendered tree.
pub struct RequireTreeV {
    pub name: Seq<char>,
    pub children: Seq<RequireTreeV>,
}

pub open spec fn tree_view(t: RequireTree) -> RequireTreeV
    decreases t,
{
    RequireTreeV { name: t.name@, children: trees_view(t.children@) }
}

pub open spec fn trees_view(ts: Seq<RequireTree>) -> Seq<RequireTreeV>
    decreases ts,
{
    if ts.len() == 0 {
        Seq::empty()
    } else {
        trees_view(ts.drop_last()).push(tree_view(ts.last()))
    }
}

/// The identity under which a resolved target is looked up in the map:
/// its name, class, and the first Lua file backing it.
pub open spec fn target_key(n: SourcemapNode) -> KeyView {
    KeyView {
        name: n.name@,
        class_name: n.class_name@,
        file_path: match first_lua_file(n.file_paths@) {
            Some(p) => p@,
            None => Seq::empty(),
        },
    }
}

/// Holds when the map can be rendered as a tree from any of its keys:
/// every resolved target is backed by a source file and stands in the
/// map under its own key.
pub open spec fn render_ready(m: RequireMap) -> bool {
    forall|k: KeyView, t: int|
        m@.dom().contains(k) && 0 <= t < m@[k].len() ==> {
            let tn = #[trigger] m@[k][t];
            &&& first_lua_file(tn.file_paths@) is Some
            &&& m@.dom().contains(target_key(tn))
        }
}

/// The rendered tree of the module keyed `key`: its name, and below it,
/// with one unit of fuel spent, the rendered trees of its required
/// modules in order. With no fuel left the module renders as a leaf,
/// whatever it requires.
pub open spec fn render_spec(m: RequireMap, key: KeyView, fuel: nat) -> RequireTreeV
    decreases fuel, 0nat,
{
    RequireTreeV {
        name: key.name,
        children: if fuel == 0 {
            Seq::empty()
        } else {
            render_children(m, m@[key], (fuel - 1) as nat)
        },
    }
}

/// The rendered trees of a list of required modules, in order.
pub open spec fn render_children(m: RequireMap, targets: Seq<SourcemapNode>, fuel: nat) -> Seq<
    RequireTreeV,
>
    decreases fuel, targets.len(),
{
    if targets.len() == 0 {
        Seq::empty()
    } else {
        render_children(m, targets.drop_last(), fuel).push(
            render_spec(m, target_key(targets.last()), fuel),
        )
    }
}

/// The depth cap applied when no maximum depth is supplied: it guards
/// the renderer against unbounded require cycles.
pub const DEFAULT_RENDER_DEPTH: u32 = 64;

/// The expansions left for a node rendered at the given depth under the
/// given maximum: zero once the depth reaches the maximum, or the
/// default cap when no maximum is supplied.
pub open spec fn fuel_of(max_depth: Option<u32>, depth: Option<u32>) -> nat {
    let d = 1 + (match depth {
        Some(x) => x as nat,
        None => 0,
    });
    let cap = (match max_depth {
        Some(md) => md as nat,
        None => DEFAULT_RENDER_DEPTH as nat,
    });
    if d >= cap {
        0
    } else {
        (cap - d) as nat
    }
}

/// Renders the module keyed `root` and, below it, the modules it
/// requires, recursing with `depth` one deeper per level and emitting a
/// leaf once the depth reaches `max_depth`. When no maximum depth is
/// supplied, the default cap bounds the rendering instead, so a require
/// cycle never recurses unboundedly.
pub fn create_require_tree<'a>(
    resolve_map: &RequireMap<'a>,
    root: &SourcemapKey,
    max_depth: Option<u32>,
    depth: Option<u32>,
) -> (r: RequireTree)
    requires
        render_ready(*resolve_map),
        resolve_map@.dom().contains(root@),
        depth matches Some(x) ==> x < u32::MAX,
    ensures
        tree_view(r) == render_spec(*resolve_map, root@, fuel_of(max_depth, depth)),
    decreases fuel_of(max_depth, depth),
{
    let ghost fuel = fuel_of(max_depth, depth);
    let d: u32 = match depth {
        Some(x) => x + 1,
        None => 1,
    };
    let cap: u32 = match max_depth {
        Some(md) => md,
        None => DEFAULT_RENDER_DEPTH,
    };
    if d >= cap {
        let leaf = RequireTree { name: root.name.clone(), children: Vec::new() };
        proof {
            assert(trees_view(leaf.children@) =~= Seq::<RequireTreeV>::empty());
        }
        return leaf;
    }
    let requires_list: &Vec<&'a SourcemapNode> = match resolve_map.get(root) {
        Some(v) => v,
        None => unreached(),
    };
    let ghost targetsv = resolve_map@[root@];
    proof {
        assert(targetsv == nodes_view(requires_list@));
        assert(targetsv.take(0) =~= Seq::<SourcemapNode>::empty());
    }
    let mut children: Vec<RequireTree> = Vec::new();
    let mut t: usize = 0;
    while t < requires_list.len()
        invariant
            render_ready(*resolve_map),
            resolve_map@.dom().contains(root@),
            fuel == fuel_of(max_depth, depth),
            fuel >= 1,
            d < u32::MAX,
            fuel_of(max_depth, Some(d)) == (fuel - 1) as nat,
            t <= requires_list@.len(),
            targetsv == resolve_map@[root@],
            targetsv == nodes_view(requires_list@),
            targetsv.len() == requires_list@.len(),
            trees_view(children@) == render_children(
                *resolve_map,
                targetsv.take(t as int),
                (fuel - 1) as nat,
            ),
        decreases requires_list@.len() - t,
    {
        proof {
            assert(targetsv.take(t + 1 as int).drop_last() =~= targetsv.take(t as int));
            assert(targetsv.take(t + 1 as int).last() == targetsv[t as int]);
            assert(targetsv[t as int] == *requires_list@[t as int]);
        }
        let target: &SourcemapNode = requires_list[t];
        let child_key = match target.as_key() {
            Some(k) => k,
            None => unreached(),
        };
        proof {
            assert(child_key@ == target_key(*target));
        }
        let sub = create_require_tree(resolve_map, &child_key, max_depth, Some(d));
        let ghost old_children = children@;
        children.push(sub);
        proof {
            assert(children@.drop_last() =~= old_children);
            assert(children@.last() == sub);
            assert(trees_view(children@) == trees_view(old_children).push(tree_view(sub)));
        }
        t = t + 1;
    }
    proof {
        assert(targetsv.take(t as int) =~= targetsv);
    }
    let r = RequireTree { name: root.name.clone(), children };
    r
}

/// The height of a rendered tree: one for the node itself plus its
/// tallest child.
pub open spec fn tree_height(t: RequireTreeV) -> nat
    decreases t,
{
    1 + trees_height(t.children)
}

pub open spec fn trees_height(ts: Seq<RequireTreeV>) -> nat
    decreases ts,
{
    if ts.len() == 0 {
        0
    } else {
        let rest = trees_height(ts.drop_last());
        let last = tree_height(ts.last());
        if rest >= last {
            rest
        } else {
            last
        }
    }
}

/// Bounded rendering terminates at its depth bound: a tree rendered with
/// `fuel` expansions has at most `fuel + 1` levels, however the map's
/// requires are connected — a require cycle cannot make the rendering
/// grow without bound.
pub proof fn lemma_render_depth_bounded(m: RequireMap, key: KeyView, fuel: nat)
    ensures
        tree_height(render_spec(m, key, fuel)) <= fuel + 1,
    decreases fuel, 0nat,
{
    if fuel > 0 {
        lemma_render_children_depth_bounded(m, m@[key], (fuel - 1) as nat);
    }
}

proof fn lemma_render_children_depth_bounded(m: RequireMap, targets: Seq<SourcemapNode>, fuel: nat)
    ensures
        trees_height(render_children(m, targets, fuel)) <= fuel + 1,
    decreases fuel, targets.len(),
{
    if targets.len() > 0 {
        lemma_render_children_depth_bounded(m, targets.drop_last(), fuel);
        lemma_render_depth_bounded(m, target_key(targets.last()), fuel);
        assert(render_children(m, targets, fuel).drop_last() =~= render_children(
            m,
            targets.drop_last(),
            fuel,
        ));
    }
}

proof fn lemma_links_upto_counts(m: RequireMap, n: int)
    requires
        graph_ready(m),
        0 <= n <= m.entries@.len(),
    ensures
        links_upto(m.entries@, n).len() == edge_count(m.entries@, n),
        forall|x: int|
            0 <= x < links_upto(m.entries@, n).len() ==> {
                let l = #[trigger] links_upto(m.entries@, n)[x];
                0 <= l.0 < m.entries@.len() && 0 <= l.1 < m.entries@.len()
            },
    decreases n,
{
    if n > 0 {
        lemma_links_upto_counts(m, n - 1);
        let targets = nodes_view(m.entries@[n - 1].1@);
        lemma_entry_links_counts(m, n - 1, m.entries@[n - 1].1@.len() as int);
        assert(targets.take(targets.len() as int) =~= targets);
        assert(edge_count(m.entries@, n) == edge_count(m.entries@, n - 1)
            + m.entries@[n - 1].1@.len());
    }
}

} // verus!
