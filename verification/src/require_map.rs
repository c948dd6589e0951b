use vstd::prelude::*;
use vstd::seq_lib::lemma_multiset_commutative;

use crate::sourcemap::{KeyView, SourcemapKey, SourcemapNode, key_eq, nodes_view};

verus! {

// ---------------------------------------------------------------------------
// The dependency map: module keys to the ordered modules they require.
//
// The map is an ordered list of entries with pairwise distinct keys; its
// mathematical content is a finite map from key identities to node
// sequences. Partial maps built for sibling subtrees are merged by
// appending under any shared key.
// ---------------------------------------------------------------------------

/// The map named by an ordered entry list: a later entry with the same key
/// would shadow an earlier one, so well-formed lists keep keys distinct.
pub open spec fn map_of(entries: Seq<(SourcemapKey, Vec<&SourcemapNode>)>) -> Map<
    KeyView,
    Seq<SourcemapNode>,
>
    decreases entries.len(),
{
    if entries.len() == 0 {
        Map::empty()
    } else {
        map_of(entries.drop_last()).insert(
            entries.last().0@,
            nodes_view(entries.last().1@),
        )
    }
}

/// The merge of two partial dependency maps: every key of either side,
/// with the edge lists appended where a key stands in both.
pub open spec fn merge_views(
    a: Map<KeyView, Seq<SourcemapNode>>,
    b: Map<KeyView, Seq<SourcemapNode>>,
) -> Map<KeyView, Seq<SourcemapNode>> {
    Map::new(
        |k: KeyView| a.dom().contains(k) || b.dom().contains(k),
        |k: KeyView|
            if a.dom().contains(k) {
                if b.dom().contains(k) {
                    a[k] + b[k]
                } else {
                    a[k]
                }
            } else {
                b[k]
            },
    )
}

/// The dependency map, keyed by module identity; each value lists the
/// resolved required modules in the source order of their require calls.
pub struct RequireMap<'a> {
    pub entries: Vec<(SourcemapKey, Vec<&'a SourcemapNode>)>,
}

impl<'a> View for RequireMap<'a> {
    type V = Map<KeyView, Seq<SourcemapNode>>;

    open spec fn view(&self) -> Map<KeyView, Seq<SourcemapNode>> {
        map_of(self.entries@)
    }
}

/// Every key of the entry list, with the position of its last occurrence,
/// names the value that the map takes at that key.
proof fn lemma_map_of_props(entries: Seq<(SourcemapKey, Vec<&SourcemapNode>)>)
    ensures
        forall|k: KeyView|
            map_of(entries).dom().contains(k) <==> exists|i: int|
                0 <= i < entries.len() && (#[trigger] entries[i].0@) == k,
        forall|i: int|
            0 <= i < entries.len() && (forall|j: int|
                i < j < entries.len() ==> (#[trigger] entries[j].0@) != entries[i].0@)
                ==> map_of(entries)[(#[trigger] entries[i].0@)] == nodes_view(entries[i].1@),
    decreases entries.len(),
{
    if entries.len() > 0 {
        lemma_map_of_props(entries.drop_last());
        let prev = entries.drop_last();
        assert(forall|i: int| 0 <= i < prev.len() ==> prev[i] == entries[i]);
        assert forall|k: KeyView| map_of(entries).dom().contains(k) implies exists|i: int|
            0 <= i < entries.len() && (#[trigger] entries[i].0@) == k by {
            if k == entries.last().0@ {
                assert(entries[entries.len() - 1].0@ == k);
            } else {
                assert(map_of(prev).dom().contains(k));
                let i = choose|i: int| 0 <= i < prev.len() && (#[trigger] prev[i].0@) == k;
                assert(prev[i] == entries[i]);
                assert(entries[i].0@ == k);
            }
        }
        assert forall|k: KeyView|
            (exists|i: int| 0 <= i < entries.len() && (#[trigger] entries[i].0@) == k) implies
            map_of(entries).dom().contains(k) by {
            let i = choose|i: int| 0 <= i < entries.len() && (#[trigger] entries[i].0@) == k;
            if i < entries.len() - 1 {
                assert(prev[i].0@ == k);
                assert(map_of(prev).dom().contains(k));
            }
        }
        assert forall|i: int|
            0 <= i < entries.len() && (forall|j: int|
                i < j < entries.len() ==> (#[trigger] entries[j].0@) != entries[i].0@)
            implies map_of(entries)[(entries[i].0@)] == nodes_view(entries[i].1@) by {
            if i == entries.len() - 1 {
                assert(map_of(entries)[entries[i].0@] == nodes_view(entries.last().1@));
            } else {
                assert(entries[entries.len() - 1].0@ != entries[i].0@);
                assert(forall|j: int|
                    i < j < prev.len() ==> (#[trigger] prev[j].0@) != prev[i].0@);
                assert(map_of(prev)[prev[i].0@] == nodes_view(prev[i].1@));
                assert(map_of(entries)[entries[i].0@] == map_of(prev)[prev[i].0@]);
            }
        }
    }
}

impl<'a> RequireMap<'a> {
    /// Holds when the entry keys are pairwise distinct.
    pub open spec fn wf(self) -> bool {
        forall|i: int, j: int|
            #![trigger self.entries@[i], self.entries@[j]]
            0 <= i < j < self.entries@.len() ==> self.entries@[i].0@ != self.entries@[j].0@
    }

    /// Creates an empty dependency map.
    pub fn new() -> (r: Self)
        ensures
            r.wf(),
            r@ == Map::<KeyView, Seq<SourcemapNode>>::empty(),
            r.entries@.len() == 0,
    {
        RequireMap { entries: Vec::new() }
    }

    /// The position of the entry with the given key, if any.
    fn find_index(&self, key: &SourcemapKey) -> (r: Option<usize>)
        ensures
            match r {
                Some(i) => i < self.entries@.len() && self.entries@[i as int].0@ == key@,
                None => forall|j: int|
                    0 <= j < self.entries@.len() ==> (#[trigger] self.entries@[j].0@) != key@,
            },
    {
        let mut i: usize = 0;
        while i < self.entries.len()
            invariant
                i <= self.entries@.len(),
                forall|j: int| 0 <= j < i ==> (#[trigger] self.entries@[j].0@) != key@,
            decreases self.entries@.len() - i,
        {
            if key_eq(&self.entries[i].0, key) {
                return Some(i);
            }
            i = i + 1;
        }
        None
    }

    /// Inserts an entry for a key that the map does not hold yet.
    pub fn push_entry(&mut self, key: SourcemapKey, targets: Vec<&'a SourcemapNode>)
        requires
            old(self).wf(),
            !old(self)@.dom().contains(key@),
        ensures
            final(self).wf(),
            final(self)@ == old(self)@.insert(key@, nodes_view(targets@)),
            final(self).entries@ == old(self).entries@.push((key, targets)),
    {
        proof {
            lemma_map_of_props(self.entries@);
        }
        self.entries.push((key, targets));
        proof {
            assert(self.entries@.drop_last() =~= old(self).entries@);
        }
    }

    /// Adds one partial entry: appends the targets under an existing key,
    /// or inserts a new entry at the end.
    pub fn append_entry(&mut self, key: SourcemapKey, targets: Vec<&'a SourcemapNode>)
        requires
            old(self).wf(),
        ensures
            final(self).wf(),
            final(self)@.dom() == old(self)@.dom().insert(key@),
            final(self)@[key@] == if old(self)@.dom().contains(key@) {
                old(self)@[key@] + nodes_view(targets@)
            } else {
                nodes_view(targets@)
            },
            forall|k: KeyView|
                old(self)@.dom().contains(k) && k != key@ ==> final(self)@[k] == old(self)@[k],
    {
        proof {
            lemma_map_of_props(self.entries@);
        }
        match self.find_index(&key) {
            Some(i) => {
                let ghost old_entries = self.entries@;
                let (k0, mut v0) = self.entries.remove(i);
                let mut t = targets;
                v0.append(&mut t);
                proof {
                    assert(nodes_view(v0@) =~= nodes_view(old_entries[i as int].1@) + nodes_view(
                        targets@,
                    ));
                }
                self.entries.insert(i, (k0, v0));
                proof {
                    let ne = self.entries@;
                    assert(ne =~= old_entries.update(i as int, (k0, v0)));
                    assert(forall|j: int|
                        0 <= j < ne.len() ==> (#[trigger] ne[j].0@) == old_entries[j].0@);
                    lemma_map_of_props(ne);
                    // The key keeps its unique position, so the new map takes
                    // the appended list there and is unchanged elsewhere.
                    assert(forall|j: int|
                        i < j < ne.len() ==> (#[trigger] ne[j].0@) != ne[i as int].0@);
                    assert(self@[key@] == nodes_view(v0@));
                    assert(forall|j: int|
                        i < j < old_entries.len() ==> (#[trigger] old_entries[j].0@)
                            != old_entries[i as int].0@);
                    assert(old(self)@[key@] == nodes_view(old_entries[i as int].1@));
                    assert forall|k: KeyView| self@.dom().contains(k) implies old(
                        self,
                    )@.dom().contains(k) by {
                        let ix = choose|ix: int|
                            0 <= ix < ne.len() && (#[trigger] ne[ix].0@) == k;
                        assert(old_entries[ix].0@ == k);
                    }
                    assert forall|k: KeyView| old(self)@.dom().contains(k) implies self@
                        .dom().contains(k) by {
                        let ix = choose|ix: int|
                            0 <= ix < old_entries.len() && (#[trigger] old_entries[ix].0@) == k;
                        assert(ne[ix].0@ == k);
                    }
                    assert(self@.dom() =~= old(self)@.dom().insert(key@));
                    assert forall|k: KeyView|
                        old(self)@.dom().contains(k) && k != key@ implies self@[k] == old(
                        self,
                    )@[k] by {
                        let ix = choose|ix: int|
                            0 <= ix < old_entries.len() && (#[trigger] old_entries[ix].0@) == k;
                        assert(ix != i);
                        assert(forall|j: int|
                            ix < j < old_entries.len() ==> (#[trigger] old_entries[j].0@)
                                != old_entries[ix].0@);
                        assert(old(self)@[k] == nodes_view(old_entries[ix].1@));
                        assert(forall|j: int|
                            ix < j < ne.len() ==> (#[trigger] ne[j].0@) != ne[ix].0@);
                        assert(self@[k] == nodes_view(ne[ix].1@));
                        assert(ne[ix].1 == old_entries[ix].1);
                    }
                }
            },
            None => {
                self.entries.push((key, targets));
                proof {
                    assert(self.entries@.drop_last() =~= old(self).entries@);
                    lemma_map_of_props(self.entries@);
                    assert(self@.dom() =~= old(self)@.dom().insert(key@));
                }
            },
        }
    }

    /// Merges another partial map into this one: every entry of the other
    /// map is appended under its key, so shared keys concatenate their
    /// edge lists and new keys are added.
    pub fn merge(&mut self, other: RequireMap<'a>)
        requires
            old(self).wf(),
            other.wf(),
        ensures
            final(self).wf(),
            final(self)@ == merge_views(old(self)@, other@),
    {
        let mut rest = other;
        proof {
            assert(merge_views(self@, rest@) =~= merge_views(old(self)@, other@));
        }
        while rest.entries.len() > 0
            invariant
                self.wf(),
                rest.wf(),
                merge_views(self@, rest@) == merge_views(old(self)@, other@),
            decreases rest.entries@.len(),
        {
            let ghost rest_before = rest.entries@;
            let ghost self_before = self@;
            proof {
                lemma_map_of_props(rest_before);
            }
            let (k, v) = rest.entries.remove(0);
            proof {
                assert(rest.entries@ =~= rest_before.drop_first());
                assert(forall|j: int|
                    0 <= j < rest.entries@.len() ==> (#[trigger] rest.entries@[j].0@)
                        == rest_before[j + 1].0@);
                lemma_map_of_props(rest.entries@);
                // The removed key is not among the remaining entries.
                assert(forall|j: int|
                    0 <= j < rest.entries@.len() ==> (#[trigger] rest.entries@[j].0@) != k@);
                assert(forall|j: int|
                    0 < j < rest_before.len() ==> (#[trigger] rest_before[j].0@)
                        != rest_before[0].0@);
                assert(map_of(rest_before)[k@] == nodes_view(v@));
            }
            let ghost rest_after_map = rest@;
            self.append_entry(k, v);
            proof {
                let before = map_of(rest_before);
                assert forall|kk: KeyView| before.dom().contains(kk) implies kk == k@
                    || rest_after_map.dom().contains(kk) by {
                    let ix = choose|ix: int|
                        0 <= ix < rest_before.len() && (#[trigger] rest_before[ix].0@) == kk;
                    if ix > 0 {
                        assert(rest.entries@[ix - 1].0@ == kk);
                    }
                }
                assert forall|kk: KeyView| rest_after_map.dom().contains(kk) implies before
                    .dom().contains(kk) && kk != k@ by {
                    let ix = choose|ix: int|
                        0 <= ix < rest.entries@.len() && (#[trigger] rest.entries@[ix].0@) == kk;
                    assert(rest_before[ix + 1].0@ == kk);
                }
                assert forall|kk: KeyView|
                    rest_after_map.dom().contains(kk) implies rest_after_map[kk]
                    == before[kk] by {
                    let ix = choose|ix: int|
                        0 <= ix < rest.entries@.len() && (#[trigger] rest.entries@[ix].0@) == kk;
                    assert(forall|j: int|
                        ix < j < rest.entries@.len() ==> (#[trigger] rest.entries@[j].0@)
                            != rest.entries@[ix].0@);
                    assert(rest_after_map[kk] == nodes_view(rest.entries@[ix].1@));
                    assert(forall|j: int|
                        ix + 1 < j < rest_before.len() ==> (#[trigger] rest_before[j].0@)
                            != rest_before[ix + 1].0@);
                    assert(before[kk] == nodes_view(rest_before[ix + 1].1@));
                }
                assert(merge_views(self@, rest@) =~= merge_views(self_before, before));
            }
        }
        proof {
            assert(merge_views(self@, rest@) =~= self@);
        }
    }

    /// Looks up the edge list recorded under a key.
    pub fn get<'b>(&'b self, key: &SourcemapKey) -> (r: Option<&'b Vec<&'a SourcemapNode>>)
        ensures
            match r {
                Some(v) => self@.dom().contains(key@) && self@[key@] == nodes_view(v@),
                None => !self@.dom().contains(key@),
            },
    {
        proof {
            lemma_map_of_props(self.entries@);
        }
        let mut i: usize = 0;
        let mut found: Option<usize> = None;
        // The map takes the value of a key's last entry; well-formed maps
        // hold each key once, but the scan needs no such assumption.
        while i < self.entries.len()
            invariant
                i <= self.entries@.len(),
                match found {
                    Some(f) => f < i && self.entries@[f as int].0@ == key@ && (forall|j: int|
                        f < j < i ==> (#[trigger] self.entries@[j].0@) != key@),
                    None => forall|j: int|
                        0 <= j < i ==> (#[trigger] self.entries@[j].0@) != key@,
                },
            decreases self.entries@.len() - i,
        {
            if key_eq(&self.entries[i].0, key) {
                found = Some(i);
            }
            i = i + 1;
        }
        match found {
            Some(f) => {
                proof {
                    assert(forall|j: int|
                        f < j < self.entries@.len() ==> (#[trigger] self.entries@[j].0@)
                            != self.entries@[f as int].0@);
                }
                Some(&self.entries[f].1)
            },
            None => None,
        }
    }
}

/// Merging partial dependency maps is associative: folding sibling maps
/// in one grouping or another yields the same map.
pub proof fn lemma_merge_associative(
    a: Map<KeyView, Seq<SourcemapNode>>,
    b: Map<KeyView, Seq<SourcemapNode>>,
    c: Map<KeyView, Seq<SourcemapNode>>,
)
    ensures
        merge_views(merge_views(a, b), c) == merge_views(a, merge_views(b, c)),
{
    assert forall|k: KeyView|
        merge_views(merge_views(a, b), c).dom().contains(k) implies merge_views(
        merge_views(a, b),
        c,
    )[k] == merge_views(a, merge_views(b, c))[k] by {
        if a.dom().contains(k) && b.dom().contains(k) && c.dom().contains(k) {
            assert((a[k] + b[k]) + c[k] =~= a[k] + (b[k] + c[k]));
        }
    }
    assert(merge_views(merge_views(a, b), c) =~= merge_views(a, merge_views(b, c)));
}

/// Merging two partial dependency maps in either order yields the same
/// keys and, under every key, the same edges counted as a multiset; the
/// order within a shared key's list is the only difference.
pub proof fn lemma_merge_order_independent(
    a: Map<KeyView, Seq<SourcemapNode>>,
    b: Map<KeyView, Seq<SourcemapNode>>,
)
    ensures
        merge_views(a, b).dom() == merge_views(b, a).dom(),
        forall|k: KeyView|
            merge_views(a, b).dom().contains(k) ==> merge_views(a, b)[k].to_multiset()
                == merge_views(b, a)[k].to_multiset(),
{
    assert(merge_views(a, b).dom() =~= merge_views(b, a).dom());
    assert forall|k: KeyView| merge_views(a, b).dom().contains(k) implies merge_views(
        a,
        b,
    )[k].to_multiset() == merge_views(b, a)[k].to_multiset() by {
        if a.dom().contains(k) && b.dom().contains(k) {
            lemma_multiset_commutative(a[k], b[k]);
            lemma_multiset_commutative(b[k], a[k]);
            assert(a[k].to_multiset().add(b[k].to_multiset()) =~= b[k].to_multiset().add(
                a[k].to_multiset(),
            ));
        }
    }
}

} // verus!
