//! Dungeons: a tree of sections, each a run of floors, laid out from a
//! Prüfer code.
use std::collections::HashSet;
use vstd::prelude::*;
use vstd::set_lib::*;
use vstd::std_specs::iter::IteratorSpec;
use vstd::std_specs::hash::spec_hash_keys_iter;
use vstd::relations::injective_on;
use crate::random::{choose_weighted_index, gen_range_usize, weight_sum};

verus! {

broadcast use vstd::std_specs::hash::group_hash_axioms;

/// The id of a map (a dungeon floor or the overworld).
pub type MapId = u32;

/// A run of floors of one kind; a floor's id is known once it is generated.
pub struct DungeonSection {
    kind: String,
    floor_ids: Vec<Option<MapId>>,
}

/// The first floor of `floors` still to be generated.
pub open spec fn first_ungenerated(floors: Seq<Option<MapId>>) -> Option<int> {
    if exists|i: int| 0 <= i < floors.len() && floors[i] is None {
        Some(choose|i: int| 0 <= i < floors.len() && floors[i] is None && forall|j: int| 0 <= j < i ==> floors[j] is Some)
    } else {
        None
    }
}

/// `floors` holds `target` as a generated floor.
pub open spec fn floors_have(floors: Seq<Option<MapId>>, target: MapId) -> bool {
    exists|i: int| 0 <= i < floors.len() && floors[i] == Some(target)
}

/// The floors after generating the next one, from the floor `current`, as
/// `new_floor`: refused when every floor exists, or when the section was
/// entered and `current` is not the floor just above.
pub open spec fn spec_next_floor(floors: Seq<Option<MapId>>, current: MapId, new_floor: MapId) -> (
    Option<MapId>,
    Seq<Option<MapId>>,
) {
    match first_ungenerated(floors) {
        None => (None, floors),
        Some(idx) => if floors[0] is Some && floors[idx - 1] != Some(current) {
            (None, floors)
        } else {
            (Some(new_floor), floors.update(idx, Some(new_floor)))
        },
    }
}

proof fn lemma_first_ungenerated(floors: Seq<Option<MapId>>, i: int)
    requires
        0 <= i < floors.len(),
        floors[i] is None,
        forall|j: int| 0 <= j < i ==> floors[j] is Some,
    ensures
        first_ungenerated(floors) == Some(i),
{
    let k = choose|k: int| 0 <= k < floors.len() && floors[k] is None && forall|j: int| 0 <= j < k ==> floors[j] is Some;
    assert(k == i) by {
        if k < i {
            assert(floors[k] is Some);
        }
        if i < k {
            assert(floors[i] is Some);
        }
    }
}

impl DungeonSection {
    /// The ids of the section's floors, top first.
    pub closed spec fn floors(&self) -> Seq<Option<MapId>> {
        self.floor_ids@
    }

    /// The kind of floors the section has.
    pub closed spec fn kind(&self) -> Seq<char> {
        self.kind@
    }

    pub fn new(kind: &str, length: usize) -> (s: Self)
        requires
            length > 0,
        ensures
            s.kind() == kind@,
            s.floors() == Seq::new(length as nat, |i: int| None::<MapId>),
    {
        let mut floor_ids: Vec<Option<MapId>> = Vec::new();
        let mut i: usize = 0;
        while i < length
            invariant
                i <= length,
                floor_ids@ == Seq::new(i as nat, |k: int| None::<MapId>),
            decreases length - i,
        {
            floor_ids.push(None);
            proof {
                assert(floor_ids@ =~= Seq::new((i + 1) as nat, |k: int| None::<MapId>));
            }
            i = i + 1;
        }
        DungeonSection { kind: kind.to_owned(), floor_ids: floor_ids }
    }

    /// The kind of floors, as text.
    pub fn kind_str(&self) -> (k: &str)
        ensures
            k@ == self.kind(),
    {
        self.kind.as_str()
    }

    /// How many floors the section has.
    pub fn floor_count(&self) -> (n: usize)
        ensures
            n == self.floors().len(),
    {
        self.floor_ids.len()
    }

    /// Whether the section was entered: its top floor exists.
    pub fn entered(&self) -> (b: bool)
        requires
            self.floors().len() > 0,
        ensures
            b == (self.floors()[0] is Some),
    {
        self.floor_ids[0].is_some()
    }

    /// Records the floor generated below `current_floor` as `new_floor`.
    pub fn generate_next_floor(&mut self, current_floor: MapId, new_floor: MapId) -> (r: Option<
        MapId,
    >)
        requires
            old(self).floors().len() > 0,
        ensures
            r == spec_next_floor(old(self).floors(), current_floor, new_floor).0,
            final(self).floors() == spec_next_floor(old(self).floors(), current_floor, new_floor).1,
            final(self).floors().len() == old(self).floors().len(),
            final(self).kind() == old(self).kind(),
    {
        match self.next_ungenerated_floor_idx() {
            None => None,
            Some(idx) => {
                if self.entered() {
                    // Do a sanity check to ensure we're directly a floor above the world to be
                    // generated
                    let floor_above_ungenerated = self.floor_ids[idx - 1].unwrap();
                    if floor_above_ungenerated != current_floor {
                        return None;
                    }
                }
                self.floor_ids.set(idx, Some(new_floor));
                Some(new_floor)
            },
        }
    }

    pub fn has_floor(&self, target: MapId) -> (b: bool)
        ensures
            b == floors_have(self.floors(), target),
    {
        let mut i: usize = 0;
        while i < self.floor_ids.len()
            invariant
                i <= self.floor_ids.len(),
                forall|k: int| 0 <= k < i ==> self.floor_ids@[k] != Some(target),
            decreases self.floor_ids.len() - i,
        {
            if let Some(id) = self.floor_ids[i] {
                if id == target {
                    return true;
                }
            }
            i = i + 1;
        }
        false
    }

    /// Whether `target` is the bottom floor, where branches leave.
    pub fn is_branch_point(&self, target: MapId) -> (b: bool)
        requires
            self.floors().len() > 0,
        ensures
            b == (self.floors().last() == Some(target)),
    {
        match self.floor_ids[self.floor_ids.len() - 1] {
            Some(i) => i == target,
            None => false,
        }
    }

    pub fn next_ungenerated_floor_idx(&self) -> (idx: Option<usize>)
        ensures
            match idx {
                Some(i) => first_ungenerated(self.floors()) == Some(i as int) && i < self.floors().len()
                    && self.floors()[i as int] is None && forall|j: int|
                    0 <= j < i ==> self.floors()[j] is Some,
                None => first_ungenerated(self.floors()) is None,
            },
    {
        let mut i: usize = 0;
        while i < self.floor_ids.len()
            invariant
                i <= self.floor_ids.len(),
                forall|k: int| 0 <= k < i ==> self.floor_ids@[k] is Some,
            decreases self.floor_ids.len() - i,
        {
            if self.floor_ids[i].is_none() {
                proof {
                    lemma_first_ungenerated(self.floors(), i as int);
                }
                return Some(i);
            }
            i = i + 1;
        }
        None
    }
}

/// Number of times `v` occurs in `s`.
pub open spec fn occurrences(s: Seq<usize>, v: usize) -> nat
    decreases s.len(),
{
    if s.len() == 0 {
        0
    } else {
        (if s[0] == v {
            1nat
        } else {
            0nat
        }) + occurrences(s.drop_first(), v)
    }
}

/// Every label of a Prüfer code names one of the `code.len() + 2` vertices,
/// which are numbered from 1.
pub open spec fn valid_prufer_code(code: Seq<usize>) -> bool {
    forall|i: int| 0 <= i < code.len() ==> 1 <= #[trigger] code[i] <= code.len() + 2
}

/// The vertices `1..=n`.
pub open spec fn vertex_range(n: int) -> Set<usize> {
    Set::new(|v: usize| 1 <= v <= n)
}

/// At step `i` of decoding, with the leaves `removed` taken off the tree, `v`
/// is a leaf: it is still present and no longer occurs in the rest of the code.
pub open spec fn is_leaf_candidate(code: Seq<usize>, removed: Seq<usize>, i: int, v: usize) -> bool {
    &&& 1 <= v <= code.len() + 2
    &&& !removed.contains(v)
    &&& !code.subrange(i, code.len() as int).contains(v)
}

/// `v` is the smallest leaf at step `i` of decoding.
pub open spec fn is_smallest_leaf(code: Seq<usize>, removed: Seq<usize>, i: int, v: usize) -> bool {
    &&& is_leaf_candidate(code, removed, i, v)
    &&& forall|u: usize| 1 <= u < v ==> !is_leaf_candidate(code, removed, i, u)
}

/// The first endpoints of the first `k` edges: the leaves removed so far.
pub open spec fn removed_leaves(edges: Seq<(usize, usize)>, k: int) -> Seq<usize> {
    edges.subrange(0, k).map_values(|e: (usize, usize)| e.0)
}

/// `edges` is the edge list that Prüfer decoding builds from `code`: at step
/// `i` the smallest leaf is joined to `code[i]` and removed, and the two
/// vertices left at the end are joined, smaller one first.
pub open spec fn decodes_prufer(code: Seq<usize>, edges: Seq<(usize, usize)>) -> bool {
    let len = code.len() as int;
    let removed = removed_leaves(edges, len);
    &&& edges.len() == len + 1
    &&& forall|i: int|
        0 <= i < len ==> (#[trigger] edges[i]).1 == code[i] && is_smallest_leaf(
            code,
            removed_leaves(edges, i),
            i,
            edges[i].0,
        )
    &&& edges[len].0 < edges[len].1
    &&& !removed.contains(edges[len].0) && 1 <= edges[len].0
    &&& !removed.contains(edges[len].1) && edges[len].1 <= len + 2
    &&& forall|v: usize|
        1 <= v <= len + 2 ==> removed.contains(v) || v == edges[len].0 || v == edges[len].1
}

proof fn lemma_occurrences_concat(a: Seq<usize>, b: Seq<usize>, v: usize)
    ensures
        occurrences(a + b, v) == occurrences(a, v) + occurrences(b, v),
    decreases a.len(),
{
    if a.len() > 0 {
        assert((a + b).drop_first() =~= a.drop_first() + b);
        lemma_occurrences_concat(a.drop_first(), b, v);
    } else {
        assert(a + b =~= b);
    }
}

proof fn lemma_occurrences_contains(s: Seq<usize>, v: usize)
    ensures
        occurrences(s, v) <= s.len(),
        occurrences(s, v) > 0 <==> s.contains(v),
    decreases s.len(),
{
    if s.len() > 0 {
        lemma_occurrences_contains(s.drop_first(), v);
        if s.drop_first().contains(v) {
            let k = choose|k: int| 0 <= k < s.drop_first().len() && s.drop_first()[k] == v;
            assert(s[k + 1] == v);
        }
        if s.contains(v) && s[0] != v {
            let k = choose|k: int| 0 <= k < s.len() && s[k] == v;
            assert(s.drop_first()[k - 1] == v);
        }
    }
}

proof fn lemma_vertex_range_len(n: nat)
    requires
        n <= usize::MAX,
    ensures
        vertex_range(n as int).finite(),
        vertex_range(n as int).len() == n,
    decreases n,
{
    if n == 0 {
        assert(vertex_range(0) =~= Set::empty());
    } else {
        lemma_vertex_range_len((n - 1) as nat);
        assert(vertex_range(n - 1).insert(n as usize) =~= vertex_range(n as int));
    }
}

/// While fewer leaves have been removed than the code is long, some vertex
/// is a leaf.
proof fn lemma_leaf_exists(code: Seq<usize>, removed: Seq<usize>, i: int) -> (v: usize)
    requires
        0 <= i < code.len(),
        removed.len() == i,
        removed.no_duplicates(),
        code.len() + 2 <= usize::MAX,
    ensures
        is_leaf_candidate(code, removed, i, v),
{
    let n = code.len() + 2;
    let suffix = code.subrange(i, code.len() as int);
    let r = removed.to_set();
    let s = suffix.to_set();
    removed.unique_seq_to_set();
    suffix.lemma_cardinality_of_set();
    lemma_len_union(r, s);
    lemma_vertex_range_len(n as nat);
    if forall|v: usize| !is_leaf_candidate(code, removed, i, v) {
        assert forall|v: usize| vertex_range(n as int).contains(v) implies r.union(s).contains(v) by {
            assert(!is_leaf_candidate(code, removed, i, v));
        }
        lemma_len_subset(vertex_range(n as int), r.union(s));
        assert(false);
    }
    choose|v: usize| is_leaf_candidate(code, removed, i, v)
}

/// Once every code label is consumed, exactly two vertices remain.
proof fn lemma_two_remain(code: Seq<usize>, removed: Seq<usize>) -> (ab: (usize, usize))
    requires
        removed.len() == code.len(),
        removed.no_duplicates(),
        forall|k: int| 0 <= k < removed.len() ==> 1 <= #[trigger] removed[k] <= code.len() + 2,
        code.len() + 2 <= usize::MAX,
    ensures
        1 <= ab.0 < ab.1 <= code.len() + 2,
        !removed.contains(ab.0),
        !removed.contains(ab.1),
        forall|v: usize| 1 <= v <= code.len() + 2 ==> removed.contains(v) || v == ab.0 || v == ab.1,
{
    let n = code.len() + 2;
    let u = vertex_range(n as int);
    let r = removed.to_set();
    removed.unique_seq_to_set();
    lemma_vertex_range_len(n as nat);
    assert(r.subset_of(u)) by {
        assert forall|v: usize| r.contains(v) implies u.contains(v) by {
            let k = choose|k: int| 0 <= k < removed.len() && removed[k] == v;
        }
    }
    lemma_len_subset(r, u);
    lemma_set_difference_len(u, r);
    assert(u.intersect(r) =~= r);
    let d = u.difference(r);
    assert(d.len() == 2);
    let x = d.choose();
    assert(d.contains(x)) by {
        lemma_set_empty_equivalency_len(d);
    }
    let d1 = d.remove(x);
    assert(d1.len() == 1);
    let y = d1.choose();
    assert(d1.contains(y)) by {
        lemma_set_empty_equivalency_len(d1);
    }
    let d2 = d1.remove(y);
    assert(d2.len() == 0);
    lemma_set_empty_equivalency_len(d2);
    assert forall|v: usize| 1 <= v <= n implies removed.contains(v) || v == x || v == y by {
        if !removed.contains(v) {
            assert(d.contains(v));
            if v != x && v != y {
                assert(d2.contains(v));
            }
        }
    }
    if x < y {
        (x, y)
    } else {
        (y, x)
    }
}

/// Some edge of `edges` joins `x` and `y`.
pub open spec fn joins(edges: Seq<(usize, usize)>, x: usize, y: usize) -> bool {
    exists|k: int|
        0 <= k < edges.len() && ((#[trigger] edges[k].0 == x && edges[k].1 == y) || (edges[k].0 == y
            && edges[k].1 == x))
}

/// `p` is a walk along `edges`: each vertex is joined to the next.
pub open spec fn is_walk(edges: Seq<(usize, usize)>, p: Seq<usize>) -> bool {
    &&& p.len() >= 1
    &&& forall|j: int| 0 <= j < p.len() - 1 ==> joins(edges, #[trigger] p[j], p[j + 1])
}

/// Some walk along `edges` leads from `u` to `v`.
pub open spec fn connected(edges: Seq<(usize, usize)>, u: usize, v: usize) -> bool {
    exists|p: Seq<usize>| #[trigger] is_walk(edges, p) && p[0] == u && p.last() == v
}

proof fn lemma_connected_self(edges: Seq<(usize, usize)>, u: usize)
    ensures
        connected(edges, u, u),
{
    let p = seq![u];
    assert(is_walk(edges, p));
}

proof fn lemma_connected_edge(edges: Seq<(usize, usize)>, x: usize, y: usize)
    requires
        joins(edges, x, y),
    ensures
        connected(edges, x, y),
{
    let p = seq![x, y];
    assert(is_walk(edges, p)) by {
        assert forall|j: int| 0 <= j < p.len() - 1 implies joins(edges, #[trigger] p[j], p[j + 1]) by {
            assert(j == 0);
        }
    }
}

proof fn lemma_connected_trans(edges: Seq<(usize, usize)>, u: usize, w: usize, v: usize)
    requires
        connected(edges, u, w),
        connected(edges, w, v),
    ensures
        connected(edges, u, v),
{
    let p1 = choose|p: Seq<usize>| #[trigger] is_walk(edges, p) && p[0] == u && p.last() == w;
    let p2 = choose|p: Seq<usize>| #[trigger] is_walk(edges, p) && p[0] == w && p.last() == v;
    let p = p1 + p2.drop_first();
    assert(is_walk(edges, p)) by {
        assert forall|j: int| 0 <= j < p.len() - 1 implies joins(edges, #[trigger] p[j], p[j + 1]) by {
            if j < p1.len() - 1 {
                assert(p[j] == p1[j] && p[j + 1] == p1[j + 1]);
            } else if j == p1.len() - 1 {
                assert(p[j] == w && p[j + 1] == p2[1]);
                assert(joins(edges, p2[0], p2[1]));
            } else {
                let k = j - p1.len() + 1;
                assert(p[j] == p2[k] && p[j + 1] == p2[k + 1]);
                assert(joins(edges, p2[k], p2[k + 1]));
            }
        }
    }
    if p2.len() == 1 {
        assert(p.last() == p1.last());
    } else {
        assert(p.last() == p2.last());
    }
}

/// A walk along some edges is a walk along any edges that include them.
proof fn lemma_connected_more_edges(
    fewer: Seq<(usize, usize)>,
    more: Seq<(usize, usize)>,
    u: usize,
    v: usize,
)
    requires
        connected(fewer, u, v),
        forall|x: usize, y: usize| #[trigger] joins(fewer, x, y) ==> joins(more, x, y),
    ensures
        connected(more, u, v),
{
    let p = choose|p: Seq<usize>| #[trigger] is_walk(fewer, p) && p[0] == u && p.last() == v;
    assert(is_walk(more, p)) by {
        assert forall|j: int| 0 <= j < p.len() - 1 implies joins(more, #[trigger] p[j], p[j + 1]) by {
            assert(joins(fewer, p[j], p[j + 1]));
        }
    }
}

/// Vertex `v` is still in the tree at step `i` of decoding.
pub open spec fn present_at(edges: Seq<(usize, usize)>, n: int, i: int, v: usize) -> bool {
    1 <= v <= n && !removed_leaves(edges, i).contains(v)
}

/// The edges added from step `i` of decoding on connect every vertex
/// still present at step `i`.
proof fn lemma_decoded_suffix_connected(code: Seq<usize>, edges: Seq<(usize, usize)>, i: int)
    requires
        decodes_prufer(code, edges),
        valid_prufer_code(code),
        0 <= i <= code.len(),
    ensures
        forall|u: usize, v: usize|
            present_at(edges, code.len() + 2 as int, i, u) && present_at(edges, code.len() + 2 as int, i, v)
                ==> #[trigger] connected(edges.subrange(i, code.len() + 1 as int), u, v),
    decreases code.len() - i,
{
    let len = code.len() as int;
    let n = len + 2;
    let tail = edges.subrange(i, len + 1);
    if i == len {
        let a = edges[len].0;
        let b = edges[len].1;
        assert(tail[0] == edges[len]);
        assert(joins(tail, a, b));
        assert(joins(tail, b, a));
        assert forall|u: usize, v: usize|
            present_at(edges, n, i, u) && present_at(edges, n, i, v) implies #[trigger] connected(
            tail,
            u,
            v,
        ) by {
            assert(u == a || u == b);
            assert(v == a || v == b);
            if u == v {
                lemma_connected_self(tail, u);
            } else if u == a {
                lemma_connected_edge(tail, a, b);
            } else {
                lemma_connected_edge(tail, b, a);
            }
        }
    } else {
        lemma_decoded_suffix_connected(code, edges, i + 1);
        let next = edges.subrange(i + 1, len + 1);
        let leaf = edges[i].0;
        let parent = code[i];
        assert(edges[i].1 == parent);
        assert(is_smallest_leaf(code, removed_leaves(edges, i), i, leaf));
        assert(removed_leaves(edges, i + 1) =~= removed_leaves(edges, i).push(leaf));
        // Every edge from step i + 1 on is one from step i on.
        assert forall|x: usize, y: usize| #[trigger] joins(next, x, y) implies joins(tail, x, y) by {
            let k = choose|k: int|
                0 <= k < next.len() && ((#[trigger] next[k].0 == x && next[k].1 == y) || (
                next[k].0 == y && next[k].1 == x));
            assert(next[k] == tail[k + 1]);
        }
        assert(tail[0] == edges[i]);
        assert(joins(tail, leaf, parent));
        assert(joins(tail, parent, leaf));
        // The vertex the leaf hangs from is still present after the leaf goes.
        assert(code.subrange(i, len)[0] == parent);
        assert(parent != leaf) by {
            assert(code.subrange(i, len).contains(parent));
        }
        assert(present_at(edges, n, i + 1, parent)) by {
            assert(1 <= parent <= n);
            if removed_leaves(edges, i + 1).contains(parent) {
                let k = choose|k: int| 0 <= k < i + 1 && #[trigger] removed_leaves(edges, i + 1)[k] == parent;
                assert(k < i);
                assert(removed_leaves(edges, i + 1)[k] == edges[k].0);
                assert(is_smallest_leaf(code, removed_leaves(edges, k), k, edges[k].0));
                assert(code.subrange(k, len)[i - k] == parent);
                assert(code.subrange(k, len).contains(parent));
            }
        }
        assert forall|u: usize, v: usize|
            present_at(edges, n, i, u) && present_at(edges, n, i, v) implies #[trigger] connected(
            tail,
            u,
            v,
        ) by {
            if u != leaf {
                assert(present_at(edges, n, i + 1, u));
            }
            if v != leaf {
                assert(present_at(edges, n, i + 1, v));
            }
            if u == leaf && v == leaf {
                lemma_connected_self(tail, u);
            } else if u == leaf {
                assert(connected(next, parent, v));
                lemma_connected_more_edges(next, tail, parent, v);
                lemma_connected_edge(tail, leaf, parent);
                lemma_connected_trans(tail, leaf, parent, v);
            } else if v == leaf {
                assert(connected(next, u, parent));
                lemma_connected_more_edges(next, tail, u, parent);
                lemma_connected_edge(tail, parent, leaf);
                lemma_connected_trans(tail, u, parent, leaf);
            } else {
                assert(connected(next, u, v));
                lemma_connected_more_edges(next, tail, u, v);
            }
        }
    }
}

/// The edge `e` touches the vertex `v`.
pub open spec fn touches(e: (usize, usize), v: usize) -> bool {
    e.0 == v || e.1 == v
}

/// Number of edges of `edges` that touch `v`.
pub open spec fn degree(edges: Seq<(usize, usize)>, v: usize) -> nat
    decreases edges.len(),
{
    if edges.len() == 0 {
        0
    } else {
        (if touches(edges[0], v) {
            1nat
        } else {
            0nat
        }) + degree(edges.drop_first(), v)
    }
}

/// Position of the first edge of `edges` that touches `v`.
pub open spec fn first_edge_at(edges: Seq<(usize, usize)>, v: usize) -> int
    decreases edges.len(),
{
    if edges.len() == 0 {
        0
    } else if touches(edges[0], v) {
        0
    } else {
        1 + first_edge_at(edges.drop_first(), v)
    }
}

/// `v` is the smallest vertex of `1..=n` that has exactly one edge.
pub open spec fn is_smallest_degree_one(edges: Seq<(usize, usize)>, n: int, v: usize) -> bool {
    &&& 1 <= v <= n
    &&& degree(edges, v) == 1
    &&& forall|u: usize| 1 <= u < v ==> degree(edges, u) != 1
}

/// The Prüfer code of the tree `edges` on the vertices `1..=n`: while more
/// than one edge is left, the smallest leaf's neighbor is written down and
/// the leaf's edge taken away.
pub open spec fn prufer_encode(edges: Seq<(usize, usize)>, n: int) -> Seq<usize>
    decreases edges.len(),
{
    if edges.len() <= 1 {
        Seq::empty()
    } else {
        let leaf = choose|v: usize| is_smallest_degree_one(edges, n, v);
        let k = first_edge_at(edges, leaf);
        if 0 <= k < edges.len() {
            let other = if edges[k].0 == leaf {
                edges[k].1
            } else {
                edges[k].0
            };
            seq![other] + prufer_encode(edges.remove(k), n)
        } else {
            Seq::empty()
        }
    }
}

/// From step `k` of decoding on, a vertex already removed has no edge left,
/// and any other has one more edge than it has occurrences in the rest of
/// the code.
proof fn lemma_suffix_degree(code: Seq<usize>, edges: Seq<(usize, usize)>, k: int, v: usize)
    requires
        decodes_prufer(code, edges),
        0 <= k <= code.len(),
        1 <= v <= code.len() + 2,
    ensures
        degree(edges.subrange(k, code.len() + 1 as int), v) == if removed_leaves(edges, k).contains(v) {
            0
        } else {
            occurrences(code.subrange(k, code.len() as int), v) + 1
        },
    decreases code.len() - k,
{
    let len = code.len() as int;
    let s = edges.subrange(k, len + 1);
    if k == len {
        assert(removed_leaves(edges, len) == removed_leaves(edges, k));
        assert(s.drop_first().len() == 0);
        assert(degree(s.drop_first(), v) == 0);
        assert(s[0] == edges[len]);
        assert(code.subrange(len, len).len() == 0);
        assert(occurrences(code.subrange(len, len), v) == 0);
        assert(degree(s, v) == if touches(edges[len], v) { 1nat } else { 0nat });
    } else {
        lemma_suffix_degree(code, edges, k + 1, v);
        let leaf = edges[k].0;
        assert(edges[k].1 == code[k]);
        assert(is_smallest_leaf(code, removed_leaves(edges, k), k, leaf));
        assert(s.drop_first() =~= edges.subrange(k + 1, len + 1));
        assert(s[0] == edges[k]);
        let c = code.subrange(k, len);
        assert(c.drop_first() =~= code.subrange(k + 1, len));
        assert(c[0] == code[k]);
        assert(removed_leaves(edges, k + 1) =~= removed_leaves(edges, k).push(leaf));
        assert(degree(s, v) == (if touches(edges[k], v) { 1nat } else { 0nat }) + degree(
            edges.subrange(k + 1, len + 1),
            v,
        ));
        assert(occurrences(c, v) == (if code[k] == v { 1nat } else { 0nat }) + occurrences(
            code.subrange(k + 1, len),
            v,
        ));
        assert(c.contains(code[k]));
        assert(leaf != code[k]);
        if removed_leaves(edges, k).contains(v) {
            let j = choose|j: int| 0 <= j < k && removed_leaves(edges, k)[j] == v;
            assert(removed_leaves(edges, k)[j] == edges[j].0);
            assert(is_smallest_leaf(code, removed_leaves(edges, j), j, edges[j].0));
            assert(code.subrange(j, len)[k - j] == code[k]);
            assert(code[k] != v);
            assert(removed_leaves(edges, k + 1).contains(v)) by {
                assert(removed_leaves(edges, k + 1)[j] == v);
            }
        } else if v == leaf {
            assert(removed_leaves(edges, k + 1).contains(v)) by {
                assert(removed_leaves(edges, k + 1)[k] == v);
            }
            lemma_occurrences_contains(c, v);
        } else {
            assert(!removed_leaves(edges, k + 1).contains(v));
        }
    }
}

/// Re-encoding the edges decoded from step `k` on gives back the rest of
/// the code.
proof fn lemma_suffix_reencodes(code: Seq<usize>, edges: Seq<(usize, usize)>, k: int)
    requires
        decodes_prufer(code, edges),
        valid_prufer_code(code),
        0 <= k <= code.len(),
    ensures
        prufer_encode(edges.subrange(k, code.len() + 1 as int), code.len() + 2 as int) == code.subrange(
            k,
            code.len() as int,
        ),
    decreases code.len() - k,
{
    let len = code.len() as int;
    let n = len + 2;
    let s = edges.subrange(k, len + 1);
    if k == len {
        assert(code.subrange(len, len) =~= Seq::<usize>::empty());
    } else {
        lemma_suffix_reencodes(code, edges, k + 1);
        let leaf = edges[k].0;
        let removed = removed_leaves(edges, k);
        assert(is_smallest_leaf(code, removed, k, leaf));
        let c = code.subrange(k, len);
        // The vertices with one edge left are exactly the leaves of step `k`.
        assert forall|u: usize| 1 <= u <= n implies (degree(s, u) == 1 <==> is_leaf_candidate(
            code,
            removed,
            k,
            u,
        )) by {
            lemma_suffix_degree(code, edges, k, u);
            lemma_occurrences_contains(c, u);
        }
        assert(is_smallest_degree_one(s, n, leaf));
        let chosen = choose|v: usize| is_smallest_degree_one(s, n, v);
        assert(is_smallest_degree_one(s, n, chosen));
        assert(chosen == leaf) by {
            if chosen < leaf {
                assert(degree(s, chosen) != 1);
            } else if leaf < chosen {
                assert(degree(s, leaf) != 1);
            }
        }
        assert(s[0] == edges[k]);
        assert(touches(s[0], leaf));
        assert(first_edge_at(s, leaf) == 0);
        assert(edges[k].1 == code[k]);
        assert(s.remove(0) =~= edges.subrange(k + 1, len + 1));
        assert(c =~= seq![code[k]] + code.subrange(k + 1, len));
    }
}

/// The edges decoded from a Prüfer code form a tree on its vertices: one
/// edge fewer than vertices, each joining two of them, and every vertex
/// reachable from every other. Each vertex has one edge more than it has
/// occurrences in the code, and encoding the tree gives the code back.
pub proof fn law_prufer_decodes_to_tree(code: Seq<usize>, edges: Seq<(usize, usize)>)
    requires
        decodes_prufer(code, edges),
        valid_prufer_code(code),
    ensures
        forall|v: usize|
            1 <= v <= code.len() + 2 ==> #[trigger] degree(edges, v) == occurrences(code, v) + 1,
        prufer_encode(edges, code.len() + 2 as int) == code,
        edges.len() == code.len() + 1,
        forall|k: int|
            0 <= k < edges.len() ==> 1 <= (#[trigger] edges[k]).0 <= code.len() + 2 && 1
                <= edges[k].1 <= code.len() + 2 && edges[k].0 != edges[k].1,
        forall|u: usize, v: usize|
            1 <= u <= code.len() + 2 && 1 <= v <= code.len() + 2 ==> #[trigger] connected(edges, u, v),
{
    let len = code.len() as int;
    assert(edges.subrange(0, len + 1) =~= edges);
    assert(code.subrange(0, len) =~= code);
    assert(removed_leaves(edges, 0) =~= Seq::<usize>::empty());
    assert forall|v: usize| 1 <= v <= code.len() + 2 implies #[trigger] degree(edges, v)
        == occurrences(code, v) + 1 by {
        lemma_suffix_degree(code, edges, 0, v);
    }
    lemma_suffix_reencodes(code, edges, 0);
    lemma_decoded_suffix_connected(code, edges, 0);
    assert(edges.subrange(0, len + 1) =~= edges);
    assert(removed_leaves(edges, 0) =~= Seq::<usize>::empty());
    assert forall|u: usize, v: usize|
        1 <= u <= code.len() + 2 && 1 <= v <= code.len() + 2 implies #[trigger] connected(edges, u, v) by {
        assert(present_at(edges, len + 2, 0, u) && present_at(edges, len + 2, 0, v));
    }
    assert forall|k: int| 0 <= k < edges.len() implies 1 <= (#[trigger] edges[k]).0 <= code.len() + 2
        && 1 <= edges[k].1 <= code.len() + 2 && edges[k].0 != edges[k].1 by {
        if k < len {
            assert(is_smallest_leaf(code, removed_leaves(edges, k), k, edges[k].0));
            assert(code.subrange(k, len)[0] == code[k]);
            assert(code.subrange(k, len).contains(code[k]));
        }
    }
}

/// The indices `0..n`.
pub open spec fn index_range(n: int) -> Set<usize> {
    Set::new(|v: usize| v < n)
}

proof fn lemma_index_range_len(n: nat)
    requires
        n <= usize::MAX + 1,
    ensures
        index_range(n as int).finite(),
        index_range(n as int).len() == n,
    decreases n,
{
    if n == 0 {
        assert(index_range(0) =~= Set::empty());
    } else {
        lemma_index_range_len((n - 1) as nat);
        assert(index_range(n - 1).insert((n - 1) as usize) =~= index_range(n as int));
    }
}

/// The adjacency sets of a graph on the sections `0..adj.len()`.
pub open spec fn adjacency_view(adj: Seq<HashSet<usize>>) -> Seq<Set<usize>> {
    adj.map_values(|h: HashSet<usize>| h@)
}

/// `graph` is an undirected graph on the sections `0..graph.len()` without
/// loops: every neighbor of a section is another section, which has it as
/// a neighbor in turn.
pub open spec fn simple_graph(graph: Seq<Set<usize>>) -> bool {
    forall|v: usize, u: usize|
        v < graph.len() && #[trigger] graph[v as int].contains(u) ==> u < graph.len() && u != v
            && graph[u as int].contains(v)
}

/// A depth-first walk over `graph` has visited the sections `visited`,
/// reaching each of them, `v`, from its neighbor `from[v]`, which it took
/// out of `v`'s set in `adj`; the sets of the other sections are those of
/// `graph`. No two sections were each reached from the other.
pub open spec fn walk_state(
    graph: Seq<Set<usize>>,
    adj: Seq<Set<usize>>,
    visited: Set<usize>,
    from: Map<usize, usize>,
) -> bool {
    &&& adj.len() == graph.len()
    &&& from.dom() == visited
    &&& forall|v: usize| #[trigger] visited.contains(v) ==> v < graph.len()
    &&& forall|v: usize|
        #![trigger adj[v as int]]
        #![trigger graph[v as int]]
        v < graph.len() ==> if visited.contains(v) {
            &&& graph[v as int].contains(from[v])
            &&& adj[v as int] == graph[v as int].remove(from[v])
        } else {
            adj[v as int] == graph[v as int]
        }
    &&& forall|v: usize, w: usize|
        #![trigger from[v], from[w]]
        visited.contains(v) && visited.contains(w) && from[v] == w ==> from[w] != v
}

/// Number of sections not yet visited.
pub open spec fn unvisited_count(n: int, visited: Set<usize>) -> int {
    n - visited.intersect(index_range(n)).len()
}

/// Turns the undirected graph of sections into one directed away from
/// `current_section`: a depth-first walk removes, from each section it
/// reaches, the section it came from. Returns, for each section visited so
/// far, the section it was reached from.
fn prune_adjacencies(
    adjacencies: &mut Vec<HashSet<usize>>,
    current_section: usize,
    visited: &mut HashSet<usize>,
    Ghost(graph): Ghost<Seq<Set<usize>>>,
    Ghost(from): Ghost<Map<usize, usize>>,
) -> (reached: Ghost<Map<usize, usize>>)
    requires
        current_section < graph.len(),
        simple_graph(graph),
        walk_state(graph, adjacency_view(old(adjacencies)@), old(visited)@, from),
    ensures
        walk_state(graph, adjacency_view(final(adjacencies)@), final(visited)@, reached@),
        old(visited)@.subset_of(final(visited)@),
        forall|v: usize| #[trigger] old(visited)@.contains(v) ==> reached@[v] == from[v],
        adjacency_view(old(adjacencies)@)[current_section as int].subset_of(final(visited)@),
        forall|v: usize|
            #[trigger] final(visited)@.contains(v) && !old(visited)@.contains(v) ==> {
                &&& adjacency_view(final(adjacencies)@)[v as int].subset_of(final(visited)@)
                &&& final(visited)@.contains(reached@[v]) || reached@[v] == current_section
            },
    decreases unvisited_count(graph.len() as int, old(visited)@),
{
    let ghost n = graph.len() as int;
    let ghost a0 = adjacency_view(adjacencies@);
    let ghost v0 = visited@;
    let ghost mut from_now = from;
    let count = adjacencies.len();
    proof {
        assert(a0.len() == count);
        lemma_index_range_len(n as nat);
        lemma_len_subset(v0.intersect(index_range(n)), index_range(n));
    }
    let mut neighbors: Vec<usize> = Vec::new();
    let current_set = &adjacencies[current_section];
    let ghost whole = spec_hash_keys_iter(current_set).remaining().unref();
    for section in it: current_set.iter()
        invariant
            it.seq().unref() == whole,
            neighbors@ == whole.take(it.index() as int),
    {
        neighbors.push(*section);
        proof {
            assert(neighbors@ =~= whole.take(it.index() as int + 1));
        }
    }
    proof {
        assert(neighbors@ =~= whole);
        assert(neighbors@.to_set() =~= a0[current_section as int]);
    }

    let mut k: usize = 0;
    while k < neighbors.len()
        invariant
            k <= neighbors.len(),
            neighbors@.to_set() == a0[current_section as int],
            n == graph.len(),
            current_section < n,
            simple_graph(graph),
            index_range(n).finite(),
            index_range(n).len() == n,
            v0 == old(visited)@,
            a0 == adjacency_view(old(adjacencies)@),
            walk_state(graph, a0, v0, from),
            walk_state(graph, adjacency_view(adjacencies@), visited@, from_now),
            v0.subset_of(visited@),
            forall|v: usize| #[trigger] v0.contains(v) ==> from_now[v] == from[v],
            forall|j: int| 0 <= j < k ==> visited@.contains(#[trigger] neighbors@[j]),
            forall|v: usize|
                #[trigger] visited@.contains(v) && !v0.contains(v) ==> {
                    &&& adjacency_view(adjacencies@)[v as int].subset_of(visited@)
                    &&& visited@.contains(from_now[v]) || from_now[v] == current_section
                },
            0 <= unvisited_count(n, v0) <= n,
        decreases neighbors.len() - k,
    {
        let section = neighbors[k];
        proof {
            assert(neighbors@.to_set().contains(section)) by {
                assert(neighbors@[k as int] == section);
            }
        }
        if !visited.contains(&section) {
            let ghost a1 = adjacency_view(adjacencies@);
            let ghost v1 = visited@;
            let ghost f1 = from_now;
            proof {
                // The section was reached along an edge of the graph.
                assert(graph[current_section as int].contains(section)) by {
                    if v0.contains(current_section) {
                        assert(a0[current_section as int] == graph[current_section as int].remove(
                            from[current_section],
                        ));
                    }
                }
                assert(a1[section as int] == graph[section as int]);
            }
            let mut next: HashSet<usize> = HashSet::new();
            adjacencies.set_and_swap(section, &mut next);
            next.remove(&current_section);
            adjacencies.set(section, next);
            visited.insert(section);
            proof {
                from_now = f1.insert(section, current_section);
            }
            let ghost a2 = adjacency_view(adjacencies@);
            let ghost v2 = visited@;
            let ghost f2 = from_now;
            proof {
                assert(a2 =~= a1.update(section as int, a1[section as int].remove(current_section)));
                // The section it was reached from was not reached from it.
                assert(v1.contains(current_section) ==> f1[current_section] != section) by {
                    if v0.contains(current_section) {
                        assert(a0[current_section as int] == graph[current_section as int].remove(
                            from[current_section],
                        ));
                    } else if v1.contains(current_section) {
                        assert(graph[current_section as int].contains(f1[current_section]));
                    }
                }
                assert(walk_state(graph, a2, v2, f2)) by {
                    assert(f2.dom() =~= v2);
                    assert(a2.len() == n);
                    assert(section < n);
                    assert forall|v: usize| #[trigger] v2.contains(v) implies v < n by {
                        if v != section {
                            assert(v1.contains(v));
                        }
                    }
                    assert forall|v: usize|
                        #![trigger a2[v as int]]
                        #![trigger graph[v as int]]
                        v < n implies if v2.contains(v) {
                        &&& graph[v as int].contains(f2[v])
                        &&& a2[v as int] == graph[v as int].remove(f2[v])
                    } else {
                        a2[v as int] == graph[v as int]
                    } by {
                        if v != section {
                            assert(a2[v as int] == a1[v as int]);
                        } else {
                            assert(graph[v as int].contains(current_section));
                            assert(f2[v] == current_section);
                        }
                    }
                    assert forall|v: usize, w: usize|
                        #![trigger f2[v], f2[w]]
                        v2.contains(v) && v2.contains(w) && f2[v] == w implies f2[w] != v by {
                        if v == section {
                        } else if w == section {
                            if current_section == v {
                                assert(f1[current_section] == section);
                            }
                        } else {
                            assert(f1[v] == f2[v] && f1[w] == f2[w]);
                        }
                    }
                }
                // The walk has one more section visited than on entry.
                let vi = v2.intersect(index_range(n));
                let v0i = v0.intersect(index_range(n));
                assert(vi.subset_of(index_range(n)));
                lemma_len_subset(vi, index_range(n));
                assert(v0i.subset_of(vi.remove(section)));
                lemma_len_subset(v0i, vi.remove(section));
                assert(vi.contains(section));
                assert(vi.remove(section).len() == vi.len() - 1);
                assert(0 <= unvisited_count(n, v2) < unvisited_count(n, v0));
            }
            let below = prune_adjacencies(
                adjacencies,
                section,
                visited,
                Ghost(graph),
                Ghost(from_now),
            );
            proof {
                from_now = below@;
                let a3 = adjacency_view(adjacencies@);
                let v3 = visited@;
                assert forall|v: usize| #[trigger] v3.contains(v) && !v0.contains(v) implies {
                    &&& a3[v as int].subset_of(v3)
                    &&& v3.contains(from_now[v]) || from_now[v] == current_section
                } by {
                    if v2.contains(v) {
                        assert(a3[v as int] == graph[v as int].remove(from_now[v]));
                        assert(a2[v as int] == graph[v as int].remove(f2[v]));
                        if v != section {
                            assert(v1.contains(v));
                        }
                    }
                }
                assert forall|v: usize| #[trigger] v0.contains(v) implies from_now[v] == from[v] by {
                    assert(v2.contains(v));
                }
                assert forall|j: int| 0 <= j <= k implies v3.contains(#[trigger] neighbors@[j]) by {
                    if j < k {
                        assert(v1.contains(neighbors@[j]));
                    }
                }
            }
        }
        k = k + 1;
    }
    proof {
        assert forall|u: usize| a0[current_section as int].contains(u) implies visited@.contains(u) by {
            assert(neighbors@.to_set().contains(u));
            let j = choose|j: int| 0 <= j < neighbors.len() && neighbors@[j] == u;
        }
    }
    Ghost(from_now)
}

/// Two sections as an unordered pair, the smaller first.
pub open spec fn section_pair(a: usize, b: usize) -> (usize, usize) {
    if a < b {
        (a, b)
    } else {
        (b, a)
    }
}

/// The pairs of sections that `edges` (vertices numbered from 1) join.
pub open spec fn edge_pairs(edges: Seq<(usize, usize)>) -> Set<(usize, usize)> {
    edges.map_values(|e: (usize, usize)| section_pair((e.0 - 1) as usize, (e.1 - 1) as usize)).to_set()
}

/// In `directed`, section `v` keeps all its neighbors in `tree` but `p`,
/// which leads to `v`.
pub open spec fn is_parent(tree: Seq<Set<usize>>, directed: Seq<Set<usize>>, v: usize, p: usize) -> bool {
    &&& tree[v as int].contains(p)
    &&& directed[v as int] == tree[v as int].remove(p)
    &&& directed[p as int].contains(v)
}

/// Section `v` has a parent in `directed`.
pub open spec fn has_parent(tree: Seq<Set<usize>>, directed: Seq<Set<usize>>, v: usize) -> bool {
    exists|p: usize| #[trigger] is_parent(tree, directed, v, p)
}

/// `directed` is the tree `tree` with each edge kept in one direction only,
/// away from section 0: section 0 keeps all its neighbors and leads to
/// them; every other section keeps all its neighbors but one, its parent,
/// which leads to it; and no section leads to section 0.
pub open spec fn directed_away_from_root(tree: Seq<Set<usize>>, directed: Seq<Set<usize>>) -> bool {
    &&& directed.len() == tree.len()
    &&& directed[0] == tree[0]
    &&& forall|v: usize| 0 < v < tree.len() ==> #[trigger] has_parent(tree, directed, v)
    &&& forall|u: usize, w: usize|
        u < tree.len() && #[trigger] tree[u as int].contains(w) ==> (directed[u as int].contains(w)
            <==> !directed[w as int].contains(u))
    &&& forall|v: int| 0 <= v < tree.len() ==> !(#[trigger] directed[v]).contains(0)
}

/// The sections along a walk stay in a set of sections that holds every
/// neighbor of each of its members.
proof fn lemma_walk_stays_in(
    edges: Seq<(usize, usize)>,
    graph: Seq<Set<usize>>,
    q: Set<usize>,
    p: Seq<usize>,
)
    requires
        is_walk(edges, p),
        1 <= p[0],
        q.contains((p[0] - 1) as usize),
        graph == undirected_adjacency(graph.len(), edges),
        forall|k: int|
            0 <= k < edges.len() ==> 1 <= (#[trigger] edges[k]).0 <= graph.len() && 1 <= edges[k].1
                <= graph.len(),
        forall|v: usize, u: usize|
            #[trigger] q.contains(v) && v < graph.len() && #[trigger] graph[v as int].contains(u)
                ==> q.contains(u),
    ensures
        1 <= p.last(),
        q.contains((p.last() - 1) as usize),
    decreases p.len(),
{
    if p.len() > 1 {
        let p1 = p.drop_last();
        assert(is_walk(edges, p1)) by {
            assert forall|j: int| 0 <= j < p1.len() - 1 implies joins(
                edges,
                #[trigger] p1[j],
                p1[j + 1],
            ) by {
                assert(p1[j] == p[j] && p1[j + 1] == p[j + 1]);
                assert(joins(edges, p[j], p[j + 1]));
            }
        }
        lemma_walk_stays_in(edges, graph, q, p1);
        let x = p[p.len() - 2];
        let y = p.last();
        assert(p1.last() == x);
        assert(joins(edges, x, y));
        let k = choose|k: int|
            0 <= k < edges.len() && ((#[trigger] edges[k].0 == x && edges[k].1 == y) || (
            edges[k].0 == y && edges[k].1 == x));
        assert(1 <= edges[k].0 && 1 <= edges[k].1);
        assert(edge_joins(edges[k], (x - 1) as int, ((y - 1) as usize) as int));
        assert(graph[((x - 1) as usize) as int].contains((y - 1) as usize));
    }
}

/// A depth-first walk from section 0 that went everywhere it could, over
/// the tree that `edges` describe, directs that tree away from section 0.
proof fn lemma_walk_directs_tree(
    edges: Seq<(usize, usize)>,
    graph: Seq<Set<usize>>,
    adj: Seq<Set<usize>>,
    visited: Set<usize>,
    from: Map<usize, usize>,
)
    requires
        2 <= graph.len() <= usize::MAX,
        edges.len() + 1 == graph.len(),
        forall|k: int|
            0 <= k < edges.len() ==> 1 <= (#[trigger] edges[k]).0 <= graph.len() && 1 <= edges[k].1
                <= graph.len(),
        forall|u: usize, v: usize|
            1 <= u <= graph.len() && 1 <= v <= graph.len() ==> #[trigger] connected(edges, u, v),
        graph == undirected_adjacency(graph.len(), edges),
        simple_graph(graph),
        walk_state(graph, adj, visited, from),
        graph[0].subset_of(visited),
        forall|v: usize|
            #[trigger] visited.contains(v) ==> adj[v as int].subset_of(visited) && (visited.contains(
                from[v],
            ) || from[v] == 0),
    ensures
        directed_away_from_root(graph, adj),
{
    let n = graph.len() as int;
    let q = visited.insert(0);
    assert forall|v: usize, u: usize|
        #[trigger] q.contains(v) && v < n && #[trigger] graph[v as int].contains(u) implies q.contains(
        u,
    ) by {
        if v == 0 {
            assert(visited.contains(u));
        } else if u != from[v] {
            assert(adj[v as int] == graph[v as int].remove(from[v]));
            assert(adj[v as int].contains(u));
        }
    }
    assert forall|u: usize| u < n implies #[trigger] q.contains(u) by {
        assert(connected(edges, 1, (u + 1) as usize));
        let p = choose|p: Seq<usize>|
            #[trigger] is_walk(edges, p) && p[0] == 1 && p.last() == (u + 1) as usize;
        lemma_walk_stays_in(edges, graph, q, p);
    }
    lemma_index_range_len(n as nat);
    assert(visited.subset_of(index_range(n)));
    lemma_len_subset(visited, index_range(n));

    // Each visited section names a distinct edge: the one it was reached along.
    let keys = edge_pairs(edges);
    let key_seq = edges.map_values(
        |e: (usize, usize)| section_pair((e.0 - 1) as usize, (e.1 - 1) as usize),
    );
    key_seq.lemma_cardinality_of_set();
    assert(keys.len() <= n - 1);
    let f = |v: usize| section_pair(v, from[v]);
    assert(injective_on(f, visited)) by {
        assert forall|x1: usize, x2: usize|
            visited.contains(x1) && visited.contains(x2) && #[trigger] f(x1) == #[trigger] f(
                x2,
            ) implies x1 == x2 by {
            assert(graph[x1 as int].contains(from[x1]));
            assert(graph[x2 as int].contains(from[x2]));
            if x1 != x2 {
                assert(from[x1] == x2 && from[x2] == x1);
            }
        }
    }
    let img = visited.map(f);
    lemma_map_size(visited, img, f);
    assert(img.subset_of(keys)) by {
        assert forall|pr: (usize, usize)| img.contains(pr) implies keys.contains(pr) by {
            let v = choose|v: usize| visited.contains(v) && pr == f(v);
            assert(graph[v as int].contains(from[v]));
            let k = choose|k: int|
                0 <= k < edges.len() && #[trigger] edge_joins(edges[k], v as int, from[v] as int);
            assert(key_seq[k] == pr);
        }
    }
    lemma_len_subset(img, keys);
    if visited.contains(0) {
        assert(index_range(n).subset_of(visited)) by {
            assert forall|u: usize| index_range(n).contains(u) implies visited.contains(u) by {
                assert(q.contains(u));
            }
        }
        lemma_len_subset(index_range(n), visited);
        assert(false);
    }
    assert(visited =~= index_range(n).remove(0)) by {
        assert forall|u: usize| index_range(n).remove(0).contains(u) implies visited.contains(u) by {
            assert(q.contains(u));
        }
    }
    lemma_subset_equality(img, keys);

    // So every edge of the tree is one that some section was reached along.
    assert forall|u: usize, w: usize| u < n && #[trigger] graph[u as int].contains(w) implies (
    visited.contains(u) && from[u] == w) || (visited.contains(w) && from[w] == u) by {
        let k = choose|k: int|
            0 <= k < edges.len() && #[trigger] edge_joins(edges[k], u as int, w as int);
        assert(key_seq[k] == section_pair(u, w));
        assert(keys.contains(section_pair(u, w)));
        assert(img.contains(section_pair(u, w)));
        let v = choose|v: usize| visited.contains(v) && section_pair(u, w) == f(v);
        assert(graph[v as int].contains(from[v]));
    }

    assert(adj[0] == graph[0]);
    assert forall|v: usize| 0 < v < n implies #[trigger] has_parent(graph, adj, v) by {
        assert(visited.contains(v));
        let p = from[v];
        assert(graph[v as int].contains(p));
        assert(adj[v as int] == graph[v as int].remove(p));
        assert(graph[p as int].contains(v));
        if p != 0 {
            assert(visited.contains(p));
            assert(adj[p as int] == graph[p as int].remove(from[p]));
            assert(from[p] != v);
        }
        assert(adj[p as int].contains(v));
        assert(is_parent(graph, adj, v, p));
    }
    assert forall|u: usize, w: usize| u < n && #[trigger] graph[u as int].contains(w) implies (adj[
        u as int].contains(w) <==> !adj[w as int].contains(u)) by {
        assert(graph[w as int].contains(u));
        if visited.contains(u) && from[u] == w {
            assert(adj[u as int] == graph[u as int].remove(w));
            if w != 0 {
                assert(adj[w as int] == graph[w as int].remove(from[w]));
            }
        } else {
            assert(visited.contains(w) && from[w] == u);
            assert(adj[w as int] == graph[w as int].remove(u));
            if u != 0 {
                assert(visited.contains(u));
                assert(adj[u as int] == graph[u as int].remove(from[u]));
            }
        }
    }
    assert forall|v: int| 0 <= v < n implies !(#[trigger] adj[v]).contains(0) by {
        if adj[v].contains(0) {
            let vu = v as usize;
            assert(adj[vu as int] == graph[vu as int].remove(from[vu]) || adj[vu as int]
                == graph[vu as int]);
            assert(graph[vu as int].contains(0));
            assert(graph[0].contains(vu));
            assert(adj[0].contains(vu));
        }
    }
}

/// Decodes a Prüfer code into the edges of the tree it describes, on the
/// vertices `1..=code.len() + 2`.
fn prufer_to_edges(prufer: &[usize]) -> (edges: Vec<(usize, usize)>)
    requires
        valid_prufer_code(prufer@),
        prufer@.len() < i32::MAX,
    ensures
        decodes_prufer(prufer@, edges@),
{
    let ghost code = prufer@;
    let ghost len = code.len() as int;
    let vertex_count = prufer.len() + 2;
    let mut vertex_set: Vec<i32> = Vec::with_capacity(vertex_count);

    for k in 0..vertex_count
        invariant
            vertex_set.len() == k,
            forall|j: int| 0 <= j < vertex_set.len() ==> vertex_set[j] == 0,
    {
        vertex_set.push(0);
    }

    let mut edges: Vec<(usize, usize)> = Vec::new();

    // Initialize the array of vertex_count
    for i in 0..vertex_count
        invariant
            vertex_set.len() == vertex_count,
            forall|j: int| 0 <= j < vertex_set.len() ==> vertex_set[j] == 0,
    {
        vertex_set.set(i, 0);
    }

    // Number of occurrences of vertex in code
    let mut i: usize = 0;
    while i < vertex_count - 2
        invariant
            0 <= i <= len,
            vertex_count == len + 2,
            code == prufer@,
            prufer.len() == len,
            valid_prufer_code(code),
            len < i32::MAX,
            vertex_set.len() == vertex_count,
            forall|j: int|
                0 <= j < vertex_count ==> vertex_set[j] == occurrences(
                    code.subrange(0, i as int),
                    (j + 1) as usize,
                ),
        decreases len - i,
    {
        let ghost prefix = code.subrange(0, i as int);
        let d = prufer[i] - 1;
        proof {
            assert(code.subrange(0, i + 1) =~= prefix + seq![code[i as int]]);
            assert forall|v: usize| #[trigger] occurrences(code.subrange(0, i + 1), v)
                == occurrences(prefix, v) + (if v == code[i as int] {
                1int
            } else {
                0int
            }) by {
                lemma_occurrences_concat(prefix, seq![code[i as int]], v);
                assert(seq![code[i as int]].drop_first() =~= Seq::<usize>::empty());
                reveal_with_fuel(occurrences, 2);
            }
            lemma_occurrences_contains(prefix, prufer[i as int]);
        }
        vertex_set.set(d, vertex_set[d] + 1);
        i = i + 1;
    }

    let ghost mut removed: Seq<usize> = Seq::empty();
    proof {
        assert(code.subrange(0, len) =~= code);
    }

    // Find the smallest label not present in prufer[].
    let mut i: usize = 0;
    while i < vertex_count - 2
        invariant
            0 <= i <= len,
            vertex_count == len + 2,
            code == prufer@,
            prufer.len() == len,
            valid_prufer_code(code),
            len < i32::MAX,
            vertex_set.len() == vertex_count,
            edges.len() == i,
            removed.len() == i,
            removed.no_duplicates(),
            removed == removed_leaves(edges@, i as int),
            forall|k: int| 0 <= k < i ==> 1 <= #[trigger] removed[k] <= vertex_count,
            forall|k: int|
                0 <= k < i ==> !code.subrange(i as int, len).contains(#[trigger] removed[k]),
            forall|k: int|
                0 <= k < i ==> (#[trigger] edges@[k]).1 == code[k] && is_smallest_leaf(
                    code,
                    removed_leaves(edges@, k),
                    k,
                    edges@[k].0,
                ),
            forall|j: int|
                0 <= j < vertex_count ==> vertex_set[j] == (if removed.contains((j + 1) as usize) {
                    -1int
                } else {
                    occurrences(code.subrange(i as int, len), (j + 1) as usize) as int
                }),
        decreases len - i,
    {
        let ghost suffix = code.subrange(i as int, len);
        let ghost next_suffix = code.subrange(i + 1, len);
        proof {
            assert(suffix.drop_first() =~= next_suffix);
            assert forall|j: int| 0 <= j < vertex_count implies (vertex_set[j] == 0
                <==> is_leaf_candidate(code, removed, i as int, (j + 1) as usize)) by {
                lemma_occurrences_contains(suffix, (j + 1) as usize);
            }
        }
        let ghost w = lemma_leaf_exists(code, removed, i as int);
        let mut j: usize = 0;
        while j < vertex_count && vertex_set[j] != 0
            invariant
                vertex_set.len() == vertex_count,
                j <= w - 1,
                1 <= w <= vertex_count,
                vertex_set[w - 1] == 0,
                forall|k: int| 0 <= k < j ==> vertex_set[k] != 0,
            decreases vertex_count - j,
        {
            j = j + 1;
        }
        let leaf = j + 1;
        let x = prufer[i];
        proof {
            assert(is_leaf_candidate(code, removed, i as int, leaf));
            assert forall|u: usize| 1 <= u < leaf implies !is_leaf_candidate(
                code,
                removed,
                i as int,
                u,
            ) by {
                assert(vertex_set[u - 1] != 0);
            }
            assert(suffix[0] == x);
            assert(suffix.contains(x));
            assert(leaf != x);
            assert(!removed.contains(x)) by {
                if removed.contains(x) {
                    let k = choose|k: int| 0 <= k < removed.len() && removed[k] == x;
                    assert(!suffix.contains(removed[k]));
                }
            }
            lemma_occurrences_contains(suffix, x);
            assert forall|u: usize| #[trigger] occurrences(suffix, u) == occurrences(
                next_suffix,
                u,
            ) + (if u == x {
                1int
            } else {
                0int
            }) by {}
        }
        let ghost old_edges = edges@;
        vertex_set.set(j, -1);
        let edge = (leaf, x);
        edges.push(edge);
        vertex_set.set(x - 1, vertex_set[x - 1] - 1);
        proof {
            let old_removed = removed;
            removed = removed.push(leaf);
            assert(removed_leaves(edges@, i + 1) =~= removed);
            assert forall|k: int| 0 <= k < i + 1 implies removed_leaves(edges@, k)
                =~= removed_leaves(old_edges, k) by {}
            assert forall|k: int|
                0 <= k < i + 1 implies (#[trigger] edges@[k]).1 == code[k] && is_smallest_leaf(
                code,
                removed_leaves(edges@, k),
                k,
                edges@[k].0,
            ) by {
                if k < i {
                    assert(edges@[k] == old_edges[k]);
                } else {
                    assert(removed_leaves(edges@, k) =~= old_removed);
                }
            }
            assert forall|w: usize| w != leaf implies removed.contains(w) == old_removed.contains(
                w,
            ) by {
                if old_removed.contains(w) {
                    let m = choose|m: int| 0 <= m < old_removed.len() && old_removed[m] == w;
                    assert(removed[m] == w);
                }
                if removed.contains(w) {
                    let m = choose|m: int| 0 <= m < removed.len() && removed[m] == w;
                    assert(old_removed[m] == w);
                }
            }
            assert forall|k: int| 0 <= k < i + 1 implies !next_suffix.contains(
                #[trigger] removed[k],
            ) by {
                if next_suffix.contains(removed[k]) {
                    let m = choose|m: int|
                        0 <= m < next_suffix.len() && next_suffix[m] == removed[k];
                    assert(suffix[m + 1] == removed[k]);
                }
            }
            assert forall|j2: int| 0 <= j2 < vertex_count implies vertex_set[j2] == (
            if removed.contains((j2 + 1) as usize) {
                -1int
            } else {
                occurrences(next_suffix, (j2 + 1) as usize) as int
            }) by {
                if j2 == j as int {
                    assert(removed[i as int] == leaf);
                } else {
                    lemma_occurrences_contains(next_suffix, (j2 + 1) as usize);
                }
            }
            assert(removed.no_duplicates()) by {
                assert(!old_removed.contains(leaf));
            }
        }
        i = i + 1;
    }

    // For the last element
    let ghost ab = lemma_two_remain(code, removed);
    proof {
        assert forall|j: int| 0 <= j < vertex_count implies (vertex_set[j] == 0 <==> ((j + 1)
            == ab.0 || (j + 1) == ab.1)) by {
            assert(code.subrange(len, len) =~= Seq::<usize>::empty());
        }
    }
    let ghost prefix_edges = edges@;
    let mut found = false;
    let mut first: usize = 0;
    for i in 0..vertex_count
        invariant
            vertex_set.len() == vertex_count,
            vertex_count == len + 2,
            1 <= ab.0 < ab.1 <= vertex_count,
            forall|j: int|
                0 <= j < vertex_count ==> (vertex_set[j] == 0 <==> ((j + 1) == ab.0 || (j + 1)
                    == ab.1)),
            found <==> ab.0 <= i,
            found ==> first == ab.0,
            edges@ == (if ab.1 <= i {
                prefix_edges.push((ab.0, ab.1))
            } else {
                prefix_edges
            }),
    {
        if vertex_set[i] == 0 {
            if !found {
                first = i + 1;
                found = true
            } else {
                let edge = (first, i + 1);
                edges.push(edge);
            }
        }
    }
    proof {
        assert(removed_leaves(edges@, len) =~= removed_leaves(prefix_edges, len));
        assert forall|k: int| 0 <= k < len implies removed_leaves(edges@, k) =~= removed_leaves(
            prefix_edges,
            k,
        ) by {}
    }
    edges
}

/// How a sequence of weights changes when one of them is replaced.
proof fn lemma_weight_sum_update(s: Seq<u32>, i: int, x: u32)
    requires
        0 <= i < s.len(),
    ensures
        weight_sum(s.update(i, x)) == weight_sum(s) - s[i] + x,
    decreases s.len(),
{
    let t = s.update(i, x);
    if i == s.len() - 1 {
        assert(t.drop_last() =~= s.drop_last());
    } else {
        lemma_weight_sum_update(s.drop_last(), i, x);
        assert(t.drop_last() =~= s.drop_last().update(i, x));
    }
}

/// `len` equal weights add up to `len` times the weight.
proof fn lemma_weight_sum_const(len: nat, w: u32)
    ensures
        weight_sum(Seq::new(len, |k: int| w)) == len * w,
    decreases len,
{
    if len > 0 {
        lemma_weight_sum_const((len - 1) as nat, w);
        let s = Seq::new(len, |k: int| w);
        assert(s.drop_last() =~= Seq::new((len - 1) as nat, |k: int| w));
        assert(s.last() == w);
        assert((len - 1) * w + w == len * w) by (nonlinear_arith);
        assert(weight_sum(s) == weight_sum(s.drop_last()) + s.last());
    } else {
        assert(len * w == 0) by (nonlinear_arith)
            requires
                len == 0,
        ;
    }
}

/// Draws a Prüfer code label, `1..=weights.len()`, each with its weight, and
/// makes the label drawn `step` heavier for the next draw.
fn choose_prufer_digit(weights: &mut Vec<u32>, step: u32) -> (res: usize)
    requires
        old(weights)@.len() > 0,
        0 < weight_sum(old(weights)@) <= u32::MAX,
        forall|i: int|
            0 <= i < old(weights)@.len() && old(weights)@[i] > 0 ==> old(weights)@[i] + step
                <= u32::MAX,
    ensures
        1 <= res <= old(weights)@.len(),
        old(weights)@[res - 1] > 0,
        final(weights)@ == old(weights)@.update(res - 1, (old(weights)@[res - 1] + step) as u32),
{
    let n = weights.len();
    let idx = choose_weighted_index(weights);
    let res = idx + 1;
    let w = weights[res - 1];
    weights.set(res - 1, w + step);
    res
}

/// The weights used to draw a Prüfer code of any length up to `max_len` stay
/// within a `u32`: the draws never overflow.
pub open spec fn prufer_weights_fit(max_len: int, weight: int, step: int) -> bool {
    max_len == 0 || (weight > 0 && max_len * weight + (max_len - 1) * step <= u32::MAX && weight
        + max_len * step <= u32::MAX)
}

/// Draws a Prüfer code of a length in `min_len..=max_len`; every label is
/// drawn from `1..=len`, a label growing likelier each time it is drawn.
pub fn generate_prufer_code(min_len: usize, max_len: usize, weight: u32, step: u32) -> (code: Vec<
    usize,
>)
    requires
        min_len <= max_len < usize::MAX,
        prufer_weights_fit(max_len as int, weight as int, step as int),
    ensures
        min_len <= code@.len() <= max_len,
        forall|i: int| 0 <= i < code@.len() ==> 1 <= #[trigger] code@[i] <= code@.len(),
        valid_prufer_code(code@),
{
    let len = gen_range_usize(min_len, max_len + 1);
    let mut weights: Vec<u32> = Vec::new();
    let mut k: usize = 0;
    while k < len
        invariant
            k <= len,
            weights@ == Seq::new(k as nat, |j: int| weight),
        decreases len - k,
    {
        weights.push(weight);
        proof {
            assert(weights@ =~= Seq::new((k + 1) as nat, |j: int| weight));
        }
        k = k + 1;
    }
    proof {
        lemma_weight_sum_const(len as nat, weight);
    }
    let mut code: Vec<usize> = Vec::new();
    let mut k: usize = 0;
    while k < len
        invariant
            k <= len <= max_len,
            prufer_weights_fit(max_len as int, weight as int, step as int),
            weights@.len() == len,
            weight_sum(weights@) == len * weight + k * step,
            forall|i: int| 0 <= i < len ==> weight <= #[trigger] weights@[i] <= weight + k * step,
            code@.len() == k,
            forall|i: int| 0 <= i < k ==> 1 <= #[trigger] code@[i] <= len,
        decreases len - k,
    {
        proof {
            assert(weight > 0);
            assert(len * weight >= weight) by (nonlinear_arith)
                requires
                    len >= 1,
                    weight > 0,
            ;
            assert(len * weight + k * step <= max_len * weight + (max_len - 1) * step)
                by (nonlinear_arith)
                requires
                    k < len <= max_len,
                    weight >= 0,
                    step >= 0,
            ;
            assert((k + 1) * step <= max_len * step) by (nonlinear_arith)
                requires
                    k < len <= max_len,
                    step >= 0,
            ;
            assert(k * step + step == (k + 1) * step) by (nonlinear_arith);
        }
        let ghost before = weights@;
        let digit = choose_prufer_digit(&mut weights, step);
        proof {
            lemma_weight_sum_update(before, digit - 1, (before[digit - 1] + step) as u32);
            assert(k * step + step == (k + 1) * step) by (nonlinear_arith);
        }
        code.push(digit);
        k = k + 1;
    }
    code
}

/// A section of a length drawn from `min_len..max_len`, every floor still to
/// be generated.
pub fn generate_section(min_len: usize, max_len: usize, kind: &str) -> (s: DungeonSection)
    requires
        0 < min_len < max_len,
    ensures
        s.kind() == kind@,
        min_len <= s.floors().len() < max_len,
        forall|i: int| 0 <= i < s.floors().len() ==> #[trigger] s.floors()[i] is None,
{
    DungeonSection::new(kind, gen_range_usize(min_len, max_len))
}

/// The undirected graph on the sections `0..n` that has, for each edge
/// `(a, b)` of `edges` (vertices numbered from 1), an edge between the
/// sections `a - 1` and `b - 1`.
pub open spec fn undirected_adjacency(n: nat, edges: Seq<(usize, usize)>) -> Seq<Set<usize>> {
    Seq::new(
        n,
        |v: int|
            Set::new(
                |u: usize|
                    exists|k: int|
                        0 <= k < edges.len() && #[trigger] edge_joins(edges[k], v, u as int),
            ),
    )
}

/// The edge `e`, on vertices numbered from 1, joins the sections `v` and `u`.
pub open spec fn edge_joins(e: (usize, usize), v: int, u: int) -> bool {
    (e.0 - 1 == v && e.1 - 1 == u) || (e.1 - 1 == v && e.0 - 1 == u)
}

/// The plan of a dungeon: the Prüfer code of its tree of sections, the
/// range of section lengths and the kind of floors.
pub struct DungeonPlan {
    prufer_code: Vec<usize>,
    min_section_length: usize,
    max_section_length: usize,
    kind: String,
}

impl DungeonPlan {
    pub closed spec fn code(&self) -> Seq<usize> {
        self.prufer_code@
    }

    /// Sections are at least this long.
    pub closed spec fn min_len(&self) -> usize {
        self.min_section_length
    }

    /// Sections are shorter than this.
    pub closed spec fn max_len(&self) -> usize {
        self.max_section_length
    }

    pub closed spec fn kind(&self) -> Seq<char> {
        self.kind@
    }

    /// A plan whose sections all have length `len`.
    pub fn new(prufer_code: Vec<usize>, len: usize, kind: String) -> (plan: Self)
        requires
            len < usize::MAX,
        ensures
            plan.code() == prufer_code@,
            plan.min_len() == len,
            plan.max_len() == len + 1,
            plan.kind() == kind@,
    {
        DungeonPlan {
            prufer_code: prufer_code,
            min_section_length: len,
            max_section_length: len + 1,
            kind: kind,
        }
    }

    /// A small random dungeon of 4 to 6 sections, 2 to 4 floors each.
    pub fn easy() -> (plan: Self)
        ensures
            2 <= plan.code().len() <= 4,
            forall|i: int|
                0 <= i < plan.code().len() ==> 1 <= #[trigger] plan.code()[i] <= plan.code().len(),
            valid_prufer_code(plan.code()),
            plan.min_len() == 2,
            plan.max_len() == 5,
            plan.kind() == "dood"@,
    {
        proof {
            assert(prufer_weights_fit(4, 20, 10));
        }
        DungeonPlan {
            prufer_code: generate_prufer_code(2, 4, 20, 10),
            min_section_length: 2,
            max_section_length: 5,
            kind: "dood".to_string(),
        }
    }

    /// Lays the dungeon out: one section per vertex of the tree that the
    /// code describes, directed away from section 0.
    pub fn build(&self) -> (d: Dungeon)
        requires
            valid_prufer_code(self.code()),
            self.code().len() < i32::MAX,
            0 < self.min_len() < self.max_len(),
        ensures
            d.wf(),
            d.adjacency().len() == self.code().len() + 2,
            forall|i: int|
                0 <= i < d.section_list().len() ==> {
                    let sec = #[trigger] d.section_list()[i];
                    &&& sec.kind() == self.kind()
                    &&& self.min_len() <= sec.floors().len() < self.max_len()
                    &&& forall|j: int| 0 <= j < sec.floors().len() ==> sec.floors()[j] is None
                },
            exists|edges: Seq<(usize, usize)>|
                #[trigger] decodes_prufer(self.code(), edges) && directed_away_from_root(
                    undirected_adjacency((self.code().len() + 2) as nat, edges),
                    d.adjacency(),
                ),
    {
        let vertex_count = self.prufer_code.len() + 2;
        let ghost n = vertex_count as nat;

        let mut adjacencies: Vec<HashSet<usize>> = Vec::with_capacity(vertex_count);
        let mut k: usize = 0;
        while k < vertex_count
            invariant
                k <= vertex_count,
                adjacencies@.len() == k,
                forall|i: int| 0 <= i < k ==> (#[trigger] adjacencies@[i])@ == Set::<usize>::empty(),
            decreases vertex_count - k,
        {
            adjacencies.push(HashSet::new());
            k = k + 1;
        }

        let mut sections: Vec<DungeonSection> = Vec::with_capacity(vertex_count);
        let mut k: usize = 0;
        while k < vertex_count
            invariant
                k <= vertex_count,
                0 < self.min_len() < self.max_len(),
                sections@.len() == k,
                forall|i: int|
                    0 <= i < k ==> {
                        let sec = #[trigger] sections@[i];
                        &&& sec.kind() == self.kind()
                        &&& self.min_len() <= sec.floors().len() < self.max_len()
                        &&& forall|j: int| 0 <= j < sec.floors().len() ==> sec.floors()[j] is None
                    },
            decreases vertex_count - k,
        {
            sections.push(
                generate_section(self.min_section_length, self.max_section_length, &self.kind),
            );
            k = k + 1;
        }

        let edges = prufer_to_edges(self.prufer_code.as_slice());
        let ghost code = self.code();
        let ghost all_edges = edges@;
        proof {
            let empty_graph = undirected_adjacency(n, all_edges.take(0));
            assert forall|v: int| 0 <= v < n implies #[trigger] adjacency_view(adjacencies@)[v]
                =~= empty_graph[v] by {}
            assert(adjacency_view(adjacencies@) =~= empty_graph);
            assert forall|k: int| 0 <= k < all_edges.len() implies 1 <= (#[trigger] all_edges[k]).0
                <= n && 1 <= all_edges[k].1 <= n by {
                if k < code.len() {
                    assert(is_smallest_leaf(code, removed_leaves(all_edges, k), k, all_edges[k].0));
                    assert(all_edges[k].1 == code[k]);
                }
            }
        }
        let mut k: usize = 0;
        while k < edges.len()
            invariant
                k <= edges.len(),
                edges@ == all_edges,
                adjacencies@.len() == n,
                forall|j: int| 0 <= j < all_edges.len() ==> 1 <= (#[trigger] all_edges[j]).0 <= n
                    && 1 <= all_edges[j].1 <= n,
                adjacency_view(adjacencies@) == undirected_adjacency(n, all_edges.take(k as int)),
            decreases edges.len() - k,
        {
            let (to_a, from_a) = edges[k];
            let to = to_a - 1;
            let from = from_a - 1;
            let ghost before = adjacency_view(adjacencies@);
            let mut set: HashSet<usize> = HashSet::new();
            adjacencies.set_and_swap(from, &mut set);
            set.insert(to);
            adjacencies.set_and_swap(from, &mut set);
            let mut set: HashSet<usize> = HashSet::new();
            adjacencies.set_and_swap(to, &mut set);
            set.insert(from);
            adjacencies.set_and_swap(to, &mut set);
            proof {
                let after = undirected_adjacency(n, all_edges.take(k + 1));
                let prev = undirected_adjacency(n, all_edges.take(k as int));
                assert forall|v: int| 0 <= v < n implies #[trigger] adjacency_view(adjacencies@)[v]
                    =~= after[v] by {
                    assert forall|u: usize| after[v].contains(u) implies adjacency_view(
                        adjacencies@,
                    )[v].contains(u) by {
                        let j = choose|j: int|
                            0 <= j < k + 1 && #[trigger] edge_joins(
                                all_edges.take(k + 1)[j],
                                v,
                                u as int,
                            );
                        if j < k {
                            assert(edge_joins(all_edges.take(k as int)[j], v, u as int));
                            assert(prev[v].contains(u));
                        }
                    }
                    assert forall|u: usize| adjacency_view(adjacencies@)[v].contains(u) implies after[
                        v].contains(u) by {
                        if prev[v].contains(u) {
                            let j = choose|j: int|
                                0 <= j < k && #[trigger] edge_joins(
                                    all_edges.take(k as int)[j],
                                    v,
                                    u as int,
                                );
                            assert(edge_joins(all_edges.take(k + 1)[j], v, u as int));
                        } else {
                            assert(edge_joins(all_edges.take(k + 1)[k as int], v, u as int));
                        }
                    }
                }
                assert(adjacency_view(adjacencies@) =~= after);
            }
            k = k + 1;
        }
        proof {
            assert(all_edges.take(all_edges.len() as int) =~= all_edges);
            law_prufer_decodes_to_tree(code, all_edges);
            let a = adjacency_view(adjacencies@);
            assert forall|v: usize, u: usize| v < a.len() && #[trigger] a[v as int].contains(u)
                implies u < a.len() && u != v && a[u as int].contains(v) by {
                let j = choose|j: int|
                    0 <= j < all_edges.len() && #[trigger] edge_joins(all_edges[j], v as int, u as int);
                assert(edge_joins(all_edges[j], u as int, v as int));
            }
            assert(walk_state(a, a, Set::empty(), Map::empty())) by {
                assert(Map::<usize, usize>::empty().dom() =~= Set::<usize>::empty());
            }
        }

        // Depth-first walk to direct the graph away from section 0.
        let mut visited: HashSet<usize> = HashSet::new();
        let ghost undirected = adjacency_view(adjacencies@);
        let reached = prune_adjacencies(
            &mut adjacencies,
            0,
            &mut visited,
            Ghost(undirected),
            Ghost(Map::empty()),
        );
        proof {
            assert(decodes_prufer(code, all_edges));
            lemma_walk_directs_tree(
                all_edges,
                undirected,
                adjacency_view(adjacencies@),
                visited@,
                reached@,
            );
        }
        Dungeon { adjacencies: adjacencies, sections: sections }
    }
}

/// The sections of a dungeon and the branches between them: section `i`
/// leads to the sections in its adjacency set.
pub struct Dungeon {
    adjacencies: Vec<HashSet<usize>>,
    sections: Vec<DungeonSection>,
}

/// The first of `sections` that holds the floor `id`.
pub open spec fn first_section_with(sections: Seq<DungeonSection>, id: MapId) -> Option<int> {
    if exists|i: int| 0 <= i < sections.len() && floors_have(sections[i].floors(), id) {
        Some(
            choose|i: int|
                0 <= i < sections.len() && floors_have(sections[i].floors(), id) && forall|j: int|
                    0 <= j < i ==> !floors_have(sections[j].floors(), id),
        )
    } else {
        None
    }
}

proof fn lemma_first_section_in_range(sections: Seq<DungeonSection>, id: MapId)
    ensures
        first_section_with(sections, id) matches Some(i) ==> 0 <= i < sections.len()
            && floors_have(sections[i].floors(), id),
{
    if exists|i: int| 0 <= i < sections.len() && floors_have(sections[i].floors(), id) {
        let i = choose|i: int| 0 <= i < sections.len() && floors_have(sections[i].floors(), id);
        lemma_first_section_exists(sections, id, i);
    }
}

proof fn lemma_first_section_exists(sections: Seq<DungeonSection>, id: MapId, i: int)
    requires
        0 <= i < sections.len(),
        floors_have(sections[i].floors(), id),
    ensures
        first_section_with(sections, id) matches Some(k) && 0 <= k <= i && floors_have(
            sections[k].floors(),
            id,
        ),
    decreases i,
{
    if exists|j: int| 0 <= j < i && floors_have(sections[j].floors(), id) {
        let j = choose|j: int| 0 <= j < i && floors_have(sections[j].floors(), id);
        lemma_first_section_exists(sections, id, j);
    } else {
        lemma_first_section_with(sections, id, i);
    }
}

proof fn lemma_first_section_with(sections: Seq<DungeonSection>, id: MapId, i: int)
    requires
        0 <= i < sections.len(),
        floors_have(sections[i].floors(), id),
        forall|j: int| 0 <= j < i ==> !floors_have(sections[j].floors(), id),
    ensures
        first_section_with(sections, id) == Some(i),
{
    let k = choose|k: int|
        0 <= k < sections.len() && floors_have(sections[k].floors(), id) && forall|j: int|
            0 <= j < k ==> !floors_have(sections[j].floors(), id);
    assert(k == i) by {
        if k < i {
            assert(!floors_have(sections[k].floors(), id));
        }
        if i < k {
            assert(!floors_have(sections[i].floors(), id));
        }
    }
}

impl Dungeon {
    /// Each section's branches: the sections it leads to.
    pub closed spec fn adjacency(&self) -> Seq<Set<usize>> {
        adjacency_view(self.adjacencies@)
    }

    pub closed spec fn section_list(&self) -> Seq<DungeonSection> {
        self.sections@
    }

    /// A dungeon has a first section, one adjacency set per section, and
    /// no section without floors.
    pub open spec fn wf(&self) -> bool {
        &&& self.section_list().len() >= 1
        &&& self.adjacency().len() == self.section_list().len()
        &&& forall|i: int|
            0 <= i < self.section_list().len() ==> (#[trigger] self.section_list()[i]).floors().len()
                > 0
    }

    /// Some section holds the floor `id`.
    pub open spec fn knows_floor(&self, id: MapId) -> bool {
        first_section_with(self.section_list(), id) is Some
    }

    /// The dungeon was entered: its first section's top floor exists.
    pub open spec fn spec_entered(&self) -> bool {
        self.section_list()[0].floors()[0] is Some
    }

    /// The section that the floor `id` belongs to; a dungeon not yet entered
    /// starts at its first section.
    pub open spec fn section_index_for(&self, id: MapId) -> int {
        match first_section_with(self.section_list(), id) {
            Some(i) => i,
            None => 0,
        }
    }

    pub fn new(adjacencies: Vec<HashSet<usize>>, sections: Vec<DungeonSection>) -> (d: Self)
        ensures
            d.adjacency() == adjacency_view(adjacencies@),
            d.section_list() == sections@,
    {
        Dungeon { adjacencies, sections }
    }

    /// The section at position `i`.
    pub fn section(&self, i: usize) -> (s: &DungeonSection)
        requires
            i < self.section_list().len(),
        ensures
            *s == self.section_list()[i as int],
    {
        &self.sections[i]
    }

    /// The sections that section `section` leads to.
    pub fn adjacencies(&self, section: usize) -> (a: &HashSet<usize>)
        requires
            section < self.adjacency().len(),
        ensures
            a@ == self.adjacency()[section as int],
    {
        &self.adjacencies[section]
    }

    /// Generates the floor below `current_floor` in its section, recording
    /// it as `new_floor`.
    pub fn generate_next_floor(&mut self, current_floor: MapId, new_floor: MapId) -> (r: Option<
        MapId,
    >)
        requires
            old(self).wf(),
            old(self).knows_floor(current_floor) || !old(self).spec_entered(),
        ensures
            ({
                let i = old(self).section_index_for(current_floor);
                let next = spec_next_floor(
                    old(self).section_list()[i].floors(),
                    current_floor,
                    new_floor,
                );
                &&& r == next.0
                &&& final(self).section_list().len() == old(self).section_list().len()
                &&& final(self).section_list()[i].floors() == next.1
                &&& final(self).section_list()[i].kind() == old(self).section_list()[i].kind()
                &&& forall|j: int|
                    0 <= j < old(self).section_list().len() && j != i ==> final(self).section_list()[j]
                        == old(self).section_list()[j]
            }),
            final(self).adjacency() == old(self).adjacency(),
            final(self).wf(),
    {
        let i = match self.map_id_to_section_index(current_floor) {
            Some(i) => i,
            None => 0,
        };
        self.generate_in_section(i, current_floor, new_floor)
    }

    fn generate_in_section(&mut self, i: usize, current_floor: MapId, new_floor: MapId) -> (r:
        Option<MapId>)
        requires
            old(self).wf(),
            i < old(self).section_list().len(),
        ensures
            ({
                let next = spec_next_floor(
                    old(self).section_list()[i as int].floors(),
                    current_floor,
                    new_floor,
                );
                &&& r == next.0
                &&& final(self).section_list().len() == old(self).section_list().len()
                &&& final(self).section_list()[i as int].floors() == next.1
                &&& final(self).section_list()[i as int].kind() == old(self).section_list()[
                    i as int].kind()
                &&& forall|j: int|
                    0 <= j < old(self).section_list().len() && j != i ==> final(self).section_list()[j]
                        == old(self).section_list()[j]
            }),
            final(self).adjacency() == old(self).adjacency(),
            final(self).wf(),
    {
        let mut section = DungeonSection { kind: String::new(), floor_ids: Vec::new() };
        self.sections.set_and_swap(i, &mut section);
        let ghost before = section;
        let r = section.generate_next_floor(current_floor, new_floor);
        let ghost updated = section;
        self.sections.set_and_swap(i, &mut section);
        proof {
            let f = self.section_list();
            assert(before == old(self).section_list()[i as int]);
            assert(f[i as int] == updated);
            assert forall|j: int| 0 <= j < f.len() implies (#[trigger] f[j]).floors().len() > 0 by {
                if j != i {
                    assert(f[j] == old(self).section_list()[j]);
                }
            }
        }
        r
    }

    /// Generates the top floor of the section `branch`, which leaves from
    /// the bottom floor `current_floor` of its section.
    pub fn generate_branch(&mut self, current_floor: MapId, branch: usize, new_floor: MapId) -> (r:
        Option<MapId>)
        requires
            old(self).wf(),
            old(self).knows_floor(current_floor) || !old(self).spec_entered(),
            old(self).section_list()[old(self).section_index_for(current_floor)].floors().last()
                == Some(current_floor),
            branch < old(self).section_list().len(),
            old(self).section_list()[branch as int].floors()[0] is None,
        ensures
            ({
                let next = spec_next_floor(
                    old(self).section_list()[branch as int].floors(),
                    current_floor,
                    new_floor,
                );
                &&& r == next.0
                &&& final(self).section_list().len() == old(self).section_list().len()
                &&& final(self).section_list()[branch as int].floors() == next.1
                &&& final(self).section_list()[branch as int].kind() == old(self).section_list()[
                    branch as int].kind()
                &&& forall|j: int|
                    0 <= j < old(self).section_list().len() && j != branch
                        ==> final(self).section_list()[j] == old(self).section_list()[j]
            }),
            final(self).adjacency() == old(self).adjacency(),
            final(self).wf(),
    {
        self.generate_in_section(branch, current_floor, new_floor)
    }

    pub fn has_floor(&self, id: MapId) -> (b: bool)
        ensures
            b == self.knows_floor(id),
    {
        self.map_id_to_section_index(id).is_some()
    }

    /// The first section that holds the floor `map_id`.
    pub fn map_id_to_section_index(&self, map_id: MapId) -> (r: Option<usize>)
        ensures
            match r {
                Some(i) => first_section_with(self.section_list(), map_id) == Some(i as int) && i
                    < self.section_list().len(),
                None => first_section_with(self.section_list(), map_id) is None,
            },
    {
        let mut i: usize = 0;
        while i < self.sections.len()
            invariant
                i <= self.sections@.len(),
                forall|j: int| 0 <= j < i ==> !floors_have(self.sections@[j].floors(), map_id),
            decreases self.sections@.len() - i,
        {
            if self.sections[i].has_floor(map_id) {
                proof {
                    lemma_first_section_with(self.section_list(), map_id, i as int);
                }
                return Some(i);
            }
            i = i + 1;
        }
        None
    }

    /// The section that the floor `id` belongs to; a dungeon not yet entered
    /// starts at its first section.
    pub fn section_for_map_id(&self, id: MapId) -> (s: &DungeonSection)
        requires
            self.wf(),
            self.knows_floor(id) || !self.spec_entered(),
        ensures
            *s == self.section_list()[self.section_index_for(id)],
    {
        match self.map_id_to_section_index(id) {
            Some(i) => &self.sections[i],
            None => &self.sections[0],
        }
    }

    /// Whether the floor `id` leads nowhere: it is in no section, or its
    /// section has no branches.
    pub fn is_leaf(&self, id: MapId) -> (b: bool)
        requires
            self.wf(),
        ensures
            b == match first_section_with(self.section_list(), id) {
                Some(i) => self.adjacency()[i].is_empty(),
                None => true,
            },
    {
        match self.map_id_to_section_index(id) {
            Some(i) => self.adjacencies[i].is_empty(),
            None => true,
        }
    }

    /// Whether branches leave from the floor `id`: it is the bottom floor of
    /// its section.
    pub fn is_branch_point(&self, id: MapId) -> (b: bool)
        requires
            self.wf(),
            self.knows_floor(id) || !self.spec_entered(),
        ensures
            b == (self.section_list()[self.section_index_for(id)].floors().last() == Some(id)),
    {
        proof {
            lemma_first_section_in_range(self.section_list(), id);
        }
        self.section_for_map_id(id).is_branch_point(id)
    }

    /// The sections that the section of the floor `id` leads to.
    pub fn branches(&self, id: MapId) -> (r: Option<&HashSet<usize>>)
        requires
            self.wf(),
        ensures
            match first_section_with(self.section_list(), id) {
                Some(i) => r is Some && r.unwrap()@ == self.adjacency()[i],
                None => r is None,
            },
    {
        match self.map_id_to_section_index(id) {
            Some(i) => Some(&self.adjacencies[i]),
            None => None,
        }
    }

    /// Whether the dungeon was entered.
    pub fn entered(&self) -> (b: bool)
        requires
            self.wf(),
        ensures
            b == self.spec_entered(),
    {
        self.sections[0].entered()
    }

    /// The number of sections.
    pub fn sections(&self) -> (n: usize)
        ensures
            n == self.adjacency().len(),
    {
        self.adjacencies.len()
    }
}

} // verus!
