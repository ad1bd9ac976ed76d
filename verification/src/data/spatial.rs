//! The spatial index: where each entity is (on the map, on an unloaded part
//! of the map, or inside another entity), and which entities are at a place,
//! in the order they arrived.
use std::collections::BTreeMap;
use vstd::prelude::*;
use crate::ai::Entity;
use crate::point::Point;
use vstd::std_specs::btree::increasing_seq;
use vstd::std_specs::cmp::OrdSpec;

verus! {

broadcast use {vstd::std_specs::btree::group_btree_axioms, vstd::laws_cmp::group_laws_cmp};

#[derive(Debug, Copy, Clone, PartialEq, Eq, Structural)]
pub enum Place {
    /// On a part of the map that is not loaded.
    Unloaded(Point),
    At(Point),
    /// Inside another entity.
    In(Entity),
}

/// One entry of a flattened spatial index: an entity and its place.
#[derive(Debug, Copy, Clone, PartialEq, Eq, Structural)]
pub struct Elt(pub Entity, pub Place);

/// Spatial index for game entities.
pub struct Spatial {
    place_to_entities: Vec<(Place, Vec<Entity>)>,
    entity_to_place: BTreeMap<Entity, Place>,
}

/// The entities at `p` in an index of places, none if `p` has no entry.
pub open spec fn occupants_in(idx: Seq<(Place, Seq<Entity>)>, p: Place) -> Seq<Entity> {
    if exists|i: int| 0 <= i < idx.len() && idx[i].0 == p {
        idx[choose|i: int| 0 <= i < idx.len() && idx[i].0 == p].1
    } else {
        Seq::empty()
    }
}

/// `s` without the entity `e`, the last entity taking its position; a
/// sequence of one entity becomes empty.
pub open spec fn without(s: Seq<Entity>, e: Entity) -> Seq<Entity> {
    if s.len() <= 1 {
        Seq::empty()
    } else {
        s.update(s.index_of(e), s.last()).drop_last()
    }
}

/// The container that `y` is directly inside, if any.
pub open spec fn container_of(places: Map<Entity, Place>, y: Entity) -> Option<Entity> {
    if places.contains_key(y) {
        match places[y] {
            Place::In(p) => Some(p),
            _ => None,
        }
    } else {
        None
    }
}

/// The container `k` levels up from `y` (`y` itself at level 0).
pub open spec fn ancestor(places: Map<Entity, Place>, y: Entity, k: nat) -> Option<Entity>
    decreases k,
{
    if k == 0 {
        Some(y)
    } else {
        match ancestor(places, y, (k - 1) as nat) {
            Some(a) => container_of(places, a),
            None => None,
        }
    }
}

/// `y` is inside `x`, directly or through other containers.
pub open spec fn is_inside(places: Map<Entity, Place>, y: Entity, x: Entity) -> bool {
    exists|k: nat| k >= 1 && #[trigger] ancestor(places, y, k) == Some(x)
}

/// Going up the containers from `y` comes to an end.
pub open spec fn chain_ends(places: Map<Entity, Place>, y: Entity) -> bool {
    exists|k: nat| #[trigger] ancestor(places, y, k) is None
}

proof fn lemma_ancestor_none_stays(places: Map<Entity, Place>, y: Entity, k: nat, j: nat)
    requires
        ancestor(places, y, k) is None,
        k <= j,
    ensures
        ancestor(places, y, j) is None,
    decreases j - k,
{
    if k < j {
        lemma_ancestor_none_stays(places, y, k, (j - 1) as nat);
    }
}

proof fn lemma_increasing_keys(keys: Seq<Entity>, i: int, j: int)
    requires
        increasing_seq(keys),
        0 <= i < j < keys.len(),
    ensures
        keys[i] < keys[j],
{
    assert(keys[i].cmp_spec(&keys[j]) is Less);
}

/// No place has two entries in an index of places.
pub open spec fn unique_places(idx: Seq<(Place, Seq<Entity>)>) -> bool {
    forall|i: int, j: int|
        0 <= i < idx.len() && 0 <= j < idx.len() && i != j ==> #[trigger] idx[i].0 != #[trigger] idx[j].0
}

proof fn lemma_occupants_entry(idx: Seq<(Place, Seq<Entity>)>, i: int)
    requires
        unique_places(idx),
        0 <= i < idx.len(),
    ensures
        occupants_in(idx, idx[i].0) == idx[i].1,
{
    let p = idx[i].0;
    let j = choose|j: int| 0 <= j < idx.len() && idx[j].0 == p;
    assert(j == i);
}

proof fn lemma_occupants_update(idx: Seq<(Place, Seq<Entity>)>, i: int, s: Seq<Entity>, q: Place)
    requires
        unique_places(idx),
        0 <= i < idx.len(),
    ensures
        unique_places(idx.update(i, (idx[i].0, s))),
        occupants_in(idx.update(i, (idx[i].0, s)), q) == if q == idx[i].0 {
            s
        } else {
            occupants_in(idx, q)
        },
{
    let idx2 = idx.update(i, (idx[i].0, s));
    assert forall|a: int, b: int|
        0 <= a < idx2.len() && 0 <= b < idx2.len() && a != b implies #[trigger] idx2[a].0
        != #[trigger] idx2[b].0 by {
        assert(idx2[a].0 == idx[a].0);
        assert(idx2[b].0 == idx[b].0);
    }
    if q == idx[i].0 {
        lemma_occupants_entry(idx2, i);
    } else if exists|j: int| 0 <= j < idx.len() && idx[j].0 == q {
        let j = choose|j: int| 0 <= j < idx.len() && idx[j].0 == q;
        lemma_occupants_entry(idx, j);
        lemma_occupants_entry(idx2, j);
    } else {
        assert forall|j: int| 0 <= j < idx2.len() implies idx2[j].0 != q by {
            assert(idx2[j].0 == idx[j].0);
        }
    }
}

proof fn lemma_occupants_remove(idx: Seq<(Place, Seq<Entity>)>, i: int, q: Place)
    requires
        unique_places(idx),
        0 <= i < idx.len(),
    ensures
        unique_places(idx.remove(i)),
        occupants_in(idx.remove(i), q) == if q == idx[i].0 {
            Seq::<Entity>::empty()
        } else {
            occupants_in(idx, q)
        },
{
    let idx2 = idx.remove(i);
    assert forall|a: int, b: int|
        0 <= a < idx2.len() && 0 <= b < idx2.len() && a != b implies #[trigger] idx2[a].0
        != #[trigger] idx2[b].0 by {
        let a0 = if a < i { a } else { a + 1 };
        let b0 = if b < i { b } else { b + 1 };
        assert(idx2[a] == idx[a0]);
        assert(idx2[b] == idx[b0]);
    }
    if q == idx[i].0 {
        assert forall|j: int| 0 <= j < idx2.len() implies idx2[j].0 != q by {
            let j0 = if j < i { j } else { j + 1 };
            assert(idx2[j] == idx[j0]);
        }
    } else if exists|j: int| 0 <= j < idx.len() && idx[j].0 == q {
        let j = choose|j: int| 0 <= j < idx.len() && idx[j].0 == q;
        lemma_occupants_entry(idx, j);
        let j2 = if j < i { j } else { j - 1 };
        assert(idx2[j2] == idx[j]);
        lemma_occupants_entry(idx2, j2);
    } else {
        assert forall|j: int| 0 <= j < idx2.len() implies idx2[j].0 != q by {
            let j0 = if j < i { j } else { j + 1 };
            assert(idx2[j] == idx[j0]);
        }
    }
}

proof fn lemma_occupants_push(idx: Seq<(Place, Seq<Entity>)>, p: Place, s: Seq<Entity>, q: Place)
    requires
        unique_places(idx),
        forall|j: int| 0 <= j < idx.len() ==> idx[j].0 != p,
    ensures
        unique_places(idx.push((p, s))),
        occupants_in(idx.push((p, s)), q) == if q == p {
            s
        } else {
            occupants_in(idx, q)
        },
{
    let idx2 = idx.push((p, s));
    assert forall|a: int, b: int|
        0 <= a < idx2.len() && 0 <= b < idx2.len() && a != b implies #[trigger] idx2[a].0
        != #[trigger] idx2[b].0 by {}
    if q == p {
        lemma_occupants_entry(idx2, idx.len() as int);
    } else if exists|j: int| 0 <= j < idx.len() && idx[j].0 == q {
        let j = choose|j: int| 0 <= j < idx.len() && idx[j].0 == q;
        lemma_occupants_entry(idx, j);
        lemma_occupants_entry(idx2, j);
    } else {
        assert forall|j: int| 0 <= j < idx2.len() implies idx2[j].0 != q by {}
    }
}

/// Removing one entity the way a swap does keeps the others, each once.
proof fn lemma_without(s: Seq<Entity>, e: Entity)
    requires
        s.no_duplicates(),
        s.contains(e),
    ensures
        without(s, e).no_duplicates(),
        without(s, e).len() == s.len() - 1,
        forall|y: Entity| #[trigger] without(s, e).contains(y) <==> (s.contains(y) && y != e),
{
    if s.len() > 1 {
        let k = s.index_of(e);
        let t = without(s, e);
        let last = s.len() - 1;
        assert(s[k] == e);
        assert forall|y: Entity| #[trigger] t.contains(y) <==> (s.contains(y) && y != e) by {
            if t.contains(y) {
                let a = choose|a: int| 0 <= a < t.len() && t[a] == y;
                if a == k {
                    assert(y == s[last]);
                    assert(last != k);
                } else {
                    assert(y == s[a]);
                }
            }
            if s.contains(y) && y != e {
                let a = choose|a: int| 0 <= a < s.len() && s[a] == y;
                assert(a != k);
                if a == last {
                    assert(t[k] == y);
                } else {
                    assert(t[a] == y);
                }
            }
        }
        assert forall|a: int, b: int| 0 <= a < t.len() && 0 <= b < t.len() && a != b implies t[a]
            != t[b] by {
            let a0 = if a == k { last } else { a };
            let b0 = if b == k { last } else { b };
            assert(t[a] == s[a0]);
            assert(t[b] == s[b0]);
        }
    } else {
        assert(s.len() == 1);
        assert forall|y: Entity| #[trigger] without(s, e).contains(y) <==> (s.contains(y) && y
            != e) by {
            if s.contains(y) {
                let a = choose|a: int| 0 <= a < s.len() && s[a] == y;
                assert(a == 0);
            }
        }
    }
}

/// The entities of the space inside `x`.
pub open spec fn contents_of(places: Map<Entity, Place>, x: Entity) -> Set<Entity> {
    places.dom().filter(|y: Entity| is_inside(places, y, x))
}

proof fn lemma_ancestor_one(places: Map<Entity, Place>, y: Entity)
    ensures
        ancestor(places, y, 1) == container_of(places, y),
{
    assert(ancestor(places, y, 0) == Some(y));
}

/// Going up `a` levels and then `b` more is going up `a + b` levels.
proof fn lemma_ancestor_compose(places: Map<Entity, Place>, y: Entity, a: nat, b: nat, z: Entity)
    requires
        ancestor(places, y, a) == Some(z),
    ensures
        ancestor(places, y, a + b) == ancestor(places, z, b),
    decreases b,
{
    if b > 0 {
        lemma_ancestor_compose(places, y, a, (b - 1) as nat, z);
        assert((a + b - 1) as nat == a + (b - 1) as nat);
    }
}

/// Taking entities out of the space only cuts chains of containers short.
proof fn lemma_ancestor_restrict(
    places: Map<Entity, Place>,
    gone: Set<Entity>,
    y: Entity,
    k: nat,
    z: Entity,
)
    requires
        ancestor(places.remove_keys(gone), y, k) == Some(z),
    ensures
        ancestor(places, y, k) == Some(z),
    decreases k,
{
    if k > 0 {
        let a = ancestor(places.remove_keys(gone), y, (k - 1) as nat).unwrap();
        lemma_ancestor_restrict(places, gone, y, (k - 1) as nat, a);
    }
}

/// A chain of containers that avoids the entities taken out stays the same.
proof fn lemma_ancestor_kept(places: Map<Entity, Place>, gone: Set<Entity>, y: Entity, k: nat)
    requires
        forall|i: nat|
            i < k ==> (#[trigger] ancestor(places, y, i) matches Some(a) && !gone.contains(a)),
    ensures
        ancestor(places.remove_keys(gone), y, k) == ancestor(places, y, k),
    decreases k,
{
    if k > 0 {
        lemma_ancestor_kept(places, gone, y, (k - 1) as nat);
        assert(ancestor(places, y, (k - 1) as nat) is Some);
    }
}

/// Every container on the way from `y` up to `c` is itself inside `c`.
proof fn lemma_on_the_way(places: Map<Entity, Place>, y: Entity, a: nat, c: Entity, i: nat)
    requires
        ancestor(places, y, a) == Some(c),
        i < a,
    ensures
        (ancestor(places, y, i) matches Some(w) && is_inside(places, w, c)),
{
    if ancestor(places, y, i) is None {
        lemma_ancestor_none_stays(places, y, i, a);
    }
    let w = ancestor(places, y, i).unwrap();
    lemma_ancestor_compose(places, y, i, (a - i) as nat, w);
    assert(i + (a - i) as nat == a);
}

/// What is directly inside `e`, when `e` is not inside itself, is not
/// inside itself either.
proof fn lemma_child_acyclic(places: Map<Entity, Place>, e: Entity, c: Entity)
    requires
        !is_inside(places, e, e),
        places.contains_key(c),
        places[c] == Place::In(e),
    ensures
        !is_inside(places, c, c),
        !is_inside(places, e, c),
        c != e,
{
    lemma_ancestor_one(places, c);
    if c == e {
        assert(ancestor(places, e, 1) == Some(e));
    }
    if is_inside(places, c, c) {
        let m = choose|m: nat| m >= 1 && #[trigger] ancestor(places, c, m) == Some(c);
        // c -> e -> ... -> c, so e -> ... -> c -> e.
        lemma_ancestor_compose(places, c, 1, (m - 1) as nat, e);
        assert(1 + (m - 1) as nat == m);
        lemma_ancestor_compose(places, e, (m - 1) as nat, 1, c);
        assert(ancestor(places, e, m) == Some(e));
    }
    if is_inside(places, e, c) {
        let m = choose|m: nat| m >= 1 && #[trigger] ancestor(places, e, m) == Some(c);
        lemma_ancestor_compose(places, e, m, 1, c);
        assert(ancestor(places, e, m + 1) == Some(e));
    }
}

/// Two different entities directly inside `e` have nothing inside in common,
/// and neither is inside the other.
proof fn lemma_children_disjoint(
    places: Map<Entity, Place>,
    e: Entity,
    c1: Entity,
    c2: Entity,
    y: Entity,
)
    requires
        !is_inside(places, e, e),
        places.contains_key(c1),
        places[c1] == Place::In(e),
        places.contains_key(c2),
        places[c2] == Place::In(e),
        c1 != c2,
        y == c1 || is_inside(places, y, c1),
    ensures
        !(y == c2 || is_inside(places, y, c2)),
{
    lemma_child_acyclic(places, e, c1);
    lemma_child_acyclic(places, e, c2);
    // Going up from y, both c1 and c2 would be passed, each followed by e.
    let a: nat = if y == c1 {
        0
    } else {
        choose|a: nat| a >= 1 && #[trigger] ancestor(places, y, a) == Some(c1)
    };
    assert(ancestor(places, y, a) == Some(c1));
    if y == c2 || is_inside(places, y, c2) {
        let b: nat = if y == c2 {
            0
        } else {
            choose|b: nat| b >= 1 && #[trigger] ancestor(places, y, b) == Some(c2)
        };
        assert(ancestor(places, y, b) == Some(c2));
        assert(a != b);
        lemma_ancestor_one(places, c1);
        lemma_ancestor_one(places, c2);
        if a < b {
            lemma_ancestor_compose(places, y, a, (b - a) as nat, c1);
            assert(a + (b - a) as nat == b);
            // c1 reaches c2 going up (b - a) levels, and c1 reaches e in one.
            if b - a == 1 {
                assert(c2 == e);
            } else {
                lemma_ancestor_compose(places, c1, 1, (b - a - 1) as nat, e);
                assert(1 + (b - a - 1) as nat == (b - a) as nat);
                assert(is_inside(places, e, c2));
            }
        } else {
            lemma_ancestor_compose(places, y, b, (a - b) as nat, c2);
            assert(b + (a - b) as nat == a);
            if a - b == 1 {
                assert(c1 == e);
            } else {
                lemma_ancestor_compose(places, c2, 1, (a - b - 1) as nat, e);
                assert(1 + (a - b - 1) as nat == (a - b) as nat);
                assert(is_inside(places, e, c1));
            }
        }
    }
}

/// An entity inside another is itself in the space.
proof fn lemma_inside_present(places: Map<Entity, Place>, y: Entity, x: Entity)
    requires
        is_inside(places, y, x),
    ensures
        places.contains_key(y),
{
    let m = choose|m: nat| m >= 1 && #[trigger] ancestor(places, y, m) == Some(x);
    lemma_ancestor_one(places, y);
    if !places.contains_key(y) {
        lemma_ancestor_none_stays(places, y, 1, m);
    }
}

/// What is inside a thing inside `x` is inside `x`.
proof fn lemma_inside_trans(places: Map<Entity, Place>, y: Entity, w: Entity, x: Entity)
    requires
        is_inside(places, y, w),
        is_inside(places, w, x),
    ensures
        is_inside(places, y, x),
{
    let a = choose|a: nat| a >= 1 && #[trigger] ancestor(places, y, a) == Some(w);
    let b = choose|b: nat| b >= 1 && #[trigger] ancestor(places, w, b) == Some(x);
    lemma_ancestor_compose(places, y, a, b, w);
    assert(ancestor(places, y, a + b) == Some(x));
}

/// `s` after the entities `ch[0..k]` left it one by one.
pub open spec fn strip(s: Seq<Entity>, ch: Seq<Entity>, k: nat) -> Seq<Entity>
    decreases k,
{
    if k == 0 {
        s
    } else {
        without(strip(s, ch, (k - 1) as nat), ch[k - 1])
    }
}

proof fn lemma_strip(ch: Seq<Entity>, k: nat)
    requires
        ch.no_duplicates(),
        k <= ch.len(),
    ensures
        strip(ch, ch, k).no_duplicates(),
        strip(ch, ch, k).len() == ch.len() - k,
        forall|y: Entity|
            #[trigger] strip(ch, ch, k).contains(y) <==> exists|j: int|
                k <= j < ch.len() && ch[j] == y,
    decreases k,
{
    if k > 0 {
        let k1 = (k - 1) as nat;
        lemma_strip(ch, k1);
        let t = strip(ch, ch, k1);
        assert(t.contains(ch[k1 as int]));
        lemma_without(t, ch[k1 as int]);
        assert forall|y: Entity| #[trigger] strip(ch, ch, k).contains(y) <==> exists|j: int|
            k <= j < ch.len() && ch[j] == y by {
            if strip(ch, ch, k).contains(y) {
                let j = choose|j: int| k1 <= j < ch.len() && ch[j] == y;
                assert(j != k1);
            }
            if exists|j: int| k <= j < ch.len() && ch[j] == y {
                let j = choose|j: int| k <= j < ch.len() && ch[j] == y;
                assert(ch[j] != ch[k1 as int]);
                assert(t.contains(y));
            }
        }
    }
}

/// The entities taken out with the first `k` of the entities `ch` that are
/// directly inside something: each of them and what is inside it.
pub open spec fn removed_children(places: Map<Entity, Place>, ch: Seq<Entity>, k: int) -> Set<
    Entity,
> {
    Set::new(|y: Entity| exists|j: int| 0 <= j < k && (y == ch[j] || is_inside(places, y, ch[j])))
}

/// One step of taking out what is inside `e`: the `k`th entity directly
/// inside it is still there, and what is inside it is as before.
proof fn lemma_remove_step(p0: Map<Entity, Place>, e: Entity, ch: Seq<Entity>, k: int)
    requires
        p0.dom().finite(),
        !is_inside(p0, e, e),
        ch.no_duplicates(),
        forall|j: int| 0 <= j < ch.len() ==> p0.contains_key(#[trigger] ch[j]) && p0[ch[j]] == Place::In(e),
        0 <= k < ch.len(),
    ensures
        ({
            let pk = p0.remove_keys(removed_children(p0, ch, k));
            let c = ch[k];
            &&& pk.contains_key(c) && pk[c] == Place::In(e)
            &&& !is_inside(pk, c, c)
            &&& contents_of(pk, c) == contents_of(p0, c)
            &&& !contents_of(p0, c).insert(c).contains(e)
            &&& removed_children(p0, ch, k + 1) == removed_children(p0, ch, k) + contents_of(
                p0,
                c,
            ).insert(c)
            &&& contents_of(p0, c).len() < contents_of(p0, e).len()
        }),
{
    let u = removed_children(p0, ch, k);
    let pk = p0.remove_keys(u);
    let c = ch[k];
    lemma_child_acyclic(p0, e, c);
    // Nothing taken out so far is c or inside it.
    assert forall|w: Entity| (w == c || is_inside(p0, w, c)) implies !u.contains(w) by {
        if u.contains(w) {
            let j = choose|j: int| 0 <= j < k && (w == ch[j] || is_inside(p0, w, ch[j]));
            lemma_children_disjoint(p0, e, ch[j], c, w);
        }
    }
    assert(!u.contains(c));
    if is_inside(pk, c, c) {
        let m = choose|m: nat| m >= 1 && #[trigger] ancestor(pk, c, m) == Some(c);
        lemma_ancestor_restrict(p0, u, c, m, c);
    }
    assert forall|y: Entity| #[trigger] contents_of(pk, c).contains(y) <==> contents_of(
        p0,
        c,
    ).contains(y) by {
        if contents_of(pk, c).contains(y) {
            let m = choose|m: nat| m >= 1 && #[trigger] ancestor(pk, y, m) == Some(c);
            lemma_ancestor_restrict(p0, u, y, m, c);
        }
        if contents_of(p0, c).contains(y) {
            let a = choose|a: nat| a >= 1 && #[trigger] ancestor(p0, y, a) == Some(c);
            assert forall|i: nat| i < a implies (#[trigger] ancestor(p0, y, i) matches Some(w)
                && !u.contains(w)) by {
                lemma_on_the_way(p0, y, a, c, i);
            }
            lemma_ancestor_kept(p0, u, y, a);
            lemma_on_the_way(p0, y, a, c, 0);
        }
    }
    assert(contents_of(pk, c) =~= contents_of(p0, c));
    assert(!contents_of(p0, c).contains(e));
    let rc = contents_of(p0, c).insert(c);
    assert forall|y: Entity| #[trigger] removed_children(p0, ch, k + 1).contains(y) <==> (u
        + rc).contains(y) by {
        if removed_children(p0, ch, k + 1).contains(y) {
            let j = choose|j: int| 0 <= j < k + 1 && (y == ch[j] || is_inside(p0, y, ch[j]));
            if j == k && is_inside(p0, y, c) {
                lemma_inside_present(p0, y, c);
            }
        }
        if rc.contains(y) && y != c {
            assert(0 <= k < k + 1 && is_inside(p0, y, ch[k]));
        }
    }
    assert(removed_children(p0, ch, k + 1) =~= u + rc);
    // What is inside c is inside e, and c is too, but not inside itself.
    lemma_ancestor_one(p0, c);
    assert(ancestor(p0, c, 1) == Some(e));
    assert(contents_of(p0, e).contains(c));
    assert(contents_of(p0, c).subset_of(contents_of(p0, e).remove(c))) by {
        assert forall|y: Entity| contents_of(p0, c).contains(y) implies contents_of(
            p0,
            e,
        ).remove(c).contains(y) by {
            assert(is_inside(p0, c, e));
            lemma_inside_trans(p0, y, c, e);
        }
    }
    vstd::set_lib::lemma_len_subset(contents_of(p0, c), contents_of(p0, e).remove(c));
}

/// Once each entity directly inside `e` is taken out with its contents,
/// exactly what was inside `e` is gone.
proof fn lemma_remove_all(p0: Map<Entity, Place>, e: Entity, ch: Seq<Entity>)
    requires
        !is_inside(p0, e, e),
        forall|j: int| 0 <= j < ch.len() ==> p0.contains_key(#[trigger] ch[j]) && p0[ch[j]] == Place::In(e),
        forall|y: Entity| #[trigger] p0.contains_key(y) && p0[y] == Place::In(e) ==> ch.contains(y),
    ensures
        removed_children(p0, ch, ch.len() as int) == contents_of(p0, e),
        !contents_of(p0, e).contains(e),
        p0.contains_key(e) ==> !(p0[e] matches Place::In(z) && contents_of(p0, e).insert(e).contains(z)),
{
    let u = removed_children(p0, ch, ch.len() as int);
    assert forall|y: Entity| #[trigger] u.contains(y) <==> contents_of(p0, e).contains(y) by {
        if u.contains(y) {
            let j = choose|j: int| 0 <= j < ch.len() && (y == ch[j] || is_inside(p0, y, ch[j]));
            lemma_ancestor_one(p0, ch[j]);
            assert(is_inside(p0, ch[j], e)) by {
                assert(ancestor(p0, ch[j], 1) == Some(e));
            }
            if y != ch[j] {
                lemma_inside_trans(p0, y, ch[j], e);
            }
            lemma_inside_present(p0, y, e);
        }
        if contents_of(p0, e).contains(y) {
            let m = choose|m: nat| m >= 1 && #[trigger] ancestor(p0, y, m) == Some(e);
            let m1 = (m - 1) as nat;
            lemma_on_the_way(p0, y, m, e, m1);
            let w = ancestor(p0, y, m1).unwrap();
            lemma_ancestor_compose(p0, y, m1, 1, w);
            assert(m1 + 1 == m);
            lemma_ancestor_one(p0, w);
            assert(container_of(p0, w) == Some(e));
            assert(p0.contains_key(w) && p0[w] == Place::In(e));
            assert(ch.contains(w));
            let j = choose|j: int| 0 <= j < ch.len() && ch[j] == w;
            if m1 == 0 {
                assert(y == ch[j]);
            } else {
                assert(ancestor(p0, y, m1) == Some(ch[j]));
                assert(is_inside(p0, y, ch[j]));
            }
        }
    }
    assert(u =~= contents_of(p0, e));
    if p0.contains_key(e) && p0[e] is In {
        let z = p0[e]->In_0;
        {
            lemma_ancestor_one(p0, e);
            if z == e {
                assert(ancestor(p0, e, 1) == Some(e));
            }
            if contents_of(p0, e).contains(z) {
                let m = choose|m: nat| m >= 1 && #[trigger] ancestor(p0, z, m) == Some(e);
                lemma_ancestor_compose(p0, e, 1, m, z);
                assert(ancestor(p0, e, 1 + m) == Some(e));
            }
        }
    }
}

/// The places of a flattened index read in order, a later entry for an
/// entity winning over an earlier one.
pub open spec fn places_of_elts(elts: Seq<Elt>) -> Map<Entity, Place>
    decreases elts.len(),
{
    if elts.len() == 0 {
        Map::empty()
    } else {
        places_of_elts(elts.drop_last()).insert(elts.last().0, elts.last().1)
    }
}

/// `v` lists every entity of `places` once, with its place, by increasing
/// entity.
pub open spec fn is_dump_of(v: Seq<Elt>, places: Map<Entity, Place>) -> bool {
    &&& forall|i: int|
        0 <= i < v.len() ==> places.contains_key(#[trigger] v[i].0) && places[v[i].0] == v[i].1
    &&& forall|i: int, j: int| 0 <= i < j < v.len() ==> #[trigger] v[i].0 < #[trigger] v[j].0
    &&& forall|e: Entity|
        #[trigger] places.contains_key(e) ==> exists|i: int| 0 <= i < v.len() && v[i].0 == e
}

proof fn lemma_places_of_elts(v: Seq<Elt>, places: Map<Entity, Place>)
    requires
        forall|i: int|
            0 <= i < v.len() ==> places.contains_key(#[trigger] v[i].0) && places[v[i].0] == v[i].1,
    ensures
        places_of_elts(v) == places.restrict(Set::new(|e: Entity| exists|i: int| 0 <= i < v.len() && v[i].0 == e)),
    decreases v.len(),
{
    let keys = Set::new(|e: Entity| exists|i: int| 0 <= i < v.len() && v[i].0 == e);
    if v.len() == 0 {
        assert(places.restrict(keys) =~= Map::empty());
    } else {
        let w = v.drop_last();
        lemma_places_of_elts(w, places);
        let wkeys = Set::new(|e: Entity| exists|i: int| 0 <= i < w.len() && w[i].0 == e);
        assert forall|e: Entity| keys.contains(e) <==> (wkeys.contains(e) || e == v.last().0) by {
            if keys.contains(e) {
                let i = choose|i: int| 0 <= i < v.len() && v[i].0 == e;
                if i < w.len() {
                    assert(w[i].0 == e);
                }
            }
            if wkeys.contains(e) {
                let i = choose|i: int| 0 <= i < w.len() && w[i].0 == e;
                assert(v[i].0 == e);
            }
            if e == v.last().0 {
                assert(v[v.len() - 1].0 == e);
            }
        }
        assert(places_of_elts(v) =~= places.restrict(keys));
    }
}

/// Flattening the index and building it back gives every entity its
/// place again.
pub proof fn law_dump_then_slurp(places: Map<Entity, Place>, v: Seq<Elt>)
    requires
        is_dump_of(v, places),
    ensures
        places_of_elts(v) == places,
{
    lemma_places_of_elts(v, places);
    let keys = Set::new(|e: Entity| exists|i: int| 0 <= i < v.len() && v[i].0 == e);
    assert(places.restrict(keys) =~= places);
}

/// `top` is where going up the containers from `y` stops.
pub open spec fn is_top(places: Map<Entity, Place>, y: Entity, top: Entity) -> bool {
    exists|k: nat| #[trigger] ancestor(places, y, k) == Some(top) && container_of(places, top) is None
}

/// The map position of `y`: its own when it is on the map, or that of the
/// outermost container holding it; none when that is not on the map.
pub open spec fn position_of(places: Map<Entity, Place>, y: Entity) -> Option<Point> {
    let top = choose|t: Entity| is_top(places, y, t);
    if places.contains_key(top) {
        match places[top] {
            Place::At(loc) => Some(loc),
            _ => None,
        }
    } else {
        None
    }
}

proof fn lemma_top_unique(places: Map<Entity, Place>, y: Entity, k1: nat, k2: nat, t1: Entity, t2: Entity)
    requires
        ancestor(places, y, k1) == Some(t1),
        container_of(places, t1) is None,
        ancestor(places, y, k2) == Some(t2),
        container_of(places, t2) is None,
    ensures
        t1 == t2,
{
    if k1 < k2 {
        lemma_ancestor_compose(places, y, k1, 1, t1);
        lemma_ancestor_one(places, t1);
        lemma_ancestor_none_stays(places, y, k1 + 1, k2);
    } else if k2 < k1 {
        lemma_ancestor_compose(places, y, k2, 1, t2);
        lemma_ancestor_one(places, t2);
        lemma_ancestor_none_stays(places, y, k2 + 1, k1);
    }
}

/// `steps` starts from an empty index and moves, step by step, each entity
/// of `elts` to its place.
pub open spec fn built_by_moves(steps: Seq<Spatial>, elts: Seq<Elt>) -> bool {
    &&& steps.len() >= 1
    &&& steps[0].places() == Map::<Entity, Place>::empty()
    &&& forall|p: Place| #[trigger] steps[0].occupants(p) == Seq::<Entity>::empty()
    &&& forall|k: int|
        0 <= k < steps.len() - 1 ==> #[trigger] moved_to(steps[k], steps[k + 1], elts[k].0, elts[k].1)
}

/// `after` is `before` with `e` moved to `place`: `e` leaves its old place,
/// the last entity there taking its position, and arrives last at `place`.
pub open spec fn moved_to(before: Spatial, after: Spatial, e: Entity, place: Place) -> bool {
    &&& after.places() == before.places().insert(e, place)
    &&& forall|q: Place|
        #[trigger] after.occupants(q) == if q == place {
            before.occupants_without(e, place).push(e)
        } else {
            before.occupants_without(e, q)
        }
}

impl Spatial {
    /// The place of each entity in the space.
    pub closed spec fn places(&self) -> Map<Entity, Place> {
        self.entity_to_place@
    }

    spec fn index(&self) -> Seq<(Place, Seq<Entity>)> {
        self.place_to_entities@.map_values(|pe: (Place, Vec<Entity>)| (pe.0, pe.1@))
    }

    /// The entities at the place `p`, in the order they arrived there,
    /// except that one leaving is replaced by the last.
    pub closed spec fn occupants(&self, p: Place) -> Seq<Entity> {
        occupants_in(self.index(), p)
    }

    /// The place of `e`, if it is in the space.
    pub open spec fn get_place(&self, e: Entity) -> Option<Place> {
        if self.places().contains_key(e) {
            Some(self.places()[e])
        } else {
            None
        }
    }

    /// The occupants of `q` once `e` has left its place.
    pub open spec fn occupants_without(&self, e: Entity, q: Place) -> Seq<Entity> {
        if self.places().contains_key(e) && q == self.places()[e] {
            without(self.occupants(q), e)
        } else {
            self.occupants(q)
        }
    }

    /// The occupants of `q` once `e` and everything inside it are taken out.
    pub open spec fn occupants_after_removal(&self, e: Entity, q: Place) -> Seq<Entity> {
        if q matches Place::In(z) && contents_of(self.places(), e).insert(e).contains(z) {
            Seq::empty()
        } else {
            self.occupants_without(e, q)
        }
    }

    /// The two directions of the index agree: an entity is among the
    /// occupants of exactly its own place, once.
    pub closed spec fn wf(&self) -> bool {
        let idx = self.index();
        &&& unique_places(idx)
        &&& forall|i: int|
            0 <= i < idx.len() ==> (#[trigger] idx[i]).1.len() > 0 && idx[i].1.no_duplicates()
        &&& forall|i: int, k: int|
            0 <= i < idx.len() && 0 <= k < idx[i].1.len() ==> self.places().contains_key(
                #[trigger] idx[i].1[k],
            ) && self.places()[idx[i].1[k]] == idx[i].0
        &&& forall|e: Entity|
            #[trigger] self.places().contains_key(e) ==> self.occupants(
                self.places()[e],
            ).contains(e)
    }

    proof fn lemma_occupants_at(&self, i: int)
        requires
            self.wf(),
            0 <= i < self.index().len(),
        ensures
            self.occupants(self.index()[i].0) == self.index()[i].1,
    {
        let idx = self.index();
        let p = idx[i].0;
        let j = choose|j: int| 0 <= j < idx.len() && idx[j].0 == p;
        assert(j == i);
    }

    /// Every occupant of a place is in the space, at that place.
    proof fn lemma_occupants_slot(&self, p: Place, j: int)
        requires
            self.wf(),
            0 <= j < self.occupants(p).len(),
        ensures
            self.places().contains_key(self.occupants(p)[j]),
            self.places()[self.occupants(p)[j]] == p,
    {
        let idx = self.index();
        let i = choose|i: int| 0 <= i < idx.len() && idx[i].0 == p;
        assert(idx[i].1.len() > 0);
    }

    proof fn lemma_occupants_no_duplicates(&self, p: Place)
        requires
            self.wf(),
        ensures
            self.occupants(p).no_duplicates(),
    {
        let idx = self.index();
        if exists|i: int| 0 <= i < idx.len() && idx[i].0 == p {
            let i = choose|i: int| 0 <= i < idx.len() && idx[i].0 == p;
            assert(idx[i].1.no_duplicates());
        }
    }

    proof fn lemma_occupants_absent(&self, p: Place)
        requires
            forall|i: int| 0 <= i < self.index().len() ==> self.index()[i].0 != p,
        ensures
            self.occupants(p) == Seq::<Entity>::empty(),
    {
    }

    /// In a well-formed space an entity is among the occupants of a place
    /// exactly when that place is its own, and no occupant is listed twice.
    pub proof fn lemma_wf_occupants(&self, p: Place, e: Entity)
        requires
            self.wf(),
        ensures
            self.occupants(p).contains(e) <==> (self.places().contains_key(e) && self.places()[e]
                == p),
            self.occupants(p).no_duplicates(),
    {
        if self.occupants(p).contains(e) {
            let j = choose|j: int| 0 <= j < self.occupants(p).len() && self.occupants(p)[j] == e;
            self.lemma_occupants_slot(p, j);
        }
        self.lemma_occupants_no_duplicates(p);
    }

    pub fn new() -> (s: Spatial)
        ensures
            s.wf(),
            s.places() == Map::<Entity, Place>::empty(),
            forall|p: Place| #[trigger] s.occupants(p) == Seq::<Entity>::empty(),
    {
        let s = Spatial { place_to_entities: Vec::new(), entity_to_place: BTreeMap::new() };
        proof {
            assert(s.index() =~= Seq::<(Place, Seq<Entity>)>::empty());
        }
        s
    }

    /// The position of the place `p` in the index.
    fn find_slot(&self, p: Place) -> (r: Option<usize>)
        ensures
            match r {
                Some(i) => i < self.index().len() && self.index()[i as int].0 == p,
                None => forall|i: int| 0 <= i < self.index().len() ==> self.index()[i].0 != p,
            },
    {
        let mut i: usize = 0;
        while i < self.place_to_entities.len()
            invariant
                i <= self.place_to_entities@.len(),
                forall|j: int| 0 <= j < i ==> self.index()[j].0 != p,
            decreases self.place_to_entities@.len() - i,
        {
            if self.place_to_entities[i].0 == p {
                return Some(i);
            }
            i = i + 1;
        }
        None
    }

    /// Return the place of an entity if the entity is present in the space.
    pub fn get(&self, e: Entity) -> (r: Option<Place>)
        ensures
            r == self.get_place(e),
    {
        match self.entity_to_place.get(&e) {
            Some(p) => Some(*p),
            None => None,
        }
    }

    fn entities(&self, p: Place) -> (v: Vec<Entity>)
        requires
            self.wf(),
        ensures
            v@ == self.occupants(p),
    {
        match self.find_slot(p) {
            None => {
                proof {
                    self.lemma_occupants_absent(p);
                }
                Vec::new()
            },
            Some(i) => {
                proof {
                    self.lemma_occupants_at(i as int);
                }
                self.place_to_entities[i].1.clone()
            },
        }
    }

    /// List entities at a location.
    pub fn entities_at(&self, loc: Point) -> (v: Vec<Entity>)
        requires
            self.wf(),
        ensures
            v@ == self.occupants(Place::At(loc)),
    {
        self.entities(Place::At(loc))
    }

    /// List entities in a container.
    pub fn entities_in(&self, parent: Entity) -> (v: Vec<Entity>)
        requires
            self.wf(),
        ensures
            v@ == self.occupants(Place::In(parent)),
    {
        self.entities(Place::In(parent))
    }

    /// Every entity with its place, by increasing entity.
    pub fn iter(&self) -> (v: Vec<(Entity, Place)>)
        ensures
            v@.len() == self.places().dom().len(),
            forall|i: int|
                0 <= i < v@.len() ==> self.places().contains_key(#[trigger] v@[i].0)
                    && self.places()[v@[i].0] == v@[i].1,
            forall|i: int, j: int| 0 <= i < j < v@.len() ==> #[trigger] v@[i].0 < #[trigger] v@[j].0,
            forall|e: Entity|
                #[trigger] self.places().contains_key(e) ==> exists|i: int|
                    0 <= i < v@.len() && v@[i].0 == e,
    {
        let mut v: Vec<(Entity, Place)> = Vec::new();
        let ghost m = self.entity_to_place@;
        for kv in it: self.entity_to_place.iter()
            invariant
                m == self.entity_to_place@,
                v@.len() == it.index(),
                forall|i: int|
                    0 <= i < it.index() ==> #[trigger] v@[i] == (*it.seq()[i].0, *it.seq()[i].1),
                forall|i: int|
                    0 <= i < it.seq().len() ==> #[trigger] m.contains_key(*it.seq()[i].0)
                        && m[*it.seq()[i].0] == *it.seq()[i].1,
                increasing_seq(it.seq().map_values(|kv: (&Entity, &Place)| *kv.0)),
                forall|e: Entity|
                    #[trigger] m.contains_key(e) ==> (exists|i: int|
                        0 <= i < v@.len() && v@[i].0 == e) || (exists|i: int|
                        it.index() <= i < it.seq().len() && *it.seq()[i].0 == e),
                forall|i: int, j: int|
                    0 <= i < j < v@.len() ==> #[trigger] v@[i].0 < #[trigger] v@[j].0,
        {
            let (k, p) = kv;
            let ghost idx = v@.len() as int;
            proof {
                assert(kv == it.seq()[idx]);
                let keys = it.seq().map_values(|kv: (&Entity, &Place)| *kv.0);
                assert forall|j: int| 0 <= j < idx implies v@[j].0 < *k by {
                    assert(keys[j] == v@[j].0);
                    assert(keys[idx] == *k);
                    lemma_increasing_keys(keys, j, idx);
                }
            }
            let ghost old_v = v@;
            v.push((*k, *p));
            proof {
                assert forall|e: Entity| #[trigger] m.contains_key(e) implies (exists|i: int|
                    0 <= i < v@.len() && v@[i].0 == e) || (exists|i: int|
                    idx + 1 <= i < it.seq().len() && *it.seq()[i].0 == e) by {
                    if exists|i: int| 0 <= i < idx && old_v[i].0 == e {
                        let i = choose|i: int| 0 <= i < idx && old_v[i].0 == e;
                        assert(v@[i].0 == e);
                    } else if *k == e {
                        assert(v@[idx].0 == e);
                    } else {
                        assert(exists|i: int| idx <= i < it.seq().len() && *it.seq()[i].0 == e);
                        let i = choose|i: int| idx <= i < it.seq().len() && *it.seq()[i].0 == e;
                        assert(i != idx);
                    }
                }
            }
        }
        proof {
            assert forall|e: Entity| #[trigger] m.contains_key(e) implies exists|i: int|
                0 <= i < v@.len() && v@[i].0 == e by {}
        }
        v
    }

    /// The index entry of `e`'s place holds `e`.
    proof fn lemma_slot_of(&self, e: Entity, i: int)
        requires
            self.wf(),
            self.places().contains_key(e),
            0 <= i < self.index().len(),
            self.index()[i].0 == self.places()[e],
        ensures
            self.index()[i].1.contains(e),
    {
        self.lemma_occupants_at(i);
    }

    /// Takes `entity` out of the index, but not what it contains.
    fn single_remove(&mut self, entity: Entity)
        requires
            old(self).wf(),
        ensures
            final(self).wf(),
            final(self).places() == old(self).places().remove(entity),
            forall|q: Place| #[trigger] final(self).occupants(q) == old(self).occupants_without(entity, q),
    {
        let place = match self.entity_to_place.get(&entity) {
            Some(p) => *p,
            None => {
                proof {
                    assert(old(self).places().remove(entity) =~= old(self).places());
                }
                return;
            },
        };
        let ghost idx0 = self.index();
        let ghost places0 = self.places();
        let ghost s0 = *self;
        self.entity_to_place.remove(&entity);
        let i = match self.find_slot(place) {
            Some(i) => i,
            None => {
                proof {
                    assert(s0.occupants(place).contains(entity));
                    s0.lemma_occupants_absent(place);
                }
                return;
            },
        };
        proof {
            s0.lemma_slot_of(entity, i as int);
            lemma_occupants_entry(idx0, i as int);
            lemma_without(idx0[i as int].1, entity);
        }
        let len = self.place_to_entities[i].1.len();
        if len > 1 {
            let mut slot: (Place, Vec<Entity>) = (place, Vec::new());
            self.place_to_entities.set_and_swap(i, &mut slot);
            let mut k: usize = 0;
            while k < slot.1.len() && slot.1[k] != entity
                invariant
                    slot.1@ == idx0[i as int].1,
                    k <= slot.1@.len(),
                    forall|j: int| 0 <= j < k ==> slot.1@[j] != entity,
                decreases slot.1@.len() - k,
            {
                k = k + 1;
            }
            proof {
                if k == slot.1@.len() {
                    let j = choose|j: int| 0 <= j < slot.1@.len() && slot.1@[j] == entity;
                    assert(false);
                }
                assert(slot.1@.index_of(entity) == k) by {
                    let j = slot.1@.index_of(entity);
                    assert(slot.1@[j] == entity);
                    assert(idx0[i as int].1.no_duplicates());
                }
            }
            slot.1.swap_remove(k);
            self.place_to_entities.set_and_swap(i, &mut slot);
            proof {
                let s1 = without(idx0[i as int].1, entity);
                assert(self.index() =~= idx0.update(i as int, (place, s1)));
                assert forall|q: Place| #[trigger] self.occupants(q) == s0.occupants_without(entity, q) by {
                    lemma_occupants_update(idx0, i as int, s1, q);
                }
            }
        } else {
            self.place_to_entities.remove(i);
            proof {
                assert(self.index() =~= idx0.remove(i as int));
                assert forall|q: Place| #[trigger] self.occupants(q) == s0.occupants_without(entity, q) by {
                    lemma_occupants_remove(idx0, i as int, q);
                }
            }
        }
        proof {
            let idx = self.index();
            assert(unique_places(idx)) by {
                if len > 1 {
                    lemma_occupants_update(idx0, i as int, without(idx0[i as int].1, entity), place);
                } else {
                    lemma_occupants_remove(idx0, i as int, place);
                }
            }
            assert forall|a: int| 0 <= a < idx.len() implies (#[trigger] idx[a]).1.len() > 0
                && idx[a].1.no_duplicates() by {
                if len > 1 {
                    if a != i {
                        assert(idx[a] == idx0[a]);
                    }
                } else {
                    let a0 = if a < i { a } else { a + 1 };
                    assert(idx[a] == idx0[a0]);
                }
            }
            assert forall|a: int, k: int| 0 <= a < idx.len() && 0 <= k < idx[a].1.len() implies
                self.places().contains_key(#[trigger] idx[a].1[k]) && self.places()[idx[a].1[k]]
                == idx[a].0 by {
                if len > 1 {
                    if a != i {
                        assert(idx[a] == idx0[a]);
                        assert(idx0[a].1[k] != entity) by {
                            if idx0[a].1[k] == entity {
                                assert(places0[entity] == idx0[a].0);
                            }
                        }
                    } else {
                        assert(idx[a].1.contains(idx[a].1[k]));
                        let y = idx[a].1[k];
                        assert(idx0[i as int].1.contains(y) && y != entity);
                        let k0 = choose|k0: int| 0 <= k0 < idx0[i as int].1.len() && idx0[i as int].1[k0] == y;
                        assert(places0[idx0[i as int].1[k0]] == idx0[i as int].0);
                    }
                } else {
                    let a0 = if a < i { a } else { a + 1 };
                    assert(idx[a] == idx0[a0]);
                    assert(idx0[a0].1[k] != entity) by {
                        if idx0[a0].1[k] == entity {
                            assert(places0[entity] == idx0[a0].0);
                            assert(a0 != i);
                        }
                    }
                }
            }
            assert forall|y: Entity| #[trigger] self.places().contains_key(y) implies self.occupants(
                self.places()[y],
            ).contains(y) by {
                assert(places0.contains_key(y) && y != entity);
                assert(s0.occupants(places0[y]).contains(y));
                if places0[y] == place {
                    assert(without(s0.occupants(place), entity).contains(y));
                }
            }
        }
    }

    /// Puts `entity` at `place`, taking it from where it was.
    pub fn insert(&mut self, entity: Entity, place: Place)
        requires
            old(self).wf(),
        ensures
            final(self).wf(),
            moved_to(*old(self), *final(self), entity, place),
    {
        let ghost s0 = *self;
        self.single_remove(entity);
        let ghost s1 = *self;
        let ghost idx1 = self.index();
        self.entity_to_place.insert(entity, place);
        proof {
            assert(self.places() =~= s0.places().insert(entity, place));
            assert(!s1.places().contains_key(entity));
            assert forall|a: int, k: int| 0 <= a < idx1.len() && 0 <= k < idx1[a].1.len() implies
                #[trigger] idx1[a].1[k] != entity by {
                assert(s1.places().contains_key(idx1[a].1[k]));
            }
        }
        match self.find_slot(place) {
            Some(i) => {
                let mut slot: (Place, Vec<Entity>) = (place, Vec::new());
                self.place_to_entities.set_and_swap(i, &mut slot);
                slot.1.push(entity);
                self.place_to_entities.set_and_swap(i, &mut slot);
                proof {
                    let ns = idx1[i as int].1.push(entity);
                    assert(self.index() =~= idx1.update(i as int, (place, ns)));
                    lemma_occupants_entry(idx1, i as int);
                    assert forall|q: Place| #[trigger] self.occupants(q) == (if q == place {
                        s0.occupants_without(entity, place).push(entity)
                    } else {
                        s0.occupants_without(entity, q)
                    }) by {
                        assert(s1.occupants(q) == occupants_in(idx1, q));
                        lemma_occupants_update(idx1, i as int, ns, q);
                    }
                    lemma_occupants_update(idx1, i as int, ns, place);
                    let idx = self.index();
                    assert forall|a: int| 0 <= a < idx.len() implies (#[trigger] idx[a]).1.len() > 0
                        && idx[a].1.no_duplicates() by {
                        if a != i {
                            assert(idx[a] == idx1[a]);
                        } else {
                            assert forall|x: int, y: int| 0 <= x < y < ns.len() implies ns[x]
                                != ns[y] by {
                                if y == ns.len() - 1 {
                                    assert(idx1[a].1[x] != entity);
                                }
                            }
                        }
                    }
                    assert forall|a: int, k: int| 0 <= a < idx.len() && 0 <= k < idx[a].1.len()
                        implies self.places().contains_key(#[trigger] idx[a].1[k])
                        && self.places()[idx[a].1[k]] == idx[a].0 by {
                        if a != i {
                            assert(idx[a] == idx1[a]);
                        } else if k < idx1[a].1.len() {
                            assert(idx[a].1[k] == idx1[a].1[k]);
                        }
                    }
                    assert forall|y: Entity| #[trigger] self.places().contains_key(y) implies self.occupants(
                        self.places()[y],
                    ).contains(y) by {
                        if y == entity {
                            assert(ns[ns.len() - 1] == entity);
                        } else {
                            assert(s1.occupants(s1.places()[y]).contains(y));
                            if s1.places()[y] == place {
                                let k = choose|k: int| 0 <= k < idx1[i as int].1.len() && idx1[i as int].1[k] == y;
                                assert(ns[k] == y);
                            }
                        }
                    }
                }
            },
            None => {
                let mut v: Vec<Entity> = Vec::new();
                v.push(entity);
                self.place_to_entities.push((place, v));
                proof {
                    let ns = seq![entity];
                    assert(v@ =~= ns);
                    assert(self.index() =~= idx1.push((place, ns)));
                    s1.lemma_occupants_absent(place);
                    assert(Seq::<Entity>::empty().push(entity) =~= ns);
                    assert forall|q: Place| #[trigger] self.occupants(q) == (if q == place {
                        s0.occupants_without(entity, place).push(entity)
                    } else {
                        s0.occupants_without(entity, q)
                    }) by {
                        assert(s1.occupants(q) == occupants_in(idx1, q));
                        lemma_occupants_push(idx1, place, ns, q);
                    }
                    lemma_occupants_push(idx1, place, ns, place);
                    let idx = self.index();
                    assert forall|a: int| 0 <= a < idx.len() implies (#[trigger] idx[a]).1.len() > 0
                        && idx[a].1.no_duplicates() by {
                        if a < idx1.len() {
                            assert(idx[a] == idx1[a]);
                        }
                    }
                    assert forall|a: int, k: int| 0 <= a < idx.len() && 0 <= k < idx[a].1.len()
                        implies self.places().contains_key(#[trigger] idx[a].1[k])
                        && self.places()[idx[a].1[k]] == idx[a].0 by {
                        if a < idx1.len() {
                            assert(idx[a] == idx1[a]);
                        }
                    }
                    assert forall|y: Entity| #[trigger] self.places().contains_key(y) implies self.occupants(
                        self.places()[y],
                    ).contains(y) by {
                        if y == entity {
                            assert(ns[0] == entity);
                        } else {
                            assert(s1.occupants(s1.places()[y]).contains(y));
                        }
                    }
                }
            },
        }
    }

    /// Insert an entity into space.
    pub fn insert_at(&mut self, entity: Entity, loc: Point)
        requires
            old(self).wf(),
        ensures
            final(self).wf(),
            moved_to(*old(self), *final(self), entity, Place::At(loc)),
    {
        self.insert(entity, Place::At(loc));
    }

    /// Takes an entity on the map off to the unloaded part, at the same
    /// point; any other entity stays as it is.
    pub fn freeze(&mut self, e: Entity)
        requires
            old(self).wf(),
        ensures
            final(self).wf(),
            match old(self).get_place(e) {
                Some(Place::At(pos)) => moved_to(*old(self), *final(self), e, Place::Unloaded(pos)),
                _ => *final(self) == *old(self),
            },
    {
        if !self.entity_to_place.contains_key(&e) {
            return;
        }
        if let Some(Place::At(pos)) = self.get(e) {
            self.insert(e, Place::Unloaded(pos));
        }
    }

    /// Brings an entity on the unloaded part back onto the map, at the same
    /// point; any other entity stays as it is.
    pub fn unfreeze(&mut self, e: Entity)
        requires
            old(self).wf(),
        ensures
            final(self).wf(),
            match old(self).get_place(e) {
                Some(Place::Unloaded(pos)) => moved_to(*old(self), *final(self), e, Place::At(pos)),
                _ => *final(self) == *old(self),
            },
    {
        if !self.entity_to_place.contains_key(&e) {
            return;
        }
        if let Some(Place::Unloaded(pos)) = self.get(e) {
            self.insert(e, Place::At(pos));
        }
    }

    /// Remove an entity from the space. Entities contained in the entity will
    /// also be removed from the space.
    pub fn remove(&mut self, e: Entity)
        requires
            old(self).wf(),
            !is_inside(old(self).places(), e, e),
        ensures
            final(self).wf(),
            final(self).places() == old(self).places().remove_keys(
                contents_of(old(self).places(), e).insert(e),
            ),
            forall|q: Place| #[trigger] final(self).occupants(q) == old(self).occupants_after_removal(e, q),
        decreases contents_of(old(self).places(), e).len(),
    {
        let ghost s0 = *self;
        let ghost p0 = self.places();
        let contents = self.entities_in(e);
        let ghost ch = contents@;
        proof {
            assert forall|j: int| 0 <= j < ch.len() implies p0.contains_key(#[trigger] ch[j])
                && p0[ch[j]] == Place::In(e) by {
                s0.lemma_occupants_slot(Place::In(e), j);
            }
            s0.lemma_occupants_no_duplicates(Place::In(e));
            assert(p0.remove_keys(removed_children(p0, ch, 0)) =~= p0);
            assert(strip(ch, ch, 0) == ch);
        }
        let mut k: usize = 0;
        while k < contents.len()
            invariant
                k <= contents@.len(),
                ch == contents@,
                p0 == old(self).places(),
                p0 == s0.places(),
                s0.wf(),
                p0.dom().finite(),
                !is_inside(p0, e, e),
                ch.no_duplicates(),
                ch == s0.occupants(Place::In(e)),
                forall|j: int| 0 <= j < ch.len() ==> p0.contains_key(#[trigger] ch[j]) && p0[ch[j]] == Place::In(e),
                self.wf(),
                self.places() == p0.remove_keys(removed_children(p0, ch, k as int)),
                forall|q: Place| #[trigger] self.occupants(q) == (if q == Place::In(e) {
                    strip(ch, ch, k as nat)
                } else if q matches Place::In(z) && removed_children(p0, ch, k as int).contains(z) {
                    Seq::empty()
                } else {
                    s0.occupants(q)
                }),
            decreases contents@.len() - k,
        {
            let c = contents[k];
            let ghost sk = *self;
            proof {
                lemma_remove_step(p0, e, ch, k as int);
            }
            self.remove(c);
            proof {
                let pk = sk.places();
                let rc = contents_of(p0, c).insert(c);
                assert(self.places() =~= p0.remove_keys(removed_children(p0, ch, k + 1)));
                assert forall|q: Place| #[trigger] self.occupants(q) == (if q == Place::In(e) {
                    strip(ch, ch, (k + 1) as nat)
                } else if q matches Place::In(z) && removed_children(p0, ch, k + 1).contains(z) {
                    Seq::<Entity>::empty()
                } else {
                    s0.occupants(q)
                }) by {
                    assert(sk.occupants(q) == sk.occupants(q));
                    assert(contents_of(pk, c).insert(c) == rc);
                }
            }
            k = k + 1;
        }
        proof {
            assert forall|y: Entity| #[trigger] p0.contains_key(y) && p0[y] == Place::In(e) implies ch.contains(y) by {
                assert(s0.occupants(p0[y]).contains(y));
            }
            lemma_remove_all(p0, e, ch);
            lemma_strip(ch, ch.len());
        }
        let ghost sn = *self;
        self.single_remove(e);
        proof {
            let all = contents_of(p0, e).insert(e);
            assert(self.places() =~= p0.remove_keys(all));
            assert forall|q: Place| #[trigger] self.occupants(q) == s0.occupants_after_removal(e, q) by {
                assert(sn.occupants(q) == sn.occupants(q));
                assert(sn.places().contains_key(e) == p0.contains_key(e));
                if p0.contains_key(e) {
                    assert(sn.places()[e] == p0[e]);
                }
                if q == Place::In(e) {
                    assert(strip(ch, ch, ch.len()) =~= Seq::<Entity>::empty());
                }
            }
        }
    }

    /// Return whether the parent entity or an entity contained in the parent
    /// entity contains entity e.
    pub fn contains(&self, parent: Entity, e: Entity) -> (b: bool)
        requires
            chain_ends(self.places(), e) || is_inside(self.places(), e, parent),
        ensures
            b == is_inside(self.places(), e, parent),
    {
        let ghost places = self.places();
        let ghost stop: nat = choose|k: nat|
            #![trigger ancestor(places, e, k)]
            ancestor(places, e, k) is None || (k >= 1 && ancestor(places, e, k) == Some(parent));
        let mut cur = e;
        let ghost mut steps: nat = 0;
        loop
            invariant
                places == self.places(),
                ancestor(places, e, stop) is None || (stop >= 1 && ancestor(places, e, stop) == Some(
                    parent,
                )),
                ancestor(places, e, steps) == Some(cur),
                forall|j: nat| 1 <= j <= steps ==> #[trigger] ancestor(places, e, j) != Some(parent),
                steps < stop,
            decreases stop - steps,
        {
            proof {
                lemma_ancestor_compose(places, e, steps, 1, cur);
                lemma_ancestor_one(places, cur);
            }
            match self.entity_to_place.get(&cur) {
                Some(Place::In(p)) => {
                    if *p == parent {
                        return true;
                    }
                    cur = *p;
                    proof {
                        steps = steps + 1;
                    }
                },
                _ => {
                    proof {
                        assert forall|j: nat| j >= 1 && #[trigger] ancestor(places, e, j) == Some(parent)
                            implies false by {
                            if j > steps {
                                lemma_ancestor_none_stays(places, e, steps + 1, j);
                            }
                        }
                    }
                    return false;
                },
            }
        }
    }

    /// Insert an entity into container.
    pub fn insert_in(&mut self, e: Entity, parent: Entity)
        requires
            old(self).wf(),
            chain_ends(old(self).places(), parent),
            !is_inside(old(self).places(), parent, e),
        ensures
            final(self).wf(),
            moved_to(*old(self), *final(self), e, Place::In(parent)),
    {
        let inside = self.contains(e, parent);
        if inside {
            proof {
                assert(false);
            }
            return;
        }
        self.insert(e, Place::In(parent));
    }

    /// Every entity with its place, flattened, by increasing entity.
    pub fn dump(&self) -> (v: Vec<Elt>)
        ensures
            v@.len() == self.places().dom().len(),
            is_dump_of(v@, self.places()),
    {
        let all = self.iter();
        let mut v: Vec<Elt> = Vec::new();
        let mut i: usize = 0;
        while i < all.len()
            invariant
                i <= all@.len(),
                v@.len() == i,
                forall|j: int| 0 <= j < i ==> #[trigger] v@[j] == Elt(all@[j].0, all@[j].1),
            decreases all@.len() - i,
        {
            let (e, p) = all[i];
            v.push(Elt(e, p));
            i = i + 1;
        }
        proof {
            assert forall|e: Entity| #[trigger] self.places().contains_key(e) implies exists|i: int|
                0 <= i < v@.len() && v@[i].0 == e by {
                let i = choose|i: int| 0 <= i < all@.len() && all@[i].0 == e;
                assert(v@[i].0 == e);
            }
            assert forall|a: int, b: int| 0 <= a < b < v@.len() implies #[trigger] v@[a].0
                < #[trigger] v@[b].0 by {
                assert(all@[a].0 < all@[b].0);
            }
        }
        v
    }

    /// The entities in a container, flattened.
    pub fn dump_containing(&self, parent: Entity) -> (v: Vec<Elt>)
        requires
            self.wf(),
        ensures
            v@ == self.occupants(Place::In(parent)).map_values(|y: Entity| Elt(y, Place::In(parent))),
    {
        let children = self.entities_in(parent);
        let mut v: Vec<Elt> = Vec::new();
        let mut i: usize = 0;
        while i < children.len()
            invariant
                i <= children@.len(),
                v@ == children@.take(i as int).map_values(|y: Entity| Elt(y, Place::In(parent))),
            decreases children@.len() - i,
        {
            v.push(Elt(children[i], Place::In(parent)));
            proof {
                assert(children@.take(i + 1) =~= children@.take(i as int).push(children@[i as int]));
            }
            i = i + 1;
        }
        proof {
            assert(children@.take(children@.len() as int) =~= children@);
        }
        v
    }

    /// Builds the index from a flattened one, putting each entity in turn at
    /// its place.
    pub fn slurp(dump: Vec<Elt>) -> (s: Spatial)
        ensures
            s.wf(),
            s.places() == places_of_elts(dump@),
            exists|steps: Seq<Spatial>|
                #[trigger] steps.len() == dump@.len() + 1 && built_by_moves(steps, dump@) && steps.last()
                    == s,
    {
        let mut ret = Spatial::new();
        let ghost mut steps: Seq<Spatial> = seq![ret];
        let mut i: usize = 0;
        while i < dump.len()
            invariant
                i <= dump@.len(),
                ret.wf(),
                ret.places() == places_of_elts(dump@.take(i as int)),
                steps.len() == i + 1,
                built_by_moves(steps, dump@),
                steps.last() == ret,
            decreases dump@.len() - i,
        {
            let Elt(e, loc) = dump[i];
            let ghost before = ret;
            ret.insert(e, loc);
            proof {
                assert(dump@.take(i + 1).drop_last() =~= dump@.take(i as int));
                let old_steps = steps;
                steps = steps.push(ret);
                assert forall|k: int| 0 <= k < steps.len() - 1 implies #[trigger] moved_to(
                    steps[k],
                    steps[k + 1],
                    dump@[k].0,
                    dump@[k].1,
                ) by {
                    if k < old_steps.len() - 1 {
                        assert(steps[k] == old_steps[k] && steps[k + 1] == old_steps[k + 1]);
                    } else {
                        assert(steps[k] == before);
                    }
                }
            }
            i = i + 1;
        }
        proof {
            assert(dump@.take(dump@.len() as int) =~= dump@);
        }
        ret
    }

    /// Where an entity is on the map: its own place, or that of what
    /// contains it, going up the containers.
    pub fn position(&self, e: Entity) -> (p: Option<Point>)
        requires
            chain_ends(self.places(), e),
        ensures
            p == position_of(self.places(), e),
    {
        let ghost places = self.places();
        let ghost stop: nat = choose|k: nat| #[trigger] ancestor(places, e, k) is None;
        let mut cur = e;
        let ghost mut steps: nat = 0;
        loop
            invariant
                places == self.places(),
                ancestor(places, e, stop) is None,
                ancestor(places, e, steps) == Some(cur),
                steps < stop,
            decreases stop - steps,
        {
            proof {
                lemma_ancestor_compose(places, e, steps, 1, cur);
                lemma_ancestor_one(places, cur);
            }
            match self.entity_to_place.get(&cur) {
                Some(Place::In(c)) => {
                    cur = *c;
                    proof {
                        steps = steps + 1;
                        if steps == stop {
                            assert(false);
                        }
                    }
                },
                other => {
                    proof {
                        assert(is_top(places, e, cur));
                        let t = choose|t: Entity| is_top(places, e, t);
                        let k = choose|k: nat| #[trigger] ancestor(places, e, k) == Some(t) && container_of(places, t) is None;
                        lemma_top_unique(places, e, steps, k, cur, t);
                    }
                    return match other {
                        Some(Place::At(loc)) => Some(*loc),
                        _ => None,
                    };
                },
            }
        }
    }
}

/// Freezing an entity on the map and unfreezing it puts it back where it
/// was; every place keeps the same entities, though not in the same order.
pub proof fn law_freeze_then_unfreeze(s0: Spatial, s1: Spatial, s2: Spatial, e: Entity, pos: Point)
    requires
        s0.wf(),
        s0.get_place(e) == Some(Place::At(pos)),
        moved_to(s0, s1, e, Place::Unloaded(pos)),
        moved_to(s1, s2, e, Place::At(pos)),
    ensures
        s2.places() == s0.places(),
        forall|q: Place| #[trigger] s2.occupants(q).to_set() == s0.occupants(q).to_set(),
{
    let at = Place::At(pos);
    let un = Place::Unloaded(pos);
    assert(s2.places() =~= s0.places());
    assert(s1.places()[e] == un);
    s0.lemma_occupants_no_duplicates(at);
    s0.lemma_occupants_no_duplicates(un);
    assert(s0.occupants(at).contains(e));
    lemma_without(s0.occupants(at), e);
    assert forall|q: Place| #[trigger] s2.occupants(q).to_set() == s0.occupants(q).to_set() by {
        if q == at {
            let t = without(s0.occupants(at), e);
            assert(s2.occupants(at) == t.push(e));
            assert forall|y: Entity| t.push(e).to_set().contains(y) <==> s0.occupants(at).to_set().contains(y) by {
                if t.push(e).contains(y) {
                    let i = choose|i: int| 0 <= i < t.push(e).len() && t.push(e)[i] == y;
                    if i < t.len() {
                        assert(t.contains(y));
                    }
                }
                if s0.occupants(at).contains(y) && y != e {
                    assert(t.contains(y));
                    let i = choose|i: int| 0 <= i < t.len() && t[i] == y;
                    assert(t.push(e)[i] == y);
                }
                if y == e {
                    assert(t.push(e)[t.len() as int] == e);
                }
            }
            assert(s2.occupants(at).to_set() =~= s0.occupants(at).to_set());
        } else if q == un {
            let u0 = s0.occupants(un);
            assert(!u0.contains(e)) by {
                if u0.contains(e) {
                    let j = choose|j: int| 0 <= j < u0.len() && u0[j] == e;
                    s0.lemma_occupants_slot(un, j);
                }
            }
            let u1 = u0.push(e);
            assert(s1.occupants(un) == u1);
            assert(u1.no_duplicates()) by {
                assert forall|a: int, b: int| 0 <= a < b < u1.len() implies u1[a] != u1[b] by {
                    if b == u0.len() {
                        assert(u0[a] != e);
                    }
                }
            }
            assert(u1.contains(e)) by {
                assert(u1[u0.len() as int] == e);
            }
            lemma_without(u1, e);
            assert(s2.occupants(un) == without(u1, e));
            assert forall|y: Entity| without(u1, e).to_set().contains(y) <==> u0.to_set().contains(y) by {
                if u0.contains(y) {
                    let i = choose|i: int| 0 <= i < u0.len() && u0[i] == y;
                    assert(u1[i] == y);
                }
                if u1.contains(y) && y != e {
                    let i = choose|i: int| 0 <= i < u1.len() && u1[i] == y;
                    assert(i < u0.len());
                    assert(u0[i] == y);
                }
            }
            assert(s2.occupants(un).to_set() =~= s0.occupants(un).to_set());
        } else {
            assert(s2.occupants(q) == s0.occupants(q));
        }
    }
}

} // verus!
