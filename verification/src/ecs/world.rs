//! Which chunks of the map stay loaded: those near the center of the
//! world, as the world keeps them.
use vstd::prelude::*;
use crate::chunk::{chunk_coord, ChunkIndex};
use crate::point::Point;

verus! {

/// How far, in chunks, from the center chunks stay loaded.
pub const UPDATE_RADIUS: i32 = 3;

pub open spec fn abs(v: int) -> int {
    if v < 0 {
        -v
    } else {
        v
    }
}

/// The chunk is within `UPDATE_RADIUS` steps (along the axes) of the chunk
/// at the world's center.
pub open spec fn is_relevant(c: ChunkIndex) -> bool {
    abs(c.0.x - chunk_coord(0)) + abs(c.0.y - chunk_coord(0)) <= UPDATE_RADIUS
}

/// The chunks to keep loaded, each once.
pub fn relevant_chunks() -> (v: Vec<ChunkIndex>)
    ensures
        forall|c: ChunkIndex| #[trigger] v@.contains(c) <==> is_relevant(c),
        v@.no_duplicates(),
{
    let center = ChunkIndex::from_world_pos(Point::new(0, 0));
    assert(chunk_coord(0) == 0);
    let mut v: Vec<ChunkIndex> = Vec::new();
    let mut x: i32 = -UPDATE_RADIUS;
    while x <= UPDATE_RADIUS
        invariant
            -UPDATE_RADIUS <= x <= UPDATE_RADIUS + 1,
            center.0.x == 0 && center.0.y == 0,
            forall|c: ChunkIndex| #[trigger] v@.contains(c) <==> (is_relevant(c) && c.0.x < x),
            v@.no_duplicates(),
        decreases UPDATE_RADIUS + 1 - x,
    {
        let mut y: i32 = -UPDATE_RADIUS;
        while y <= UPDATE_RADIUS
            invariant
                -UPDATE_RADIUS <= x <= UPDATE_RADIUS,
                -UPDATE_RADIUS <= y <= UPDATE_RADIUS + 1,
                center.0.x == 0 && center.0.y == 0,
                forall|c: ChunkIndex| #[trigger] v@.contains(c) <==> (is_relevant(c) && (c.0.x < x
                    || (c.0.x == x && c.0.y < y))),
                v@.no_duplicates(),
            decreases UPDATE_RADIUS + 1 - y,
        {
            let ax = if x < 0 { -x } else { x };
            let ay = if y < 0 { -y } else { y };
            if ax + ay <= UPDATE_RADIUS {
                let c = ChunkIndex::new(center.0.x + x, center.0.y + y);
                let ghost old_v = v@;
                v.push(c);
                proof {
                    assert(!old_v.contains(c));
                    assert forall|d: ChunkIndex| #[trigger] v@.contains(d) <==> (is_relevant(d) && (
                    d.0.x < x || (d.0.x == x && d.0.y < y + 1))) by {
                        if v@.contains(d) && d != c {
                            let i = choose|i: int| 0 <= i < v@.len() && v@[i] == d;
                            assert(old_v.contains(d)) by {
                                assert(old_v[i] == d);
                            }
                        }
                        if old_v.contains(d) {
                            let i = choose|i: int| 0 <= i < old_v.len() && old_v[i] == d;
                            assert(v@[i] == d);
                        }
                        if d == c {
                            assert(v@[old_v.len() as int] == c);
                        }
                    }
                    assert forall|a: int, b: int| 0 <= a < b < v@.len() implies v@[a] != v@[b] by {
                        if b == old_v.len() {
                            assert(old_v.contains(v@[a])) by {
                                assert(old_v[a] == v@[a]);
                            }
                        }
                    }
                }
            }
            y = y + 1;
        }
        x = x + 1;
    }
    v
}

fn contains_chunk(v: &Vec<ChunkIndex>, c: ChunkIndex) -> (b: bool)
    ensures
        b == v@.contains(c),
{
    let mut i: usize = 0;
    while i < v.len()
        invariant
            i <= v@.len(),
            forall|k: int| 0 <= k < i ==> v@[k] != c,
        decreases v@.len() - i,
    {
        if v[i] == c {
            return true;
        }
        i = i + 1;
    }
    false
}

/// What to load and what to unload so that exactly the relevant chunks are
/// loaded, given the chunks loaded now.
pub fn chunk_updates(loaded: &Vec<ChunkIndex>) -> (r: (Vec<ChunkIndex>, Vec<ChunkIndex>))
    ensures
        forall|c: ChunkIndex| #[trigger] r.0@.contains(c) <==> (is_relevant(c) && !loaded@.contains(c)),
        r.0@.no_duplicates(),
        r.1@ == loaded@.filter(|c: ChunkIndex| !is_relevant(c)),
{
    let relevant = relevant_chunks();
    let mut to_load: Vec<ChunkIndex> = Vec::new();
    let mut i: usize = 0;
    while i < relevant.len()
        invariant
            i <= relevant@.len(),
            forall|c: ChunkIndex| #[trigger] relevant@.contains(c) <==> is_relevant(c),
            relevant@.no_duplicates(),
            forall|c: ChunkIndex| #[trigger] to_load@.contains(c) <==> (exists|k: int|
                0 <= k < i && relevant@[k] == c) && !loaded@.contains(c),
            to_load@.no_duplicates(),
        decreases relevant@.len() - i,
    {
        let c = relevant[i];
        if !contains_chunk(loaded, c) {
            let ghost old_v = to_load@;
            to_load.push(c);
            proof {
                assert(!old_v.contains(c)) by {
                    if old_v.contains(c) {
                        let k = choose|k: int| 0 <= k < i && relevant@[k] == c;
                        assert(relevant@[k] == relevant@[i as int]);
                    }
                }
                assert forall|d: ChunkIndex| #[trigger] to_load@.contains(d) <==> (exists|k: int|
                    0 <= k < i + 1 && relevant@[k] == d) && !loaded@.contains(d) by {
                    if to_load@.contains(d) && d != c {
                        let k = choose|k: int| 0 <= k < to_load@.len() && to_load@[k] == d;
                        assert(old_v[k] == d);
                    }
                    if old_v.contains(d) {
                        let k = choose|k: int| 0 <= k < old_v.len() && old_v[k] == d;
                        assert(to_load@[k] == d);
                    }
                    if d == c {
                        assert(to_load@[old_v.len() as int] == c);
                    }
                }
                assert forall|a: int, b: int| 0 <= a < b < to_load@.len() implies to_load@[a]
                    != to_load@[b] by {
                    if b == old_v.len() {
                        assert(old_v.contains(to_load@[a])) by {
                            assert(old_v[a] == to_load@[a]);
                        }
                    }
                }
            }
        }
        i = i + 1;
    }
    let mut to_unload: Vec<ChunkIndex> = Vec::new();
    let mut j: usize = 0;
    while j < loaded.len()
        invariant
            j <= loaded@.len(),
            forall|c: ChunkIndex| #[trigger] relevant@.contains(c) <==> is_relevant(c),
            to_unload@ == loaded@.take(j as int).filter(|c: ChunkIndex| !is_relevant(c)),
        decreases loaded@.len() - j,
    {
        let c = loaded[j];
        let keep = contains_chunk(&relevant, c);
        if !keep {
            to_unload.push(c);
        }
        proof {
            let t = loaded@.take(j + 1);
            assert(t.drop_last() =~= loaded@.take(j as int));
            assert(t.last() == c);
            reveal(Seq::filter);
        }
        j = j + 1;
    }
    proof {
        assert(loaded@.take(loaded@.len() as int) =~= loaded@);
        assert forall|c: ChunkIndex| #[trigger] to_load@.contains(c) <==> (is_relevant(c)
            && !loaded@.contains(c)) by {
            if is_relevant(c) && !loaded@.contains(c) {
                assert(relevant@.contains(c));
                let k = choose|k: int| 0 <= k < relevant@.len() && relevant@[k] == c;
            }
            if to_load@.contains(c) {
                let k = choose|k: int| 0 <= k < relevant@.len() && relevant@[k] == c;
                assert(relevant@.contains(c));
            }
        }
    }
    (to_load, to_unload)
}

} // verus!
