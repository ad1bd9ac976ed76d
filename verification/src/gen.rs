//! Walking the border of a rectangle of the map.
use vstd::prelude::*;
use crate::point::Point;

verus! {

/// The points on the border of the rectangle from a top-left to a
/// bottom-right corner, row by row.
pub struct Border {
    pos: Point,
    min: Point,
    bottom_right: Point,
    done: bool,
}

/// The state of a walk along a border: the next point, the top-left and
/// bottom-right corners, and whether the walk is over.
pub struct BorderState {
    pub pos: Point,
    pub min: Point,
    pub bottom_right: Point,
    pub done: bool,
}

/// The step of a walk: on the top and bottom rows every point is visited,
/// on the rows between only the two ends.
pub open spec fn spec_border_next(s: BorderState) -> (Option<Point>, BorderState) {
    if s.done {
        (None, s)
    } else {
        let cur = s.pos;
        let done = cur == s.bottom_right;
        let pos = if cur.y == s.min.y || cur.y == s.bottom_right.y {
            if cur.x + 1 > s.bottom_right.x {
                Point { x: s.min.x, y: (cur.y + 1) as i32 }
            } else {
                Point { x: (cur.x + 1) as i32, y: cur.y }
            }
        } else if cur.x == s.min.x {
            Point { x: s.bottom_right.x, y: cur.y }
        } else {
            Point { x: s.min.x, y: (cur.y + 1) as i32 }
        };
        (Some(cur), BorderState { pos, min: s.min, bottom_right: s.bottom_right, done })
    }
}

/// A step of the walk from `s` stays within `i32`.
pub open spec fn border_step_fits(s: BorderState) -> bool {
    !s.done ==> (s.pos.x < i32::MAX && s.pos.y < i32::MAX)
}

impl Border {
    pub closed spec fn state(&self) -> BorderState {
        BorderState { pos: self.pos, min: self.min, bottom_right: self.bottom_right, done: self.done }
    }

    pub fn new(top_left: Point, bottom_right: Point) -> (b: Border)
        ensures
            b.state() == (BorderState { pos: top_left, min: top_left, bottom_right, done: false }),
    {
        Border { pos: top_left, min: top_left, bottom_right: bottom_right, done: false }
    }

    /// The next point of the border, `None` once the bottom-right corner
    /// was given.
    pub fn next(&mut self) -> (p: Option<Point>)
        requires
            border_step_fits(old(self).state()),
        ensures
            p == spec_border_next(old(self).state()).0,
            final(self).state() == spec_border_next(old(self).state()).1,
    {
        if self.done {
            return None;
        }

        let current_point = self.pos;

        if self.pos == self.bottom_right {
            self.done = true;
        }

        if current_point.y == self.min.y || current_point.y == self.bottom_right.y {
            self.pos.x = self.pos.x + 1;
            if self.pos.x > self.bottom_right.x {
                self.pos.y = self.pos.y + 1;
                self.pos.x = self.min.x;
            }
        } else {
            if self.pos.x == self.min.x {
                self.pos.x = self.bottom_right.x;
            } else {
                self.pos.y = self.pos.y + 1;
                self.pos.x = self.min.x;
            }
        }

        Some(current_point)
    }
}

/// The walk after `n` steps from `s`.
pub open spec fn border_after(s: BorderState, n: nat) -> BorderState
    decreases n,
{
    if n == 0 {
        s
    } else {
        spec_border_next(border_after(s, (n - 1) as nat)).1
    }
}

/// Width and height of the rectangle from `min` to `br`.
pub open spec fn border_width(min: Point, br: Point) -> int {
    br.x - min.x + 1
}

pub open spec fn border_height(min: Point, br: Point) -> int {
    br.y - min.y + 1
}

/// The number of points on the border.
pub open spec fn border_len(min: Point, br: Point) -> int {
    let w = border_width(min, br);
    let h = border_height(min, br);
    if h == 1 {
        w
    } else {
        2 * w + 2 * (h - 2)
    }
}

/// The `k`th point of the border, row by row: the whole top row, the two
/// ends of each row between, then the whole bottom row.
pub open spec fn border_point(min: Point, br: Point, k: int) -> Point {
    let w = border_width(min, br);
    let h = border_height(min, br);
    if k < w {
        Point { x: (min.x + k) as i32, y: min.y }
    } else {
        let m = k - w;
        if m < 2 * (h - 2) {
            Point { x: if m % 2 == 0 { min.x } else { br.x }, y: (min.y + 1 + m / 2) as i32 }
        } else {
            Point { x: (min.x + (m - 2 * (h - 2))) as i32, y: br.y }
        }
    }
}

/// A rectangle at least two points wide whose walk stays within `i32`.
pub open spec fn border_walkable(min: Point, br: Point) -> bool {
    min.x < br.x && min.y <= br.y && br.x < i32::MAX && br.y < i32::MAX
}

proof fn lemma_border_step(min: Point, br: Point, k: int)
    requires
        border_walkable(min, br),
        0 <= k < border_len(min, br),
    ensures
        ({
            let s = BorderState { pos: border_point(min, br, k), min, bottom_right: br, done: false };
            let next = spec_border_next(s);
            &&& border_step_fits(s)
            &&& next.0 == Some(border_point(min, br, k))
            &&& next.1.min == min && next.1.bottom_right == br
            &&& next.1.done == (k == border_len(min, br) - 1)
            &&& k < border_len(min, br) - 1 ==> next.1.pos == border_point(min, br, k + 1)
        }),
{
    let w = border_width(min, br);
    let h = border_height(min, br);
    if k >= w {
        let m = k - w;
        assert(h >= 2);
        if m < 2 * (h - 2) {
            assert(0 <= m / 2 < h - 2);
            if m % 2 == 0 {
                assert((m + 1) / 2 == m / 2 && (m + 1) % 2 == 1);
            } else {
                assert((m + 1) / 2 == m / 2 + 1 && (m + 1) % 2 == 0);
            }
        }
    }
}

/// Walking the border of a rectangle at least two points wide gives each
/// point of the border in turn, row by row, and then nothing.
pub proof fn law_border_walk(min: Point, br: Point, k: nat)
    requires
        border_walkable(min, br),
        k <= border_len(min, br),
    ensures
        ({
            let s0 = BorderState { pos: min, min, bottom_right: br, done: false };
            &&& k < border_len(min, br) ==> spec_border_next(border_after(s0, k)).0 == Some(
                border_point(min, br, k as int),
            )
            &&& k == border_len(min, br) ==> spec_border_next(border_after(s0, k)).0 is None
        }),
{
    let s0 = BorderState { pos: min, min, bottom_right: br, done: false };
    lemma_border_after(min, br, k);
    if k < border_len(min, br) {
        lemma_border_step(min, br, k as int);
    }
}

proof fn lemma_border_after(min: Point, br: Point, k: nat)
    requires
        border_walkable(min, br),
        k <= border_len(min, br),
    ensures
        ({
            let s0 = BorderState { pos: min, min, bottom_right: br, done: false };
            let sk = border_after(s0, k);
            &&& sk.min == min && sk.bottom_right == br
            &&& k < border_len(min, br) ==> sk.pos == border_point(min, br, k as int) && !sk.done
            &&& k == border_len(min, br) ==> sk.done
        }),
    decreases k,
{
    let s0 = BorderState { pos: min, min, bottom_right: br, done: false };
    if k == 0 {
        assert(border_point(min, br, 0) == min);
    } else {
        lemma_border_after(min, br, (k - 1) as nat);
        lemma_border_step(min, br, k - 1);
    }
}

/// `p` lies on the border of the rectangle from `min` to `br`.
pub open spec fn on_border(min: Point, br: Point, p: Point) -> bool {
    &&& min.x <= p.x <= br.x
    &&& min.y <= p.y <= br.y
    &&& (p.y == min.y || p.y == br.y || p.x == min.x || p.x == br.x)
}

/// The position of a border point in the walk.
pub open spec fn border_rank(min: Point, br: Point, p: Point) -> int {
    let w = border_width(min, br);
    let h = border_height(min, br);
    if p.y == min.y {
        p.x - min.x
    } else if p.y == br.y {
        w + 2 * (h - 2) + (p.x - min.x)
    } else {
        w + 2 * (p.y - min.y - 1) + if p.x == min.x { 0int } else { 1int }
    }
}

/// The walk's points are the border's points, each once.
pub proof fn law_border_points(min: Point, br: Point)
    requires
        border_walkable(min, br),
    ensures
        forall|k: int|
            0 <= k < border_len(min, br) ==> on_border(min, br, #[trigger] border_point(min, br, k))
                && border_rank(min, br, border_point(min, br, k)) == k,
        forall|p: Point|
            #[trigger] on_border(min, br, p) ==> 0 <= border_rank(min, br, p) < border_len(min, br)
                && border_point(min, br, border_rank(min, br, p)) == p,
{
    let w = border_width(min, br);
    let h = border_height(min, br);
    assert forall|k: int| 0 <= k < border_len(min, br) implies on_border(
        min,
        br,
        #[trigger] border_point(min, br, k),
    ) && border_rank(min, br, border_point(min, br, k)) == k by {
        if k >= w {
            let m = k - w;
            if m < 2 * (h - 2) {
                assert(0 <= m / 2 < h - 2);
                assert(m == 2 * (m / 2) + m % 2);
            }
        }
    }
    assert forall|p: Point| #[trigger] on_border(min, br, p) implies 0 <= border_rank(min, br, p)
        < border_len(min, br) && border_point(min, br, border_rank(min, br, p)) == p by {
        if p.y != min.y && p.y != br.y {
            let m = 2 * (p.y - min.y - 1) + if p.x == min.x { 0int } else { 1int };
            assert(m / 2 == p.y - min.y - 1);
            assert(m % 2 == if p.x == min.x { 0int } else { 1int });
        }
    }
}

} // verus!
