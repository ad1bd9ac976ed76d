//! Text-interface views: the events they receive, and a printer that clips
//! what is printed to its area and works out the prints a box or a line
//! takes. The caller makes the prints on a canvas.
use vstd::prelude::*;
use vstd::string::StringExecFns;
use crate::point::Point;

verus! {

#[derive(Debug, Copy, Clone, PartialEq, Eq, Structural)]
pub enum ViewEvent {
    Key,
}

#[derive(Debug, Copy, Clone, PartialEq, Eq, Structural)]
pub enum ViewEventResult {
    Ignored,
}

/// A print to make on the canvas: column, row and text.
pub type Print = (i32, i32, String);

/// The prints as column, row and characters.
pub open spec fn prints_view(v: Seq<Print>) -> Seq<(i32, i32, Seq<char>)> {
    v.map_values(|p: Print| (p.0, p.1, p.2@))
}

/// `c` written `n` times.
pub open spec fn repeated(c: Seq<char>, n: nat) -> Seq<char>
    decreases n,
{
    if n == 0 {
        Seq::empty()
    } else {
        repeated(c, (n - 1) as nat) + c
    }
}

pub open spec fn fits(v: int) -> bool {
    i32::MIN <= v <= i32::MAX
}

/// Prints inside an area of the canvas of the given size.
pub struct Printer {
    size: Point,
}

/// What printing `text` at `p` prints: nothing outside the area.
pub open spec fn spec_print(size: Point, p: Point, text: Seq<char>) -> Seq<(i32, i32, Seq<char>)> {
    if p.y >= size.y || p.x >= size.x {
        Seq::empty()
    } else {
        seq![(p.x, p.y, text)]
    }
}

/// What a vertical line of `len` times `c` down from `p` prints: cut at the
/// bottom of the area, nothing when `p` is outside.
pub open spec fn spec_vline(size: Point, p: Point, len: i32, c: Seq<char>) -> Seq<(i32, i32, Seq<char>)> {
    if p.y > size.y || p.x > size.x {
        Seq::empty()
    } else {
        let n = if len < size.y - p.y { len as int } else { size.y - p.y };
        Seq::new(if n < 0 { 0nat } else { n as nat }, |i: int| (p.x, (p.y + i) as i32, c))
    }
}

/// What a horizontal line of `len` times `c` right from `p` prints: cut at
/// the right of the area, nothing when `p` is outside.
pub open spec fn spec_hline(size: Point, p: Point, len: i32, c: Seq<char>) -> Seq<(i32, i32, Seq<char>)> {
    if p.y > size.y || p.x > size.x {
        Seq::empty()
    } else {
        let n = if len < size.x - p.x { len as int } else { size.x - p.x };
        seq![(p.x, p.y, repeated(c, n as nat))]
    }
}

/// A line down from `p`, or right from it, does not overflow.
pub open spec fn line_fits(size: Point, p: Point) -> bool {
    fits(size.x - p.x) && fits(size.y - p.y)
}

/// What a box of the given size with its top-left corner at `start` prints:
/// its corners and sides; nothing for a box less than two wide or high.
pub open spec fn spec_box(area: Point, start: Point, size: Point) -> Seq<(i32, i32, Seq<char>)> {
    if size.x < 2 || size.y < 2 {
        Seq::empty()
    } else {
        let sx = size.x - 1;
        let sy = size.y - 1;
        let right = (start.x + sx) as i32;
        let bottom = (start.y + sy) as i32;
        spec_print(area, start, "┌"@) + spec_print(area, Point { x: start.x, y: bottom }, "└"@)
            + spec_hline(area, Point { x: (start.x + 1) as i32, y: start.y }, (sx - 1) as i32, "─"@)
            + spec_vline(area, Point { x: start.x, y: (start.y + 1) as i32 }, (sy - 1) as i32, "│"@)
            + spec_print(area, Point { x: right, y: start.y }, "┐"@) + spec_print(
            area,
            Point { x: right, y: bottom },
            "┘"@,
        ) + spec_hline(area, Point { x: (start.x + 1) as i32, y: bottom }, (sx - 1) as i32, "─"@)
            + spec_vline(area, Point { x: right, y: (start.y + 1) as i32 }, (sy - 1) as i32, "│"@)
    }
}

/// Every cell the prints cover lies inside the box at `start` of the given
/// size: its row, and each column from where the text starts to where it ends.
pub open spec fn prints_inside(prints: Seq<(i32, i32, Seq<char>)>, start: Point, size: Point) -> bool {
    forall|k: int|
        0 <= k < prints.len() ==> start.x <= (#[trigger] prints[k]).0 && prints[k].0 + prints[k].2.len()
            <= start.x + size.x && start.y <= prints[k].1 < start.y + size.y
}

proof fn lemma_prints_inside_concat(
    a: Seq<(i32, i32, Seq<char>)>,
    b: Seq<(i32, i32, Seq<char>)>,
    start: Point,
    size: Point,
)
    requires
        prints_inside(a, start, size),
        prints_inside(b, start, size),
    ensures
        prints_inside(a + b, start, size),
{
    assert forall|k: int| 0 <= k < (a + b).len() implies start.x <= (#[trigger] (a + b)[k]).0 && (a
        + b)[k].0 + (a + b)[k].2.len() <= start.x + size.x && start.y <= (a + b)[k].1 < start.y
        + size.y by {
        if k < a.len() {
            assert((a + b)[k] == a[k]);
        } else {
            assert((a + b)[k] == b[k - a.len()]);
        }
    }
}

proof fn lemma_repeated_len(c: Seq<char>, n: nat)
    requires
        c.len() == 1,
    ensures
        repeated(c, n).len() == n,
    decreases n,
{
    if n > 0 {
        lemma_repeated_len(c, (n - 1) as nat);
    }
}

/// A box frame prints nothing outside the box: every corner, side and
/// edge stays within its columns and rows, whatever part the area cuts off.
pub proof fn law_box_prints_inside(area: Point, start: Point, size: Point)
    requires
        fits(start.x + size.x),
        fits(start.y + size.y),
        fits(area.x - start.x),
        fits(area.y - start.y),
    ensures
        prints_inside(spec_box(area, start, size), start, size),
{
    if size.x >= 2 && size.y >= 2 {
        reveal_strlit("┌");
        reveal_strlit("└");
        reveal_strlit("┐");
        reveal_strlit("┘");
        reveal_strlit("─");
        reveal_strlit("│");
        let sx = size.x - 1;
        let sy = size.y - 1;
        let right = (start.x + sx) as i32;
        let bottom = (start.y + sy) as i32;
        let p1 = spec_print(area, start, "┌"@);
        let p2 = spec_print(area, Point { x: start.x, y: bottom }, "└"@);
        let h1 = spec_hline(area, Point { x: (start.x + 1) as i32, y: start.y }, (sx - 1) as i32, "─"@);
        let v1 = spec_vline(area, Point { x: start.x, y: (start.y + 1) as i32 }, (sy - 1) as i32, "│"@);
        let p3 = spec_print(area, Point { x: right, y: start.y }, "┐"@);
        let p4 = spec_print(area, Point { x: right, y: bottom }, "┘"@);
        let h2 = spec_hline(area, Point { x: (start.x + 1) as i32, y: bottom }, (sx - 1) as i32, "─"@);
        let v2 = spec_vline(area, Point { x: right, y: (start.y + 1) as i32 }, (sy - 1) as i32, "│"@);
        assert(prints_inside(p1, start, size));
        assert(prints_inside(p2, start, size));
        assert(prints_inside(p3, start, size));
        assert(prints_inside(p4, start, size));
        if h1.len() > 0 {
            let n = if sx - 1 < area.x - (start.x + 1) { sx - 1 } else { area.x - (start.x + 1) };
            lemma_repeated_len("─"@, n as nat);
        }
        assert(prints_inside(h1, start, size));
        if h2.len() > 0 {
            let n = if sx - 1 < area.x - (start.x + 1) { sx - 1 } else { area.x - (start.x + 1) };
            lemma_repeated_len("─"@, n as nat);
        }
        assert(prints_inside(h2, start, size));
        assert(prints_inside(v1, start, size));
        assert(prints_inside(v2, start, size));
        lemma_prints_inside_concat(p1, p2, start, size);
        lemma_prints_inside_concat(p1 + p2, h1, start, size);
        lemma_prints_inside_concat(p1 + p2 + h1, v1, start, size);
        lemma_prints_inside_concat(p1 + p2 + h1 + v1, p3, start, size);
        lemma_prints_inside_concat(p1 + p2 + h1 + v1 + p3, p4, start, size);
        lemma_prints_inside_concat(p1 + p2 + h1 + v1 + p3 + p4, h2, start, size);
        lemma_prints_inside_concat(p1 + p2 + h1 + v1 + p3 + p4 + h2, v2, start, size);
        assert(spec_box(area, start, size) == p1 + p2 + h1 + v1 + p3 + p4 + h2 + v2);
    } else {
        assert(spec_box(area, start, size) == Seq::<(i32, i32, Seq<char>)>::empty());
    }
}

/// A box frame that fits in the area is drawn whole: its four corners, its
/// top and bottom edges two shorter than the box is wide, and on each side
/// one `│` on every row between the corners, and nothing more.
pub proof fn law_box_drawn_whole(area: Point, start: Point, size: Point)
    requires
        0 <= start.x,
        0 <= start.y,
        2 <= size.x,
        2 <= size.y,
        start.x + size.x <= area.x,
        start.y + size.y <= area.y,
    ensures
        ({
            let b = spec_box(area, start, size);
            let right = (start.x + size.x - 1) as i32;
            let bottom = (start.y + size.y - 1) as i32;
            &&& b.len() == 6 + 2 * (size.y - 2)
            &&& b.contains((start.x, start.y, "┌"@))
            &&& b.contains((right, start.y, "┐"@))
            &&& b.contains((start.x, bottom, "└"@))
            &&& b.contains((right, bottom, "┘"@))
            &&& b.contains(((start.x + 1) as i32, start.y, repeated("─"@, (size.x - 2) as nat)))
            &&& b.contains(((start.x + 1) as i32, bottom, repeated("─"@, (size.x - 2) as nat)))
            &&& forall|y: i32|
                #![trigger b.contains((start.x, y, "│"@))]
                #![trigger b.contains((right, y, "│"@))]
                start.y < y < start.y + size.y - 1 ==> b.contains((start.x, y, "│"@))
                    && b.contains((right, y, "│"@))
        }),
{
    let sx = size.x - 1;
    let sy = size.y - 1;
    let right = (start.x + sx) as i32;
    let bottom = (start.y + sy) as i32;
    let p1 = spec_print(area, start, "┌"@);
    let p2 = spec_print(area, Point { x: start.x, y: bottom }, "└"@);
    let h1 = spec_hline(area, Point { x: (start.x + 1) as i32, y: start.y }, (sx - 1) as i32, "─"@);
    let v1 = spec_vline(area, Point { x: start.x, y: (start.y + 1) as i32 }, (sy - 1) as i32, "│"@);
    let p3 = spec_print(area, Point { x: right, y: start.y }, "┐"@);
    let p4 = spec_print(area, Point { x: right, y: bottom }, "┘"@);
    let h2 = spec_hline(area, Point { x: (start.x + 1) as i32, y: bottom }, (sx - 1) as i32, "─"@);
    let v2 = spec_vline(area, Point { x: right, y: (start.y + 1) as i32 }, (sy - 1) as i32, "│"@);
    let b = spec_box(area, start, size);
    assert(b == p1 + p2 + h1 + v1 + p3 + p4 + h2 + v2);
    assert(v1.len() == sy - 1);
    assert(v2.len() == sy - 1);
    let n = sy - 1;
    assert(b[0] == (start.x, start.y, "┌"@));
    assert(b[1] == (start.x, bottom, "└"@));
    assert(b[2] == ((start.x + 1) as i32, start.y, repeated("─"@, (size.x - 2) as nat)));
    assert(b[3 + n] == (right, start.y, "┐"@));
    assert(b[4 + n] == (right, bottom, "┘"@));
    assert(b[5 + n] == ((start.x + 1) as i32, bottom, repeated("─"@, (size.x - 2) as nat)));
    assert forall|y: i32|
        #![trigger b.contains((start.x, y, "│"@))]
        #![trigger b.contains((right, y, "│"@))]
        start.y < y < start.y + size.y - 1 implies b.contains((start.x, y, "│"@))
        && b.contains((right, y, "│"@)) by {
        let i = y - start.y;
        assert(b[3 + i - 1] == v1[i - 1]);
        assert(b[6 + n + i - 1] == v2[i - 1]);
    }
}

impl Printer {
    /// The size of the area printed in.
    pub closed spec fn area(&self) -> Point {
        self.size
    }

    pub fn new(size: Point) -> (p: Printer)
        ensures
            p.area() == size,
    {
        Printer { size: size }
    }

    /// Prints `text` at `p`, if `p` is inside the area.
    pub fn print(&self, p: Point, text: &str) -> (v: Vec<Print>)
        ensures
            prints_view(v@) == spec_print(self.area(), p, text@),
    {
        let mut v: Vec<Print> = Vec::new();
        if p.y >= self.size.y || p.x >= self.size.x {
            proof {
                assert(prints_view(v@) =~= Seq::<(i32, i32, Seq<char>)>::empty());
            }
            return v;
        }
        v.push((p.x, p.y, text.to_owned()));
        proof {
            assert(prints_view(v@) =~= seq![(p.x, p.y, text@)]);
        }
        v
    }

    /// Prints `c` on `len` rows down from `p`, within the area.
    pub fn print_vline(&self, p: Point, len: i32, c: &str) -> (v: Vec<Print>)
        requires
            line_fits(self.area(), p),
        ensures
            prints_view(v@) == spec_vline(self.area(), p, len, c@),
    {
        let mut v: Vec<Print> = Vec::new();
        if p.y > self.size.y || p.x > self.size.x {
            proof {
                assert(prints_view(v@) =~= spec_vline(self.area(), p, len, c@));
            }
            return v;
        }
        let room = self.size.y - p.y;
        let n = if len < room { len } else { room };
        let mut y: i32 = 0;
        while y < n
            invariant
                0 <= y,
                y <= n || n < 0,
                n < 0 ==> y == 0,
                n <= room,
                room == self.size.y - p.y,
                0 <= room,
                prints_view(v@) == Seq::new(y as nat, |i: int| (p.x, (p.y + i) as i32, c@)),
            decreases n - y,
        {
            let item = (p.x, p.y + y, c.to_owned());
            let ghost before = v@;
            v.push(item);
            proof {
                assert(v@ == before.push(item));
                assert(prints_view(v@) =~= prints_view(before).push((p.x, (p.y + y) as i32, c@)));
                assert(prints_view(v@) =~= Seq::new((y + 1) as nat, |i: int| (p.x, (p.y + i) as i32, c@)));
            }
            y = y + 1;
        }
        proof {
            assert(y == if n < 0 { 0 } else { n });
            assert(prints_view(v@) =~= spec_vline(self.area(), p, len, c@));
        }
        v
    }

    /// Prints `c` `len` times in a row right from `p`, within the area.
    pub fn print_hline(&self, p: Point, len: i32, c: &str) -> (v: Vec<Print>)
        requires
            line_fits(self.area(), p),
            !(p.y > self.area().y || p.x > self.area().x) ==> len >= 0,
        ensures
            prints_view(v@) == spec_hline(self.area(), p, len, c@),
    {
        let mut v: Vec<Print> = Vec::new();
        if p.y > self.size.y || p.x > self.size.x {
            proof {
                assert(prints_view(v@) =~= spec_hline(self.area(), p, len, c@));
            }
            return v;
        }
        let room = self.size.x - p.x;
        let count = if len < room { len } else { room };
        let mut text = String::new();
        let mut n: i32 = 0;
        while n < count
            invariant
                0 <= n <= count,
                text@ == repeated(c@, n as nat),
            decreases count - n,
        {
            text.append(c);
            n = n + 1;
        }
        v.push((p.x, p.y, text));
        proof {
            assert(prints_view(v@) =~= spec_hline(self.area(), p, len, c@));
        }
        v
    }

    /// Prints the frame of a box of the given size whose top-left corner is
    /// at `start`.
    pub fn print_box(&self, start: Point, size: Point) -> (v: Vec<Print>)
        requires
            fits(start.x + size.x),
            fits(start.y + size.y),
            fits(self.area().x - start.x),
            fits(self.area().y - start.y),
            fits(self.area().x - start.x - size.x),
            fits(self.area().y - start.y - size.y),
        ensures
            prints_view(v@) == spec_box(self.area(), start, size),
    {
        if size.x < 2 || size.y < 2 {
            let v: Vec<Print> = Vec::new();
            proof {
                assert(prints_view(v@) =~= Seq::<(i32, i32, Seq<char>)>::empty());
            }
            return v;
        }
        let sx = size.x - 1;
        let sy = size.y - 1;
        let right = start.x + sx;
        let bottom = start.y + sy;

        let mut v = self.print(start, "┌");
        let mut part = self.print(Point::new(start.x, bottom), "└");
        let ghost acc1 = prints_view(v@) + prints_view(part@);
        v.append(&mut part);
        proof {
            assert(prints_view(v@) =~= acc1);
        }
        let ghost before = prints_view(v@);
        let mut part = self.print_hline(Point::new(start.x + 1, start.y), sx - 1, "─");
        let ghost p2 = prints_view(part@);
        v.append(&mut part);
        proof {
            assert(prints_view(v@) =~= before + p2);
        }
        let ghost before = prints_view(v@);
        let mut part = self.print_vline(Point::new(start.x, start.y + 1), sy - 1, "│");
        let ghost p2 = prints_view(part@);
        v.append(&mut part);
        proof {
            assert(prints_view(v@) =~= before + p2);
        }

        let ghost before = prints_view(v@);
        let mut part = self.print(Point::new(right, start.y), "┐");
        let ghost p2 = prints_view(part@);
        v.append(&mut part);
        proof {
            assert(prints_view(v@) =~= before + p2);
        }
        let ghost before = prints_view(v@);
        let mut part = self.print(Point::new(right, bottom), "┘");
        let ghost p2 = prints_view(part@);
        v.append(&mut part);
        proof {
            assert(prints_view(v@) =~= before + p2);
        }
        let ghost before = prints_view(v@);
        let mut part = self.print_hline(Point::new(start.x + 1, bottom), sx - 1, "─");
        let ghost p2 = prints_view(part@);
        v.append(&mut part);
        proof {
            assert(prints_view(v@) =~= before + p2);
        }
        let ghost before = prints_view(v@);
        let mut part = self.print_vline(Point::new(right, start.y + 1), sy - 1, "│");
        let ghost p2 = prints_view(part@);
        v.append(&mut part);
        proof {
            assert(prints_view(v@) =~= before + p2);
        }
        v
    }
}

} // verus!
