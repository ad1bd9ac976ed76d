//! Terminal colors: 256-color codes, the 6x6x6 color cube, true colors and
//! their quantization to the eight basic terminal colors.
use vstd::prelude::*;

verus! {

pub type Color = RGB;

/// The eight basic terminal colors, plus the terminal's default color.
#[derive(PartialEq, Eq, Structural, Debug, Clone, Copy)]
pub enum Color16 {
    Black,
    Red,
    Green,
    Yellow,
    Blue,
    Magenta,
    Cyan,
    White,
    Default,
}

/// A 24-bit color.
#[derive(PartialEq, Eq, Structural, Debug, Clone, Copy)]
pub struct RGB {
    pub r: u8,
    pub g: u8,
    pub b: u8,
}

/// A color of the 6x6x6 color cube; each component lies in `0..6`.
#[derive(PartialEq, Eq, Structural, Debug, Clone, Copy)]
pub struct Color216 {
    pub r: u8,
    pub g: u8,
    pub b: u8,
}

/// A code of the 256-color terminal palette.
#[derive(PartialEq, Eq, Structural, Debug, Clone, Copy)]
pub struct Color256(pub u8);

/// The basic color black as a true color.
pub fn black() -> (c: Color)
    ensures
        c == (Color { r: 0, g: 0, b: 0 }),
{
    Color { r: 0, g: 0, b: 0 }
}

/// The basic color red as a true color.
pub fn red() -> (c: Color)
    ensures
        c == (Color { r: 255, g: 0, b: 0 }),
{
    Color { r: 255, g: 0, b: 0 }
}

/// The basic color green as a true color.
pub fn green() -> (c: Color)
    ensures
        c == (Color { r: 0, g: 255, b: 0 }),
{
    Color { r: 0, g: 255, b: 0 }
}

/// The basic color yellow as a true color.
pub fn yellow() -> (c: Color)
    ensures
        c == (Color { r: 255, g: 255, b: 0 }),
{
    Color { r: 255, g: 255, b: 0 }
}

/// The basic color blue as a true color.
pub fn blue() -> (c: Color)
    ensures
        c == (Color { r: 0, g: 0, b: 255 }),
{
    Color { r: 0, g: 0, b: 255 }
}

/// The basic color magenta as a true color.
pub fn magenta() -> (c: Color)
    ensures
        c == (Color { r: 255, g: 0, b: 255 }),
{
    Color { r: 255, g: 0, b: 255 }
}

/// The basic color cyan as a true color.
pub fn cyan() -> (c: Color)
    ensures
        c == (Color { r: 0, g: 255, b: 255 }),
{
    Color { r: 0, g: 255, b: 255 }
}

/// The basic color white as a true color.
pub fn white() -> (c: Color)
    ensures
        c == (Color { r: 255, g: 255, b: 255 }),
{
    Color { r: 255, g: 255, b: 255 }
}

impl Color216 {
    /// Every component lies in `0..6`.
    pub open spec fn valid(&self) -> bool {
        self.r < 6 && self.g < 6 && self.b < 6
    }

    /// The palette code of a cube color.
    pub open spec fn code(&self) -> int {
        16 + self.r * 36 + self.g * 6 + self.b
    }

    pub fn new(r: u8, g: u8, b: u8) -> (c: Self)
        requires
            r < 6,
            g < 6,
            b < 6,
        ensures
            c.r == r && c.g == g && c.b == b,
            c.valid(),
    {
        Color216 { r: r, g: g, b: b }
    }

    pub fn to_u8(&self) -> (u: u8)
        requires
            self.valid(),
        ensures
            u == self.code(),
            16 <= u <= 231,
    {
        16 + self.r * 36 + self.g * 6 + self.b
    }
}

impl RGB {
    pub fn new(r: u8, g: u8, b: u8) -> (c: Self)
        ensures
            c.r == r && c.g == g && c.b == b,
    {
        RGB { r: r, g: g, b: b }
    }

    /// Squared euclidean distance between two colors.
    pub open spec fn spec_dist_sq(&self, other: &RGB) -> int {
        (self.r - other.r) * (self.r - other.r) + (self.g - other.g) * (self.g - other.g) + (
        self.b - other.b) * (self.b - other.b)
    }

    /// The square of the euclidean distance between two colors: it orders
    /// colors by distance exactly as the distance itself does.
    pub fn dist_sq(&self, other: &RGB) -> (d: u32)
        ensures
            d == self.spec_dist_sq(other),
    {
        let dr: i32 = self.r as i32 - other.r as i32;
        let dg: i32 = self.g as i32 - other.g as i32;
        let db: i32 = self.b as i32 - other.b as i32;
        assert(dr * dr <= 65025) by (nonlinear_arith)
            requires
                -255 <= dr <= 255,
        ;
        assert(dg * dg <= 65025) by (nonlinear_arith)
            requires
                -255 <= dg <= 255,
        ;
        assert(db * db <= 65025) by (nonlinear_arith)
            requires
                -255 <= db <= 255,
        ;
        assert(dr * dr >= 0 && dg * dg >= 0 && db * db >= 0) by (nonlinear_arith);
        ((dr * dr) + (dg * dg) + (db * db)) as u32
    }
}

/// The color cube entry of a palette code, where the palette defines one.
pub open spec fn cube_of(code: u8) -> (u8, u8, u8) {
    if code == 7 || code == 15 || code == 255 {
        (5, 5, 5)
    } else if 16 <= code <= 231 {
        let c = (code - 16) as int;
        ((c / 36) as u8, ((c / 6) % 6) as u8, (c % 6) as u8)
    } else {
        let c = ((code - 232) / 4) as u8;
        (c, c, c)
    }
}

/// Palette codes `0..16` other than 7 and 15 have no cube entry.
pub open spec fn has_cube_entry(code: u8) -> bool {
    code == 7 || code == 15 || code >= 16
}

impl Color256 {
    pub open spec fn code(&self) -> u8 {
        self.0
    }

    pub fn to_color216(&self) -> (c: Color216)
        requires
            has_cube_entry(self.code()),
        ensures
            c.valid(),
            (c.r, c.g, c.b) == cube_of(self.code()),
        decreases (if self.0 == 7 { 1int } else { 0int }),
    {
        match self.0 {
            7 => Color256(255).to_color216(),
            15 => Color216::new(5, 5, 5),
            16..=231 => {
                let c = self.0 - 16;
                let b = c % 6;
                let c = (c - b) / 6;
                let g = c % 6;
                let r = (c - g) / 6;
                Color216::new(r, g, b)
            },
            _ => {
                let c = (self.0 - 232) / 4;
                Color216::new(c, c, c)
            },
        }
    }

    pub fn to_rgb(&self) -> (c: RGB)
        requires
            has_cube_entry(self.code()),
        ensures
            c.r == cube_of(self.code()).0 * 42,
            c.g == cube_of(self.code()).1 * 42,
            c.b == cube_of(self.code()).2 * 42,
    {
        let newcol = self.to_color216();
        let factor: u8 = 255 / 6;
        RGB::new(newcol.r * factor, newcol.g * factor, newcol.b * factor)
    }

    /// Blends `s` fifths of `color` into this color, within the color cube.
    pub fn mix(&self, color: Color256, s: u8) -> (m: Color256)
        requires
            s < 6,
            has_cube_entry(self.code()),
            has_cube_entry(color.code()),
        ensures
            m.code() == (Color216 {
                r: mix_component(cube_of(self.code()).0, cube_of(color.code()).0, s),
                g: mix_component(cube_of(self.code()).1, cube_of(color.code()).1, s),
                b: mix_component(cube_of(self.code()).2, cube_of(color.code()).2, s),
            }).code(),
    {
        let s_rgb = self.to_color216();
        let c_rgb = color.to_color216();
        proof {
            lemma_mix_bound(s_rgb.r, c_rgb.r, s);
            lemma_mix_bound(s_rgb.g, c_rgb.g, s);
            lemma_mix_bound(s_rgb.b, c_rgb.b, s);
        }
        Color256::from_color216(
            Color216::new(
                (s_rgb.r * (5 - s) + c_rgb.r * s) / 5,
                (s_rgb.g * (5 - s) + c_rgb.g * s) / 5,
                (s_rgb.b * (5 - s) + c_rgb.b * s) / 5,
            ),
        )
    }

    /// The palette code of a cube color.
    pub fn from_color216(rgb: Color216) -> (c: Color256)
        requires
            rgb.valid(),
        ensures
            c.code() == rgb.code(),
    {
        Color256(rgb.to_u8())
    }
}

/// One component of a blend of `s` fifths of `c` into `a`.
pub open spec fn mix_component(a: u8, c: u8, s: u8) -> u8 {
    ((a * (5 - s) + c * s) / 5) as u8
}

proof fn lemma_mix_bound(a: u8, c: u8, s: u8)
    requires
        a < 6,
        c < 6,
        s < 6,
    ensures
        a * (5 - s) <= 25,
        c * s <= 25,
        (a * (5 - s) + c * s) / 5 < 6,
{
    assert(a * (5 - s) <= 25 && c * s <= 25 && (a * (5 - s) + c * s) <= 25) by (nonlinear_arith)
        requires
            a < 6,
            c < 6,
            s < 6,
    ;
}


/// The true color of entry `i` of the basic color table.
pub open spec fn table16_rgb(i: int) -> RGB {
    if i == 0 {
        RGB { r: 0, g: 0, b: 0 }
    } else if i == 1 {
        RGB { r: 255, g: 0, b: 0 }
    } else if i == 2 {
        RGB { r: 0, g: 255, b: 0 }
    } else if i == 3 {
        RGB { r: 255, g: 255, b: 0 }
    } else if i == 4 {
        RGB { r: 0, g: 0, b: 255 }
    } else if i == 5 {
        RGB { r: 255, g: 0, b: 255 }
    } else if i == 6 {
        RGB { r: 0, g: 255, b: 255 }
    } else {
        RGB { r: 255, g: 255, b: 255 }
    }
}

/// The basic color of entry `i` of the basic color table.
pub open spec fn table16_color(i: int) -> Color16 {
    if i == 0 {
        Color16::Black
    } else if i == 1 {
        Color16::Red
    } else if i == 2 {
        Color16::Green
    } else if i == 3 {
        Color16::Yellow
    } else if i == 4 {
        Color16::Blue
    } else if i == 5 {
        Color16::Magenta
    } else if i == 6 {
        Color16::Cyan
    } else {
        Color16::White
    }
}

/// Entry `k` of the basic color table is nearest to `c`, and no earlier
/// entry is as near.
pub open spec fn is_first_nearest(c: RGB, k: int) -> bool {
    &&& 0 <= k < 8
    &&& forall|j: int|
        0 <= j < 8 ==> c.spec_dist_sq(&table16_rgb(k)) <= #[trigger] c.spec_dist_sq(&table16_rgb(j))
    &&& forall|j: int|
        0 <= j < k ==> c.spec_dist_sq(&table16_rgb(k)) < #[trigger] c.spec_dist_sq(&table16_rgb(j))
}

/// The basic color nearest to `c`; of equally near ones, the first in the table.
pub open spec fn nearest_color16(c: RGB) -> Color16 {
    table16_color(choose|k: int| is_first_nearest(c, k))
}

/// Only one table entry is the first nearest one.
pub proof fn lemma_first_nearest_unique(c: RGB, k1: int, k2: int)
    requires
        is_first_nearest(c, k1),
        is_first_nearest(c, k2),
    ensures
        k1 == k2,
{
    if k1 < k2 {
        assert(c.spec_dist_sq(&table16_rgb(k2)) < c.spec_dist_sq(&table16_rgb(k1)));
        assert(c.spec_dist_sq(&table16_rgb(k1)) <= c.spec_dist_sq(&table16_rgb(k2)));
    } else if k2 < k1 {
        assert(c.spec_dist_sq(&table16_rgb(k1)) < c.spec_dist_sq(&table16_rgb(k2)));
        assert(c.spec_dist_sq(&table16_rgb(k2)) <= c.spec_dist_sq(&table16_rgb(k1)));
    }
}

/// Entry `i` of the basic color table.
fn lookup_16(i: usize) -> (e: (RGB, Color16))
    requires
        i < 8,
    ensures
        e.0 == table16_rgb(i as int),
        e.1 == table16_color(i as int),
{
    match i {
        0 => (black(), Color16::Black),
        1 => (red(), Color16::Red),
        2 => (green(), Color16::Green),
        3 => (yellow(), Color16::Yellow),
        4 => (blue(), Color16::Blue),
        5 => (magenta(), Color16::Magenta),
        6 => (cyan(), Color16::Cyan),
        _ => (white(), Color16::White),
    }
}

impl Color16 {
    /// Quantizes a true color to the nearest basic color.
    pub fn from_rgb(c: RGB) -> (q: Color16)
        ensures
            q == nearest_color16(c),
    {
        let (_, first) = lookup_16(0);
        let mut my_color = first;
        let mut best: usize = 0;
        let mut dist = c.dist_sq(&black());
        let mut i: usize = 1;
        while i < 8
            invariant
                1 <= i <= 8,
                best < i,
                my_color == table16_color(best as int),
                dist == c.spec_dist_sq(&table16_rgb(best as int)),
                forall|j: int| 0 <= j < i ==> dist <= #[trigger] c.spec_dist_sq(&table16_rgb(j)),
                forall|j: int| 0 <= j < best ==> dist < #[trigger] c.spec_dist_sq(&table16_rgb(j)),
            decreases 8 - i,
        {
            let (rgb, color) = lookup_16(i);
            let newdist = c.dist_sq(&rgb);
            if newdist < dist {
                dist = newdist;
                my_color = color;
                best = i;
            }
            i = i + 1;
        }
        proof {
            assert(is_first_nearest(c, best as int));
            let k = choose|k: int| is_first_nearest(c, k);
            lemma_first_nearest_unique(c, k, best as int);
        }
        my_color
    }

    /// The basic color nearest to a palette color.
    pub fn from_color256(c: Color256) -> (q: Color16)
        requires
            has_cube_entry(c.code()),
        ensures
            q == nearest_color16(
                RGB {
                    r: (cube_of(c.code()).0 * 42) as u8,
                    g: (cube_of(c.code()).1 * 42) as u8,
                    b: (cube_of(c.code()).2 * 42) as u8,
                },
            ),
    {
        Color16::from_rgb(c.to_rgb())
    }
}

impl From<RGB> for Color16 {
    fn from(c: RGB) -> (q: Self) {
        Color16::from_rgb(c)
    }
}

impl vstd::std_specs::convert::FromSpecImpl<RGB> for Color16 {
    open spec fn obeys_from_spec() -> bool {
        true
    }

    open spec fn from_spec(c: RGB) -> Color16 {
        nearest_color16(c)
    }
}

impl From<u8> for Color256 {
    fn from(u: u8) -> (c: Self) {
        Color256(u)
    }
}

impl vstd::std_specs::convert::FromSpecImpl<u8> for Color256 {
    open spec fn obeys_from_spec() -> bool {
        true
    }

    open spec fn from_spec(u: u8) -> Color256 {
        Color256(u)
    }
}

/// A cube color's palette code reads back as the same cube color.
pub proof fn law_cube_code_round_trip(c: Color216)
    requires
        c.valid(),
    ensures
        16 <= c.code() <= 231,
        cube_of(c.code() as u8) == (c.r, c.g, c.b),
{
    let k = c.code() - 16;
    assert(k == c.r * 36 + c.g * 6 + c.b);
    assert(k / 36 == c.r && (k / 6) % 6 == c.g && k % 6 == c.b) by (nonlinear_arith)
        requires
            k == c.r * 36 + c.g * 6 + c.b,
            0 <= c.r < 6,
            0 <= c.g < 6,
            0 <= c.b < 6,
    ;
}

/// Blending none of a color keeps the first, blending all of it gives the
/// second, and blending a color with itself keeps it.
pub proof fn law_mix_ends(a: u8, c: u8, s: u8)
    requires
        a < 6,
        c < 6,
        s < 6,
    ensures
        mix_component(a, c, 0) == a,
        mix_component(a, c, 5) == c,
        mix_component(a, a, s) == a,
{
    assert(a * (5 - s) + a * s == a * 5) by (nonlinear_arith);
}

} // verus!
