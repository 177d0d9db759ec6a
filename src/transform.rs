use vstd::prelude::*;

use crate::bitmap::Bitmap;
use crate::canvas::Canvas;
use crate::color::{Color, spec_transparent};
use crate::grid::{Grid, lemma_ext, lemma_from_fn};
use crate::primitives::Point;

verus! {

/// Whole-canvas recoloring operations.
#[derive(Clone, Copy, Debug, PartialEq, Eq, Structural, Hash)]
pub enum Transform {
    /// Every non-transparent pixel takes the main color's red, green and
    /// blue, keeping its own alpha.
    Silhouete,
    /// Every pixel takes the red, green and blue of the palette color
    /// nearest to it, keeping its own alpha.
    ApplyPalette,
}

/// Squared Euclidean distance between two colors over red, green and blue.
pub open spec fn rgb_distance(c1: Color, c2: Color) -> int {
    (c1.r - c2.r) * (c1.r - c2.r) + (c1.g - c2.g) * (c1.g - c2.g) + (c1.b - c2.b) * (c1.b - c2.b)
}

/// Index of the color nearest to `c` among the first `n` of `pal`; the
/// first one wins a tie.
pub open spec fn nearest_index(pal: Seq<Color>, c: Color, n: int) -> int
    decreases n,
{
    if n <= 1 {
        0
    } else {
        let b = nearest_index(pal, c, n - 1);
        if rgb_distance(pal[n - 1], c) < rgb_distance(pal[b], c) {
            n - 1
        } else {
            b
        }
    }
}

/// What `t` turns color `c` into.
pub open spec fn recolored(t: Transform, c: Color, main: Color, pal: Seq<Color>) -> Color {
    match t {
        Transform::Silhouete => if c == spec_transparent() {
            c
        } else {
            Color { r: main.r, g: main.g, b: main.b, a: c.a }
        },
        Transform::ApplyPalette => if pal.len() == 0 {
            c
        } else {
            let p = pal[nearest_index(pal, c, pal.len() as int)];
            Color { r: p.r, g: p.g, b: p.b, a: c.a }
        },
    }
}

impl Grid {
    /// Every pixel recolored by `t`.
    pub open spec fn transformed(self, t: Transform, main: Color, pal: Seq<Color>) -> Grid {
        Grid::from_fn(self.w, self.h, |x: int, y: int| recolored(t, self.at(x, y), main, pal))
    }
}

fn channel_distance(a: u8, b: u8) -> (r: u32)
    ensures
        r == (a - b) * (a - b),
{
    let d: u32 = if a >= b {
        (a - b) as u32
    } else {
        (b - a) as u32
    };
    assert(d * d <= 65025) by (nonlinear_arith)
        requires
            d <= 255,
    ;
    assert(d * d == (a - b) * (a - b)) by (nonlinear_arith)
        requires
            d == a - b || d == b - a,
    ;
    d * d
}

/// `rgb_distance(c1, c2)`.
pub fn distance(c1: Color, c2: Color) -> (r: u32)
    ensures
        r == rgb_distance(c1, c2),
{
    let dr = channel_distance(c1.r, c2.r);
    let dg = channel_distance(c1.g, c2.g);
    let db = channel_distance(c1.b, c2.b);
    assert(dr <= 65025 && dg <= 65025 && db <= 65025) by (nonlinear_arith)
        requires
            dr == (c1.r - c2.r) * (c1.r - c2.r),
            dg == (c1.g - c2.g) * (c1.g - c2.g),
            db == (c1.b - c2.b) * (c1.b - c2.b),
            0 <= c1.r <= 255,
            0 <= c2.r <= 255,
            0 <= c1.g <= 255,
            0 <= c2.g <= 255,
            0 <= c1.b <= 255,
            0 <= c2.b <= 255,
    ;
    dr + dg + db
}

/// The color of `pal` nearest to `c`, the first one on a tie.
pub fn nearest(pal: &Vec<Color>, c: Color) -> (r: Color)
    requires
        pal@.len() > 0,
    ensures
        r == pal@[nearest_index(pal@, c, pal@.len() as int)],
{
    let mut best: usize = 0;
    let mut best_d = distance(pal[0], c);
    let mut i: usize = 1;
    while i < pal.len()
        invariant
            1 <= i <= pal@.len(),
            best == nearest_index(pal@, c, i as int),
            best < i,
            best_d == rgb_distance(pal@[best as int], c),
        decreases pal@.len() - i,
    {
        let d = distance(pal[i], c);
        if d < best_d {
            best = i;
            best_d = d;
        }
        i = i + 1;
    }
    pal[best]
}

/// `recolored(t, c, main, pal@)`.
pub fn recolor(t: Transform, c: Color, main: Color, pal: &Vec<Color>) -> (r: Color)
    ensures
        r == recolored(t, c, main, pal@),
{
    match t {
        Transform::Silhouete => {
            if c == (Color { r: 0, g: 0, b: 0, a: 0 }) {
                c
            } else {
                Color { r: main.r, g: main.g, b: main.b, a: c.a }
            }
        },
        Transform::ApplyPalette => {
            if pal.len() == 0 {
                c
            } else {
                let p = nearest(pal, c);
                Color { r: p.r, g: p.g, b: p.b, a: c.a }
            }
        },
    }
}

impl<IMG: Bitmap> Canvas<IMG> {
    /// Recolors every pixel by `t`, with `main` as the silhouette color and
    /// `pal` as the palette.
    pub fn apply_transform(&mut self, t: Transform, main: Color, pal: &Vec<Color>)
        requires
            old(self).wf(),
        ensures
            final(self).wf(),
            final(self)@ == old(self)@.transformed(t, main, pal@),
    {
        let ghost g0 = self@;
        let w = self.width();
        let h = self.height();
        let mut y: i32 = 0;
        while y < h
            invariant
                0 <= y <= h,
                w == g0.w,
                h == g0.h,
                g0.wf(),
                self.wf(),
                self@.w == g0.w,
                self@.h == g0.h,
                forall|i: int, j: int|
                    g0.contains(i, j) ==> #[trigger] self@.at(i, j) == if j < y {
                        recolored(t, g0.at(i, j), main, pal@)
                    } else {
                        g0.at(i, j)
                    },
            decreases h - y,
        {
            let mut x: i32 = 0;
            while x < w
                invariant
                    0 <= x <= w,
                    0 <= y < h,
                    w == g0.w,
                    h == g0.h,
                    g0.wf(),
                    self.wf(),
                    self@.w == g0.w,
                    self@.h == g0.h,
                    forall|i: int, j: int|
                        g0.contains(i, j) ==> #[trigger] self@.at(i, j) == if j < y || (j == y && i
                            < x) {
                            recolored(t, g0.at(i, j), main, pal@)
                        } else {
                            g0.at(i, j)
                        },
                decreases w - x,
            {
                let p = Point { x, y };
                let c = recolor(t, self.pixel(p), main, pal);
                let ghost before = self@;
                self.set_pixel(p, c);
                proof {
                    lemma_from_fn(
                        before.w,
                        before.h,
                        |i: int, j: int| if i == x && j == y { c } else { before.at(i, j) },
                    );
                }
                x = x + 1;
            }
            y = y + 1;
        }
        proof {
            lemma_from_fn(g0.w, g0.h, |i: int, j: int| recolored(t, g0.at(i, j), main, pal@));
            lemma_ext(self@, g0.transformed(t, main, pal@));
        }
    }
}

} // verus!
