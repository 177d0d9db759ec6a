use vstd::prelude::*;

use crate::color::{Color, spec_transparent};
use crate::region::Rect;
use vstd::arithmetic::div_mod::{lemma_fundamental_div_mod, lemma_fundamental_div_mod_converse};

verus! {

/// The mathematical content of a bitmap: its width `w`, its height `h`, and
/// its pixels as `h` rows of `w` colors each (`rows[y][x]`).
#[verifier::ext_equal]
pub struct Grid {
    pub w: int,
    pub h: int,
    pub rows: Seq<Seq<Color>>,
}

pub open spec fn abs(v: int) -> int {
    if v < 0 {
        -v
    } else {
        v
    }
}

/// Two cells that share an edge.
pub open spec fn adjacent(p: (int, int), q: (int, int)) -> bool {
    abs(p.0 - q.0) + abs(p.1 - q.1) == 1
}

/// Number of steps of the rasterized line from `a` to `b`: its longer extent.
pub open spec fn line_len(ax: int, ay: int, bx: int, by: int) -> int {
    let dx = abs(bx - ax);
    let dy = abs(by - ay);
    if dx >= dy {
        dx
    } else {
        dy
    }
}

/// `k * d / n`, rounded to the nearest integer (halves round up).
pub open spec fn round_step(k: int, d: int, n: int) -> int {
    if n <= 0 {
        0
    } else {
        (2 * k * d + n) / (2 * n)
    }
}

/// Coordinate `k` steps of `n` along from `a` towards `a + d`, rounded to
/// the nearest cell, halves away from `a`.
pub open spec fn step_toward(a: int, d: int, k: int, n: int) -> int {
    if d < 0 {
        a - round_step(k, -d, n)
    } else {
        a + round_step(k, d, n)
    }
}

/// The `k`-th cell of the line from `a` to `b`, for `0 <= k <= line_len`.
pub open spec fn line_cell(ax: int, ay: int, bx: int, by: int, k: int) -> (int, int) {
    let n = line_len(ax, ay, bx, by);
    (step_toward(ax, bx - ax, k, n), step_toward(ay, by - ay, k, n))
}

/// Whether one of the first `k` cells of the line from `a` to `b` is `(x, y)`.
pub open spec fn line_prefix_has(ax: int, ay: int, bx: int, by: int, k: int, x: int, y: int) -> bool {
    exists|i: int| 0 <= i < k && #[trigger] line_cell(ax, ay, bx, by, i) == (x, y)
}

/// Whether cell `(x, y)` is one of the cells of the line from `a` to `b`,
/// both ends included.
pub open spec fn on_line(ax: int, ay: int, bx: int, by: int, x: int, y: int) -> bool {
    line_prefix_has(ax, ay, bx, by, line_len(ax, ay, bx, by) + 1, x, y)
}

impl Grid {
    /// Sides within `i32`, byte view within memory, rows of equal length.
    pub open spec fn wf(self) -> bool {
        &&& 0 <= self.w <= i32::MAX
        &&& 0 <= self.h <= i32::MAX
        &&& self.w * self.h * 4 <= usize::MAX
        &&& self.rows.len() == self.h
        &&& forall|y: int| 0 <= y < self.h ==> (#[trigger] self.rows[y]).len() == self.w
    }

    pub open spec fn contains(self, x: int, y: int) -> bool {
        0 <= x < self.w && 0 <= y < self.h
    }

    pub open spec fn at(self, x: int, y: int) -> Color {
        self.rows[y][x]
    }

    /// The grid of the given sides whose pixel `(x, y)` is `f(x, y)`.
    pub open spec fn from_fn(w: int, h: int, f: spec_fn(int, int) -> Color) -> Grid {
        Grid { w, h, rows: Seq::new(h as nat, |y: int| Seq::new(w as nat, |x: int| f(x, y))) }
    }

    /// Every pixel `c`.
    pub open spec fn filled(w: int, h: int, c: Color) -> Grid {
        Grid::from_fn(w, h, |x: int, y: int| c)
    }

    /// Pixel `(px, py)` replaced by `c`.
    pub open spec fn set(self, px: int, py: int, c: Color) -> Grid {
        Grid::from_fn(
            self.w,
            self.h,
            |x: int, y: int|
                if x == px && y == py {
                    c
                } else {
                    self.at(x, y)
                },
        )
    }

    /// Same sides; the top-left rectangle shared with `other` is taken from
    /// `other`, the rest kept.
    pub open spec fn overlaid(self, other: Grid) -> Grid {
        Grid::from_fn(
            self.w,
            self.h,
            |x: int, y: int|
                if x < other.w && y < other.h {
                    other.at(x, y)
                } else {
                    self.at(x, y)
                },
        )
    }

    /// New sides, content kept where old and new overlap at the top left,
    /// transparent elsewhere.
    pub open spec fn resized(self, w: int, h: int) -> Grid {
        Grid::filled(w, h, spec_transparent()).overlaid(self)
    }

    /// The cells of the line from `(ax, ay)` to `(bx, by)` that lie in the
    /// grid set to `c`.
    pub open spec fn with_line(self, ax: int, ay: int, bx: int, by: int, c: Color) -> Grid {
        Grid::from_fn(
            self.w,
            self.h,
            |x: int, y: int|
                if on_line(ax, ay, bx, by, x, y) {
                    c
                } else {
                    self.at(x, y)
                },
        )
    }

    /// A chain of edge-sharing cells of the grid inside `r`, each of color
    /// `target`.
    pub open spec fn is_path(self, path: Seq<(int, int)>, target: Color, r: Rect) -> bool {
        &&& path.len() > 0
        &&& forall|i: int|
            0 <= i < path.len() ==> self.contains((#[trigger] path[i]).0, path[i].1)
                && self.at(path[i].0, path[i].1) == target && r.has(path[i].0, path[i].1)
        &&& forall|i: int| 0 <= i < path.len() - 1 ==> adjacent(#[trigger] path[i], path[i + 1])
    }

    /// Whether `(x, y)` can be reached from `(sx, sy)` through cells of the
    /// start's color inside `r`, moving between edge-sharing cells.
    pub open spec fn connected(self, sx: int, sy: int, x: int, y: int, r: Rect) -> bool {
        exists|path: Seq<(int, int)>|
            #[trigger] self.is_path(path, self.at(sx, sy), r) && path[0] == (sx, sy) && path.last() == (
            x,
            y,
            )
    }

    /// Flood fill: the 4-connected region of `(sx, sy)` within `r` set to `c`.
    pub open spec fn flood_filled(self, sx: int, sy: int, c: Color, r: Rect) -> Grid {
        Grid::from_fn(
            self.w,
            self.h,
            |x: int, y: int|
                if self.connected(sx, sy, x, y, r) {
                    c
                } else {
                    self.at(x, y)
                },
        )
    }
}

/// Channel `k` (0 = r, 1 = g, 2 = b, 3 = a) of `c`.
pub open spec fn channel(c: Color, k: int) -> u8 {
    if k == 0 {
        c.r
    } else if k == 1 {
        c.g
    } else if k == 2 {
        c.b
    } else {
        c.a
    }
}

/// Colors laid out as bytes, four per color, in the order r, g, b, a.
pub open spec fn channels(s: Seq<Color>) -> Seq<u8> {
    Seq::new((s.len() * 4) as nat, |i: int| channel(s[i / 4], i % 4))
}

/// Bytes read as colors, four bytes per color; a short tail is dropped.
pub open spec fn colors_of(b: Seq<u8>) -> Seq<Color> {
    Seq::new(
        (b.len() / 4) as nat,
        |k: int| Color { r: b[4 * k], g: b[4 * k + 1], b: b[4 * k + 2], a: b[4 * k + 3] },
    )
}

/// The grid whose pixel `(x, y)` is `s[y * w + x]`: `s` read row by row.
pub open spec fn grid_of_pixels(w: int, h: int, s: Seq<Color>) -> Grid {
    Grid::from_fn(w, h, |x: int, y: int| s[y * w + x])
}

/// The raw view of a bitmap of the given sides: row-major RGBA bytes.
pub open spec fn grid_of_bytes(w: int, h: int, b: Seq<u8>) -> Grid {
    grid_of_pixels(w, h, colors_of(b))
}

impl Grid {
    /// The pixels row by row.
    pub open spec fn pixels(self) -> Seq<Color> {
        Seq::new((self.w * self.h) as nat, |k: int| self.at(k % self.w, k / self.w))
    }

    /// The pixels as row-major RGBA bytes, without padding.
    pub open spec fn bytes(self) -> Seq<u8> {
        channels(self.pixels())
    }
}

/// Row-major indexing of a `w` by `h` grid is in range and can be undone.
pub proof fn lemma_index(w: int, h: int, x: int, y: int)
    requires
        0 <= x < w,
        0 <= y < h,
    ensures
        0 <= y * w + x < w * h,
        (y * w + x) % w == x,
        (y * w + x) / w == y,
{
    assert(0 <= y * w + x < w * h) by (nonlinear_arith)
        requires
            0 <= x < w,
            0 <= y < h,
    ;
    lemma_fundamental_div_mod_converse(y * w + x, w, y, x);
}

/// Every row-major index of a `w` by `h` grid names a cell of it.
pub proof fn lemma_unindex(w: int, h: int, k: int)
    requires
        0 <= k < w * h,
        w >= 0,
        h >= 0,
    ensures
        w > 0,
        0 <= k % w < w,
        0 <= k / w < h,
        (k / w) * w + k % w == k,
{
    assert(w > 0) by (nonlinear_arith)
        requires
            0 <= k < w * h,
            w >= 0,
            h >= 0,
    ;
    lemma_fundamental_div_mod(k, w);
    let q = k / w;
    let r = k % w;
    assert(0 <= r < w);
    assert(k == w * q + r);
    assert(0 <= q < h) by (nonlinear_arith)
        requires
            k == w * q + r,
            0 <= r < w,
            0 <= k < w * h,
            w > 0,
    ;
    assert(q * w == w * q) by (nonlinear_arith);
}

/// A grid read row by row and laid out again is the same grid.
pub proof fn lemma_pixels_round_trip(g: Grid)
    requires
        g.wf(),
    ensures
        grid_of_pixels(g.w, g.h, g.pixels()) == g,
{
    let g2 = grid_of_pixels(g.w, g.h, g.pixels());
    lemma_from_fn(g.w, g.h, |x: int, y: int| g.pixels()[y * g.w + x]);
    assert forall|x: int, y: int| g2.contains(x, y) implies #[trigger] g2.at(x, y) == g.at(x, y) by {
        lemma_index(g.w, g.h, x, y);
    }
    lemma_ext(g2, g);
}

/// Pixels laid out row by row and read back are the same pixels.
pub proof fn lemma_grid_of_pixels(w: int, h: int, s: Seq<Color>)
    requires
        0 <= w <= i32::MAX,
        0 <= h <= i32::MAX,
        w * h * 4 <= usize::MAX,
        s.len() == w * h,
    ensures
        grid_of_pixels(w, h, s).wf(),
        grid_of_pixels(w, h, s).w == w,
        grid_of_pixels(w, h, s).h == h,
        grid_of_pixels(w, h, s).pixels() == s,
{
    let g = grid_of_pixels(w, h, s);
    lemma_from_fn(w, h, |x: int, y: int| s[y * w + x]);
    assert forall|k: int| 0 <= k < w * h implies #[trigger] g.pixels()[k] == s[k] by {
        lemma_unindex(w, h, k);
    }
    assert(g.pixels() =~= s);
}

/// Colors laid out as bytes and read back are the same colors.
pub proof fn lemma_colors_round_trip(s: Seq<Color>)
    ensures
        colors_of(channels(s)) == s,
{
    assert(colors_of(channels(s)) =~= s);
}

/// Bytes of the right length read as a grid and laid out again are the same bytes.
pub proof fn lemma_bytes_round_trip(w: int, h: int, b: Seq<u8>)
    requires
        0 <= w <= i32::MAX,
        0 <= h <= i32::MAX,
        w * h * 4 <= usize::MAX,
        b.len() == w * h * 4,
    ensures
        grid_of_bytes(w, h, b).wf(),
        grid_of_bytes(w, h, b).bytes() == b,
{
    lemma_grid_of_pixels(w, h, colors_of(b));
    assert(channels(colors_of(b)) =~= b);
}

/// A grid laid out as bytes and read back is the same grid.
pub proof fn lemma_grid_bytes_round_trip(g: Grid)
    requires
        g.wf(),
    ensures
        grid_of_bytes(g.w, g.h, g.bytes()) == g,
        g.bytes().len() == g.w * g.h * 4,
{
    lemma_colors_round_trip(g.pixels());
    lemma_pixels_round_trip(g);
}

pub proof fn lemma_from_fn(w: int, h: int, f: spec_fn(int, int) -> Color)
    requires
        0 <= w <= i32::MAX,
        0 <= h <= i32::MAX,
        w * h * 4 <= usize::MAX,
    ensures
        Grid::from_fn(w, h, f).wf(),
        Grid::from_fn(w, h, f).w == w,
        Grid::from_fn(w, h, f).h == h,
        forall|x: int, y: int|
            0 <= x < w && 0 <= y < h ==> #[trigger] Grid::from_fn(w, h, f).at(x, y) == f(x, y),
{
}

/// Two well-formed grids with the same sides and the same pixels are equal.
pub proof fn lemma_ext(g1: Grid, g2: Grid)
    requires
        g1.wf(),
        g2.wf(),
        g1.w == g2.w,
        g1.h == g2.h,
        forall|x: int, y: int| g1.contains(x, y) ==> #[trigger] g1.at(x, y) == g2.at(x, y),
    ensures
        g1 == g2,
{
    assert forall|y: int| 0 <= y < g1.h implies g1.rows[y] =~= g2.rows[y] by {
        assert forall|x: int| 0 <= x < g1.w implies g1.rows[y][x] == g2.rows[y][x] by {
            assert(g1.at(x, y) == g2.at(x, y));
        }
    }
    assert(g1.rows =~= g2.rows);
}


/// The `d`-th of the four cells that share an edge with `p`.
pub open spec fn neighbor(p: (int, int), d: int) -> (int, int) {
    if d == 0 {
        (p.0 + 1, p.1)
    } else if d == 1 {
        (p.0 - 1, p.1)
    } else if d == 2 {
        (p.0, p.1 + 1)
    } else {
        (p.0, p.1 - 1)
    }
}

/// How many times `c` occurs in `s`.
pub open spec fn count(s: Seq<Color>, c: Color) -> nat
    decreases s.len(),
{
    if s.len() == 0 {
        0
    } else {
        count(s.drop_last(), c) + if s.last() == c {
            1nat
        } else {
            0nat
        }
    }
}

/// Replacing one occurrence of `c` by another color removes one from its count.
pub proof fn lemma_count_update(s: Seq<Color>, i: int, c: Color, v: Color)
    requires
        0 <= i < s.len(),
        s[i] == c,
        v != c,
    ensures
        count(s.update(i, v), c) + 1 == count(s, c),
    decreases s.len(),
{
    let t = s.update(i, v);
    if i == s.len() - 1 {
        assert(t.drop_last() =~= s.drop_last());
    } else {
        lemma_count_update(s.drop_last(), i, c, v);
        assert(t.drop_last() =~= s.drop_last().update(i, v));
    }
}

/// Setting a pixel changes one entry of the row-by-row pixels.
pub proof fn lemma_pixels_set(g: Grid, x: int, y: int, c: Color)
    requires
        g.wf(),
        g.contains(x, y),
    ensures
        g.set(x, y, c).pixels() == g.pixels().update(y * g.w + x, c),
        0 <= y * g.w + x < g.pixels().len(),
        g.pixels()[y * g.w + x] == g.at(x, y),
{
    lemma_index(g.w, g.h, x, y);
    lemma_from_fn(g.w, g.h, |i: int, j: int| if i == x && j == y { c } else { g.at(i, j) });
    let a = g.set(x, y, c).pixels();
    let b = g.pixels().update(y * g.w + x, c);
    assert forall|k: int| 0 <= k < g.w * g.h implies a[k] == b[k] by {
        lemma_unindex(g.w, g.h, k);
        if k % g.w == x && k / g.w == y {
            assert(k == y * g.w + x);
        }
        if k == y * g.w + x {
            lemma_index(g.w, g.h, x, y);
        }
    }
    assert(a =~= b);
}

/// A cell is connected to itself when it lies in the grid.
pub proof fn lemma_connected_start(g: Grid, sx: int, sy: int, r: Rect)
    requires
        g.contains(sx, sy),
        r.has(sx, sy),
    ensures
        g.connected(sx, sy, sx, sy, r),
{
    let path = seq![(sx, sy)];
    assert(g.is_path(path, g.at(sx, sy), r));
}

/// A connected cell's neighbor of the start's color is connected too.
pub proof fn lemma_connected_step(
    g: Grid,
    sx: int,
    sy: int,
    p: (int, int),
    q: (int, int),
    r: Rect,
)
    requires
        g.connected(sx, sy, p.0, p.1, r),
        adjacent(p, q),
        g.contains(q.0, q.1),
        g.at(q.0, q.1) == g.at(sx, sy),
        r.has(q.0, q.1),
    ensures
        g.connected(sx, sy, q.0, q.1, r),
{
    let path = choose|path: Seq<(int, int)>|
        #[trigger] g.is_path(path, g.at(sx, sy), r) && path[0] == (sx, sy) && path.last() == (
        p.0,
        p.1,
        );
    let path2 = path.push(q);
    assert forall|i: int| 0 <= i < path2.len() - 1 implies adjacent(
        #[trigger] path2[i],
        path2[i + 1],
    ) by {
        if i < path.len() - 1 {
            assert(path2[i] == path[i] && path2[i + 1] == path[i + 1]);
        }
    }
    assert(g.is_path(path2, g.at(sx, sy), r));
}

/// A connected cell has the start's color.
pub proof fn lemma_connected_color(g: Grid, sx: int, sy: int, x: int, y: int, r: Rect)
    requires
        g.connected(sx, sy, x, y, r),
    ensures
        g.contains(x, y),
        g.at(x, y) == g.at(sx, sy),
        r.has(x, y),
{
    let path = choose|path: Seq<(int, int)>|
        #[trigger] g.is_path(path, g.at(sx, sy), r) && path[0] == (sx, sy) && path.last() == (x, y);
    assert(path[path.len() - 1] == (x, y));
}

spec fn closed_under(g: Grid, c: Color, r: Rect, done: spec_fn(int, int) -> bool) -> bool {
    forall|i: int, j: int, d: int|
        #![trigger done(i, j), neighbor((i, j), d)]
        g.contains(i, j) && done(i, j) && 0 <= d < 4 && g.contains(
            neighbor((i, j), d).0,
            neighbor((i, j), d).1,
        ) && g.at(neighbor((i, j), d).0, neighbor((i, j), d).1) == c && r.has(
            neighbor((i, j), d).0,
            neighbor((i, j), d).1,
        ) ==> done(
            neighbor((i, j), d).0,
            neighbor((i, j), d).1,
        )
}

proof fn lemma_path_done(
    g: Grid,
    c: Color,
    r: Rect,
    done: spec_fn(int, int) -> bool,
    path: Seq<(int, int)>,
    t: int,
)
    requires
        g.is_path(path, c, r),
        done(path[0].0, path[0].1),
        closed_under(g, c, r, done),
        0 <= t < path.len(),
    ensures
        done(path[t].0, path[t].1),
    decreases t,
{
    if t > 0 {
        lemma_path_done(g, c, r, done, path, t - 1);
        let p = path[t - 1];
        let q = path[t];
        assert(adjacent(path[t - 1], path[t - 1 + 1]));
        assert(g.contains(p.0, p.1));
        assert(g.contains(q.0, q.1) && g.at(q.0, q.1) == c && r.has(q.0, q.1));
        let d: int = if q == (p.0 + 1, p.1) {
            0
        } else if q == (p.0 - 1, p.1) {
            1
        } else if q == (p.0, p.1 + 1) {
            2
        } else {
            3
        };
        assert(neighbor(p, d) == q);
        assert(done(p.0, p.1));
        assert(done(neighbor((p.0, p.1), d).0, neighbor((p.0, p.1), d).1));
    }
}

/// A set of cells that holds the start and every same-colored neighbor of
/// each of its cells holds every connected cell.
pub proof fn lemma_closed_covers(
    g: Grid,
    sx: int,
    sy: int,
    r: Rect,
    done: spec_fn(int, int) -> bool,
)
    requires
        done(sx, sy),
        forall|i: int, j: int, d: int|
            #![trigger done(i, j), neighbor((i, j), d)]
            g.contains(i, j) && done(i, j) && 0 <= d < 4 && g.contains(
                neighbor((i, j), d).0,
                neighbor((i, j), d).1,
            ) && g.at(neighbor((i, j), d).0, neighbor((i, j), d).1) == g.at(sx, sy) && r.has(
                neighbor((i, j), d).0,
                neighbor((i, j), d).1,
            ) ==> done(neighbor((i, j), d).0, neighbor((i, j), d).1),
    ensures
        forall|x: int, y: int| g.connected(sx, sy, x, y, r) ==> #[trigger] done(x, y),
{
    assert forall|x: int, y: int| g.connected(sx, sy, x, y, r) implies #[trigger] done(x, y) by {
        let path = choose|path: Seq<(int, int)>|
            #[trigger] g.is_path(path, g.at(sx, sy), r) && path[0] == (sx, sy) && path.last() == (
            x,
            y,
            );
        lemma_path_done(g, g.at(sx, sy), r, done, path, path.len() - 1);
    }
}

} // verus!
