use vstd::prelude::*;

use crate::bitmap::Bitmap;
use crate::canvas::Canvas;
use crate::color::{Color, spec_transparent, transparent};
use crate::grid::{Grid, lemma_ext, lemma_from_fn};
use crate::primitives::Point;

verus! {

/// An axis-aligned rectangle of cells, corners included: `x0 <= x <= x1`,
/// `y0 <= y <= y1`.
#[derive(Clone, Copy, Debug, PartialEq, Eq, Structural, Hash)]
pub struct Rect {
    pub x0: i32,
    pub y0: i32,
    pub x1: i32,
    pub y1: i32,
}

impl Rect {
    pub open spec fn has(self, x: int, y: int) -> bool {
        self.x0 <= x <= self.x1 && self.y0 <= y <= self.y1
    }

    /// Whether `(x, y)` lies on the rectangle's border.
    pub open spec fn on_border(self, x: int, y: int) -> bool {
        self.has(x, y) && (x == self.x0 || x == self.x1 || y == self.y0 || y == self.y1)
    }

    /// The rectangle spanned by two corners, in either order.
    pub open spec fn spanned(a: Point, b: Point) -> Rect {
        Rect {
            x0: if a.x <= b.x { a.x } else { b.x },
            y0: if a.y <= b.y { a.y } else { b.y },
            x1: if a.x <= b.x { b.x } else { a.x },
            y1: if a.y <= b.y { b.y } else { a.y },
        }
    }

    /// `spanned(a, b)`.
    pub fn from_corners(a: Point, b: Point) -> (r: Rect)
        ensures
            r == Rect::spanned(a, b),
    {
        Rect {
            x0: if a.x <= b.x { a.x } else { b.x },
            y0: if a.y <= b.y { a.y } else { b.y },
            x1: if a.x <= b.x { b.x } else { a.x },
            y1: if a.y <= b.y { b.y } else { a.y },
        }
    }

    /// Whether `p` lies in the rectangle.
    pub fn contains(&self, p: Point) -> (r: bool)
        ensures
            r == self.has(p.x as int, p.y as int),
    {
        self.x0 <= p.x && p.x <= self.x1 && self.y0 <= p.y && p.y <= self.y1
    }

    fn border_has(&self, x: i32, y: i32) -> (r: bool)
        ensures
            r == self.on_border(x as int, y as int),
    {
        self.x0 <= x && x <= self.x1 && self.y0 <= y && y <= self.y1 && (x == self.x0 || x
            == self.x1 || y == self.y0 || y == self.y1)
    }

    fn has_i64(&self, x: i64, y: i64) -> (r: bool)
        ensures
            r == self.has(x as int, y as int),
    {
        self.x0 as i64 <= x && x <= self.x1 as i64 && self.y0 as i64 <= y && y <= self.y1 as i64
    }
}

/// Whether cell `(x, y)` lies in the ellipse inscribed in `r`: with
/// `a = x1 - x0` and `b = y1 - y0`, the doubled offsets `u = 2x - x0 - x1`
/// and `v = 2y - y0 - y1` satisfy `u²b² + v²a² <= a²b²`.
pub open spec fn in_ellipse(r: Rect, x: int, y: int) -> bool {
    let a = r.x1 - r.x0;
    let b = r.y1 - r.y0;
    let u = 2 * x - r.x0 - r.x1;
    let v = 2 * y - r.y0 - r.y1;
    r.has(x, y) && u * u * (b * b) + v * v * (a * a) <= a * a * (b * b)
}

/// Whether cell `(x, y)` is on the outline of that ellipse: in it, with an
/// edge-sharing cell outside it.
pub open spec fn on_ellipse(r: Rect, x: int, y: int) -> bool {
    in_ellipse(r, x, y) && (!in_ellipse(r, x + 1, y) || !in_ellipse(r, x - 1, y) || !in_ellipse(
        r,
        x,
        y + 1,
    ) || !in_ellipse(r, x, y - 1))
}

impl Rect {
    /// `in_ellipse(self, x, y)`, for a rectangle with non-negative
    /// corners in `i32`.
    fn ellipse_has(&self, x: i64, y: i64) -> (r: bool)
        requires
            0 <= self.x0 <= self.x1,
            0 <= self.y0 <= self.y1,
        ensures
            r == in_ellipse(*self, x as int, y as int),
    {
        if !(self.x0 as i64 <= x && x <= self.x1 as i64 && self.y0 as i64 <= y && y
            <= self.y1 as i64) {
            return false;
        }
        let a: i128 = self.x1 as i128 - self.x0 as i128;
        let b: i128 = self.y1 as i128 - self.y0 as i128;
        let u: i128 = 2 * (x as i128) - self.x0 as i128 - self.x1 as i128;
        let v: i128 = 2 * (y as i128) - self.y0 as i128 - self.y1 as i128;
        assert(-a <= u <= a && -b <= v <= b);
        let ghost lim: int = 0x8000_0000;
        assert(0 <= u * u <= a * a && a * a <= lim * lim) by (nonlinear_arith)
            requires
                -a <= u <= a,
                0 <= a <= lim,
        ;
        assert(0 <= v * v <= b * b && b * b <= lim * lim) by (nonlinear_arith)
            requires
                -b <= v <= b,
                0 <= b <= lim,
        ;
        let aa: i128 = a * a;
        let bb: i128 = b * b;
        let uu: i128 = u * u;
        let vv: i128 = v * v;
        assert(uu * bb <= aa * bb && vv * aa <= aa * bb && aa * bb <= lim * lim * (lim * lim))
            by (nonlinear_arith)
            requires
                0 <= uu <= aa,
                0 <= vv <= bb,
                aa <= lim * lim,
                bb <= lim * lim,
        ;
        assert(0 <= uu * bb && 0 <= vv * aa) by (nonlinear_arith)
            requires
                0 <= uu,
                0 <= vv,
                0 <= aa,
                0 <= bb,
        ;
        uu * bb + vv * aa <= aa * bb
    }

    fn ellipse_border_has(&self, x: i32, y: i32) -> (r: bool)
        requires
            0 <= self.x0 <= self.x1,
            0 <= self.y0 <= self.y1,
        ensures
            r == on_ellipse(*self, x as int, y as int),
    {
        let x = x as i64;
        let y = y as i64;
        self.ellipse_has(x, y) && (!self.ellipse_has(x + 1, y) || !self.ellipse_has(x - 1, y)
            || !self.ellipse_has(x, y + 1) || !self.ellipse_has(x, y - 1))
    }
}

impl Grid {
    /// The outline of the ellipse inscribed in `r` drawn in `c`.
    pub open spec fn with_ellipse(self, r: Rect, c: Color) -> Grid {
        Grid::from_fn(
            self.w,
            self.h,
            |x: int, y: int|
                if on_ellipse(r, x, y) {
                    c
                } else {
                    self.at(x, y)
                },
        )
    }

    /// The border of `r` drawn in `c`, clipped to the grid.
    pub open spec fn with_rect(self, r: Rect, c: Color) -> Grid {
        Grid::from_fn(
            self.w,
            self.h,
            |x: int, y: int|
                if r.on_border(x, y) {
                    c
                } else {
                    self.at(x, y)
                },
        )
    }

    /// Inside `r` the pixels of `new`, outside it those of `self`.
    pub open spec fn masked(self, new: Grid, r: Rect) -> Grid {
        Grid::from_fn(
            self.w,
            self.h,
            |x: int, y: int|
                if r.has(x, y) {
                    new.at(x, y)
                } else {
                    self.at(x, y)
                },
        )
    }

    /// The pixels of `r` moved by `(dx, dy)`, as a cut and paste: the moved
    /// pixels overwrite their destination, the vacated ones become
    /// transparent, and what would land outside the grid is dropped.
    pub open spec fn moved(self, r: Rect, dx: int, dy: int) -> Grid {
        Grid::from_fn(
            self.w,
            self.h,
            |x: int, y: int|
                if r.has(x - dx, y - dy) && self.contains(x - dx, y - dy) {
                    self.at(x - dx, y - dy)
                } else if r.has(x, y) {
                    spec_transparent()
                } else {
                    self.at(x, y)
                },
        )
    }
}

impl<IMG: Bitmap> Canvas<IMG> {
    /// Draws the border of `r` in `color`; cells outside the canvas are
    /// skipped.
    pub fn rectangle(&mut self, r: Rect, color: Color)
        requires
            old(self).wf(),
        ensures
            final(self).wf(),
            final(self)@ == old(self)@.with_rect(r, color),
    {
        let ghost g0 = self@;
        let w = self.width();
        let h = self.height();
        let mut y: i32 = 0;
        while y < h
            invariant
                0 <= y <= h,
                w == g0.w,
                h == g0.h,
                g0.wf(),
                self.wf(),
                self@.w == g0.w,
                self@.h == g0.h,
                forall|i: int, j: int|
                    g0.contains(i, j) ==> #[trigger] self@.at(i, j) == if j < y && r.on_border(i, j) {
                        color
                    } else {
                        g0.at(i, j)
                    },
            decreases h - y,
        {
            let mut x: i32 = 0;
            while x < w
                invariant
                    0 <= x <= w,
                    0 <= y < h,
                    w == g0.w,
                    h == g0.h,
                    g0.wf(),
                    self.wf(),
                    self@.w == g0.w,
                    self@.h == g0.h,
                    forall|i: int, j: int|
                        g0.contains(i, j) ==> #[trigger] self@.at(i, j) == if (j < y || (j == y && i
                            < x)) && r.on_border(i, j) {
                            color
                        } else {
                            g0.at(i, j)
                        },
                decreases w - x,
            {
                if r.border_has(x, y) {
                    let ghost before = self@;
                    self.set_pixel(Point { x, y }, color);
                    proof {
                        lemma_from_fn(
                            before.w,
                            before.h,
                            |i: int, j: int| if i == x && j == y { color } else { before.at(i, j) },
                        );
                    }
                }
                x = x + 1;
            }
            y = y + 1;
        }
        proof {
            lemma_from_fn(
                g0.w,
                g0.h,
                |i: int, j: int| if r.on_border(i, j) { color } else { g0.at(i, j) },
            );
            lemma_ext(self@, g0.with_rect(r, color));
        }
    }

    /// Draws the outline of the ellipse inscribed in `r` in `color`.
    pub fn ellipse(&mut self, r: Rect, color: Color)
        requires
            old(self).wf(),
            0 <= r.x0 <= r.x1,
            0 <= r.y0 <= r.y1,
        ensures
            final(self).wf(),
            final(self)@ == old(self)@.with_ellipse(r, color),
    {
        let ghost g0 = self@;
        let w = self.width();
        let h = self.height();
        let mut y: i32 = 0;
        while y < h
            invariant
                0 <= y <= h,
                0 <= r.x0 <= r.x1,
                0 <= r.y0 <= r.y1,
                w == g0.w,
                h == g0.h,
                g0.wf(),
                self.wf(),
                self@.w == g0.w,
                self@.h == g0.h,
                forall|i: int, j: int|
                    g0.contains(i, j) ==> #[trigger] self@.at(i, j) == if j < y && on_ellipse(r, i, j) {
                        color
                    } else {
                        g0.at(i, j)
                    },
            decreases h - y,
        {
            let mut x: i32 = 0;
            while x < w
                invariant
                    0 <= x <= w,
                    0 <= y < h,
                    0 <= r.x0 <= r.x1,
                    0 <= r.y0 <= r.y1,
                    w == g0.w,
                    h == g0.h,
                    g0.wf(),
                    self.wf(),
                    self@.w == g0.w,
                    self@.h == g0.h,
                    forall|i: int, j: int|
                        g0.contains(i, j) ==> #[trigger] self@.at(i, j) == if (j < y || (j == y && i
                            < x)) && on_ellipse(r, i, j) {
                            color
                        } else {
                            g0.at(i, j)
                        },
                decreases w - x,
            {
                if r.ellipse_border_has(x, y) {
                    let ghost before = self@;
                    self.set_pixel(Point { x, y }, color);
                    proof {
                        lemma_from_fn(
                            before.w,
                            before.h,
                            |i: int, j: int| if i == x && j == y { color } else { before.at(i, j) },
                        );
                    }
                }
                x = x + 1;
            }
            y = y + 1;
        }
        proof {
            lemma_from_fn(
                g0.w,
                g0.h,
                |i: int, j: int| if on_ellipse(r, i, j) { color } else { g0.at(i, j) },
            );
            lemma_ext(self@, g0.with_ellipse(r, color));
        }
    }

    /// Puts back the pixels of `prev` outside `r`, keeping those inside.
    pub fn restore_outside(&mut self, prev: &Canvas<IMG>, r: Rect)
        requires
            old(self).wf(),
            prev.wf(),
            prev@.w == old(self)@.w,
            prev@.h == old(self)@.h,
        ensures
            final(self).wf(),
            final(self)@ == prev@.masked(old(self)@, r),
    {
        let ghost g0 = self@;
        let w = self.width();
        let h = self.height();
        let mut y: i32 = 0;
        while y < h
            invariant
                0 <= y <= h,
                w == g0.w,
                h == g0.h,
                g0.wf(),
                prev.wf(),
                prev@.w == g0.w,
                prev@.h == g0.h,
                self.wf(),
                self@.w == g0.w,
                self@.h == g0.h,
                forall|i: int, j: int|
                    g0.contains(i, j) ==> #[trigger] self@.at(i, j) == if j < y && !r.has(i, j) {
                        prev@.at(i, j)
                    } else {
                        g0.at(i, j)
                    },
            decreases h - y,
        {
            let mut x: i32 = 0;
            while x < w
                invariant
                    0 <= x <= w,
                    0 <= y < h,
                    w == g0.w,
                    h == g0.h,
                    g0.wf(),
                    prev.wf(),
                    prev@.w == g0.w,
                    prev@.h == g0.h,
                    self.wf(),
                    self@.w == g0.w,
                    self@.h == g0.h,
                    forall|i: int, j: int|
                        g0.contains(i, j) ==> #[trigger] self@.at(i, j) == if (j < y || (j == y && i
                            < x)) && !r.has(i, j) {
                            prev@.at(i, j)
                        } else {
                            g0.at(i, j)
                        },
                decreases w - x,
            {
                let p = Point { x, y };
                if !r.contains(p) {
                    let c = prev.pixel(p);
                    let ghost before = self@;
                    self.set_pixel(p, c);
                    proof {
                        lemma_from_fn(
                            before.w,
                            before.h,
                            |i: int, j: int| if i == x && j == y { c } else { before.at(i, j) },
                        );
                    }
                }
                x = x + 1;
            }
            y = y + 1;
        }
        proof {
            let o = prev@;
            lemma_from_fn(
                o.w,
                o.h,
                |i: int, j: int| if r.has(i, j) { g0.at(i, j) } else { o.at(i, j) },
            );
            lemma_ext(self@, o.masked(g0, r));
        }
    }

    /// Moves the pixels of `r` by `(dx, dy)` as `Grid::moved` says.
    pub fn move_region(&mut self, r: Rect, dx: i64, dy: i64)
        requires
            old(self).wf(),
            -0x1_0000_0000 <= dx <= 0x1_0000_0000,
            -0x1_0000_0000 <= dy <= 0x1_0000_0000,
        ensures
            final(self).wf(),
            final(self)@ == old(self)@.moved(r, dx as int, dy as int),
    {
        let ghost g0 = self@;
        let src = self.duplicate();
        let w = self.width();
        let h = self.height();
        let mut y: i32 = 0;
        while y < h
            invariant
                0 <= y <= h,
                w == g0.w,
                h == g0.h,
                g0.wf(),
                src.wf(),
                src@ == g0,
                -0x1_0000_0000 <= dx <= 0x1_0000_0000,
                -0x1_0000_0000 <= dy <= 0x1_0000_0000,
                self.wf(),
                self@.w == g0.w,
                self@.h == g0.h,
                forall|i: int, j: int|
                    g0.contains(i, j) ==> #[trigger] self@.at(i, j) == if j < y {
                        g0.moved(r, dx as int, dy as int).at(i, j)
                    } else {
                        g0.at(i, j)
                    },
            decreases h - y,
        {
            let mut x: i32 = 0;
            while x < w
                invariant
                    0 <= x <= w,
                    0 <= y < h,
                    w == g0.w,
                    h == g0.h,
                    g0.wf(),
                    src.wf(),
                    src@ == g0,
                    -0x1_0000_0000 <= dx <= 0x1_0000_0000,
                    -0x1_0000_0000 <= dy <= 0x1_0000_0000,
                    self.wf(),
                    self@.w == g0.w,
                    self@.h == g0.h,
                    forall|i: int, j: int|
                        g0.contains(i, j) ==> #[trigger] self@.at(i, j) == if j < y || (j == y && i
                            < x) {
                            g0.moved(r, dx as int, dy as int).at(i, j)
                        } else {
                            g0.at(i, j)
                        },
                decreases w - x,
            {
                let sx: i64 = x as i64 - dx;
                let sy: i64 = y as i64 - dy;
                let c = if r.has_i64(sx, sy) && 0 <= sx && sx < w as i64 && 0 <= sy && sy < h as i64 {
                    src.pixel(Point { x: sx as i32, y: sy as i32 })
                } else if r.has_i64(x as i64, y as i64) {
                    transparent()
                } else {
                    src.pixel(Point { x, y })
                };
                proof {
                    lemma_from_fn(
                        g0.w,
                        g0.h,
                        |i: int, j: int|
                            if r.has(i - dx, j - dy) && g0.contains(i - dx, j - dy) {
                                g0.at(i - dx, j - dy)
                            } else if r.has(i, j) {
                                spec_transparent()
                            } else {
                                g0.at(i, j)
                            },
                    );
                }
                let ghost before = self@;
                self.set_pixel(Point { x, y }, c);
                proof {
                    lemma_from_fn(
                        before.w,
                        before.h,
                        |i: int, j: int| if i == x && j == y { c } else { before.at(i, j) },
                    );
                }
                x = x + 1;
            }
            y = y + 1;
        }
        proof {
            let m = g0.moved(r, dx as int, dy as int);
            lemma_from_fn(
                g0.w,
                g0.h,
                |i: int, j: int|
                    if r.has(i - dx, j - dy) && g0.contains(i - dx, j - dy) {
                        g0.at(i - dx, j - dy)
                    } else if r.has(i, j) {
                        spec_transparent()
                    } else {
                        g0.at(i, j)
                    },
            );
            lemma_ext(self@, m);
        }
    }
}

} // verus!
