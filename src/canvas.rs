use vstd::prelude::*;

use crate::bitmap::Bitmap;
use crate::color::{Color, spec_transparent, transparent};
use crate::grid::{
    Grid,
    lemma_ext,
    lemma_from_fn,
    line_cell,
    line_len,
    line_prefix_has,
    round_step,
    step_toward,
    neighbor,
    count,
    lemma_pixels_set,
    lemma_count_update,
    lemma_connected_start,
    lemma_connected_step,
    lemma_connected_color,
    lemma_closed_covers,
};
use crate::primitives::{Point, Size};
use crate::region::Rect;

verus! {

/// The pixel grid being edited, held in a bitmap of any backend.
pub struct Canvas<IMG: Bitmap> {
    inner: IMG,
}

impl<IMG: Bitmap> View for Canvas<IMG> {
    type V = Grid;

    closed spec fn view(&self) -> Grid {
        self.inner.grid()
    }
}

/// `toward(a, d, k, n)` is `step_toward(a, d, k, n)`.
fn toward(a: i32, d: i64, k: i64, n: i64) -> (r: i128)
    requires
        -0x1_0000_0000 < d < 0x1_0000_0000,
        0 <= k <= n,
        n < 0x1_0000_0000,
    ensures
        r == step_toward(a as int, d as int, k as int, n as int),
{
    if n == 0 {
        return a as i128;
    }
    let m: u64 = if d < 0 {
        (-d) as u64
    } else {
        d as u64
    };
    assert((k as u64) * m <= 0x1_0000_0000_0000_0000) by (nonlinear_arith)
        requires
            0 <= k <= 0x1_0000_0000,
            m <= 0x1_0000_0000,
    ;
    let num: u128 = 2 * ((k as u128) * (m as u128)) + (n as u128);
    let q: u128 = num / (2 * (n as u128));
    assert(q <= num);
    assert(num == 2 * (k as int) * (m as int) + n) by (nonlinear_arith)
        requires
            num == 2 * ((k as int) * (m as int)) + n,
    ;
    assert(q == round_step(k as int, m as int, n as int));
    if d < 0 {
        a as i128 - q as i128
    } else {
        a as i128 + q as i128
    }
}

impl<IMG: Bitmap> Canvas<IMG> {
    pub open spec fn wf(&self) -> bool {
        self@.wf()
    }

    /// A canvas of the given size with every pixel transparent.
    pub fn new(size: Size) -> (r: Self)
        requires
            size.valid(),
        ensures
            r.wf(),
            r@ == Grid::filled(size.x as int, size.y as int, spec_transparent()),
    {
        let inner = IMG::new(size, transparent());
        proof {
            lemma_from_fn(size.x as int, size.y as int, |x: int, y: int| spec_transparent());
        }
        Canvas { inner }
    }

    /// The canvas that holds `inner`.
    pub fn from_image(inner: IMG) -> (r: Self)
        ensures
            r@ == inner.grid(),
    {
        Canvas { inner }
    }

    /// The bitmap that holds the pixels.
    pub fn inner(&self) -> (r: &IMG)
        ensures
            r.grid() == self@,
    {
        &self.inner
    }

    /// An independent canvas with the same pixels.
    pub fn duplicate(&self) -> (r: Self)
        requires
            self.wf(),
        ensures
            r@ == self@,
    {
        Canvas { inner: self.inner.duplicate() }
    }

    pub fn width(&self) -> (r: i32)
        requires
            self.wf(),
        ensures
            r == self@.w,
    {
        self.inner.width()
    }

    pub fn height(&self) -> (r: i32)
        requires
            self.wf(),
        ensures
            r == self@.h,
    {
        self.inner.height()
    }

    pub fn size(&self) -> (r: Size)
        requires
            self.wf(),
        ensures
            r.x == self@.w,
            r.y == self@.h,
    {
        self.inner.size()
    }

    /// Whether `p` addresses a pixel of the canvas.
    pub fn contains(&self, p: Point) -> (r: bool)
        requires
            self.wf(),
        ensures
            r == self@.contains(p.x as int, p.y as int),
    {
        0 <= p.x && p.x < self.inner.width() && 0 <= p.y && p.y < self.inner.height()
    }

    pub fn pixel(&self, p: Point) -> (r: Color)
        requires
            self.wf(),
            self@.contains(p.x as int, p.y as int),
        ensures
            r == self@.at(p.x as int, p.y as int),
    {
        self.inner.pixel(p)
    }

    pub fn set_pixel(&mut self, p: Point, color: Color)
        requires
            old(self).wf(),
            old(self)@.contains(p.x as int, p.y as int),
        ensures
            final(self).wf(),
            final(self)@ == old(self)@.set(p.x as int, p.y as int, color),
    {
        let ghost g = self@;
        self.inner.set_pixel(p, color);
        proof {
            lemma_from_fn(
                g.w,
                g.h,
                |i: int, j: int| if i == p.x && j == p.y { color } else { g.at(i, j) },
            );
        }
    }

    /// The pixels as row-major RGBA bytes.
    pub fn bytes(&self) -> (r: Vec<u8>)
        requires
            self.wf(),
        ensures
            r@ == self@.bytes(),
    {
        self.inner.bytes()
    }

    /// Sets every pixel to transparent.
    pub fn clear(&mut self)
        requires
            old(self).wf(),
        ensures
            final(self).wf(),
            final(self)@ == Grid::filled(old(self)@.w, old(self)@.h, spec_transparent()),
    {
        let size = self.inner.size();
        self.inner = IMG::new(size, transparent());
        proof {
            lemma_from_fn(size.x as int, size.y as int, |x: int, y: int| spec_transparent());
        }
    }

    /// Gives the canvas a new size; what lies in both the old and the new
    /// rectangle (aligned at the top left) is kept, the rest is transparent.
    pub fn resize(&mut self, size: Size)
        requires
            old(self).wf(),
            size.valid(),
        ensures
            final(self).wf(),
            final(self)@ == old(self)@.resized(size.x as int, size.y as int),
    {
        let mut img = IMG::new(size, transparent());
        proof {
            lemma_from_fn(size.x as int, size.y as int, |x: int, y: int| spec_transparent());
        }
        img.set_from(&self.inner);
        self.inner = img;
        proof {
            let f = Grid::filled(size.x as int, size.y as int, spec_transparent());
            let o = old(self)@;
            lemma_from_fn(
                f.w,
                f.h,
                |x: int, y: int| if x < o.w && y < o.h { o.at(x, y) } else { f.at(x, y) },
            );
        }
    }

    /// Draws the line from `a` to `b`, both ends included, in `color`: one
    /// pixel per step along the longer extent. Cells outside the canvas are
    /// skipped.
    pub fn line(&mut self, a: Point, b: Point, color: Color)
        requires
            old(self).wf(),
        ensures
            final(self).wf(),
            final(self)@ == old(self)@.with_line(
                a.x as int,
                a.y as int,
                b.x as int,
                b.y as int,
                color,
            ),
    {
        let ghost g0 = self@;
        let ghost ax = a.x as int;
        let ghost ay = a.y as int;
        let ghost bx = b.x as int;
        let ghost by = b.y as int;
        let dx: i64 = b.x as i64 - a.x as i64;
        let dy: i64 = b.y as i64 - a.y as i64;
        let adx: i64 = if dx < 0 {
            -dx
        } else {
            dx
        };
        let ady: i64 = if dy < 0 {
            -dy
        } else {
            dy
        };
        let n: i64 = if adx >= ady {
            adx
        } else {
            ady
        };
        assert(n == line_len(ax, ay, bx, by));
        let w = self.inner.width();
        let h = self.inner.height();
        let mut k: i64 = 0;
        while k <= n
            invariant
                0 <= k <= n + 1,
                ax == a.x,
                ay == a.y,
                bx == b.x,
                by == b.y,
                n == line_len(ax, ay, bx, by),
                n < 0x1_0000_0000,
                dx == bx - ax,
                dy == by - ay,
                w == g0.w,
                h == g0.h,
                self.wf(),
                self@.w == g0.w,
                self@.h == g0.h,
                forall|i: int, j: int|
                    g0.contains(i, j) ==> #[trigger] self@.at(i, j) == if line_prefix_has(
                        ax,
                        ay,
                        bx,
                        by,
                        k as int,
                        i,
                        j,
                    ) {
                        color
                    } else {
                        g0.at(i, j)
                    },
            decreases n + 1 - k,
        {
            let x = toward(a.x, dx, k, n);
            let y = toward(a.y, dy, k, n);
            let ghost cell = line_cell(ax, ay, bx, by, k as int);
            assert(x == step_toward(ax, bx - ax, k as int, n as int));
            assert(y == step_toward(ay, by - ay, k as int, n as int));
            assert(cell == (x as int, y as int));
            let ghost before = self@;
            if 0 <= x && x < w as i128 && 0 <= y && y < h as i128 {
                self.set_pixel(Point { x: x as i32, y: y as i32 }, color);
                proof {
                    lemma_from_fn(
                        before.w,
                        before.h,
                        |i: int, j: int| if i == x && j == y { color } else { before.at(i, j) },
                    );
                }
            }
            proof {
                assert forall|i: int, j: int| g0.contains(i, j) implies #[trigger] self@.at(i, j)
                    == if line_prefix_has(ax, ay, bx, by, k + 1, i, j) {
                    color
                } else {
                    g0.at(i, j)
                } by {
                    if line_prefix_has(ax, ay, bx, by, k as int, i, j) {
                        let t = choose|t: int|
                            0 <= t < k && #[trigger] line_cell(ax, ay, bx, by, t) == (i, j);
                        assert(0 <= t < k + 1 && line_cell(ax, ay, bx, by, t) == (i, j));
                    }
                    if cell == (i, j) {
                        assert(line_cell(ax, ay, bx, by, k as int) == (i, j));
                    }
                    if line_prefix_has(ax, ay, bx, by, k + 1, i, j) {
                        let t = choose|t: int|
                            0 <= t < k + 1 && #[trigger] line_cell(ax, ay, bx, by, t) == (i, j);
                        if t < k {
                            assert(line_prefix_has(ax, ay, bx, by, k as int, i, j));
                        }
                    }
                }
            }
            k = k + 1;
        }
        proof {
            let r = g0.with_line(ax, ay, bx, by, color);
            lemma_from_fn(
                g0.w,
                g0.h,
                |i: int, j: int|
                    if crate::grid::on_line(ax, ay, bx, by, i, j) {
                        color
                    } else {
                        g0.at(i, j)
                    },
            );
            lemma_ext(self@, r);
        }
    }

    /// Flood fill: every pixel connected to `p` through edge-sharing pixels
    /// of `p`'s color inside `bounds` becomes `color`; the rest is kept.
    pub fn bucket(&mut self, p: Point, color: Color, bounds: Rect)
        requires
            old(self).wf(),
            old(self)@.contains(p.x as int, p.y as int),
            bounds.has(p.x as int, p.y as int),
        ensures
            final(self).wf(),
            final(self)@ == old(self)@.flood_filled(p.x as int, p.y as int, color, bounds),
    {
        let ghost g0 = self@;
        let ghost sx = p.x as int;
        let ghost sy = p.y as int;
        let target = self.pixel(p);
        if target == color {
            proof {
                lemma_from_fn(
                    g0.w,
                    g0.h,
                    |x: int, y: int| if g0.connected(sx, sy, x, y, bounds) { color } else { g0.at(x, y) },
                );
                assert forall|x: int, y: int| g0.contains(x, y) implies #[trigger] g0.at(x, y)
                    == g0.flood_filled(sx, sy, color, bounds).at(x, y) by {
                    if g0.connected(sx, sy, x, y, bounds) {
                        lemma_connected_color(g0, sx, sy, x, y, bounds);
                    }
                }
                lemma_ext(g0, g0.flood_filled(sx, sy, color, bounds));
            }
            return;
        }
        proof {
            lemma_pixels_set(g0, sx, sy, color);
            lemma_count_update(g0.pixels(), sy * g0.w + sx, target, color);
            lemma_connected_start(g0, sx, sy, bounds);
        }
        self.set_pixel(p, color);
        proof {
            lemma_from_fn(
                g0.w,
                g0.h,
                |i: int, j: int| if i == sx && j == sy { color } else { g0.at(i, j) },
            );
        }
        let mut stack: Vec<Point> = Vec::new();
        stack.push(p);
        proof {
            assert(stack@[0] == p);
            assert forall|i: int, j: int, d: int|
                #![trigger self@.at(i, j), neighbor((i, j), d)]
                g0.contains(i, j) && self@.at(i, j) != g0.at(i, j) && !stack@.contains(
                    Point { x: i as i32, y: j as i32 },
                ) && 0 <= d < 4 && g0.contains(neighbor((i, j), d).0, neighbor((i, j), d).1)
                    && g0.at(neighbor((i, j), d).0, neighbor((i, j), d).1) == target && bounds.has(neighbor((i, j), d).0, neighbor((i, j), d).1) implies self@.at(
                neighbor((i, j), d).0,
                neighbor((i, j), d).1,
            ) != g0.at(neighbor((i, j), d).0, neighbor((i, j), d).1) by {
                assert(i == sx && j == sy);
                assert(Point { x: i as i32, y: j as i32 } == p);
            }
        }
        while stack.len() > 0
            invariant
                g0.wf(),
                self.wf(),
                self@.w == g0.w,
                self@.h == g0.h,
                g0.contains(sx, sy),
                target == g0.at(sx, sy),
                target != color,
                self@.at(sx, sy) != g0.at(sx, sy),
                forall|i: int, j: int|
                    g0.contains(i, j) ==> #[trigger] self@.at(i, j) == g0.at(i, j) || self@.at(i, j)
                        == color,
                forall|i: int, j: int|
                    g0.contains(i, j) && #[trigger] self@.at(i, j) != g0.at(i, j) ==> g0.at(i, j)
                        == target && g0.connected(sx, sy, i, j, bounds),
                forall|k: int|
                    0 <= k < stack@.len() ==> g0.contains(
                        (#[trigger] stack@[k]).x as int,
                        stack@[k].y as int,
                    ) && self@.at(stack@[k].x as int, stack@[k].y as int) != g0.at(
                        stack@[k].x as int,
                        stack@[k].y as int,
                    ),
                forall|i: int, j: int, d: int|
                    #![trigger self@.at(i, j), neighbor((i, j), d)]
                    g0.contains(i, j) && self@.at(i, j) != g0.at(i, j) && !stack@.contains(
                        Point { x: i as i32, y: j as i32 },
                    ) && 0 <= d < 4 && g0.contains(neighbor((i, j), d).0, neighbor((i, j), d).1)
                        && g0.at(neighbor((i, j), d).0, neighbor((i, j), d).1) == target && bounds.has(neighbor((i, j), d).0, neighbor((i, j), d).1) ==> self@.at(
                        neighbor((i, j), d).0,
                        neighbor((i, j), d).1,
                    ) != g0.at(neighbor((i, j), d).0, neighbor((i, j), d).1),
            decreases 2 * count(self@.pixels(), target) + stack@.len(),
        {
            let ghost m0 = 2 * count(self@.pixels(), target) + stack@.len();
            let ghost s0 = stack@;
            let q = stack.pop().unwrap();
            let ghost qc = (q.x as int, q.y as int);
            assert(s0 == stack@.push(q));
            assert(s0[s0.len() - 1] == q);
            let mut d: usize = 0;
            while d < 4
                invariant
                    0 <= d <= 4,
                    g0.wf(),
                    self.wf(),
                    self@.w == g0.w,
                    self@.h == g0.h,
                    g0.contains(sx, sy),
                    target == g0.at(sx, sy),
                    target != color,
                    self@.at(sx, sy) != g0.at(sx, sy),
                    g0.contains(qc.0, qc.1),
                    qc == (q.x as int, q.y as int),
                    self@.at(qc.0, qc.1) != g0.at(qc.0, qc.1),
                    2 * count(self@.pixels(), target) + stack@.len() < m0,
                    forall|i: int, j: int|
                        g0.contains(i, j) ==> #[trigger] self@.at(i, j) == g0.at(i, j) || self@.at(
                            i,
                            j,
                        ) == color,
                    forall|i: int, j: int|
                        g0.contains(i, j) && #[trigger] self@.at(i, j) != g0.at(i, j) ==> g0.at(
                            i,
                            j,
                        ) == target && g0.connected(sx, sy, i, j, bounds),
                    forall|k: int|
                        0 <= k < stack@.len() ==> g0.contains(
                            (#[trigger] stack@[k]).x as int,
                            stack@[k].y as int,
                        ) && self@.at(stack@[k].x as int, stack@[k].y as int) != g0.at(
                            stack@[k].x as int,
                            stack@[k].y as int,
                        ),
                    forall|i: int, j: int, e: int|
                        #![trigger self@.at(i, j), neighbor((i, j), e)]
                        g0.contains(i, j) && self@.at(i, j) != g0.at(i, j) && !stack@.contains(
                            Point { x: i as i32, y: j as i32 },
                        ) && ((i, j) != qc || e < d) && 0 <= e < 4 && g0.contains(
                            neighbor((i, j), e).0,
                            neighbor((i, j), e).1,
                        ) && g0.at(neighbor((i, j), e).0, neighbor((i, j), e).1) == target && bounds.has(neighbor((i, j), e).0, neighbor((i, j), e).1)
                            ==> self@.at(neighbor((i, j), e).0, neighbor((i, j), e).1) != g0.at(
                            neighbor((i, j), e).0,
                            neighbor((i, j), e).1,
                        ),
                decreases 4 - d,
            {
                let nb = if d == 0 {
                    Point { x: q.x + 1, y: q.y }
                } else if d == 1 {
                    Point { x: q.x - 1, y: q.y }
                } else if d == 2 {
                    Point { x: q.x, y: q.y + 1 }
                } else {
                    Point { x: q.x, y: q.y - 1 }
                };
                assert(neighbor(qc, d as int) == (nb.x as int, nb.y as int));
                if self.contains(nb) && bounds.contains(nb) && self.pixel(nb) == target {
                    let ghost before = self@;
                    let ghost sb = stack@;
                    proof {
                        lemma_pixels_set(before, nb.x as int, nb.y as int, color);
                        lemma_count_update(
                            before.pixels(),
                            nb.y * before.w + nb.x,
                            target,
                            color,
                        );
                        lemma_connected_step(g0, sx, sy, qc, (nb.x as int, nb.y as int), bounds);
                    }
                    self.set_pixel(nb, color);
                    stack.push(nb);
                    proof {
                        lemma_from_fn(
                            before.w,
                            before.h,
                            |i: int, j: int|
                                if i == nb.x && j == nb.y {
                                    color
                                } else {
                                    before.at(i, j)
                                },
                        );
                        assert(stack@ == sb.push(nb));
                        assert forall|i: int, j: int, e: int|
                            #![trigger self@.at(i, j), neighbor((i, j), e)]
                            g0.contains(i, j) && self@.at(i, j) != g0.at(i, j) && !stack@.contains(
                                Point { x: i as i32, y: j as i32 },
                            ) && ((i, j) != qc || e < d + 1) && 0 <= e < 4 && g0.contains(
                                neighbor((i, j), e).0,
                                neighbor((i, j), e).1,
                            ) && g0.at(neighbor((i, j), e).0, neighbor((i, j), e).1) == target && bounds.has(neighbor((i, j), e).0, neighbor((i, j), e).1)
                            implies self@.at(neighbor((i, j), e).0, neighbor((i, j), e).1)
                            != g0.at(neighbor((i, j), e).0, neighbor((i, j), e).1) by {
                            let n2 = neighbor((i, j), e);
                            if n2 != (nb.x as int, nb.y as int) {
                                if (i, j) != (nb.x as int, nb.y as int) {
                                    assert(before.at(i, j) == self@.at(i, j));
                                    if sb.contains(Point { x: i as i32, y: j as i32 }) {
                                        let k = choose|k: int|
                                            0 <= k < sb.len() && sb[k] == Point {
                                                x: i as i32,
                                                y: j as i32,
                                            };
                                        assert(stack@[k] == sb[k]);
                                    }
                                    assert(before.at(n2.0, n2.1) != g0.at(n2.0, n2.1));
                                } else {
                                    assert(stack@[stack@.len() - 1] == nb);
                                }
                            }
                        }
                        assert forall|k: int| 0 <= k < stack@.len() implies g0.contains(
                            (#[trigger] stack@[k]).x as int,
                            stack@[k].y as int,
                        ) && self@.at(stack@[k].x as int, stack@[k].y as int) != g0.at(
                            stack@[k].x as int,
                            stack@[k].y as int,
                        ) by {
                            if k < sb.len() {
                                assert(stack@[k] == sb[k]);
                            }
                        }
                    }
                } else {
                    proof {
                        if g0.contains(nb.x as int, nb.y as int) && g0.at(nb.x as int, nb.y as int)
                            == target && bounds.has(nb.x as int, nb.y as int) {
                            assert(self@.at(nb.x as int, nb.y as int) != target);
                        }
                    }
                }
                d = d + 1;
            }
            proof {
                assert forall|i: int, j: int, e: int|
                    #![trigger self@.at(i, j), neighbor((i, j), e)]
                    g0.contains(i, j) && self@.at(i, j) != g0.at(i, j) && !stack@.contains(
                        Point { x: i as i32, y: j as i32 },
                    ) && 0 <= e < 4 && g0.contains(neighbor((i, j), e).0, neighbor((i, j), e).1)
                        && g0.at(neighbor((i, j), e).0, neighbor((i, j), e).1) == target && bounds.has(neighbor((i, j), e).0, neighbor((i, j), e).1)
                    implies self@.at(neighbor((i, j), e).0, neighbor((i, j), e).1) != g0.at(
                    neighbor((i, j), e).0,
                    neighbor((i, j), e).1,
                ) by {
                    if (i, j) == qc {
                        assert(e < 4);
                    }
                }
            }
        }
        proof {
            let cur = self@;
            let done = |i: int, j: int| cur.at(i, j) != g0.at(i, j);
            assert forall|i: int, j: int, e: int|
                #![trigger done(i, j), neighbor((i, j), e)]
                g0.contains(i, j) && done(i, j) && 0 <= e < 4 && g0.contains(
                    neighbor((i, j), e).0,
                    neighbor((i, j), e).1,
                ) && g0.at(neighbor((i, j), e).0, neighbor((i, j), e).1) == g0.at(
                    sx,
                    sy,
                ) && bounds.has(neighbor((i, j), e).0, neighbor((i, j), e).1) implies done(neighbor((i, j), e).0, neighbor((i, j), e).1) by {
                assert(!stack@.contains(Point { x: i as i32, y: j as i32 }));
                assert(cur.at(i, j) != g0.at(i, j));
            }
            lemma_closed_covers(g0, sx, sy, bounds, done);
            let r = g0.flood_filled(sx, sy, color, bounds);
            lemma_from_fn(
                g0.w,
                g0.h,
                |x: int, y: int| if g0.connected(sx, sy, x, y, bounds) { color } else { g0.at(x, y) },
            );
            assert forall|x: int, y: int| cur.contains(x, y) implies #[trigger] cur.at(x, y) == r.at(
                x,
                y,
            ) by {
                if g0.connected(sx, sy, x, y, bounds) {
                    assert(done(x, y));
                }
            }
            lemma_ext(cur, r);
        }
    }
}

} // verus!
