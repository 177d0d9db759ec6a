use vstd::prelude::*;

use crate::color::Color;
use crate::grid::{
    Grid,
    channel,
    channels,
    colors_of,
    grid_of_bytes,
    grid_of_pixels,
    lemma_ext,
    lemma_from_fn,
    lemma_grid_of_pixels,
    lemma_index,
};
use crate::primitives::{Point, Size};

verus! {

/// A pixel buffer that the engine can draw on. Any backend can implement it;
/// `grid` is what the buffer holds, and every method is stated over it.
pub trait Bitmap: Sized {
    spec fn grid(&self) -> Grid;

    /// A bitmap of the given size with every pixel `color`.
    fn new(size: Size, color: Color) -> (r: Self)
        requires
            size.valid(),
        ensures
            r.grid() == Grid::filled(size.x as int, size.y as int, color),
    ;

    fn size(&self) -> (r: Size)
        requires
            self.grid().wf(),
        ensures
            r.x == self.grid().w,
            r.y == self.grid().h,
    ;

    fn width(&self) -> (r: i32)
        requires
            self.grid().wf(),
        ensures
            r == self.grid().w,
    ;

    fn height(&self) -> (r: i32)
        requires
            self.grid().wf(),
        ensures
            r == self.grid().h,
    ;

    fn pixel(&self, p: Point) -> (r: Color)
        requires
            self.grid().wf(),
            self.grid().contains(p.x as int, p.y as int),
        ensures
            r == self.grid().at(p.x as int, p.y as int),
    ;

    fn set_pixel(&mut self, p: Point, color: Color)
        requires
            old(self).grid().wf(),
            old(self).grid().contains(p.x as int, p.y as int),
        ensures
            final(self).grid() == old(self).grid().set(p.x as int, p.y as int, color),
    ;

    /// The pixels as row-major RGBA bytes.
    fn bytes(&self) -> (r: Vec<u8>)
        requires
            self.grid().wf(),
        ensures
            r@ == self.grid().bytes(),
    ;

    /// The bitmap of the given size whose row-major RGBA bytes are `bytes`.
    fn from_parts(size: Size, bytes: &[u8]) -> (r: Self)
        requires
            size.valid(),
            bytes@.len() == size.x * size.y * 4,
        ensures
            r.grid() == grid_of_bytes(size.x as int, size.y as int, bytes@),
    ;

    /// Copies the top-left rectangle that `self` and `other` share from
    /// `other`, pixel by pixel; the rest of `self` is kept.
    fn set_from(&mut self, other: &Self)
        requires
            old(self).grid().wf(),
            other.grid().wf(),
        ensures
            final(self).grid() == old(self).grid().overlaid(other.grid()),
    ;

    /// An independent bitmap with the same content.
    fn duplicate(&self) -> (r: Self)
        requires
            self.grid().wf(),
        ensures
            r.grid() == self.grid(),
    ;
}

/// A bitmap held in memory: the pixels row by row.
#[derive(Debug)]
pub struct TestImage {
    width: i32,
    height: i32,
    data: Vec<Color>,
}

impl TestImage {
    proof fn lemma_set(&self, x: int, y: int, c: Color)
        requires
            self.grid().wf(),
            self.grid().contains(x, y),
        ensures
            grid_of_pixels(
                self.width as int,
                self.height as int,
                self.data@.update(y * self.width + x, c),
            ) == self.grid().set(x, y, c),
    {
        let w = self.width as int;
        let h = self.height as int;
        let g = self.grid();
        let s2 = self.data@.update(y * w + x, c);
        lemma_index(w, h, x, y);
        lemma_grid_of_pixels(w, h, s2);
        lemma_from_fn(w, h, |i: int, j: int| self.data@[j * w + i]);
        lemma_from_fn(w, h, |i: int, j: int| if i == x && j == y { c } else { g.at(i, j) });
        let g2 = grid_of_pixels(w, h, s2);
        assert forall|i: int, j: int| g2.contains(i, j) implies #[trigger] g2.at(i, j) == g.set(
            x,
            y,
            c,
        ).at(i, j) by {
            lemma_index(w, h, i, j);
        }
        lemma_ext(g2, g.set(x, y, c));
    }

    fn index(&self, p: Point) -> (k: usize)
        requires
            self.grid().wf(),
            self.grid().contains(p.x as int, p.y as int),
        ensures
            k == p.y * self.width + p.x,
            k < self.data@.len(),
    {
        proof {
            lemma_index(self.width as int, self.height as int, p.x as int, p.y as int);
        }
        (p.y as usize) * (self.width as usize) + (p.x as usize)
    }
}

impl Bitmap for TestImage {
    closed spec fn grid(&self) -> Grid {
        if self.data@.len() == self.width * self.height {
            grid_of_pixels(self.width as int, self.height as int, self.data@)
        } else {
            Grid { w: -1, h: 0, rows: Seq::empty() }
        }
    }

    fn new(size: Size, color: Color) -> (r: Self) {
        let n = (size.x as usize) * (size.y as usize);
        let mut data: Vec<Color> = Vec::new();
        let mut i: usize = 0;
        while i < n
            invariant
                i <= n,
                data@.len() == i,
                forall|k: int| 0 <= k < i ==> data@[k] == color,
            decreases n - i,
        {
            data.push(color);
            i = i + 1;
        }
        let r = TestImage { width: size.x, height: size.y, data };
        proof {
            let w = size.x as int;
            let h = size.y as int;
            lemma_grid_of_pixels(w, h, data@);
            lemma_from_fn(w, h, |x: int, y: int| color);
            let g = r.grid();
            assert forall|x: int, y: int| g.contains(x, y) implies #[trigger] g.at(x, y) == Grid::filled(
                w,
                h,
                color,
            ).at(x, y) by {
                lemma_index(w, h, x, y);
            }
            lemma_ext(g, Grid::filled(w, h, color));
        }
        r
    }

    fn size(&self) -> (r: Size) {
        Size { x: self.width, y: self.height }
    }

    fn width(&self) -> (r: i32) {
        self.width
    }

    fn height(&self) -> (r: i32) {
        self.height
    }

    fn pixel(&self, p: Point) -> (r: Color) {
        let k = self.index(p);
        self.data[k]
    }

    fn set_pixel(&mut self, p: Point, color: Color) {
        let k = self.index(p);
        proof {
            self.lemma_set(p.x as int, p.y as int, color);
        }
        self.data.set(k, color);
    }

    fn bytes(&self) -> (r: Vec<u8>) {
        proof {
            lemma_grid_of_pixels(self.width as int, self.height as int, self.data@);
        }
        let mut out: Vec<u8> = Vec::new();
        let mut i: usize = 0;
        while i < self.data.len()
            invariant
                i <= self.data@.len(),
                self.data@.len() * 4 <= usize::MAX,
                out@.len() == 4 * i,
                forall|j: int| 0 <= j < 4 * i ==> out@[j] == channel(self.data@[j / 4], j % 4),
            decreases self.data@.len() - i,
        {
            let c = self.data[i];
            out.push(c.r);
            out.push(c.g);
            out.push(c.b);
            out.push(c.a);
            i = i + 1;
        }
        assert(out@ =~= channels(self.data@));
        out
    }

    fn from_parts(size: Size, bytes: &[u8]) -> (r: Self) {
        let n = (size.x as usize) * (size.y as usize);
        let mut data: Vec<Color> = Vec::new();
        let mut i: usize = 0;
        while i < n
            invariant
                i <= n,
                n == size.x * size.y,
                bytes@.len() == 4 * n,
                data@.len() == i,
                forall|k: int| 0 <= k < i ==> data@[k] == colors_of(bytes@)[k],
            decreases n - i,
        {
            let c = Color {
                r: bytes[4 * i],
                g: bytes[4 * i + 1],
                b: bytes[4 * i + 2],
                a: bytes[4 * i + 3],
            };
            data.push(c);
            i = i + 1;
        }
        assert(data@ =~= colors_of(bytes@));
        TestImage { width: size.x, height: size.y, data }
    }

    fn set_from(&mut self, other: &Self) {
        let w = if self.width < other.width {
            self.width
        } else {
            other.width
        };
        let h = if self.height < other.height {
            self.height
        } else {
            other.height
        };
        let ghost g0 = self.grid();
        let mut y: i32 = 0;
        while y < h
            invariant
                0 <= y <= h,
                w == if g0.w < other.grid().w { g0.w } else { other.grid().w },
                h == if g0.h < other.grid().h { g0.h } else { other.grid().h },
                other.grid().wf(),
                g0.wf(),
                self.grid().wf(),
                self.grid().w == g0.w,
                self.grid().h == g0.h,
                forall|i: int, j: int|
                    g0.contains(i, j) ==> #[trigger] self.grid().at(i, j) == if i < w && j < y {
                        other.grid().at(i, j)
                    } else {
                        g0.at(i, j)
                    },
            decreases h - y,
        {
            let mut x: i32 = 0;
            while x < w
                invariant
                    0 <= x <= w,
                    0 <= y < h,
                    w == if g0.w < other.grid().w { g0.w } else { other.grid().w },
                    h == if g0.h < other.grid().h { g0.h } else { other.grid().h },
                    other.grid().wf(),
                    g0.wf(),
                    self.grid().wf(),
                    self.grid().w == g0.w,
                    self.grid().h == g0.h,
                    forall|i: int, j: int|
                        g0.contains(i, j) ==> #[trigger] self.grid().at(i, j) == if i < w && (j < y
                            || (j == y && i < x)) {
                            other.grid().at(i, j)
                        } else {
                            g0.at(i, j)
                        },
                decreases w - x,
            {
                let p = Point { x, y };
                let c = other.pixel(p);
                let ghost before = self.grid();
                self.set_pixel(p, c);
                proof {
                    lemma_from_fn(
                        before.w,
                        before.h,
                        |i: int, j: int| if i == x && j == y { c } else { before.at(i, j) },
                    );
                }
                x = x + 1;
            }
            y = y + 1;
        }
        proof {
            let o = other.grid();
            lemma_from_fn(
                g0.w,
                g0.h,
                |i: int, j: int| if i < o.w && j < o.h { o.at(i, j) } else { g0.at(i, j) },
            );
            lemma_ext(self.grid(), g0.overlaid(o));
        }
    }

    fn duplicate(&self) -> (r: Self) {
        let mut data: Vec<Color> = Vec::new();
        let mut i: usize = 0;
        while i < self.data.len()
            invariant
                i <= self.data@.len(),
                data@ == self.data@.subrange(0, i as int),
            decreases self.data@.len() - i,
        {
            data.push(self.data[i]);
            i = i + 1;
            assert(data@ =~= self.data@.subrange(0, i as int));
        }
        assert(data@ =~= self.data@);
        TestImage { width: self.width, height: self.height, data }
    }
}

} // verus!
