use vstd::prelude::*;

use crate::bitmap::Bitmap;
use crate::canvas::Canvas;
use crate::color::{Color, spec_transparent, transparent};
use crate::grid::{Grid, lemma_ext, lemma_from_fn};
use crate::primitives::{Point, Size};

verus! {

/// What a layer holds: its pixels, whether it shows, and its opacity.
pub struct LayerModel {
    pub grid: Grid,
    pub visible: bool,
    pub alpha: u8,
}

/// One plane of the image: a canvas shown or hidden, with an opacity
/// (0 clear, 255 opaque) applied to its pixels when composited.
pub struct Layer<IMG: Bitmap> {
    pub canvas: Canvas<IMG>,
    pub visible: bool,
    pub alpha: u8,
}

impl<IMG: Bitmap> View for Layer<IMG> {
    type V = LayerModel;

    open spec fn view(&self) -> LayerModel {
        LayerModel { grid: self.canvas@, visible: self.visible, alpha: self.alpha }
    }
}

impl<IMG: Bitmap> Layer<IMG> {
    /// A visible, opaque layer holding `canvas`.
    pub fn new(canvas: Canvas<IMG>) -> (r: Self)
        ensures
            r@ == (LayerModel { grid: canvas@, visible: true, alpha: 255 }),
    {
        Layer { canvas, visible: true, alpha: 255 }
    }

    /// An independent layer with the same content and attributes.
    pub fn duplicate(&self) -> (r: Self)
        requires
            self.canvas.wf(),
        ensures
            r@ == self@,
    {
        Layer { canvas: self.canvas.duplicate(), visible: self.visible, alpha: self.alpha }
    }
}

pub open spec fn layers_view<IMG: Bitmap>(v: Seq<Layer<IMG>>) -> Seq<LayerModel> {
    v.map_values(|l: Layer<IMG>| l@)
}

/// `src` drawn over `dst` with its alpha scaled by the layer opacity `alpha`:
/// each color channel moves from `dst` toward `src` in proportion to the
/// effective alpha, and the alphas combine as in alpha-over.
pub open spec fn blend(dst: Color, src: Color, alpha: u8) -> Color {
    let sa = src.a * alpha / 255;
    Color {
        r: ((src.r * sa + dst.r * (255 - sa)) / 255) as u8,
        g: ((src.g * sa + dst.g * (255 - sa)) / 255) as u8,
        b: ((src.b * sa + dst.b * (255 - sa)) / 255) as u8,
        a: (sa + dst.a * (255 - sa) / 255) as u8,
    }
}

/// Pixel `(x, y)` of the first `n` layers composited bottom to top over
/// transparent; hidden layers add nothing.
pub open spec fn composed_pixel(layers: Seq<LayerModel>, n: int, x: int, y: int) -> Color
    decreases n,
{
    if n <= 0 {
        spec_transparent()
    } else {
        let below = composed_pixel(layers, n - 1, x, y);
        let l = layers[n - 1];
        if l.visible {
            blend(below, l.grid.at(x, y), l.alpha)
        } else {
            below
        }
    }
}

/// The image that the layers show together, of the given sides.
pub open spec fn composed(layers: Seq<LayerModel>, w: int, h: int) -> Grid {
    Grid::from_fn(w, h, |x: int, y: int| composed_pixel(layers, layers.len() as int, x, y))
}

fn mix(d: u8, s: u8, sa: u32) -> (r: u8)
    requires
        sa <= 255,
    ensures
        r == (s * sa + d * (255 - sa)) / 255,
{
    assert(s * sa + d * (255 - sa) <= 255 * 255) by (nonlinear_arith)
        requires
            0 <= s <= 255,
            0 <= d <= 255,
            0 <= sa <= 255,
    ;
    (((s as u32) * sa + (d as u32) * (255 - sa)) / 255) as u8
}

/// `blend(dst, src, alpha)`.
pub fn blend_color(dst: Color, src: Color, alpha: u8) -> (r: Color)
    ensures
        r == blend(dst, src, alpha),
{
    assert((src.a as u32) * (alpha as u32) <= 255 * 255) by (nonlinear_arith)
        requires
            src.a <= 255,
            alpha <= 255,
    ;
    let sa: u32 = (src.a as u32) * (alpha as u32) / 255;
    assert((dst.a as u32) * (255 - sa) <= 255 * 255) by (nonlinear_arith)
        requires
            dst.a <= 255,
            sa <= 255,
    ;
    let da: u32 = (dst.a as u32) * (255 - sa) / 255;
    proof {
        let s = sa as int;
        let d = dst.a as int;
        let x = d * (255 - s);
        assert(x <= 255 * (255 - s)) by (nonlinear_arith)
            requires
                0 <= d <= 255,
                0 <= s <= 255,
                x == d * (255 - s),
        ;
        assert(x / 255 <= 255 - s);
    }
    Color {
        r: mix(dst.r, src.r, sa),
        g: mix(dst.g, src.g, sa),
        b: mix(dst.b, src.b, sa),
        a: (sa + da) as u8,
    }
}

/// Composites the visible layers bottom to top into a new canvas of the
/// given size.
pub fn composite<IMG: Bitmap>(layers: &Vec<Layer<IMG>>, size: Size) -> (r: Canvas<IMG>)
    requires
        size.valid(),
        forall|i: int|
            0 <= i < layers@.len() ==> (#[trigger] layers@[i]).canvas.wf() && layers@[i].canvas@.w
                == size.x && layers@[i].canvas@.h == size.y,
    ensures
        r.wf(),
        r@ == composed(layers_view(layers@), size.x as int, size.y as int),
{
    let ghost lv = layers_view(layers@);
    let ghost w0 = size.x as int;
    let ghost h0 = size.y as int;
    let mut out = Canvas::<IMG>::new(size);
    proof {
        lemma_from_fn(w0, h0, |x: int, y: int| spec_transparent());
    }
    let mut i: usize = 0;
    while i < layers.len()
        invariant
            i <= layers@.len(),
            lv == layers_view(layers@),
            size.valid(),
            w0 == size.x,
            h0 == size.y,
            forall|k: int|
                0 <= k < layers@.len() ==> (#[trigger] layers@[k]).canvas.wf()
                    && layers@[k].canvas@.w == size.x && layers@[k].canvas@.h == size.y,
            out.wf(),
            out@.w == w0,
            out@.h == h0,
            forall|x: int, y: int|
                out@.contains(x, y) ==> #[trigger] out@.at(x, y) == composed_pixel(lv, i as int, x, y),
        decreases layers@.len() - i,
    {
        let layer = &layers[i];
        assert(lv[i as int] == layer@);
        if layer.visible {
            let ghost g0 = out@;
            let mut y: i32 = 0;
            while y < size.y
                invariant
                    0 <= y <= size.y,
                    i < layers@.len(),
                    layer == &layers@[i as int],
                    layer.canvas.wf(),
                    layer.canvas@.w == w0,
                    layer.canvas@.h == h0,
                    w0 == size.x,
                    h0 == size.y,
                    g0.wf(),
                    g0.w == w0,
                    g0.h == h0,
                    out.wf(),
                    out@.w == w0,
                    out@.h == h0,
                    forall|x: int, yy: int|
                        g0.contains(x, yy) ==> #[trigger] out@.at(x, yy) == if yy < y {
                            blend(g0.at(x, yy), layer.canvas@.at(x, yy), layer.alpha)
                        } else {
                            g0.at(x, yy)
                        },
                decreases size.y - y,
            {
                let mut x: i32 = 0;
                while x < size.x
                    invariant
                        0 <= x <= size.x,
                        0 <= y < size.y,
                        layer.canvas.wf(),
                        layer.canvas@.w == w0,
                        layer.canvas@.h == h0,
                        w0 == size.x,
                        h0 == size.y,
                        g0.wf(),
                        g0.w == w0,
                        g0.h == h0,
                        out.wf(),
                        out@.w == w0,
                        out@.h == h0,
                        forall|xx: int, yy: int|
                            g0.contains(xx, yy) ==> #[trigger] out@.at(xx, yy) == if yy < y || (yy
                                == y && xx < x) {
                                blend(g0.at(xx, yy), layer.canvas@.at(xx, yy), layer.alpha)
                            } else {
                                g0.at(xx, yy)
                            },
                    decreases size.x - x,
                {
                    let p = Point { x, y };
                    let c = blend_color(out.pixel(p), layer.canvas.pixel(p), layer.alpha);
                    let ghost before = out@;
                    out.set_pixel(p, c);
                    proof {
                        lemma_from_fn(
                            before.w,
                            before.h,
                            |a: int, b: int| if a == x && b == y { c } else { before.at(a, b) },
                        );
                    }
                    x = x + 1;
                }
                y = y + 1;
            }
        }
        i = i + 1;
    }
    proof {
        let r = composed(lv, w0, h0);
        lemma_from_fn(w0, h0, |x: int, y: int| composed_pixel(lv, lv.len() as int, x, y));
        lemma_ext(out@, r);
    }
    out
}

} // verus!
