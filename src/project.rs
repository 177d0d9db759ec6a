use vstd::prelude::*;

use crate::bitmap::Bitmap;
use crate::canvas::Canvas;
use crate::color::Color;
use crate::grid::{
    channels,
    colors_of,
    grid_of_bytes,
    lemma_bytes_round_trip,
    lemma_colors_round_trip,
    lemma_grid_bytes_round_trip,
};
use crate::layer::{Layer, LayerModel, layers_view};
use crate::state::stack_wf;
use crate::palette::{ColorPalette, dedup};
use crate::primitives::Size;

verus! {

/// Why a project could not be read; nothing is loaded.
#[derive(Clone, Copy, Debug, PartialEq, Eq, Structural, Hash)]
pub enum ProjectError {
    /// Fewer bytes than the header, or a length that disagrees with it.
    BadLength,
    /// No layer, or an active layer past the top one.
    BadLayers,
    /// A canvas side over `i32::MAX`, a canvas too large to hold, or a
    /// spritesheet side under one or over `i32::MAX`.
    InvalidSize,
}

/// Bytes of the fixed header: canvas width and height, spritesheet columns
/// and rows, palette length, layer count and active layer, each a
/// little-endian `u32`.
pub const HEADER_LEN: usize = 28;

/// `v` as four little-endian bytes.
pub open spec fn u32_bytes(v: int) -> Seq<u8> {
    seq![
        (v % 256) as u8,
        ((v / 256) % 256) as u8,
        ((v / 65536) % 256) as u8,
        ((v / 16777216) % 256) as u8,
    ]
}

/// The little-endian `u32` at `b[at..at + 4]`.
pub open spec fn read_u32(b: Seq<u8>, at: int) -> int {
    b[at] + 256 * b[at + 1] + 65536 * b[at + 2] + 16777216 * b[at + 3]
}

/// One layer in a project file: visibility (1 shown, 0 hidden), opacity,
/// then its pixels as row-major RGBA bytes.
pub open spec fn encode_layer(l: LayerModel) -> Seq<u8> {
    seq![if l.visible { 1u8 } else { 0u8 }, l.alpha] + l.grid.bytes()
}

/// The layers one after the other, bottom first.
pub open spec fn encode_layers(ls: Seq<LayerModel>) -> Seq<u8>
    decreases ls.len(),
{
    if ls.len() == 0 {
        Seq::empty()
    } else {
        encode_layers(ls.drop_last()) + encode_layer(ls.last())
    }
}

/// The layer whose bytes in a project file are `b`, for a canvas of the
/// given sides.
pub open spec fn decode_layer(w: int, h: int, b: Seq<u8>) -> LayerModel {
    LayerModel { grid: grid_of_bytes(w, h, b.subrange(2, b.len() as int)), visible: b[0] != 0, alpha: b[1] }
}

/// A project file: the header, the palette's colors as RGBA bytes, then
/// each layer.
pub open spec fn encode_project(
    layers: Seq<LayerModel>,
    active: int,
    palette: Seq<Color>,
    sheet: Size,
) -> Seq<u8> {
    u32_bytes(layers[0].grid.w) + u32_bytes(layers[0].grid.h) + u32_bytes(sheet.x as int)
        + u32_bytes(sheet.y as int) + u32_bytes(palette.len() as int) + u32_bytes(
        layers.len() as int,
    ) + u32_bytes(active) + channels(palette) + encode_layers(layers)
}

/// Bytes that each layer takes in a project file.
pub open spec fn layer_len(w: int, h: int) -> int {
    2 + 4 * (w * h)
}

/// What a project file holds: layers, active layer, palette (duplicates
/// dropped) and spritesheet grid, or why it cannot be read.
pub open spec fn decode_project(b: Seq<u8>) -> Result<
    (Seq<LayerModel>, int, Seq<Color>, Size),
    ProjectError,
> {
    if b.len() < 28 {
        Err(ProjectError::BadLength)
    } else {
        let w = read_u32(b, 0);
        let h = read_u32(b, 4);
        let sx = read_u32(b, 8);
        let sy = read_u32(b, 12);
        let n = read_u32(b, 16);
        let nl = read_u32(b, 20);
        let act = read_u32(b, 24);
        let base = 28 + 4 * n;
        let len = layer_len(w, h);
        if !(w <= i32::MAX && h <= i32::MAX && w * h * 4 <= usize::MAX && 1 <= sx <= i32::MAX && 1
            <= sy <= i32::MAX) {
            Err(ProjectError::InvalidSize)
        } else if !(nl >= 1 && act < nl) {
            Err(ProjectError::BadLayers)
        } else if b.len() != base + nl * len {
            Err(ProjectError::BadLength)
        } else {
            Ok(
                (
                    Seq::new(
                        nl as nat,
                        |k: int| decode_layer(w, h, b.subrange(base + k * len, base + (k + 1) * len)),
                    ),
                    act,
                    dedup(colors_of(b.subrange(28, base))),
                    Size { x: sx as i32, y: sy as i32 },
                ),
            )
        }
    }
}

proof fn lemma_u32_round_trip(v: int)
    requires
        0 <= v < 0x1_0000_0000,
    ensures
        read_u32(u32_bytes(v), 0) == v,
{
    let b = u32_bytes(v);
    assert(v == v % 256 + 256 * ((v / 256) % 256) + 65536 * ((v / 65536) % 256) + 16777216 * ((v
        / 16777216) % 256)) by (nonlinear_arith)
        requires
            0 <= v < 0x1_0000_0000,
    ;
}

/// A palette without duplicates is its own deduplication.
pub proof fn lemma_dedup_unique(s: Seq<Color>)
    requires
        s.no_duplicates(),
    ensures
        dedup(s) == s,
    decreases s.len(),
{
    if s.len() > 0 {
        let init = s.drop_last();
        assert(init.no_duplicates()) by {
            assert forall|i: int, j: int| 0 <= i < j < init.len() implies init[i] != init[j] by {
                assert(s[i] != s[j]);
            }
        }
        lemma_dedup_unique(init);
        assert(!init.contains(s.last())) by {
            if init.contains(s.last()) {
                let k = choose|k: int| 0 <= k < init.len() && init[k] == s.last();
                assert(s[k] == s[s.len() - 1]);
            }
        }
        assert(init.push(s.last()) =~= s);
    }
}

proof fn lemma_read_at(b: Seq<u8>, at: int, v: int)
    requires
        0 <= at,
        at + 4 <= b.len(),
        b.subrange(at, at + 4) == u32_bytes(v),
        0 <= v < 0x1_0000_0000,
    ensures
        read_u32(b, at) == v,
{
    lemma_u32_round_trip(v);
    let s = b.subrange(at, at + 4);
    assert(s[0] == b[at] && s[1] == b[at + 1] && s[2] == b[at + 2] && s[3] == b[at + 3]);
}

/// The bytes of layers of one size: one block of `layer_len` bytes each.
proof fn lemma_encode_layers(ls: Seq<LayerModel>, w: int, h: int)
    requires
        w >= 0,
        h >= 0,
        forall|i: int|
            0 <= i < ls.len() ==> (#[trigger] ls[i]).grid.wf() && ls[i].grid.w == w && ls[i].grid.h
                == h,
    ensures
        encode_layers(ls).len() == ls.len() * layer_len(w, h),
        forall|k: int|
            0 <= k < ls.len() ==> #[trigger] encode_layers(ls).subrange(
                k * layer_len(w, h),
                (k + 1) * layer_len(w, h),
            ) == encode_layer(ls[k]),
    decreases ls.len(),
{
    if ls.len() > 0 {
        let init = ls.drop_last();
        let len = layer_len(w, h);
        assert forall|i: int| 0 <= i < init.len() implies (#[trigger] init[i]).grid.wf()
            && init[i].grid.w == w && init[i].grid.h == h by {
            assert(init[i] == ls[i]);
        }
        lemma_encode_layers(init, w, h);
        let e0 = encode_layers(init);
        let last = ls[ls.len() - 1];
        assert(last.grid.wf());
        assert(last.grid.pixels().len() == w * h);
        assert(encode_layer(last).len() == len);
        let e = encode_layers(ls);
        assert(e == e0 + encode_layer(last));
        assert(ls.len() * len == init.len() * len + len) by (nonlinear_arith)
            requires
                ls.len() == init.len() + 1,
        ;
        assert forall|k: int| 0 <= k < ls.len() implies #[trigger] e.subrange(k * len, (k + 1) * len)
            == encode_layer(ls[k]) by {
            if k < init.len() {
                assert((k + 1) * len <= init.len() * len && 0 <= k * len && k * len <= (k + 1) * len)
                    by (nonlinear_arith)
                    requires
                        0 <= k,
                        k + 1 <= init.len(),
                        len >= 2,
                ;
                assert(e.subrange(k * len, (k + 1) * len) =~= e0.subrange(k * len, (k + 1) * len));
                assert(init[k] == ls[k]);
            } else {
                assert(k * len == init.len() * len);
                assert((k + 1) * len == init.len() * len + len) by (nonlinear_arith)
                    requires
                        k == init.len(),
                ;
                assert(e.subrange(k * len, (k + 1) * len) =~= encode_layer(last));
            }
        }
    }
}

/// A layer's bytes read back give the same layer.
proof fn lemma_layer_round_trip(l: LayerModel)
    requires
        l.grid.wf(),
    ensures
        decode_layer(l.grid.w, l.grid.h, encode_layer(l)) == l,
{
    let b = encode_layer(l);
    lemma_grid_bytes_round_trip(l.grid);
    assert(b.subrange(2, b.len() as int) =~= l.grid.bytes());
}

/// A saved project reads back as the same layers, active layer, palette and
/// spritesheet grid, byte for byte.
#[verifier::spinoff_prover]
#[verifier::rlimit(100)]
pub proof fn law_project_round_trip(
    layers: Seq<LayerModel>,
    active: int,
    palette: Seq<Color>,
    sheet: Size,
)
    requires
        stack_wf(layers, active),
        layers.len() < 0x1_0000_0000,
        palette.no_duplicates(),
        palette.len() < 0x1_0000_0000,
        sheet.x >= 1,
        sheet.y >= 1,
    ensures
        decode_project(encode_project(layers, active, palette, sheet)) == Ok::<
            (Seq<LayerModel>, int, Seq<Color>, Size),
            ProjectError,
        >((layers, active, palette, sheet)),
{
    let g = layers[0].grid;
    let w = g.w;
    let h = g.h;
    let n = palette.len() as int;
    let nl = layers.len() as int;
    let len = layer_len(w, h);
    let hw = u32_bytes(w);
    let hh = u32_bytes(h);
    let hx = u32_bytes(sheet.x as int);
    let hy = u32_bytes(sheet.y as int);
    let hn = u32_bytes(n);
    let hl = u32_bytes(nl);
    let ha = u32_bytes(active);
    let pc = channels(palette);
    let el = encode_layers(layers);
    let b = hw + hh + hx + hy + hn + hl + ha + pc + el;
    assert(b == encode_project(layers, active, palette, sheet));
    lemma_encode_layers(layers, w, h);
    let base = 28 + 4 * n;
    assert(b.len() == base + nl * len);
    assert(b.subrange(0, 4) =~= hw);
    assert(b.subrange(4, 8) =~= hh);
    assert(b.subrange(8, 12) =~= hx);
    assert(b.subrange(12, 16) =~= hy);
    assert(b.subrange(16, 20) =~= hn);
    assert(b.subrange(20, 24) =~= hl);
    assert(b.subrange(24, 28) =~= ha);
    lemma_read_at(b, 0, w);
    lemma_read_at(b, 4, h);
    lemma_read_at(b, 8, sheet.x as int);
    lemma_read_at(b, 12, sheet.y as int);
    lemma_read_at(b, 16, n);
    lemma_read_at(b, 20, nl);
    lemma_read_at(b, 24, active);
    assert(b.subrange(28, base) =~= pc);
    lemma_colors_round_trip(palette);
    lemma_dedup_unique(palette);
    let decoded = Seq::new(
        nl as nat,
        |k: int| decode_layer(w, h, b.subrange(base + k * len, base + (k + 1) * len)),
    );
    assert forall|k: int| 0 <= k < nl implies #[trigger] decoded[k] == layers[k] by {
        assert(0 <= k * len && k * len <= (k + 1) * len && (k + 1) * len <= nl * len)
            by (nonlinear_arith)
            requires
                0 <= k < nl,
                len >= 2,
        ;
        assert(b.subrange(base + k * len, base + (k + 1) * len) =~= el.subrange(
            k * len,
            (k + 1) * len,
        ));
        assert(el.subrange(k * len, (k + 1) * len) == encode_layer(layers[k]));
        assert(layers[k].grid.wf());
        lemma_layer_round_trip(layers[k]);
    }
    assert(decoded =~= layers);
}

/// `read_u32(b@, at)`.
fn read_u32_at(b: &[u8], at: usize) -> (r: u32)
    requires
        at + 4 <= b@.len(),
    ensures
        r == read_u32(b@, at as int),
{
    b[at] as u32 + 256 * (b[at + 1] as u32) + 65536 * (b[at + 2] as u32) + 16777216 * (b[at
        + 3] as u32)
}

/// Appends `u32_bytes(v)`.
fn push_u32(out: &mut Vec<u8>, v: u32)
    ensures
        final(out)@ == old(out)@ + u32_bytes(v as int),
{
    out.push((v % 256) as u8);
    out.push(((v / 256) % 256) as u8);
    out.push(((v / 65536) % 256) as u8);
    out.push(((v / 16777216) % 256) as u8);
    assert(final(out)@ =~= old(out)@ + u32_bytes(v as int));
}

/// Appends the bytes of the layers `ls[from..]`.
fn push_layers<IMG: Bitmap>(out: &mut Vec<u8>, ls: &Vec<Layer<IMG>>)
    requires
        forall|i: int| 0 <= i < ls@.len() ==> (#[trigger] ls@[i]).canvas@.wf(),
    ensures
        final(out)@ == old(out)@ + encode_layers(layers_view(ls@)),
{
    let ghost head = old(out)@;
    let mut i: usize = 0;
    while i < ls.len()
        invariant
            i <= ls@.len(),
            forall|k: int| 0 <= k < ls@.len() ==> (#[trigger] ls@[k]).canvas@.wf(),
            out@ == head + encode_layers(layers_view(ls@).subrange(0, i as int)),
        decreases ls@.len() - i,
    {
        let l = &ls[i];
        let ghost before = out@;
        out.push(if l.visible { 1u8 } else { 0u8 });
        out.push(l.alpha);
        let mut px = l.canvas.bytes();
        out.append(&mut px);
        proof {
            let sub = layers_view(ls@).subrange(0, i + 1);
            assert(sub.drop_last() =~= layers_view(ls@).subrange(0, i as int));
            assert(sub.last() == l@);
            assert(out@ =~= before + encode_layer(l@));
        }
        i = i + 1;
    }
    assert(layers_view(ls@).subrange(0, ls@.len() as int) =~= layers_view(ls@));
}

/// The bytes of a project file.
pub fn encode<IMG: Bitmap>(
    layers: &Vec<Layer<IMG>>,
    active: usize,
    palette: &ColorPalette,
    sheet: Size,
) -> (r: Vec<u8>)
    requires
        stack_wf(layers_view(layers@), active as int),
        layers@.len() < 0x1_0000_0000,
        active < 0x1_0000_0000,
        palette@.len() < 0x1_0000_0000,
        sheet.x >= 0,
        sheet.y >= 0,
    ensures
        r@ == encode_project(layers_view(layers@), active as int, palette@, sheet),
{
    proof {
        assert forall|i: int| 0 <= i < layers@.len() implies (#[trigger] layers@[i]).canvas@.wf() by {
            assert(layers_view(layers@)[i] == layers@[i]@);
        }
        assert(layers_view(layers@)[0] == layers@[0]@);
    }
    let mut out: Vec<u8> = Vec::new();
    push_u32(&mut out, layers[0].canvas.width() as u32);
    push_u32(&mut out, layers[0].canvas.height() as u32);
    push_u32(&mut out, sheet.x as u32);
    push_u32(&mut out, sheet.y as u32);
    let colors = palette.colors();
    push_u32(&mut out, colors.len() as u32);
    push_u32(&mut out, layers.len() as u32);
    push_u32(&mut out, active as u32);
    let ghost head = out@;
    let mut i: usize = 0;
    while i < colors.len()
        invariant
            i <= colors@.len(),
            out@ == head + channels(colors@.subrange(0, i as int)),
        decreases colors@.len() - i,
    {
        let c = colors[i];
        out.push(c.r);
        out.push(c.g);
        out.push(c.b);
        out.push(c.a);
        i = i + 1;
        assert(out@ =~= head + channels(colors@.subrange(0, i as int)));
    }
    assert(colors@.subrange(0, colors@.len() as int) =~= colors@);
    push_layers(&mut out, layers);
    out
}

/// Reads a project file; nothing is built unless the whole file is sound.
pub fn decode<IMG: Bitmap>(bytes: &[u8]) -> (r: Result<
    (Vec<Layer<IMG>>, usize, ColorPalette, Size),
    ProjectError,
>)
    ensures
        match decode_project(bytes@) {
            Ok((ls, a, p, s)) => r matches Ok((v, b, q, t)) && layers_view(v@) == ls && b == a
                && stack_wf(ls, a) && q.wf() && q@ == p && t == s,
            Err(e) => r == Err::<(Vec<Layer<IMG>>, usize, ColorPalette, Size), ProjectError>(e),
        },
{
    if bytes.len() < HEADER_LEN {
        return Err(ProjectError::BadLength);
    }
    let w = read_u32_at(bytes, 0);
    let h = read_u32_at(bytes, 4);
    let sx = read_u32_at(bytes, 8);
    let sy = read_u32_at(bytes, 12);
    let n = read_u32_at(bytes, 16);
    let nl = read_u32_at(bytes, 20);
    let act = read_u32_at(bytes, 24);
    if w > 0x7fff_ffff || h > 0x7fff_ffff || sx < 1 || sx > 0x7fff_ffff || sy < 1 || sy
        > 0x7fff_ffff {
        return Err(ProjectError::InvalidSize);
    }
    assert((w as u128) * (h as u128) <= 0x4000_0000_0000_0000) by (nonlinear_arith)
        requires
            w <= 0x7fff_ffff,
            h <= 0x7fff_ffff,
    ;
    let area: u128 = (w as u128) * (h as u128);
    assert((w as int) * (h as int) * 4 == 4 * (area as int)) by (nonlinear_arith)
        requires
            area == (w as int) * (h as int),
    ;
    if area * 4 > usize::MAX as u128 {
        return Err(ProjectError::InvalidSize);
    }
    if nl < 1 || act >= nl {
        return Err(ProjectError::BadLayers);
    }
    let len: u128 = 2 + 4 * area;
    let ghost glen = layer_len(w as int, h as int);
    assert(len == glen);
    assert((nl as u128) * len <= 0x1_0000_0000 * 0x1_0000_0000_0000_0002) by (nonlinear_arith)
        requires
            nl <= 0xffff_ffff,
            len <= 0x1_0000_0000_0000_0002,
    ;
    let base: u128 = 28 + 4 * (n as u128);
    let total: u128 = base + (nl as u128) * len;
    if bytes.len() as u128 != total {
        return Err(ProjectError::BadLength);
    }
    let blen = bytes.len();
    let mut colors: Vec<Color> = Vec::new();
    let mut k: usize = 0;
    while k < n as usize
        invariant
            blen == bytes@.len(),
            k <= n,
            base == 28 + 4 * n,
            base <= bytes@.len(),
            colors@.len() == k,
            forall|j: int| 0 <= j < k ==> colors@[j] == colors_of(bytes@.subrange(28, base as int))[j],
        decreases n - k,
    {
        let at = 28 + 4 * k;
        colors.push(Color { r: bytes[at], g: bytes[at + 1], b: bytes[at + 2], a: bytes[at + 3] });
        k = k + 1;
    }
    assert(colors@ =~= colors_of(bytes@.subrange(28, base as int)));
    let palette = ColorPalette::from_colors(&colors);
    let size = Size { x: w as i32, y: h as i32 };
    let ghost spec_layers = Seq::new(
        nl as nat,
        |j: int|
            decode_layer(
                w as int,
                h as int,
                bytes@.subrange(base + j * glen, base + (j + 1) * glen),
            ),
    );
    let mut layers: Vec<Layer<IMG>> = Vec::new();
    let mut off: usize = base as usize;
    let ulen: usize = len as usize;
    let mut j: usize = 0;
    while j < nl as usize
        invariant
            j <= nl,
            nl >= 1,
            size.valid(),
            size.x == w,
            size.y == h,
            ulen == glen,
            glen == 2 + 4 * (w * h),
            base == 28 + 4 * n,
            spec_layers == Seq::new(
                nl as nat,
                |jj: int|
                    decode_layer(
                        w as int,
                        h as int,
                        bytes@.subrange(base + jj * glen, base + (jj + 1) * glen),
                    ),
            ),
            off == base + j * glen,
            bytes@.len() == base + nl * glen,
            layers@.len() == j,
            forall|i: int|
                0 <= i < j ==> (#[trigger] layers@[i])@ == spec_layers[i] && layers@[i].canvas@.wf()
                    && layers@[i].canvas@.w == w && layers@[i].canvas@.h == h,
        decreases nl - j,
    {
        assert(off + glen <= bytes@.len() && (j + 1) * glen == j * glen + glen) by (nonlinear_arith)
            requires
                off == base + j * glen,
                bytes@.len() == base + nl * glen,
                j < nl,
                glen >= 2,
        ;
        let visible = bytes[off] != 0;
        let alpha = bytes[off + 1];
        let pixels = vstd::slice::slice_subrange(bytes, off + 2, off + ulen);
        let img = IMG::from_parts(size, pixels);
        proof {
            lemma_bytes_round_trip(w as int, h as int, pixels@);
            let lb = bytes@.subrange(off as int, off + glen);
            assert(lb.subrange(2, lb.len() as int) =~= pixels@);
        }
        layers.push(Layer { canvas: Canvas::from_image(img), visible, alpha });
        off = off + ulen;
        j = j + 1;
    }
    proof {
        assert(layers_view(layers@) =~= spec_layers);
        let ls = layers_view(layers@);
        assert forall|i: int| 0 <= i < ls.len() implies (#[trigger] ls[i]).grid.wf() && ls[i].grid.w
            == ls[0].grid.w && ls[i].grid.h == ls[0].grid.h by {
            assert(ls[i] == layers@[i]@);
            assert(ls[0] == layers@[0]@);
        }
    }
    Ok((layers, act as usize, palette, Size { x: sx as i32, y: sy as i32 }))
}

} // verus!
