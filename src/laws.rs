use vstd::prelude::*;

use crate::bitmap::Bitmap;
use crate::color::{Color, spec_transparent};
use crate::event::{CanvasEffect, Event};
use crate::grid::{
    Grid,
    lemma_connected_start,
    lemma_connected_step,
    lemma_ext,
    lemma_from_fn,
    line_cell,
    on_line,
    round_step,
};
use crate::primitives::{Point, Size};
use crate::region::Rect;
use crate::state::{Model, next};
use vstd::arithmetic::div_mod::lemma_fundamental_div_mod_converse;

verus! {

/// The state after applying the events in order.
pub open spec fn run<IMG: Bitmap>(m: Model, es: Seq<Event<IMG>>) -> Model
    decreases es.len(),
{
    if es.len() == 0 {
        m
    } else {
        next(run(m, es.drop_last()), es.last()).0
    }
}

/// Events that open a gesture or make a one-step change: on success they
/// save the canvas for undo.
pub open spec fn saves_history<IMG: Bitmap>(e: Event<IMG>) -> bool {
    match e {
        Event::ClearCanvas => true,
        Event::ResizeCanvas(_) => true,
        Event::BrushStart => true,
        Event::LineStart(_) => true,
        Event::EraseStart => true,
        Event::Bucket(_) => true,
        Event::ApplyTransform(_) => true,
        Event::OpenFile(_) => true,
        Event::RectangleStart(_) => true,
        Event::EllipseStart(_) => true,
        Event::NewLayer => true,
        Event::DeleteLayer(_) => true,
        _ => false,
    }
}

/// Events that continue or close a gesture, or touch no pixel: they leave
/// the history alone.
pub open spec fn keeps_history<IMG: Bitmap>(e: Event<IMG>) -> bool {
    match e {
        Event::Brush(_) => true,
        Event::BrushEnd => true,
        Event::LineEnd(_) => true,
        Event::Erase(_) => true,
        Event::EraseEnd => true,
        Event::Eyedropper(_) => true,
        Event::SetTool(_) => true,
        Event::SetMainColor(_) => true,
        Event::SetSpritesheet(_) => true,
        Event::AddToPalette(_) => true,
        Event::RemoveFromPalette(_) => true,
        Event::LoadPalette(_) => true,
        Event::RectangleEnd(_) => true,
        Event::EllipseEnd(_) => true,
        Event::SelectionStart(_) => true,
        Event::SelectionEnd(_) => true,
        Event::ClearSelection => true,
        Event::MoveEnd(_) => true,
        Event::SwitchLayer(_) => true,
        Event::ChangeLayerVisibility(_, _) => true,
        Event::ChangeLayerOpacity(_, _) => true,
        _ => false,
    }
}

proof fn lemma_run_keeps_history<IMG: Bitmap>(m: Model, es: Seq<Event<IMG>>)
    requires
        forall|i: int| 0 <= i < es.len() ==> keeps_history(#[trigger] es[i]),
    ensures
        run(m, es).undo == m.undo,
        run(m, es).redo == m.redo,
    decreases es.len(),
{
    if es.len() > 0 {
        let init = es.drop_last();
        assert forall|i: int| 0 <= i < init.len() implies keeps_history(#[trigger] init[i]) by {
            assert(init[i] == es[i]);
        }
        lemma_run_keeps_history(m, init);
        assert(keeps_history(es[es.len() - 1]));
    }
}

/// Undo after a completed gesture (an event that saves history, then any
/// events that keep it) brings back the canvas from before the gesture, and
/// redo after that brings back the canvas from after it.
pub proof fn law_undo_redo_gesture<IMG: Bitmap>(m: Model, first: Event<IMG>, rest: Seq<Event<IMG>>)
    requires
        saves_history(first),
        next(m, first).1 is Ok,
        forall|i: int| 0 <= i < rest.len() ==> keeps_history(#[trigger] rest[i]),
    ensures
        ({
            let after = run(next(m, first).0, rest);
            let undone = next(after, Event::<IMG>::Undo).0;
            let redone = next(undone, Event::<IMG>::Redo).0;
            &&& undone.layers == m.layers
            &&& undone.active == m.active
            &&& undone.canvas() == m.canvas()
            &&& redone.layers == after.layers
            &&& redone.active == after.active
            &&& redone.canvas() == after.canvas()
        }),
{
    let m0 = next(m, first).0;
    assert(m0.undo == m.undo.push(m.saved()));
    lemma_run_keeps_history(m0, rest);
    let m1 = run(m0, rest);
    assert(m1.undo.last() == m.saved());
    let m2 = next(m1, Event::<IMG>::Undo).0;
    assert(m2.redo == m1.redo.push(m1.saved()));
}

/// Clearing the canvas leaves every pixel of the active layer transparent,
/// whatever was drawn before: the state may be the result of any events,
/// since `State::execute` keeps it well formed.
pub proof fn law_clear_after_any<IMG: Bitmap>(m: Model)
    requires
        m.wf(),
    ensures
        forall|x: int, y: int|
            next(m, Event::<IMG>::ClearCanvas).0.canvas().contains(x, y) ==> #[trigger] next(
                m,
                Event::<IMG>::ClearCanvas,
            ).0.canvas().at(x, y) == spec_transparent(),
        next(m, Event::<IMG>::ClearCanvas).0.canvas().w == m.canvas().w,
        next(m, Event::<IMG>::ClearCanvas).0.canvas().h == m.canvas().h,
{
}

/// Adding a color the palette holds changes nothing, and the palette never
/// holds a color twice; removing a color it lacks changes nothing and
/// reports no canvas change.
pub proof fn law_palette_set_operations<IMG: Bitmap>(m: Model, c: Color)
    ensures
        m.palette.contains(c) ==> next(m, Event::<IMG>::AddToPalette(c)) == (
        m,
        Ok::<CanvasEffect, crate::event::EditError>(CanvasEffect::Unchanged),
        ),
        m.palette.no_duplicates() ==> next(m, Event::<IMG>::AddToPalette(c)).0.palette.no_duplicates(),
        !m.palette.contains(c) ==> next(m, Event::<IMG>::RemoveFromPalette(c)) == (
        m,
        Ok::<CanvasEffect, crate::event::EditError>(CanvasEffect::Unchanged),
        ),
{
    if m.palette.no_duplicates() && !m.palette.contains(c) {
        let p = m.palette.push(c);
        assert forall|i: int, j: int| 0 <= i < j < p.len() implies p[i] != p[j] by {
            if j == p.len() - 1 {
                assert(m.palette.contains(m.palette[i]));
            } else {
                assert(m.palette[i] != m.palette[j]);
            }
        }
    }
}

/// Resizing and then resizing back keeps, in every layer, exactly the
/// pixels that stayed inside both rectangles; all others come back
/// transparent.
pub proof fn law_resize_back<IMG: Bitmap>(m: Model, s: Size)
    requires
        m.wf(),
        s.valid(),
    ensures
        ({
            let back = Size { x: m.canvas().w as i32, y: m.canvas().h as i32 };
            let r = next(next(m, Event::<IMG>::ResizeCanvas(s)).0, Event::<IMG>::ResizeCanvas(back)).0;
            &&& r.layers.len() == m.layers.len()
            &&& forall|i: int, x: int, y: int|
                0 <= i < m.layers.len() && m.layers[i].grid.contains(x, y) ==> {
                    &&& r.layers[i].grid.w == m.layers[i].grid.w
                    &&& r.layers[i].grid.h == m.layers[i].grid.h
                    &&& #[trigger] r.layers[i].grid.at(x, y) == if x < s.x && y < s.y {
                        m.layers[i].grid.at(x, y)
                    } else {
                        spec_transparent()
                    }
                }
        }),
{
    let back = Size { x: m.canvas().w as i32, y: m.canvas().h as i32 };
    assert(m.layers[0].grid.wf());
    assert(back.valid());
    let t = spec_transparent();
    let f1 = Grid::filled(s.x as int, s.y as int, t);
    lemma_from_fn(f1.w, f1.h, |x: int, y: int| t);
    let f2 = Grid::filled(back.x as int, back.y as int, t);
    lemma_from_fn(f2.w, f2.h, |x: int, y: int| t);
    let r = next(next(m, Event::<IMG>::ResizeCanvas(s)).0, Event::<IMG>::ResizeCanvas(back)).0;
    assert forall|i: int, x: int, y: int|
        0 <= i < m.layers.len() && m.layers[i].grid.contains(x, y) implies {
        &&& r.layers[i].grid.w == m.layers[i].grid.w
        &&& r.layers[i].grid.h == m.layers[i].grid.h
        &&& #[trigger] r.layers[i].grid.at(x, y) == if x < s.x && y < s.y {
            m.layers[i].grid.at(x, y)
        } else {
            t
        }
    } by {
        let g0 = m.layers[i].grid;
        assert(g0.wf());
        let g1 = g0.resized(s.x as int, s.y as int);
        lemma_from_fn(
            f1.w,
            f1.h,
            |a: int, b: int| if a < g0.w && b < g0.h { g0.at(a, b) } else { f1.at(a, b) },
        );
        lemma_from_fn(
            f2.w,
            f2.h,
            |a: int, b: int| if a < g1.w && b < g1.h { g1.at(a, b) } else { f2.at(a, b) },
        );
    }
}

proof fn lemma_round_exact(k: int, n: int)
    requires
        n > 0,
        k >= 0,
    ensures
        round_step(k, n, n) == k,
{
    assert(2 * k * n + n == k * (2 * n) + n) by (nonlinear_arith);
    lemma_fundamental_div_mod_converse(2 * k * n + n, 2 * n, k, n);
}

/// On the line from `(0, 0)` to `(n, n)`, the cells are the diagonal ones.
pub proof fn lemma_diagonal(n: int, x: int, y: int)
    requires
        n >= 0,
        0 <= x <= n,
        0 <= y <= n,
    ensures
        on_line(0, 0, n, n, x, y) <==> x == y,
{
    if n > 0 {
        assert forall|k: int| 0 <= k <= n implies #[trigger] line_cell(0, 0, n, n, k) == (k, k) by {
            lemma_round_exact(k, n);
        }
    }
    if x == y {
        assert(line_cell(0, 0, n, n, x) == (x, y));
    }
    if on_line(0, 0, n, n, x, y) {
        let k = choose|k: int| 0 <= k < n + 1 && #[trigger] line_cell(0, 0, n, n, k) == (x, y);
    }
}

/// A line gesture from the top-left to the bottom-right corner of a square
/// canvas sets exactly the diagonal to the main color and keeps the rest.
pub proof fn law_diagonal_line<IMG: Bitmap>(m: Model)
    requires
        m.wf(),
        m.selection is None,
        m.canvas().w == m.canvas().h,
        m.canvas().w >= 1,
    ensures
        ({
            let n = m.canvas().w;
            let g = next(
                next(m, Event::<IMG>::LineStart(Point { x: 0, y: 0 })).0,
                Event::<IMG>::LineEnd(Point { x: (n - 1) as i32, y: (n - 1) as i32 }),
            ).0.canvas();
            &&& g.w == n
            &&& g.h == n
            &&& forall|x: int, y: int|
                m.canvas().contains(x, y) ==> #[trigger] g.at(x, y) == if x == y {
                    m.main_color
                } else {
                    m.canvas().at(x, y)
                }
        }),
{
    let n = m.canvas().w;
    let g0 = m.canvas();
    let c = m.main_color;
    lemma_from_fn(
        g0.w,
        g0.h,
        |x: int, y: int| if on_line(0, 0, n - 1, n - 1, x, y) { c } else { g0.at(x, y) },
    );
    assert forall|x: int, y: int| g0.contains(x, y) implies on_line(0, 0, n - 1, n - 1, x, y)
        == (x == y) by {
        lemma_diagonal(n - 1, x, y);
    }
}

/// On a grid of one color every cell is connected to the top-left one
/// within a rectangle that holds the grid.
pub proof fn lemma_uniform_connected(g: Grid, c: Color, r: Rect, x: int, y: int)
    requires
        g.wf(),
        g.contains(x, y),
        forall|i: int, j: int| g.contains(i, j) ==> #[trigger] g.at(i, j) == c,
        forall|i: int, j: int| g.contains(i, j) ==> #[trigger] r.has(i, j),
    ensures
        g.connected(0, 0, x, y, r),
    decreases x + y,
{
    assert(r.has(x, y));
    if x == 0 && y == 0 {
        lemma_connected_start(g, 0, 0, r);
    } else if x > 0 {
        lemma_uniform_connected(g, c, r, x - 1, y);
        lemma_connected_step(g, 0, 0, (x - 1, y), (x, y), r);
    } else {
        lemma_uniform_connected(g, c, r, x, y - 1);
        lemma_connected_step(g, 0, 0, (x, y - 1), (x, y), r);
    }
}

/// Bucket fill from the top-left pixel of a blank canvas sets every pixel
/// to the main color.
pub proof fn law_bucket_blank<IMG: Bitmap>(m: Model)
    requires
        m.wf(),
        m.selection is None,
        m.canvas().w >= 1,
        m.canvas().h >= 1,
        m.canvas() == Grid::filled(m.canvas().w, m.canvas().h, spec_transparent()),
    ensures
        next(m, Event::<IMG>::Bucket(Point { x: 0, y: 0 })).1 == Ok::<
            CanvasEffect,
            crate::event::EditError,
        >(CanvasEffect::Update),
        next(m, Event::<IMG>::Bucket(Point { x: 0, y: 0 })).0.canvas() == Grid::filled(
            m.canvas().w,
            m.canvas().h,
            m.main_color,
        ),
{
    let g = m.canvas();
    let c = m.main_color;
    lemma_from_fn(g.w, g.h, |x: int, y: int| spec_transparent());
    lemma_from_fn(g.w, g.h, |x: int, y: int| c);
    let b = m.fill_bounds();
    lemma_from_fn(
        g.w,
        g.h,
        |x: int, y: int| if g.connected(0, 0, x, y, b) { c } else { g.at(x, y) },
    );
    let r = g.flood_filled(0, 0, c, b);
    assert forall|x: int, y: int| r.contains(x, y) implies #[trigger] r.at(x, y) == Grid::filled(
        g.w,
        g.h,
        c,
    ).at(x, y) by {
        lemma_uniform_connected(g, spec_transparent(), b, x, y);
    }
    lemma_ext(r, Grid::filled(g.w, g.h, c));
}

/// Bucket fill of a blank canvas, then an erase gesture over two opposite
/// corners, leaves those two pixels transparent and all others filled.
pub proof fn law_bucket_then_erase_corners<IMG: Bitmap>(m: Model)
    requires
        m.wf(),
        m.selection is None,
        m.canvas().w >= 1,
        m.canvas().h >= 1,
        m.canvas() == Grid::filled(m.canvas().w, m.canvas().h, spec_transparent()),
    ensures
        ({
            let last = Point { x: (m.canvas().w - 1) as i32, y: (m.canvas().h - 1) as i32 };
            let m1 = next(m, Event::<IMG>::Bucket(Point { x: 0, y: 0 })).0;
            let m2 = next(m1, Event::<IMG>::EraseStart).0;
            let m3 = next(m2, Event::<IMG>::Erase(Point { x: 0, y: 0 })).0;
            let m4 = next(m3, Event::<IMG>::Erase(last)).0;
            let g = next(m4, Event::<IMG>::EraseEnd).0.canvas();
            forall|x: int, y: int|
                m.canvas().contains(x, y) ==> #[trigger] g.at(x, y) == if (x == 0 && y == 0) || (x
                    == m.canvas().w - 1 && y == m.canvas().h - 1) {
                    spec_transparent()
                } else {
                    m.main_color
                }
        }),
{
    law_bucket_blank::<IMG>(m);
    let g = m.canvas();
    let c = m.main_color;
    let t = spec_transparent();
    let f = Grid::filled(g.w, g.h, c);
    lemma_from_fn(g.w, g.h, |x: int, y: int| c);
    lemma_from_fn(g.w, g.h, |x: int, y: int| if x == 0 && y == 0 { t } else { f.at(x, y) });
    let f2 = f.set(0, 0, t);
    lemma_from_fn(
        g.w,
        g.h,
        |x: int, y: int| if x == g.w - 1 && y == g.h - 1 { t } else { f2.at(x, y) },
    );
}

} // verus!
