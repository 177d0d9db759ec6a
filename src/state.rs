use vstd::prelude::*;

use crate::bitmap::Bitmap;
use crate::canvas::Canvas;
use crate::color::{Color, black, spec_black, spec_transparent, transparent};
use crate::event::{CanvasEffect, EditError, Event};
use crate::grid::{Grid, lemma_from_fn};
use crate::layer::{Layer, LayerModel, composed, composite, layers_view};
use crate::palette::{ColorPalette, dedup};
use crate::primitives::{Point, Size};
use crate::tool::Tool;
use crate::transform::Transform;
use crate::region::Rect;
use crate::project::{ProjectError, decode, decode_project, encode, encode_project};

verus! {

/// Where a drawing gesture stands between its begin and end events.
#[derive(Clone, Copy, Debug, PartialEq, Eq, Structural, Hash)]
pub enum Gesture {
    Idle,
    Brushing,
    Erasing,
    /// A line is being drawn from this anchor.
    Line(Point),
    /// A rectangle is being drawn from this corner.
    Rectangle(Point),
    /// An ellipse is being drawn from this corner of its box.
    Ellipse(Point),
    /// A selection is being made from this corner.
    Selecting(Point),
    /// The selection is being moved from this point.
    Moving(Point),
}

/// A saved layer stack and which of its layers was active.
pub struct Snapshot {
    pub layers: Seq<LayerModel>,
    pub active: int,
}

/// The mathematical content of an editing state.
pub struct Model {
    /// Bottom layer first.
    pub layers: Seq<LayerModel>,
    /// The layer that edits apply to.
    pub active: int,
    pub main_color: Color,
    pub tool: Tool,
    pub palette: Seq<Color>,
    /// Layer stacks to go back to, the latest last.
    pub undo: Seq<Snapshot>,
    /// Layer stacks undone, the latest last.
    pub redo: Seq<Snapshot>,
    pub gesture: Gesture,
    pub spritesheet: Size,
    /// The selected rectangle, if any.
    pub selection: Option<Rect>,
}

/// `s` without color `c`.
pub open spec fn without(s: Seq<Color>, c: Color) -> Seq<Color> {
    if s.contains(c) {
        s.remove(choose|i: int| 0 <= i < s.len() && s[i] == c)
    } else {
        s
    }
}

/// At least one layer, a valid active index, and every layer well formed
/// and of the bottom layer's size.
pub open spec fn stack_wf(layers: Seq<LayerModel>, active: int) -> bool {
    &&& layers.len() >= 1
    &&& 0 <= active < layers.len()
    &&& forall|i: int|
        0 <= i < layers.len() ==> (#[trigger] layers[i]).grid.wf() && layers[i].grid.w
            == layers[0].grid.w && layers[i].grid.h == layers[0].grid.h
}

/// A new transparent, visible, opaque layer.
pub open spec fn blank_layer(w: int, h: int) -> LayerModel {
    LayerModel { grid: Grid::filled(w, h, spec_transparent()), visible: true, alpha: 255 }
}

/// Every layer resized as `Grid::resized` says.
pub open spec fn resized_layers(layers: Seq<LayerModel>, w: int, h: int) -> Seq<LayerModel> {
    layers.map_values(|l: LayerModel| LayerModel { grid: l.grid.resized(w, h), ..l })
}

impl Model {
    pub open spec fn wf(self) -> bool {
        &&& stack_wf(self.layers, self.active)
        &&& self.palette.no_duplicates()
        &&& self.spritesheet.x >= 1
        &&& self.spritesheet.y >= 1
        &&& forall|i: int|
            0 <= i < self.undo.len() ==> stack_wf(
                (#[trigger] self.undo[i]).layers,
                self.undo[i].active,
            )
        &&& forall|i: int|
            0 <= i < self.redo.len() ==> stack_wf(
                (#[trigger] self.redo[i]).layers,
                self.redo[i].active,
            )
    }

    /// The active layer's pixels.
    pub open spec fn canvas(self) -> Grid {
        self.layers[self.active].grid
    }

    /// The active layer's pixels replaced by `g`.
    pub open spec fn with_canvas(self, g: Grid) -> Model {
        Model {
            layers: self.layers.update(
                self.active,
                LayerModel { grid: g, ..self.layers[self.active] },
            ),
            ..self
        }
    }

    pub open spec fn saved(self) -> Snapshot {
        Snapshot { layers: self.layers, active: self.active }
    }

    /// The layer stack saved for undo; what was undone is forgotten.
    pub open spec fn snapshot(self) -> Model {
        Model { undo: self.undo.push(self.saved()), redo: Seq::empty(), ..self }
    }

    pub open spec fn contains(self, p: Point) -> bool {
        self.canvas().contains(p.x as int, p.y as int)
    }

    /// Whether edits may touch `p`: inside the selection, if there is one.
    pub open spec fn in_selection(self, p: Point) -> bool {
        match self.selection {
            Some(r) => r.has(p.x as int, p.y as int),
            None => true,
        }
    }

    /// The rectangle that a flood fill stays in: the selection, or else the
    /// whole canvas.
    pub open spec fn fill_bounds(self) -> Rect {
        match self.selection {
            Some(r) => r,
            None => Rect {
                x0: 0,
                y0: 0,
                x1: (self.canvas().w - 1) as i32,
                y1: (self.canvas().h - 1) as i32,
            },
        }
    }

    /// `g` confined to the selection: outside it the canvas is kept.
    pub open spec fn clipped(self, g: Grid) -> Grid {
        match self.selection {
            Some(r) => self.canvas().masked(g, r),
            None => g,
        }
    }

    /// What the layers show together.
    pub open spec fn composed(self) -> Grid {
        composed(self.layers, self.canvas().w, self.canvas().h)
    }
}

/// What an event does: the state after it, and the effect or error returned.
pub open spec fn next<IMG: Bitmap>(m: Model, e: Event<IMG>) -> (Model, Result<CanvasEffect, EditError>) {
    match e {
        Event::ClearCanvas => (
            m.snapshot().with_canvas(Grid::filled(m.canvas().w, m.canvas().h, spec_transparent())),
            Ok(CanvasEffect::Update),
        ),
        Event::ResizeCanvas(size) => if size.valid() {
            (
                Model {
                    layers: resized_layers(m.layers, size.x as int, size.y as int),
                    ..m.snapshot()
                },
                Ok(CanvasEffect::New),
            )
        } else {
            (m, Err(EditError::InvalidSize))
        },
        Event::BrushStart => (Model { gesture: Gesture::Brushing, ..m.snapshot() }, Ok(CanvasEffect::Unchanged)),
        Event::Brush(p) => if !m.contains(p) {
            (m, Err(EditError::OutOfBounds))
        } else if !m.in_selection(p) {
            (m, Err(EditError::OutsideSelection))
        } else {
            (
                m.with_canvas(m.canvas().set(p.x as int, p.y as int, m.main_color)),
                Ok(CanvasEffect::Update),
            )
        },
        Event::BrushEnd => (Model { gesture: Gesture::Idle, ..m }, Ok(CanvasEffect::Unchanged)),
        Event::LineStart(p) => (
            Model { gesture: Gesture::Line(p), ..m.snapshot() },
            Ok(CanvasEffect::Unchanged),
        ),
        Event::LineEnd(p) => match m.gesture {
            Gesture::Line(a) => (
                Model {
                    gesture: Gesture::Idle,
                    ..m.with_canvas(
                        m.clipped(
                            m.canvas().with_line(
                                a.x as int,
                                a.y as int,
                                p.x as int,
                                p.y as int,
                                m.main_color,
                            ),
                        ),
                    )
                },
                Ok(CanvasEffect::Update),
            ),
            _ => (m, Ok(CanvasEffect::Unchanged)),
        },
        Event::EraseStart => (Model { gesture: Gesture::Erasing, ..m.snapshot() }, Ok(CanvasEffect::Unchanged)),
        Event::Erase(p) => if !m.contains(p) {
            (m, Err(EditError::OutOfBounds))
        } else if !m.in_selection(p) {
            (m, Err(EditError::OutsideSelection))
        } else {
            (
                m.with_canvas(m.canvas().set(p.x as int, p.y as int, spec_transparent())),
                Ok(CanvasEffect::Update),
            )
        },
        Event::EraseEnd => (Model { gesture: Gesture::Idle, ..m }, Ok(CanvasEffect::Unchanged)),
        Event::Bucket(p) => if !m.contains(p) {
            (m, Err(EditError::OutOfBounds))
        } else if !m.in_selection(p) {
            (m, Err(EditError::OutsideSelection))
        } else {
            (
                m.snapshot().with_canvas(
                    m.canvas().flood_filled(p.x as int, p.y as int, m.main_color, m.fill_bounds()),
                ),
                Ok(CanvasEffect::Update),
            )
        },
        Event::Eyedropper(p) => if m.contains(p) {
            (
                Model { main_color: m.canvas().at(p.x as int, p.y as int), ..m },
                Ok(CanvasEffect::Unchanged),
            )
        } else {
            (m, Err(EditError::OutOfBounds))
        },
        Event::RectangleStart(p) => (
            Model { gesture: Gesture::Rectangle(p), ..m.snapshot() },
            Ok(CanvasEffect::Unchanged),
        ),
        Event::RectangleEnd(p) => match m.gesture {
            Gesture::Rectangle(a) => (
                Model {
                    gesture: Gesture::Idle,
                    ..m.with_canvas(m.clipped(m.canvas().with_rect(Rect::spanned(a, p), m.main_color)))
                },
                Ok(CanvasEffect::Update),
            ),
            _ => (m, Ok(CanvasEffect::Unchanged)),
        },
        Event::EllipseStart(p) => if m.contains(p) {
            (Model { gesture: Gesture::Ellipse(p), ..m.snapshot() }, Ok(CanvasEffect::Unchanged))
        } else {
            (m, Err(EditError::OutOfBounds))
        },
        Event::EllipseEnd(p) => match m.gesture {
            Gesture::Ellipse(a) => if m.contains(p) && a.x >= 0 && a.y >= 0 {
                (
                    Model {
                        gesture: Gesture::Idle,
                        ..m.with_canvas(
                            m.clipped(m.canvas().with_ellipse(Rect::spanned(a, p), m.main_color)),
                        )
                    },
                    Ok(CanvasEffect::Update),
                )
            } else {
                (m, Err(EditError::OutOfBounds))
            },
            _ => (m, Ok(CanvasEffect::Unchanged)),
        },
        Event::SelectionStart(p) => (
            Model { selection: None, gesture: Gesture::Selecting(p), ..m },
            Ok(CanvasEffect::Unchanged),
        ),
        Event::SelectionEnd(p) => match m.gesture {
            Gesture::Selecting(a) => (
                Model { selection: Some(Rect::spanned(a, p)), gesture: Gesture::Idle, ..m },
                Ok(CanvasEffect::Unchanged),
            ),
            _ => (m, Ok(CanvasEffect::Unchanged)),
        },
        Event::ClearSelection => (Model { selection: None, ..m }, Ok(CanvasEffect::Unchanged)),
        Event::MoveStart(p) => if m.selection is Some {
            (Model { gesture: Gesture::Moving(p), ..m.snapshot() }, Ok(CanvasEffect::Unchanged))
        } else {
            (m, Ok(CanvasEffect::Unchanged))
        },
        Event::MoveEnd(p) => match (m.gesture, m.selection) {
            (Gesture::Moving(a), Some(r)) => (
                Model {
                    gesture: Gesture::Idle,
                    selection: None,
                    ..m.with_canvas(m.canvas().moved(r, p.x - a.x, p.y - a.y))
                },
                Ok(CanvasEffect::Update),
            ),
            _ => (m, Ok(CanvasEffect::Unchanged)),
        },
        Event::SetTool(t) => (Model { tool: t, gesture: Gesture::Idle, ..m }, Ok(CanvasEffect::Unchanged)),
        Event::SetMainColor(c) => (Model { main_color: c, ..m }, Ok(CanvasEffect::Unchanged)),
        Event::SetSpritesheet(s) => if s.x >= 1 && s.y >= 1 {
            (Model { spritesheet: s, ..m }, Ok(CanvasEffect::Unchanged))
        } else {
            (m, Err(EditError::InvalidSize))
        },
        Event::ApplyTransform(t) => (
            m.snapshot().with_canvas(m.canvas().transformed(t, m.main_color, m.palette)),
            Ok(CanvasEffect::Update),
        ),
        Event::AddToPalette(c) => (
            Model {
                palette: if m.palette.contains(c) {
                    m.palette
                } else {
                    m.palette.push(c)
                },
                ..m
            },
            Ok(CanvasEffect::Unchanged),
        ),
        Event::RemoveFromPalette(c) => (
            Model { palette: without(m.palette, c), ..m },
            Ok(CanvasEffect::Unchanged),
        ),
        Event::LoadPalette(colors) => (
            Model { palette: dedup(colors@), ..m },
            Ok(CanvasEffect::Unchanged),
        ),
        Event::OpenFile(img) => (
            Model {
                layers: seq![LayerModel { grid: img.grid(), visible: true, alpha: 255 }],
                active: 0,
                ..m.snapshot()
            },
            Ok(CanvasEffect::New),
        ),
        Event::NewLayer => (
            Model {
                layers: m.layers.push(blank_layer(m.canvas().w, m.canvas().h)),
                active: m.layers.len() as int,
                gesture: Gesture::Idle,
                ..m.snapshot()
            },
            Ok(CanvasEffect::New),
        ),
        Event::DeleteLayer(i) => if i >= m.layers.len() {
            (m, Err(EditError::NoSuchLayer))
        } else if m.layers.len() == 1 {
            (m, Err(EditError::LastLayer))
        } else {
            (
                Model {
                    layers: m.layers.remove(i as int),
                    active: if m.active >= i && m.active > 0 {
                        m.active - 1
                    } else {
                        m.active
                    },
                    gesture: Gesture::Idle,
                    ..m.snapshot()
                },
                Ok(CanvasEffect::New),
            )
        },
        Event::SwitchLayer(i) => if i < m.layers.len() {
            (Model { active: i as int, gesture: Gesture::Idle, ..m }, Ok(CanvasEffect::New))
        } else {
            (m, Err(EditError::NoSuchLayer))
        },
        Event::ChangeLayerVisibility(i, v) => if i < m.layers.len() {
            (
                Model {
                    layers: m.layers.update(i as int, LayerModel { visible: v, ..m.layers[i as int] }),
                    ..m
                },
                Ok(CanvasEffect::Update),
            )
        } else {
            (m, Err(EditError::NoSuchLayer))
        },
        Event::ChangeLayerOpacity(i, a) => if i < m.layers.len() {
            (
                Model {
                    layers: m.layers.update(i as int, LayerModel { alpha: a, ..m.layers[i as int] }),
                    ..m
                },
                Ok(CanvasEffect::Update),
            )
        } else {
            (m, Err(EditError::NoSuchLayer))
        },
        Event::Undo => if m.undo.len() == 0 {
            (m, Ok(CanvasEffect::Unchanged))
        } else {
            (
                Model {
                    layers: m.undo.last().layers,
                    active: m.undo.last().active,
                    undo: m.undo.drop_last(),
                    redo: m.redo.push(m.saved()),
                    gesture: Gesture::Idle,
                    ..m
                },
                Ok(CanvasEffect::New),
            )
        },
        Event::Redo => if m.redo.len() == 0 {
            (m, Ok(CanvasEffect::Unchanged))
        } else {
            (
                Model {
                    layers: m.redo.last().layers,
                    active: m.redo.last().active,
                    redo: m.redo.drop_last(),
                    undo: m.undo.push(m.saved()),
                    gesture: Gesture::Idle,
                    ..m
                },
                Ok(CanvasEffect::New),
            )
        },
    }
}

/// An event that carries a bitmap carries a well-formed one.
pub open spec fn event_wf<IMG: Bitmap>(e: Event<IMG>) -> bool {
    match e {
        Event::OpenFile(img) => img.grid().wf(),
        _ => true,
    }
}

/// A layer stack kept for undo or redo.
pub struct SavedLayers<IMG: Bitmap> {
    layers: Vec<Layer<IMG>>,
    active: usize,
}

impl<IMG: Bitmap> View for SavedLayers<IMG> {
    type V = Snapshot;

    closed spec fn view(&self) -> Snapshot {
        Snapshot { layers: layers_view(self.layers@), active: self.active as int }
    }
}

pub open spec fn snapshots_of<IMG: Bitmap>(v: Seq<SavedLayers<IMG>>) -> Seq<Snapshot> {
    v.map_values(|s: SavedLayers<IMG>| s@)
}

/// The editing state: layers, colors, tool, palette and undo history.
pub struct State<IMG: Bitmap> {
    layers: Vec<Layer<IMG>>,
    active: usize,
    main_color: Color,
    tool: Tool,
    palette: ColorPalette,
    undo: Vec<SavedLayers<IMG>>,
    redo: Vec<SavedLayers<IMG>>,
    gesture: Gesture,
    spritesheet: Size,
    selection: Option<Rect>,
}

impl<IMG: Bitmap> View for State<IMG> {
    type V = Model;

    closed spec fn view(&self) -> Model {
        Model {
            layers: layers_view(self.layers@),
            active: self.active as int,
            main_color: self.main_color,
            tool: self.tool,
            palette: self.palette@,
            undo: snapshots_of(self.undo@),
            redo: snapshots_of(self.redo@),
            gesture: self.gesture,
            spritesheet: self.spritesheet,
            selection: self.selection,
        }
    }
}

/// Putting back a layer where one was taken out updates that entry.
proof fn lemma_put_back<IMG: Bitmap>(v: Seq<Layer<IMG>>, a: int, l: Layer<IMG>)
    requires
        0 <= a < v.len(),
    ensures
        layers_view(v.remove(a).insert(a, l)) == layers_view(v).update(a, l@),
{
    assert(layers_view(v.remove(a).insert(a, l)) =~= layers_view(v).update(a, l@));
}

fn duplicate_layers<IMG: Bitmap>(v: &Vec<Layer<IMG>>) -> (r: Vec<Layer<IMG>>)
    requires
        forall|i: int| 0 <= i < v@.len() ==> (#[trigger] v@[i]).canvas@.wf(),
    ensures
        layers_view(r@) == layers_view(v@),
{
    let mut out: Vec<Layer<IMG>> = Vec::new();
    let mut i: usize = 0;
    while i < v.len()
        invariant
            i <= v@.len(),
            forall|k: int| 0 <= k < v@.len() ==> (#[trigger] v@[k]).canvas@.wf(),
            layers_view(out@) == layers_view(v@.subrange(0, i as int)),
        decreases v@.len() - i,
    {
        let l = v[i].duplicate();
        let ghost prev = out@;
        out.push(l);
        proof {
            assert(layers_view(out@) =~= layers_view(prev).push(l@));
            assert(layers_view(v@.subrange(0, i + 1)) =~= layers_view(v@.subrange(0, i as int)).push(
                v@[i as int]@,
            ));
        }
        i = i + 1;
    }
    assert(v@.subrange(0, v@.len() as int) =~= v@);
    out
}

fn resize_layers<IMG: Bitmap>(ls: &mut Vec<Layer<IMG>>, size: Size)
    requires
        size.valid(),
        forall|i: int| 0 <= i < old(ls)@.len() ==> (#[trigger] old(ls)@[i]).canvas@.wf(),
    ensures
        layers_view(final(ls)@) == resized_layers(layers_view(old(ls)@), size.x as int, size.y as int),
        final(ls)@.len() == old(ls)@.len(),
        forall|i: int|
            0 <= i < final(ls)@.len() ==> (#[trigger] final(ls)@[i]).canvas@.wf()
                && final(ls)@[i].canvas@.w == size.x && final(ls)@[i].canvas@.h == size.y,
{
    let ghost v0 = ls@;
    let ghost w = size.x as int;
    let ghost h = size.y as int;
    let n = ls.len();
    let mut i: usize = 0;
    while i < n
        invariant
            i <= n,
            n == ls@.len(),
            n == v0.len(),
            size.valid(),
            w == size.x,
            h == size.y,
            forall|k: int| 0 <= k < n ==> (#[trigger] v0[k]).canvas@.wf(),
            forall|k: int|
                0 <= k < n ==> (#[trigger] ls@[k])@ == if k < i {
                    LayerModel { grid: v0[k].canvas@.resized(w, h), ..v0[k]@ }
                } else {
                    v0[k]@
                },
            forall|k: int|
                0 <= k < n ==> (#[trigger] ls@[k]).canvas@.wf() && (k < i ==> ls@[k].canvas@.w
                    == size.x && ls@[k].canvas@.h == size.y),
        decreases n - i,
    {
        let ghost before = ls@;
        let mut l = ls.remove(i);
        l.canvas.resize(size);
        ls.insert(i, l);
        proof {
            assert forall|k: int| 0 <= k < n implies (#[trigger] ls@[k]) == if k == i {
                l
            } else {
                before[k]
            } by {
                if k < i {
                } else if k > i {
                }
            }
        }
        i = i + 1;
    }
    proof {
        assert(layers_view(ls@) =~= resized_layers(layers_view(v0), w, h));
    }
}

impl<IMG: Bitmap> State<IMG> {
    pub open spec fn wf(&self) -> bool {
        self@.wf()
    }

    /// A state with one transparent layer of the given size, the given main
    /// color (black if none) and palette (empty if none, duplicates
    /// dropped), the brush selected, and no history.
    pub fn new(size: Size, main_color: Option<Color>, palette: Option<Vec<Color>>) -> (r: Self)
        requires
            size.valid(),
        ensures
            r.wf(),
            r@.layers == seq![blank_layer(size.x as int, size.y as int)],
            r@.active == 0,
            forall|x: int, y: int|
                r@.canvas().contains(x, y) ==> #[trigger] r@.canvas().at(x, y)
                    == spec_transparent(),
            r@.main_color == match main_color {
                Some(c) => c,
                None => spec_black(),
            },
            r@.palette == match palette {
                Some(p) => dedup(p@),
                None => Seq::<Color>::empty(),
            },
            r@.tool == Tool::Brush,
            r@.undo.len() == 0,
            r@.redo.len() == 0,
            r@.gesture == Gesture::Idle,
            r@.spritesheet == (Size { x: 1, y: 1 }),
            r@.selection is None,
    {
        let canvas = Canvas::new(size);
        let mut layers: Vec<Layer<IMG>> = Vec::new();
        layers.push(Layer::new(canvas));
        let main_color = match main_color {
            Some(c) => c,
            None => black(),
        };
        let palette = match palette {
            Some(p) => ColorPalette::from_colors(&p),
            None => ColorPalette::new(),
        };
        let r = State {
            layers,
            active: 0,
            main_color,
            tool: Tool::Brush,
            palette,
            undo: Vec::new(),
            redo: Vec::new(),
            gesture: Gesture::Idle,
            spritesheet: Size { x: 1, y: 1 },
            selection: None,
        };
        proof {
            lemma_from_fn(size.x as int, size.y as int, |x: int, y: int| spec_transparent());
            assert(r@.layers =~= seq![blank_layer(size.x as int, size.y as int)]);
            assert(r@.undo =~= Seq::<Snapshot>::empty());
            assert(r@.redo =~= Seq::<Snapshot>::empty());
        }
        r
    }

    proof fn lemma_layers_wf(&self)
        requires
            self.wf(),
        ensures
            self.layers@.len() == self@.layers.len(),
            forall|i: int|
                0 <= i < self.layers@.len() ==> (#[trigger] self.layers@[i]).canvas@.wf()
                    && self.layers@[i].canvas@.w == self@.canvas().w && self.layers@[i].canvas@.h
                    == self@.canvas().h && self.layers@[i]@ == self@.layers[i],
    {
        assert forall|i: int| 0 <= i < self.layers@.len() implies (#[trigger] self.layers@[
            i
        ]).canvas@.wf() && self.layers@[i].canvas@.w == self@.canvas().w
            && self.layers@[i].canvas@.h == self@.canvas().h && self.layers@[i]@
            == self@.layers[i] by {
            assert(self@.layers[i] == self.layers@[i]@);
            assert(self@.layers[i].grid.wf());
            assert(self@.layers[self@.active].grid.wf());
        }
    }

    /// Saves the layer stack for undo and forgets what was undone.
    fn snapshot(&mut self)
        requires
            old(self).wf(),
        ensures
            final(self).wf(),
            final(self)@ == old(self)@.snapshot(),
            final(self).layers == old(self).layers,
            final(self).active == old(self).active,
    {
        let ghost m0 = self@;
        proof {
            self.lemma_layers_wf();
        }
        let copy = SavedLayers { layers: duplicate_layers(&self.layers), active: self.active };
        self.undo.push(copy);
        self.redo = Vec::new();
        proof {
            assert(snapshots_of(self.undo@) =~= m0.undo.push(m0.saved()));
            assert(snapshots_of(self.redo@) =~= Seq::<Snapshot>::empty());
        }
    }

    /// Takes the active layer out of the stack, to be put back by `put_active`.
    fn take_active(&mut self) -> (l: Layer<IMG>)
        requires
            old(self).wf(),
        ensures
            l@ == old(self)@.layers[old(self)@.active],
            l.canvas.wf(),
            final(self).layers@ == old(self).layers@.remove(old(self).active as int),
            final(self).active == old(self).active,
            final(self).main_color == old(self).main_color,
            final(self).tool == old(self).tool,
            final(self).palette == old(self).palette,
            final(self).undo == old(self).undo,
            final(self).redo == old(self).redo,
            final(self).gesture == old(self).gesture,
            final(self).spritesheet == old(self).spritesheet,
            final(self).selection == old(self).selection,
    {
        proof {
            self.lemma_layers_wf();
        }
        self.layers.remove(self.active)
    }

    /// Puts back the active layer, its pixels now `l.canvas`.
    fn put_active(&mut self, l: Layer<IMG>, Ghost(m0): Ghost<Model>, Ghost(v0): Ghost<Seq<Layer<IMG>>>)
        requires
            m0.wf(),
            v0.len() == m0.layers.len(),
            layers_view(v0) == m0.layers,
            old(self).layers@ == v0.remove(m0.active),
            old(self).active == m0.active,
            old(self).main_color == m0.main_color,
            old(self).tool == m0.tool,
            old(self).palette@ == m0.palette,
            snapshots_of(old(self).undo@) == m0.undo,
            snapshots_of(old(self).redo@) == m0.redo,
            old(self).gesture == m0.gesture,
            old(self).spritesheet == m0.spritesheet,
            old(self).selection == m0.selection,
            l.visible == m0.layers[m0.active].visible,
            l.alpha == m0.layers[m0.active].alpha,
            l.canvas.wf(),
            l.canvas@.w == m0.canvas().w,
            l.canvas@.h == m0.canvas().h,
        ensures
            final(self).wf(),
            final(self)@ == m0.with_canvas(l.canvas@),
    {
        let ghost lv = l@;
        self.layers.insert(self.active, l);
        proof {
            lemma_put_back(v0, m0.active, l);
            assert(self@.layers == m0.layers.update(m0.active, lv));
            assert(lv == LayerModel { grid: lv.grid, ..m0.layers[m0.active] });
            let nl = self@.layers;
            assert forall|i: int| 0 <= i < nl.len() implies (#[trigger] nl[i]).grid.wf() && nl[i].grid.w
                == nl[0].grid.w && nl[i].grid.h == nl[0].grid.h by {
                assert(m0.layers[i].grid.wf());
                assert(m0.layers[0].grid.wf());
            }
        }
    }

    /// The active layer's canvas.
    pub fn canvas(&self) -> (r: &Canvas<IMG>)
        requires
            self.wf(),
        ensures
            r@ == self@.canvas(),
            r.wf(),
    {
        proof {
            self.lemma_layers_wf();
        }
        &self.layers[self.active].canvas
    }

    /// The layers, bottom first.
    pub fn layers(&self) -> (r: &Vec<Layer<IMG>>)
        ensures
            layers_view(r@) == self@.layers,
    {
        &self.layers
    }

    /// Index of the layer that edits apply to.
    pub fn active_layer(&self) -> (r: usize)
        ensures
            r == self@.active,
    {
        self.active
    }

    /// What the layers show together, as a new canvas.
    pub fn composite(&self) -> (r: Canvas<IMG>)
        requires
            self.wf(),
        ensures
            r.wf(),
            r@ == self@.composed(),
    {
        proof {
            self.lemma_layers_wf();
        }
        let size = self.layers[self.active].canvas.size();
        composite(&self.layers, size)
    }

    pub fn main_color(&self) -> (r: Color)
        ensures
            r == self@.main_color,
    {
        self.main_color
    }

    pub fn selected_tool(&self) -> (r: Tool)
        ensures
            r == self@.tool,
    {
        self.tool
    }

    /// The palette's colors in order.
    pub fn palette(&self) -> (r: &Vec<Color>)
        ensures
            r@ == self@.palette,
    {
        self.palette.colors()
    }

    /// The spritesheet grid: how many cells across and down.
    pub fn spritesheet(&self) -> (r: Size)
        ensures
            r == self@.spritesheet,
    {
        self.spritesheet
    }

    /// The selected rectangle, if any.
    pub fn selection(&self) -> (r: Option<Rect>)
        ensures
            r == self@.selection,
    {
        self.selection
    }

    pub fn can_undo(&self) -> (r: bool)
        ensures
            r == (self@.undo.len() > 0),
    {
        self.undo.len() > 0
    }

    pub fn can_redo(&self) -> (r: bool)
        ensures
            r == (self@.redo.len() > 0),
    {
        self.redo.len() > 0
    }

    fn clear_canvas(&mut self) -> (r: Result<CanvasEffect, EditError>)
        requires
            old(self).wf(),
        ensures
            final(self).wf(),
            final(self)@ == next(old(self)@, Event::<IMG>::ClearCanvas).0,
            r == next(old(self)@, Event::<IMG>::ClearCanvas).1,
    {
        let ghost m0 = self@;
        proof {
            self.lemma_layers_wf();
        }
        self.snapshot();
        let ghost m1 = self@;
        let ghost v0 = self.layers@;
        let mut l = self.take_active();
        l.canvas.clear();
        self.put_active(l, Ghost(m1), Ghost(v0));
        Ok(CanvasEffect::Update)
    }

    fn resize_canvas(&mut self, size: Size) -> (r: Result<CanvasEffect, EditError>)
        requires
            old(self).wf(),
        ensures
            final(self).wf(),
            final(self)@ == next(old(self)@, Event::<IMG>::ResizeCanvas(size)).0,
            r == next(old(self)@, Event::<IMG>::ResizeCanvas(size)).1,
    {
        let ghost m0 = self@;
        proof {
            self.lemma_layers_wf();
        }
        if size.is_valid() {
            self.snapshot();
            let ghost m1 = self@;
            resize_layers(&mut self.layers, size);
            proof {
                let nl = self@.layers;
                assert(nl == resized_layers(m1.layers, size.x as int, size.y as int));
                assert forall|i: int| 0 <= i < nl.len() implies (#[trigger] nl[i]).grid.wf()
                    && nl[i].grid.w == nl[0].grid.w && nl[i].grid.h == nl[0].grid.h by {
                    assert(nl[i] == self.layers@[i]@);
                    assert(nl[0] == self.layers@[0]@);
                }
            }
            Ok(CanvasEffect::New)
        } else {
            Err(EditError::InvalidSize)
        }
    }

    /// `in_selection(p)`.
    fn allows(&self, p: Point) -> (r: bool)
        ensures
            r == self@.in_selection(p),
    {
        match self.selection {
            Some(rect) => rect.contains(p),
            None => true,
        }
    }

    /// `fill_bounds()`, for a canvas with at least one pixel.
    fn fill_bounds(&self) -> (r: Rect)
        requires
            self.wf(),
            self@.canvas().w >= 1,
            self@.canvas().h >= 1,
        ensures
            r == self@.fill_bounds(),
    {
        proof {
            self.lemma_layers_wf();
        }
        match self.selection {
            Some(rect) => rect,
            None => Rect {
                x0: 0,
                y0: 0,
                x1: self.layers[self.active].canvas.width() - 1,
                y1: self.layers[self.active].canvas.height() - 1,
            },
        }
    }

    /// Puts back in `l` the pixels of `before` outside the selection, if
    /// there is one.
    fn clip_to_selection(&self, l: &mut Layer<IMG>, before: &Canvas<IMG>)
        requires
            old(l).canvas.wf(),
            before.wf(),
            before@.w == old(l).canvas@.w,
            before@.h == old(l).canvas@.h,
        ensures
            final(l).canvas.wf(),
            final(l).visible == old(l).visible,
            final(l).alpha == old(l).alpha,
            final(l).canvas@ == match self@.selection {
                Some(r) => before@.masked(old(l).canvas@, r),
                None => old(l).canvas@,
            },
            final(l).canvas@.w == before@.w,
            final(l).canvas@.h == before@.h,
    {
        match self.selection {
            Some(rect) => {
                let ghost g = l.canvas@;
                l.canvas.restore_outside(before, rect);
                proof {
                    let o = before@;
                    lemma_from_fn(
                        o.w,
                        o.h,
                        |i: int, j: int| if rect.has(i, j) { g.at(i, j) } else { o.at(i, j) },
                    );
                }
            },
            None => {},
        }
    }

    fn brush(&mut self, p: Point) -> (r: Result<CanvasEffect, EditError>)
        requires
            old(self).wf(),
        ensures
            final(self).wf(),
            final(self)@ == next(old(self)@, Event::<IMG>::Brush(p)).0,
            r == next(old(self)@, Event::<IMG>::Brush(p)).1,
    {
        let ghost m0 = self@;
        proof {
            self.lemma_layers_wf();
        }
        if !self.layers[self.active].canvas.contains(p) {
            Err(EditError::OutOfBounds)
        } else if !self.allows(p) {
            Err(EditError::OutsideSelection)
        } else {
            let ghost v0 = self.layers@;
            let c = self.main_color;
            let mut l = self.take_active();
            l.canvas.set_pixel(p, c);
            self.put_active(l, Ghost(m0), Ghost(v0));
            Ok(CanvasEffect::Update)
        }
    }

    fn line_end(&mut self, p: Point) -> (r: Result<CanvasEffect, EditError>)
        requires
            old(self).wf(),
        ensures
            final(self).wf(),
            final(self)@ == next(old(self)@, Event::<IMG>::LineEnd(p)).0,
            r == next(old(self)@, Event::<IMG>::LineEnd(p)).1,
    {
        let ghost m0 = self@;
        proof {
            self.lemma_layers_wf();
        }
        match self.gesture {
            Gesture::Line(a) => {
                let ghost v0 = self.layers@;
                let c = self.main_color;
                let mut l = self.take_active();
                let before = l.canvas.duplicate();
                l.canvas.line(a, p, c);
                proof {
                    lemma_from_fn(
                        m0.canvas().w,
                        m0.canvas().h,
                        |x: int, y: int|
                            if crate::grid::on_line(
                                a.x as int,
                                a.y as int,
                                p.x as int,
                                p.y as int,
                                x,
                                y,
                            ) {
                                c
                            } else {
                                m0.canvas().at(x, y)
                            },
                    );
                }
                self.clip_to_selection(&mut l, &before);
                self.put_active(l, Ghost(m0), Ghost(v0));
                self.gesture = Gesture::Idle;
                Ok(CanvasEffect::Update)
            },
            _ => Ok(CanvasEffect::Unchanged),
        }
    }

    fn erase(&mut self, p: Point) -> (r: Result<CanvasEffect, EditError>)
        requires
            old(self).wf(),
        ensures
            final(self).wf(),
            final(self)@ == next(old(self)@, Event::<IMG>::Erase(p)).0,
            r == next(old(self)@, Event::<IMG>::Erase(p)).1,
    {
        let ghost m0 = self@;
        proof {
            self.lemma_layers_wf();
        }
        if !self.layers[self.active].canvas.contains(p) {
            Err(EditError::OutOfBounds)
        } else if !self.allows(p) {
            Err(EditError::OutsideSelection)
        } else {
            let ghost v0 = self.layers@;
            let mut l = self.take_active();
            l.canvas.set_pixel(p, transparent());
            self.put_active(l, Ghost(m0), Ghost(v0));
            Ok(CanvasEffect::Update)
        }
    }

    fn bucket(&mut self, p: Point) -> (r: Result<CanvasEffect, EditError>)
        requires
            old(self).wf(),
        ensures
            final(self).wf(),
            final(self)@ == next(old(self)@, Event::<IMG>::Bucket(p)).0,
            r == next(old(self)@, Event::<IMG>::Bucket(p)).1,
    {
        let ghost m0 = self@;
        proof {
            self.lemma_layers_wf();
        }
        if !self.layers[self.active].canvas.contains(p) {
            Err(EditError::OutOfBounds)
        } else if !self.allows(p) {
            Err(EditError::OutsideSelection)
        } else {
            let bounds = self.fill_bounds();
            self.snapshot();
            let ghost m1 = self@;
            let ghost v0 = self.layers@;
            let c = self.main_color;
            let mut l = self.take_active();
            l.canvas.bucket(p, c, bounds);
            proof {
                let g = m0.canvas();
                lemma_from_fn(
                    g.w,
                    g.h,
                    |x: int, y: int|
                        if g.connected(p.x as int, p.y as int, x, y, bounds) {
                            c
                        } else {
                            g.at(x, y)
                        },
                );
            }
            self.put_active(l, Ghost(m1), Ghost(v0));
            Ok(CanvasEffect::Update)
        }
    }

    fn apply_transform(&mut self, t: Transform) -> (r: Result<CanvasEffect, EditError>)
        requires
            old(self).wf(),
        ensures
            final(self).wf(),
            final(self)@ == next(old(self)@, Event::<IMG>::ApplyTransform(t)).0,
            r == next(old(self)@, Event::<IMG>::ApplyTransform(t)).1,
    {
        let ghost m0 = self@;
        proof {
            self.lemma_layers_wf();
        }
        self.snapshot();
        let ghost m1 = self@;
        let ghost v0 = self.layers@;
        let c = self.main_color;
        let mut l = self.take_active();
        l.canvas.apply_transform(t, c, self.palette.colors());
        proof {
            let g = m0.canvas();
            lemma_from_fn(
                g.w,
                g.h,
                |x: int, y: int| crate::transform::recolored(t, g.at(x, y), c, m0.palette),
            );
        }
        self.put_active(l, Ghost(m1), Ghost(v0));
        Ok(CanvasEffect::Update)
    }

    fn remove_from_palette(&mut self, c: Color) -> (r: Result<CanvasEffect, EditError>)
        requires
            old(self).wf(),
        ensures
            final(self).wf(),
            final(self)@ == next(old(self)@, Event::<IMG>::RemoveFromPalette(c)).0,
            r == next(old(self)@, Event::<IMG>::RemoveFromPalette(c)).1,
    {
        let ghost m0 = self@;
        proof {
            self.lemma_layers_wf();
        }
        let removed = self.palette.remove(c);
        proof {
            if removed {
                let i = choose|i: int|
                    0 <= i < m0.palette.len() && m0.palette[i] == c && self@.palette
                        == m0.palette.remove(i);
                let j = choose|j: int| 0 <= j < m0.palette.len() && m0.palette[j] == c;
                assert(i == j);
            }
        }
        Ok(CanvasEffect::Unchanged)
    }

    fn open_file(&mut self, img: IMG) -> (r: Result<CanvasEffect, EditError>)
        requires
            old(self).wf(),
            img.grid().wf(),
        ensures
            final(self).wf(),
            final(self)@ == next(old(self)@, Event::<IMG>::OpenFile(img)).0,
            r == next(old(self)@, Event::<IMG>::OpenFile(img)).1,
    {
        let ghost m0 = self@;
        proof {
            self.lemma_layers_wf();
        }
        self.snapshot();
        let mut v: Vec<Layer<IMG>> = Vec::new();
        v.push(Layer::new(Canvas::from_image(img)));
        self.layers = v;
        self.active = 0;
        proof {
            assert(self@.layers =~= seq![
                LayerModel { grid: img.grid(), visible: true, alpha: 255 },
            ]);
        }
        Ok(CanvasEffect::New)
    }

    fn new_layer(&mut self) -> (r: Result<CanvasEffect, EditError>)
        requires
            old(self).wf(),
        ensures
            final(self).wf(),
            final(self)@ == next(old(self)@, Event::<IMG>::NewLayer).0,
            r == next(old(self)@, Event::<IMG>::NewLayer).1,
    {
        let ghost m0 = self@;
        proof {
            self.lemma_layers_wf();
        }
        self.snapshot();
        let size = self.layers[self.active].canvas.size();
        let ghost v0 = self.layers@;
        self.layers.push(Layer::new(Canvas::new(size)));
        self.active = self.layers.len() - 1;
        self.gesture = Gesture::Idle;
        proof {
            lemma_from_fn(size.x as int, size.y as int, |x: int, y: int| spec_transparent());
            assert(self@.layers =~= m0.layers.push(blank_layer(size.x as int, size.y as int)));
        }
        Ok(CanvasEffect::New)
    }

    fn delete_layer(&mut self, i: usize) -> (r: Result<CanvasEffect, EditError>)
        requires
            old(self).wf(),
        ensures
            final(self).wf(),
            final(self)@ == next(old(self)@, Event::<IMG>::DeleteLayer(i)).0,
            r == next(old(self)@, Event::<IMG>::DeleteLayer(i)).1,
    {
        let ghost m0 = self@;
        proof {
            self.lemma_layers_wf();
        }
        if i >= self.layers.len() {
            Err(EditError::NoSuchLayer)
        } else if self.layers.len() == 1 {
            Err(EditError::LastLayer)
        } else {
            self.snapshot();
            self.layers.remove(i);
            if self.active >= i && self.active > 0 {
                self.active = self.active - 1;
            }
            self.gesture = Gesture::Idle;
            proof {
                assert(self@.layers =~= m0.layers.remove(i as int));
                let nl = self@.layers;
                assert forall|k: int| 0 <= k < nl.len() implies (#[trigger] nl[k]).grid.wf()
                    && nl[k].grid.w == nl[0].grid.w && nl[k].grid.h == nl[0].grid.h by {
                    let k2 = if k < i { k } else { k + 1 };
                    let z2: int = if 0 < i { 0 } else { 1 };
                    assert(nl[k] == m0.layers[k2]);
                    assert(nl[0] == m0.layers[z2]);
                    assert(m0.layers[k2].grid.wf());
                    assert(m0.layers[z2].grid.wf());
                }
            }
            Ok(CanvasEffect::New)
        }
    }

    fn change_layer_visibility(&mut self, i: usize, v: bool) -> (r: Result<CanvasEffect, EditError>)
        requires
            old(self).wf(),
        ensures
            final(self).wf(),
            final(self)@ == next(old(self)@, Event::<IMG>::ChangeLayerVisibility(i, v)).0,
            r == next(old(self)@, Event::<IMG>::ChangeLayerVisibility(i, v)).1,
    {
        let ghost m0 = self@;
        proof {
            self.lemma_layers_wf();
        }
        if i < self.layers.len() {
            let ghost v0 = self.layers@;
            let mut l = self.layers.remove(i);
            l.visible = v;
            self.layers.insert(i, l);
            proof {
                lemma_put_back(v0, i as int, l);
                assert(l@ == LayerModel { visible: v, ..m0.layers[i as int] });
                let nl = self@.layers;
                assert forall|k: int| 0 <= k < nl.len() implies (#[trigger] nl[k]).grid.wf()
                    && nl[k].grid.w == nl[0].grid.w && nl[k].grid.h == nl[0].grid.h by {
                    assert(m0.layers[k].grid.wf());
                    assert(m0.layers[0].grid.wf());
                }
            }
            Ok(CanvasEffect::Update)
        } else {
            Err(EditError::NoSuchLayer)
        }
    }

    fn change_layer_opacity(&mut self, i: usize, a: u8) -> (r: Result<CanvasEffect, EditError>)
        requires
            old(self).wf(),
        ensures
            final(self).wf(),
            final(self)@ == next(old(self)@, Event::<IMG>::ChangeLayerOpacity(i, a)).0,
            r == next(old(self)@, Event::<IMG>::ChangeLayerOpacity(i, a)).1,
    {
        let ghost m0 = self@;
        proof {
            self.lemma_layers_wf();
        }
        if i < self.layers.len() {
            let ghost v0 = self.layers@;
            let mut l = self.layers.remove(i);
            l.alpha = a;
            self.layers.insert(i, l);
            proof {
                lemma_put_back(v0, i as int, l);
                assert(l@ == LayerModel { alpha: a, ..m0.layers[i as int] });
                let nl = self@.layers;
                assert forall|k: int| 0 <= k < nl.len() implies (#[trigger] nl[k]).grid.wf()
                    && nl[k].grid.w == nl[0].grid.w && nl[k].grid.h == nl[0].grid.h by {
                    assert(m0.layers[k].grid.wf());
                    assert(m0.layers[0].grid.wf());
                }
            }
            Ok(CanvasEffect::Update)
        } else {
            Err(EditError::NoSuchLayer)
        }
    }

    fn undo(&mut self) -> (r: Result<CanvasEffect, EditError>)
        requires
            old(self).wf(),
        ensures
            final(self).wf(),
            final(self)@ == next(old(self)@, Event::<IMG>::Undo).0,
            r == next(old(self)@, Event::<IMG>::Undo).1,
    {
        let ghost m0 = self@;
        proof {
            self.lemma_layers_wf();
        }
        match self.undo.pop() {
            None => Ok(CanvasEffect::Unchanged),
            Some(saved) => {
                let SavedLayers { layers, active } = saved;
                let mut layers = layers;
                core::mem::swap(&mut self.layers, &mut layers);
                let cur = SavedLayers { layers, active: self.active };
                self.active = active;
                self.redo.push(cur);
                self.gesture = Gesture::Idle;
                proof {
                    assert(snapshots_of(self.undo@) =~= m0.undo.drop_last());
                    assert(snapshots_of(self.redo@) =~= m0.redo.push(m0.saved()));
                }
                Ok(CanvasEffect::New)
            },
        }
    }

    fn redo(&mut self) -> (r: Result<CanvasEffect, EditError>)
        requires
            old(self).wf(),
        ensures
            final(self).wf(),
            final(self)@ == next(old(self)@, Event::<IMG>::Redo).0,
            r == next(old(self)@, Event::<IMG>::Redo).1,
    {
        let ghost m0 = self@;
        proof {
            self.lemma_layers_wf();
        }
        match self.redo.pop() {
            None => Ok(CanvasEffect::Unchanged),
            Some(saved) => {
                let SavedLayers { layers, active } = saved;
                let mut layers = layers;
                core::mem::swap(&mut self.layers, &mut layers);
                let cur = SavedLayers { layers, active: self.active };
                self.active = active;
                self.undo.push(cur);
                self.gesture = Gesture::Idle;
                proof {
                    assert(snapshots_of(self.redo@) =~= m0.redo.drop_last());
                    assert(snapshots_of(self.undo@) =~= m0.undo.push(m0.saved()));
                }
                Ok(CanvasEffect::New)
            },
        }
    }

    fn rectangle_end(&mut self, p: Point) -> (r: Result<CanvasEffect, EditError>)
        requires
            old(self).wf(),
        ensures
            final(self).wf(),
            final(self)@ == next(old(self)@, Event::<IMG>::RectangleEnd(p)).0,
            r == next(old(self)@, Event::<IMG>::RectangleEnd(p)).1,
    {
        let ghost m0 = self@;
        match self.gesture {
            Gesture::Rectangle(a) => {
                let ghost v0 = self.layers@;
                let c = self.main_color;
                let rect = Rect::from_corners(a, p);
                let mut l = self.take_active();
                let before = l.canvas.duplicate();
                l.canvas.rectangle(rect, c);
                proof {
                    let g = m0.canvas();
                    lemma_from_fn(
                        g.w,
                        g.h,
                        |x: int, y: int| if rect.on_border(x, y) { c } else { g.at(x, y) },
                    );
                }
                self.clip_to_selection(&mut l, &before);
                self.put_active(l, Ghost(m0), Ghost(v0));
                self.gesture = Gesture::Idle;
                Ok(CanvasEffect::Update)
            },
            _ => Ok(CanvasEffect::Unchanged),
        }
    }

    fn ellipse_end(&mut self, p: Point) -> (r: Result<CanvasEffect, EditError>)
        requires
            old(self).wf(),
        ensures
            final(self).wf(),
            final(self)@ == next(old(self)@, Event::<IMG>::EllipseEnd(p)).0,
            r == next(old(self)@, Event::<IMG>::EllipseEnd(p)).1,
    {
        let ghost m0 = self@;
        proof {
            self.lemma_layers_wf();
        }
        match self.gesture {
            Gesture::Ellipse(a) => {
                if !self.layers[self.active].canvas.contains(p) || a.x < 0 || a.y < 0 {
                    return Err(EditError::OutOfBounds);
                }
                let ghost v0 = self.layers@;
                let c = self.main_color;
                let rect = Rect::from_corners(a, p);
                let mut l = self.take_active();
                let before = l.canvas.duplicate();
                l.canvas.ellipse(rect, c);
                proof {
                    let g = m0.canvas();
                    lemma_from_fn(
                        g.w,
                        g.h,
                        |x: int, y: int|
                            if crate::region::on_ellipse(rect, x, y) {
                                c
                            } else {
                                g.at(x, y)
                            },
                    );
                }
                self.clip_to_selection(&mut l, &before);
                self.put_active(l, Ghost(m0), Ghost(v0));
                self.gesture = Gesture::Idle;
                Ok(CanvasEffect::Update)
            },
            _ => Ok(CanvasEffect::Unchanged),
        }
    }

    fn move_end(&mut self, p: Point) -> (r: Result<CanvasEffect, EditError>)
        requires
            old(self).wf(),
        ensures
            final(self).wf(),
            final(self)@ == next(old(self)@, Event::<IMG>::MoveEnd(p)).0,
            r == next(old(self)@, Event::<IMG>::MoveEnd(p)).1,
    {
        let ghost m0 = self@;
        match (self.gesture, self.selection) {
            (Gesture::Moving(a), Some(rect)) => {
                let ghost v0 = self.layers@;
                let dx: i64 = p.x as i64 - a.x as i64;
                let dy: i64 = p.y as i64 - a.y as i64;
                let mut l = self.take_active();
                l.canvas.move_region(rect, dx, dy);
                proof {
                    let g = m0.canvas();
                    lemma_from_fn(
                        g.w,
                        g.h,
                        |i: int, j: int|
                            if rect.has(i - dx, j - dy) && g.contains(i - dx, j - dy) {
                                g.at(i - dx, j - dy)
                            } else if rect.has(i, j) {
                                spec_transparent()
                            } else {
                                g.at(i, j)
                            },
                    );
                }
                self.put_active(l, Ghost(m0), Ghost(v0));
                self.gesture = Gesture::Idle;
                self.selection = None;
                Ok(CanvasEffect::Update)
            },
            _ => Ok(CanvasEffect::Unchanged),
        }
    }

    /// Applies one event. On an error nothing changes.
    pub fn execute(&mut self, e: Event<IMG>) -> (r: Result<CanvasEffect, EditError>)
        requires
            old(self).wf(),
            event_wf(e),
        ensures
            final(self).wf(),
            final(self)@ == next(old(self)@, e).0,
            r == next(old(self)@, e).1,
    {
        let ghost m0 = self@;
        proof {
            self.lemma_layers_wf();
        }
        match e {
            Event::ClearCanvas => self.clear_canvas(),
            Event::ResizeCanvas(size) => self.resize_canvas(size),
            Event::BrushStart => {
                self.snapshot();
                self.gesture = Gesture::Brushing;
                Ok(CanvasEffect::Unchanged)
            },
            Event::Brush(p) => self.brush(p),
            Event::BrushEnd => {
                self.gesture = Gesture::Idle;
                Ok(CanvasEffect::Unchanged)
            },
            Event::LineStart(p) => {
                self.snapshot();
                self.gesture = Gesture::Line(p);
                Ok(CanvasEffect::Unchanged)
            },
            Event::LineEnd(p) => self.line_end(p),
            Event::EraseStart => {
                self.snapshot();
                self.gesture = Gesture::Erasing;
                Ok(CanvasEffect::Unchanged)
            },
            Event::Erase(p) => self.erase(p),
            Event::EraseEnd => {
                self.gesture = Gesture::Idle;
                Ok(CanvasEffect::Unchanged)
            },
            Event::Bucket(p) => self.bucket(p),
            Event::Eyedropper(p) => {
                if self.layers[self.active].canvas.contains(p) {
                    self.main_color = self.layers[self.active].canvas.pixel(p);
                    Ok(CanvasEffect::Unchanged)
                } else {
                    Err(EditError::OutOfBounds)
                }
            },
            Event::RectangleStart(p) => {
                self.snapshot();
                self.gesture = Gesture::Rectangle(p);
                Ok(CanvasEffect::Unchanged)
            },
            Event::RectangleEnd(p) => self.rectangle_end(p),
            Event::EllipseStart(p) => {
                if self.layers[self.active].canvas.contains(p) {
                    self.snapshot();
                    self.gesture = Gesture::Ellipse(p);
                    Ok(CanvasEffect::Unchanged)
                } else {
                    Err(EditError::OutOfBounds)
                }
            },
            Event::EllipseEnd(p) => self.ellipse_end(p),
            Event::SelectionStart(p) => {
                self.selection = None;
                self.gesture = Gesture::Selecting(p);
                Ok(CanvasEffect::Unchanged)
            },
            Event::SelectionEnd(p) => {
                match self.gesture {
                    Gesture::Selecting(a) => {
                        self.selection = Some(Rect::from_corners(a, p));
                        self.gesture = Gesture::Idle;
                        Ok(CanvasEffect::Unchanged)
                    },
                    _ => Ok(CanvasEffect::Unchanged),
                }
            },
            Event::ClearSelection => {
                self.selection = None;
                Ok(CanvasEffect::Unchanged)
            },
            Event::MoveStart(p) => {
                if self.selection.is_some() {
                    self.snapshot();
                    self.gesture = Gesture::Moving(p);
                }
                Ok(CanvasEffect::Unchanged)
            },
            Event::MoveEnd(p) => self.move_end(p),
            Event::SetTool(t) => {
                self.tool = t;
                self.gesture = Gesture::Idle;
                Ok(CanvasEffect::Unchanged)
            },
            Event::SetMainColor(c) => {
                self.main_color = c;
                Ok(CanvasEffect::Unchanged)
            },
            Event::SetSpritesheet(size) => {
                if size.x >= 1 && size.y >= 1 {
                    self.spritesheet = size;
                    Ok(CanvasEffect::Unchanged)
                } else {
                    Err(EditError::InvalidSize)
                }
            },
            Event::ApplyTransform(t) => self.apply_transform(t),
            Event::AddToPalette(c) => {
                self.palette.add(c);
                Ok(CanvasEffect::Unchanged)
            },
            Event::RemoveFromPalette(c) => self.remove_from_palette(c),
            Event::LoadPalette(colors) => {
                self.palette = ColorPalette::from_colors(&colors);
                Ok(CanvasEffect::Unchanged)
            },
            Event::OpenFile(img) => self.open_file(img),
            Event::NewLayer => self.new_layer(),
            Event::DeleteLayer(i) => self.delete_layer(i),
            Event::SwitchLayer(i) => {
                if i < self.layers.len() {
                    self.active = i;
                    self.gesture = Gesture::Idle;
                    Ok(CanvasEffect::New)
                } else {
                    Err(EditError::NoSuchLayer)
                }
            },
            Event::ChangeLayerVisibility(i, v) => self.change_layer_visibility(i, v),
            Event::ChangeLayerOpacity(i, a) => self.change_layer_opacity(i, a),
            Event::Undo => self.undo(),
            Event::Redo => self.redo(),
        }
    }

    /// The project file of this state: layers, active layer, palette and
    /// spritesheet grid.
    pub fn project_bytes(&self) -> (r: Vec<u8>)
        requires
            self.wf(),
            self@.layers.len() < 0x1_0000_0000,
            self@.palette.len() < 0x1_0000_0000,
        ensures
            r@ == encode_project(self@.layers, self@.active, self@.palette, self@.spritesheet),
    {
        encode(&self.layers, self.active, &self.palette, self.spritesheet)
    }

    /// Replaces layers, palette and spritesheet grid by those of a project
    /// file, and starts a fresh history. On an error nothing changes.
    pub fn load_project(&mut self, bytes: &[u8]) -> (r: Result<CanvasEffect, ProjectError>)
        requires
            old(self).wf(),
        ensures
            final(self).wf(),
            match decode_project(bytes@) {
                Ok((ls, a, p, s)) => r == Ok::<CanvasEffect, ProjectError>(CanvasEffect::New)
                    && final(self)@ == (Model {
                    layers: ls,
                    active: a,
                    palette: p,
                    spritesheet: s,
                    undo: Seq::empty(),
                    redo: Seq::empty(),
                    gesture: Gesture::Idle,
                    ..old(self)@
                }),
                Err(e) => r == Err::<CanvasEffect, ProjectError>(e) && final(self)@ == old(self)@,
            },
    {
        match decode::<IMG>(bytes) {
            Err(e) => Err(e),
            Ok((layers, active, palette, sheet)) => {
                self.layers = layers;
                self.active = active;
                self.palette = palette;
                self.spritesheet = sheet;
                self.undo = Vec::new();
                self.redo = Vec::new();
                self.gesture = Gesture::Idle;
                proof {
                    assert(snapshots_of(self.undo@) =~= Seq::<Snapshot>::empty());
                    assert(snapshots_of(self.redo@) =~= Seq::<Snapshot>::empty());
                }
                Ok(CanvasEffect::New)
            },
        }
    }
}

} // verus!
