use vstd::prelude::*;

use crate::bitmap::Bitmap;
use crate::color::Color;
use crate::primitives::{Point, Size};
use crate::tool::Tool;
use crate::transform::Transform;

verus! {

/// How a renderer must react to an event: nothing changed, pixels changed
/// in place, or the canvas was replaced (its size may differ).
#[derive(Clone, Copy, Debug, PartialEq, Eq, Structural, Hash)]
pub enum CanvasEffect {
    Unchanged,
    Update,
    New,
}

/// Why an event was refused; the state is left as it was.
#[derive(Clone, Copy, Debug, PartialEq, Eq, Structural, Hash)]
pub enum EditError {
    /// A point outside the canvas.
    OutOfBounds,
    /// A point outside the selection while one is active.
    OutsideSelection,
    /// A size with a negative side, or too large to hold; for a spritesheet,
    /// a side under one.
    InvalidSize,
    /// A layer index past the top layer.
    NoSuchLayer,
    /// Deleting the only layer.
    LastLayer,
}

/// The editing commands: the only way the state changes.
pub enum Event<IMG: Bitmap> {
    ClearCanvas,
    ResizeCanvas(Size),
    BrushStart,
    Brush(Point),
    BrushEnd,
    LineStart(Point),
    LineEnd(Point),
    EraseStart,
    Erase(Point),
    EraseEnd,
    Bucket(Point),
    RectangleStart(Point),
    /// Draws the border of the rectangle from the start point to this one.
    RectangleEnd(Point),
    EllipseStart(Point),
    /// Draws the outline of the ellipse inscribed in the rectangle from the
    /// start point to this one.
    EllipseEnd(Point),
    /// Drops any selection and anchors a new one.
    SelectionStart(Point),
    /// Selects the rectangle from the anchor to this point.
    SelectionEnd(Point),
    ClearSelection,
    MoveStart(Point),
    /// Moves the selected pixels by the offset from the start point.
    MoveEnd(Point),
    Eyedropper(Point),
    SetTool(Tool),
    SetMainColor(Color),
    SetSpritesheet(Size),
    ApplyTransform(Transform),
    AddToPalette(Color),
    RemoveFromPalette(Color),
    LoadPalette(Vec<Color>),
    OpenFile(IMG),
    /// Adds a transparent layer on top and makes it the active one.
    NewLayer,
    DeleteLayer(usize),
    /// Makes the layer at this index the one that edits apply to.
    SwitchLayer(usize),
    ChangeLayerVisibility(usize, bool),
    ChangeLayerOpacity(usize, u8),
    Undo,
    Redo,
}

} // verus!
