use vstd::prelude::*;

use crate::tool::Tool;

verus! {

/// What the mouse cursor shows.
#[derive(Clone, Copy, Debug, PartialEq, Eq, Structural, Hash)]
pub enum CursorType {
    /// The icon of a tool.
    Tool(Tool),
    /// The hand used to pan the view.
    Pan,
    /// A cross-hair.
    Cross,
}

pub open spec fn tool_icon_path(tool: Tool) -> Seq<char> {
    match tool {
        Tool::Brush => "icon/pencil.png"@,
        Tool::Bucket => "icon/bucket.png"@,
        Tool::Eraser => "icon/eraser.png"@,
        Tool::Eyedropper => "icon/eyedropper.png"@,
        Tool::Line => "icon/line.png"@,
        Tool::Selection => "icon/selection.png"@,
        Tool::Move => "icon/move.png"@,
        Tool::Rectangle => "icon/rectangle.png"@,
        Tool::Ellipse => "icon/ellipse.png"@,
    }
}

pub open spec fn cursor_path(cursor: CursorType) -> Seq<char> {
    match cursor {
        CursorType::Tool(tool) => tool_icon_path(tool),
        CursorType::Pan => "cursor/pan.png"@,
        CursorType::Cross => "cursor/cross.png"@,
    }
}

/// The image resources of the editor, named by their path under the
/// resource directory.
pub struct Resources;

impl Resources {
    /// The image shown as the mouse cursor.
    pub fn cursor(cursor: CursorType) -> (r: &'static str)
        ensures
            r@ == cursor_path(cursor),
    {
        match cursor {
            CursorType::Tool(tool) => Self::tool_icon(tool),
            CursorType::Pan => "cursor/pan.png",
            CursorType::Cross => "cursor/cross.png",
        }
    }

    /// The icon of a tool, on its toolbar button and as its cursor.
    pub fn tool_icon(tool: Tool) -> (r: &'static str)
        ensures
            r@ == tool_icon_path(tool),
    {
        match tool {
            Tool::Brush => "icon/pencil.png",
            Tool::Bucket => "icon/bucket.png",
            Tool::Eraser => "icon/eraser.png",
            Tool::Eyedropper => "icon/eyedropper.png",
            Tool::Line => "icon/line.png",
            Tool::Selection => "icon/selection.png",
            Tool::Move => "icon/move.png",
            Tool::Rectangle => "icon/rectangle.png",
            Tool::Ellipse => "icon/ellipse.png",
        }
    }
}

} // verus!
