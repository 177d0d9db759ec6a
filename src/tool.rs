use vstd::prelude::*;

verus! {

/// Drawing and manipulation tools available in the image editor.
#[derive(Clone, Copy, Debug, PartialEq, Eq, Structural, Hash)]
pub enum Tool {
    Brush,
    Eraser,
    Eyedropper,
    Bucket,
    Line,
    Selection,
    Move,
    Rectangle,
    Ellipse,
}

pub open spec fn tool_name(t: Tool) -> Seq<char> {
    match t {
        Tool::Brush => "brush"@,
        Tool::Eraser => "eraser"@,
        Tool::Eyedropper => "eyedropper"@,
        Tool::Bucket => "bucket"@,
        Tool::Line => "line"@,
        Tool::Selection => "selection"@,
        Tool::Move => "move"@,
        Tool::Rectangle => "rectangle"@,
        Tool::Ellipse => "ellipse"@,
    }
}

impl Tool {
    /// The tool's name in lower case, as shown to users.
    pub fn name(&self) -> (r: &'static str)
        ensures
            r@ == tool_name(*self),
    {
        match self {
            Tool::Brush => "brush",
            Tool::Eraser => "eraser",
            Tool::Eyedropper => "eyedropper",
            Tool::Bucket => "bucket",
            Tool::Line => "line",
            Tool::Selection => "selection",
            Tool::Move => "move",
            Tool::Rectangle => "rectangle",
            Tool::Ellipse => "ellipse",
        }
    }
}

} // verus!
