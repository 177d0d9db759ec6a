pub mod color;
pub mod primitives;
pub mod grid;
pub mod bitmap;
pub mod canvas;
pub mod layer;
pub mod region;
pub mod tool;
pub mod palette;
pub mod transform;
pub mod event;
pub mod state;
pub mod laws;
pub mod project;
pub mod resource;
pub mod input;

pub use bitmap::{Bitmap, TestImage};
pub use canvas::Canvas;
pub use color::Color;
pub use event::{CanvasEffect, EditError, Event};
pub use layer::Layer;
pub use project::ProjectError;
pub use region::Rect;
pub use primitives::{Point, Size};
pub use state::State;
pub use tool::Tool;
pub use transform::Transform;
