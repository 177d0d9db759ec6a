use lapix::color::{black, transparent};
use lapix::resource::{CursorType, Resources};
use lapix::{Bitmap, CanvasEffect, Color, EditError, Event, Point, Size, State, TestImage, Tool, Transform};

fn blank(w: i32, h: i32) -> State<TestImage> {
    State::<TestImage>::new(Size::new(w, h), None, None)
}

fn pixels(state: &State<TestImage>) -> Vec<Color> {
    let c = state.canvas();
    let mut out = Vec::new();
    for y in 0..c.height() {
        for x in 0..c.width() {
            out.push(c.pixel(Point::new(x, y)));
        }
    }
    out
}

#[test]
fn fresh_canvas_of_other_sizes_is_transparent() {
    for (w, h) in [(0, 0), (1, 1), (3, 7), (16, 2)] {
        let state = blank(w, h);
        assert_eq!(state.canvas().width(), w);
        assert_eq!(state.canvas().height(), h);
        assert!(pixels(&state).iter().all(|c| *c == transparent()));
    }
}

#[test]
fn shallow_line_steps_along_x() {
    let mut state = blank(5, 3);
    state.execute(Event::LineStart(Point::new(0, 0))).unwrap();
    assert_eq!(state.execute(Event::LineEnd(Point::new(4, 2))), Ok(CanvasEffect::Update));
    let on: Vec<(i32, i32)> = vec![(0, 0), (1, 1), (2, 1), (3, 2), (4, 2)];
    for y in 0..3 {
        for x in 0..5 {
            let want = if on.contains(&(x, y)) { black() } else { transparent() };
            assert_eq!(state.canvas().pixel(Point::new(x, y)), want, "({x}, {y})");
        }
    }
}

#[test]
fn line_end_without_start_does_nothing() {
    let mut state = blank(4, 4);
    assert_eq!(state.execute(Event::LineEnd(Point::new(3, 3))), Ok(CanvasEffect::Unchanged));
    assert!(pixels(&state).iter().all(|c| *c == transparent()));
}

#[test]
fn line_leaving_the_canvas_is_clipped() {
    let mut state = blank(3, 3);
    state.execute(Event::LineStart(Point::new(-2, 1))).unwrap();
    state.execute(Event::LineEnd(Point::new(5, 1))).unwrap();
    for x in 0..3 {
        assert_eq!(state.canvas().pixel(Point::new(x, 1)), black());
        assert_eq!(state.canvas().pixel(Point::new(x, 0)), transparent());
    }
}

#[test]
fn bucket_stops_at_other_colors() {
    let mut state = blank(5, 5);
    state.execute(Event::LineStart(Point::new(2, 0))).unwrap();
    state.execute(Event::LineEnd(Point::new(2, 4))).unwrap();
    let red = Color::new(255, 0, 0, 255);
    state.execute(Event::SetMainColor(red)).unwrap();
    state.execute(Event::Bucket(Point::new(0, 0))).unwrap();
    for y in 0..5 {
        assert_eq!(state.canvas().pixel(Point::new(0, y)), red);
        assert_eq!(state.canvas().pixel(Point::new(1, y)), red);
        assert_eq!(state.canvas().pixel(Point::new(2, y)), black());
        assert_eq!(state.canvas().pixel(Point::new(3, y)), transparent());
        assert_eq!(state.canvas().pixel(Point::new(4, y)), transparent());
    }
}

#[test]
fn bucket_with_same_color_changes_nothing() {
    let mut state = blank(3, 3);
    state.execute(Event::SetMainColor(transparent())).unwrap();
    state.execute(Event::Bucket(Point::new(1, 1))).unwrap();
    assert!(pixels(&state).iter().all(|c| *c == transparent()));
}

#[test]
fn out_of_bounds_points_are_refused() {
    let mut state = blank(3, 3);
    assert_eq!(state.execute(Event::Bucket(Point::new(3, 0))), Err(EditError::OutOfBounds));
    assert_eq!(state.execute(Event::Brush(Point::new(0, -1))), Err(EditError::OutOfBounds));
    assert_eq!(state.execute(Event::Erase(Point::new(9, 9))), Err(EditError::OutOfBounds));
    assert_eq!(state.execute(Event::Eyedropper(Point::new(-1, 0))), Err(EditError::OutOfBounds));
    assert!(!state.can_undo());
}

#[test]
fn invalid_sizes_are_refused() {
    let mut state = blank(3, 3);
    assert_eq!(state.execute(Event::ResizeCanvas(Size::new(-1, 4))), Err(EditError::InvalidSize));
    assert_eq!(state.execute(Event::SetSpritesheet(Size::new(0, 2))), Err(EditError::InvalidSize));
    assert_eq!(state.canvas().width(), 3);
    assert_eq!(state.spritesheet(), Size::new(1, 1));
    assert_eq!(state.execute(Event::SetSpritesheet(Size::new(4, 2))), Ok(CanvasEffect::Unchanged));
    assert_eq!(state.spritesheet(), Size::new(4, 2));
}

#[test]
fn resize_shrink_then_grow_back() {
    let mut state = blank(4, 4);
    let red = Color::new(255, 0, 0, 255);
    state.execute(Event::SetMainColor(red)).unwrap();
    state.execute(Event::Bucket(Point::new(0, 0))).unwrap();
    assert_eq!(state.execute(Event::ResizeCanvas(Size::new(2, 3))), Ok(CanvasEffect::New));
    assert_eq!(state.canvas().width(), 2);
    assert_eq!(state.canvas().height(), 3);
    state.execute(Event::ResizeCanvas(Size::new(4, 4))).unwrap();
    for y in 0..4 {
        for x in 0..4 {
            let want = if x < 2 && y < 3 { red } else { transparent() };
            assert_eq!(state.canvas().pixel(Point::new(x, y)), want);
        }
    }
}

#[test]
fn undo_and_redo_a_line_gesture() {
    let mut state = blank(4, 4);
    state.execute(Event::Bucket(Point::new(0, 0))).unwrap();
    let before = pixels(&state);
    state.execute(Event::SetMainColor(Color::new(0, 0, 255, 255))).unwrap();
    state.execute(Event::LineStart(Point::new(0, 3))).unwrap();
    state.execute(Event::LineEnd(Point::new(3, 0))).unwrap();
    let after = pixels(&state);
    assert_ne!(before, after);
    assert_eq!(state.execute(Event::Undo), Ok(CanvasEffect::New));
    assert_eq!(pixels(&state), before);
    assert_eq!(state.execute(Event::Redo), Ok(CanvasEffect::New));
    assert_eq!(pixels(&state), after);
}

#[test]
fn undo_an_erase_gesture_and_a_resize() {
    let mut state = blank(3, 3);
    state.execute(Event::Bucket(Point::new(0, 0))).unwrap();
    let filled = pixels(&state);
    state.execute(Event::EraseStart).unwrap();
    state.execute(Event::Erase(Point::new(1, 1))).unwrap();
    state.execute(Event::Erase(Point::new(2, 2))).unwrap();
    state.execute(Event::EraseEnd).unwrap();
    state.execute(Event::ResizeCanvas(Size::new(5, 1))).unwrap();
    state.execute(Event::Undo).unwrap();
    assert_eq!(state.canvas().width(), 3);
    assert_eq!(state.canvas().pixel(Point::new(1, 1)), transparent());
    state.execute(Event::Undo).unwrap();
    assert_eq!(pixels(&state), filled);
}

#[test]
fn undo_and_redo_on_empty_history_do_nothing() {
    let mut state = blank(2, 2);
    assert_eq!(state.execute(Event::Undo), Ok(CanvasEffect::Unchanged));
    assert_eq!(state.execute(Event::Redo), Ok(CanvasEffect::Unchanged));
    state.execute(Event::ClearCanvas).unwrap();
    state.execute(Event::Undo).unwrap();
    assert!(state.can_redo());
    state.execute(Event::Brush(Point::new(0, 0))).unwrap();
    state.execute(Event::BrushStart).unwrap();
    assert!(!state.can_redo());
}

#[test]
fn palette_is_a_set() {
    let red = Color::new(255, 0, 0, 255);
    let green = Color::new(0, 255, 0, 255);
    let mut state = State::<TestImage>::new(Size::new(2, 2), None, Some(vec![red, green, red]));
    assert_eq!(state.palette(), &vec![red, green]);
    assert_eq!(state.execute(Event::AddToPalette(red)), Ok(CanvasEffect::Unchanged));
    assert_eq!(state.palette(), &vec![red, green]);
    let blue = Color::new(0, 0, 255, 255);
    assert_eq!(state.execute(Event::RemoveFromPalette(blue)), Ok(CanvasEffect::Unchanged));
    assert_eq!(state.palette(), &vec![red, green]);
    state.execute(Event::AddToPalette(blue)).unwrap();
    state.execute(Event::RemoveFromPalette(red)).unwrap();
    assert_eq!(state.palette(), &vec![green, blue]);
    state.execute(Event::LoadPalette(vec![blue, blue, red])).unwrap();
    assert_eq!(state.palette(), &vec![blue, red]);
}

#[test]
fn eyedropper_picks_the_main_color() {
    let mut state = blank(2, 2);
    let c = Color::new(10, 20, 30, 40);
    state.execute(Event::SetMainColor(c)).unwrap();
    state.execute(Event::Brush(Point::new(1, 0))).unwrap();
    state.execute(Event::SetMainColor(black())).unwrap();
    assert_eq!(state.execute(Event::Eyedropper(Point::new(1, 0))), Ok(CanvasEffect::Unchanged));
    assert_eq!(state.main_color(), c);
}

#[test]
fn silhouette_keeps_alpha() {
    let mut state = blank(2, 1);
    state.execute(Event::SetMainColor(Color::new(1, 2, 3, 128))).unwrap();
    state.execute(Event::Brush(Point::new(0, 0))).unwrap();
    state.execute(Event::SetMainColor(Color::new(200, 100, 50, 255))).unwrap();
    assert_eq!(state.execute(Event::ApplyTransform(Transform::Silhouete)), Ok(CanvasEffect::Update));
    assert_eq!(state.canvas().pixel(Point::new(0, 0)), Color::new(200, 100, 50, 128));
    assert_eq!(state.canvas().pixel(Point::new(1, 0)), transparent());
}

#[test]
fn apply_palette_takes_the_nearest_color() {
    let dark = Color::new(10, 10, 10, 255);
    let light = Color::new(240, 240, 240, 255);
    let mut state = State::<TestImage>::new(Size::new(2, 1), None, Some(vec![dark, light]));
    state.execute(Event::SetMainColor(Color::new(200, 180, 220, 90))).unwrap();
    state.execute(Event::Brush(Point::new(0, 0))).unwrap();
    state.execute(Event::ApplyTransform(Transform::ApplyPalette)).unwrap();
    assert_eq!(state.canvas().pixel(Point::new(0, 0)), Color::new(240, 240, 240, 90));
    assert_eq!(state.canvas().pixel(Point::new(1, 0)), Color::new(10, 10, 10, 0));
}

#[test]
fn open_file_replaces_the_canvas() {
    let mut state = blank(2, 2);
    let img = TestImage::new(Size::new(3, 1), Color::new(5, 6, 7, 8));
    assert_eq!(state.execute(Event::OpenFile(img)), Ok(CanvasEffect::New));
    assert_eq!(state.canvas().width(), 3);
    assert_eq!(state.canvas().pixel(Point::new(2, 0)), Color::new(5, 6, 7, 8));
}

#[test]
fn bitmap_bytes_round_trip() {
    let mut img = TestImage::new(Size::new(2, 2), transparent());
    img.set_pixel(Point::new(1, 0), Color::new(1, 2, 3, 4));
    img.set_pixel(Point::new(0, 1), Color::new(5, 6, 7, 8));
    let bytes = img.bytes();
    assert_eq!(bytes, vec![0, 0, 0, 0, 1, 2, 3, 4, 5, 6, 7, 8, 0, 0, 0, 0]);
    let back = TestImage::from_parts(Size::new(2, 2), &bytes);
    assert_eq!(back.pixel(Point::new(1, 0)), Color::new(1, 2, 3, 4));
    assert_eq!(back.bytes(), bytes);
}

#[test]
fn set_from_copies_the_overlap() {
    let mut a = TestImage::new(Size::new(3, 2), Color::new(1, 1, 1, 1));
    let b = TestImage::new(Size::new(2, 3), Color::new(9, 9, 9, 9));
    a.set_from(&b);
    assert_eq!(a.size(), Size::new(3, 2));
    assert_eq!(a.pixel(Point::new(1, 1)), Color::new(9, 9, 9, 9));
    assert_eq!(a.pixel(Point::new(2, 0)), Color::new(1, 1, 1, 1));
}

#[test]
fn tool_names_and_icons() {
    assert_eq!(Tool::Eyedropper.name(), "eyedropper");
    assert_eq!(Tool::Brush.name(), "brush");
    assert_eq!(Resources::tool_icon(Tool::Brush), "icon/pencil.png");
    assert_eq!(Resources::cursor(CursorType::Tool(Tool::Bucket)), "icon/bucket.png");
    assert_eq!(Resources::cursor(CursorType::Pan), "cursor/pan.png");
    assert_eq!(Resources::cursor(CursorType::Cross), "cursor/cross.png");
}

#[test]
fn set_tool_ends_a_gesture() {
    let mut state = blank(3, 3);
    state.execute(Event::LineStart(Point::new(0, 0))).unwrap();
    assert_eq!(state.execute(Event::SetTool(Tool::Bucket)), Ok(CanvasEffect::Unchanged));
    assert_eq!(state.selected_tool(), Tool::Bucket);
    assert_eq!(state.execute(Event::LineEnd(Point::new(2, 2))), Ok(CanvasEffect::Unchanged));
    assert_eq!(state.canvas().pixel(Point::new(1, 1)), transparent());
}

#[test]
fn color_channels() {
    let c = Color::new(1, 2, 3, 4);
    assert_eq!(c.rgb(), [1, 2, 3]);
    assert_eq!(c.rgba(), [1, 2, 3, 4]);
    assert_eq!(black().rgba(), [0, 0, 0, 255]);
    assert_eq!(transparent().rgba(), [0, 0, 0, 0]);
}
