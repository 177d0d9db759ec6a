use lapix::color::{black, transparent};
use lapix::input::{InputEvent, InputMapper, KeyBinding, KeyboardKey, KeyboardModifier};
use lapix::layer::blend_color;
use lapix::project::ProjectError;
use lapix::{CanvasEffect, Color, EditError, Event, Point, Size, State, TestImage};

fn blank(w: i32, h: i32) -> State<TestImage> {
    State::<TestImage>::new(Size::new(w, h), None, None)
}

#[test]
fn new_layer_is_transparent_and_active() {
    let mut state = blank(3, 2);
    state.execute(Event::Bucket(Point::new(0, 0))).unwrap();
    assert_eq!(state.execute(Event::NewLayer), Ok(CanvasEffect::New));
    assert_eq!(state.layers().len(), 2);
    assert_eq!(state.active_layer(), 1);
    assert_eq!(state.canvas().pixel(Point::new(1, 1)), transparent());
    state.execute(Event::SwitchLayer(0)).unwrap();
    assert_eq!(state.canvas().pixel(Point::new(1, 1)), black());
}

#[test]
fn layer_errors() {
    let mut state = blank(2, 2);
    assert_eq!(state.execute(Event::DeleteLayer(0)), Err(EditError::LastLayer));
    assert_eq!(state.execute(Event::DeleteLayer(3)), Err(EditError::NoSuchLayer));
    assert_eq!(state.execute(Event::SwitchLayer(1)), Err(EditError::NoSuchLayer));
    assert_eq!(state.execute(Event::ChangeLayerOpacity(2, 10)), Err(EditError::NoSuchLayer));
    assert_eq!(state.execute(Event::ChangeLayerVisibility(1, false)), Err(EditError::NoSuchLayer));
}

#[test]
fn delete_layer_moves_active_down() {
    let mut state = blank(2, 2);
    state.execute(Event::NewLayer).unwrap();
    state.execute(Event::NewLayer).unwrap();
    assert_eq!(state.active_layer(), 2);
    assert_eq!(state.execute(Event::DeleteLayer(2)), Ok(CanvasEffect::New));
    assert_eq!(state.active_layer(), 1);
    assert_eq!(state.layers().len(), 2);
    state.execute(Event::Undo).unwrap();
    assert_eq!(state.layers().len(), 3);
    assert_eq!(state.active_layer(), 2);
}

#[test]
fn composite_blends_visible_layers() {
    let mut state = blank(2, 1);
    state.execute(Event::SetMainColor(Color::new(0, 0, 200, 255))).unwrap();
    state.execute(Event::Bucket(Point::new(0, 0))).unwrap();
    state.execute(Event::NewLayer).unwrap();
    state.execute(Event::SetMainColor(Color::new(255, 0, 0, 255))).unwrap();
    state.execute(Event::Brush(Point::new(0, 0))).unwrap();
    let top = state.composite();
    assert_eq!(top.pixel(Point::new(0, 0)), Color::new(255, 0, 0, 255));
    assert_eq!(top.pixel(Point::new(1, 0)), Color::new(0, 0, 200, 255));
    state.execute(Event::ChangeLayerOpacity(1, 0)).unwrap();
    assert_eq!(state.composite().pixel(Point::new(0, 0)), Color::new(0, 0, 200, 255));
    state.execute(Event::ChangeLayerOpacity(1, 255)).unwrap();
    state.execute(Event::ChangeLayerVisibility(1, false)).unwrap();
    assert_eq!(state.composite().pixel(Point::new(0, 0)), Color::new(0, 0, 200, 255));
}

#[test]
fn blend_half_opacity() {
    let dst = Color::new(0, 0, 0, 255);
    let src = Color::new(255, 255, 255, 255);
    assert_eq!(blend_color(dst, src, 51), Color::new(51, 51, 51, 255));
    assert_eq!(blend_color(transparent(), Color::new(10, 20, 30, 255), 255), Color::new(10, 20, 30, 255));
}

#[test]
fn project_save_then_load_keeps_every_layer() {
    let red = Color::new(255, 0, 0, 255);
    let mut state = State::<TestImage>::new(Size::new(3, 2), None, Some(vec![red, black()]));
    state.execute(Event::Bucket(Point::new(0, 0))).unwrap();
    state.execute(Event::NewLayer).unwrap();
    state.execute(Event::SetMainColor(red)).unwrap();
    state.execute(Event::Brush(Point::new(2, 1))).unwrap();
    state.execute(Event::ChangeLayerOpacity(1, 77)).unwrap();
    state.execute(Event::ChangeLayerVisibility(0, false)).unwrap();
    state.execute(Event::SetSpritesheet(Size::new(3, 1))).unwrap();
    let bytes = state.project_bytes();
    assert_eq!(bytes.len(), 28 + 8 + 2 * (2 + 24));

    let mut other = blank(1, 1);
    assert_eq!(other.load_project(&bytes), Ok(CanvasEffect::New));
    assert_eq!(other.layers().len(), 2);
    assert_eq!(other.active_layer(), 1);
    assert_eq!(other.palette(), &vec![red, black()]);
    assert_eq!(other.spritesheet(), Size::new(3, 1));
    for (a, b) in state.layers().iter().zip(other.layers().iter()) {
        assert_eq!(a.canvas.bytes(), b.canvas.bytes());
        assert_eq!(a.visible, b.visible);
        assert_eq!(a.alpha, b.alpha);
    }
    assert_eq!(other.project_bytes(), bytes);
    assert!(!other.can_undo());
}

#[test]
fn project_load_errors_leave_state_alone() {
    let mut state = blank(2, 2);
    let good = state.project_bytes();
    let mut target = blank(1, 1);
    target.execute(Event::Brush(Point::new(0, 0))).unwrap();
    assert_eq!(target.load_project(&good[..10]), Err(ProjectError::BadLength));
    let mut long = good.clone();
    long.push(0);
    assert_eq!(target.load_project(&long), Err(ProjectError::BadLength));
    let mut bad_sheet = good.clone();
    bad_sheet[8] = 0;
    assert_eq!(target.load_project(&bad_sheet), Err(ProjectError::InvalidSize));
    let mut bad_active = good.clone();
    bad_active[24] = 1;
    assert_eq!(target.load_project(&bad_active), Err(ProjectError::BadLayers));
    assert_eq!(target.canvas().pixel(Point::new(0, 0)), black());
    state.execute(Event::ClearCanvas).unwrap();
}

#[test]
fn input_mapper_fires_matching_bindings() {
    let ctrl = InputEvent::KeyModifier(KeyboardModifier::Control);
    let z = InputEvent::KeyPress(KeyboardKey(90));
    let y = InputEvent::KeyPress(KeyboardKey(89));
    let bindings = vec![
        KeyBinding { keys: vec![ctrl, z], effects: vec![1u8] },
        KeyBinding { keys: vec![ctrl, y], effects: vec![2u8] },
        KeyBinding { keys: vec![z], effects: vec![3u8, 4u8] },
    ];
    let mapper = InputMapper;
    assert_eq!(mapper.map(&bindings, vec![z, ctrl]), vec![1, 3, 4]);
    assert_eq!(mapper.map(&bindings, vec![y]), Vec::<u8>::new());
    assert_eq!(mapper.map(&bindings, vec![InputEvent::MouseScrollUp, z]), vec![3, 4]);
}

#[test]
fn rectangle_draws_a_border() {
    let mut state = blank(5, 4);
    state.execute(Event::RectangleStart(Point::new(3, 2))).unwrap();
    assert_eq!(state.execute(Event::RectangleEnd(Point::new(1, 0))), Ok(CanvasEffect::Update));
    for y in 0..4 {
        for x in 0..5 {
            let border = (1..=3).contains(&x)
                && (0..=2).contains(&y)
                && (x == 1 || x == 3 || y == 0 || y == 2);
            let want = if border { black() } else { transparent() };
            assert_eq!(state.canvas().pixel(Point::new(x, y)), want, "({x}, {y})");
        }
    }
    state.execute(Event::Undo).unwrap();
    assert_eq!(state.canvas().pixel(Point::new(1, 0)), transparent());
}

#[test]
fn move_cuts_and_pastes_the_selection() {
    let red = Color::new(255, 0, 0, 255);
    let mut state = blank(4, 1);
    state.execute(Event::Brush(Point::new(0, 0))).unwrap();
    state.execute(Event::SetMainColor(red)).unwrap();
    state.execute(Event::Brush(Point::new(1, 0))).unwrap();
    state.execute(Event::Brush(Point::new(3, 0))).unwrap();
    state.execute(Event::SelectionStart(Point::new(1, 0))).unwrap();
    state.execute(Event::SelectionEnd(Point::new(0, 0))).unwrap();
    assert!(state.selection().is_some());
    state.execute(Event::MoveStart(Point::new(0, 0))).unwrap();
    assert_eq!(state.execute(Event::MoveEnd(Point::new(2, 0))), Ok(CanvasEffect::Update));
    assert_eq!(state.canvas().pixel(Point::new(0, 0)), transparent());
    assert_eq!(state.canvas().pixel(Point::new(1, 0)), transparent());
    assert_eq!(state.canvas().pixel(Point::new(2, 0)), black());
    assert_eq!(state.canvas().pixel(Point::new(3, 0)), red);
    assert!(state.selection().is_none());
    state.execute(Event::Undo).unwrap();
    assert_eq!(state.canvas().pixel(Point::new(0, 0)), black());
}

#[test]
fn move_without_selection_does_nothing() {
    let mut state = blank(2, 2);
    state.execute(Event::Brush(Point::new(0, 0))).unwrap();
    assert_eq!(state.execute(Event::MoveStart(Point::new(0, 0))), Ok(CanvasEffect::Unchanged));
    assert_eq!(state.execute(Event::MoveEnd(Point::new(1, 1))), Ok(CanvasEffect::Unchanged));
    assert_eq!(state.canvas().pixel(Point::new(0, 0)), black());
    assert!(!state.can_undo());
}

#[test]
fn move_drops_what_leaves_the_canvas() {
    let mut state = blank(3, 1);
    state.execute(Event::Bucket(Point::new(0, 0))).unwrap();
    state.execute(Event::SelectionStart(Point::new(1, 0))).unwrap();
    state.execute(Event::SelectionEnd(Point::new(2, 0))).unwrap();
    state.execute(Event::MoveStart(Point::new(1, 0))).unwrap();
    state.execute(Event::MoveEnd(Point::new(2, 0))).unwrap();
    assert_eq!(state.canvas().pixel(Point::new(0, 0)), black());
    assert_eq!(state.canvas().pixel(Point::new(1, 0)), transparent());
    assert_eq!(state.canvas().pixel(Point::new(2, 0)), black());
}

#[test]
fn selection_confines_drawing() {
    let mut state = blank(4, 4);
    state.execute(Event::SelectionStart(Point::new(1, 1))).unwrap();
    state.execute(Event::SelectionEnd(Point::new(2, 2))).unwrap();
    assert_eq!(state.execute(Event::Brush(Point::new(0, 0))), Err(EditError::OutsideSelection));
    assert_eq!(state.execute(Event::Erase(Point::new(3, 3))), Err(EditError::OutsideSelection));
    assert_eq!(state.execute(Event::Bucket(Point::new(0, 3))), Err(EditError::OutsideSelection));
    state.execute(Event::Bucket(Point::new(1, 1))).unwrap();
    for y in 0..4 {
        for x in 0..4 {
            let inside = (1..=2).contains(&x) && (1..=2).contains(&y);
            let want = if inside { black() } else { transparent() };
            assert_eq!(state.canvas().pixel(Point::new(x, y)), want, "({x}, {y})");
        }
    }
}

#[test]
fn selection_clips_lines() {
    let mut state = blank(4, 4);
    state.execute(Event::SelectionStart(Point::new(0, 0))).unwrap();
    state.execute(Event::SelectionEnd(Point::new(1, 3))).unwrap();
    state.execute(Event::LineStart(Point::new(0, 0))).unwrap();
    state.execute(Event::LineEnd(Point::new(3, 3))).unwrap();
    assert_eq!(state.canvas().pixel(Point::new(0, 0)), black());
    assert_eq!(state.canvas().pixel(Point::new(1, 1)), black());
    assert_eq!(state.canvas().pixel(Point::new(2, 2)), transparent());
    assert_eq!(state.canvas().pixel(Point::new(3, 3)), transparent());
    state.execute(Event::ClearSelection).unwrap();
    state.execute(Event::Brush(Point::new(3, 0))).unwrap();
    assert_eq!(state.canvas().pixel(Point::new(3, 0)), black());
}

#[test]
fn ellipse_draws_an_outline() {
    let mut state = blank(5, 5);
    state.execute(Event::EllipseStart(Point::new(0, 0))).unwrap();
    assert_eq!(state.execute(Event::EllipseEnd(Point::new(4, 4))), Ok(CanvasEffect::Update));
    let on = [(2, 0), (2, 4), (0, 2), (4, 2), (1, 1), (1, 3), (3, 1), (3, 3)];
    for y in 0..5 {
        for x in 0..5 {
            let want = if on.contains(&(x, y)) { black() } else { transparent() };
            assert_eq!(state.canvas().pixel(Point::new(x, y)), want, "({x}, {y})");
        }
    }
}

#[test]
fn ellipse_corners_must_be_on_the_canvas() {
    let mut state = blank(3, 3);
    assert_eq!(state.execute(Event::EllipseStart(Point::new(-1, 0))), Err(EditError::OutOfBounds));
    assert!(!state.can_undo());
    state.execute(Event::EllipseStart(Point::new(0, 0))).unwrap();
    assert_eq!(state.execute(Event::EllipseEnd(Point::new(3, 3))), Err(EditError::OutOfBounds));
    assert_eq!(state.execute(Event::EllipseEnd(Point::new(0, 2))), Ok(CanvasEffect::Update));
    for y in 0..3 {
        assert_eq!(state.canvas().pixel(Point::new(0, y)), black());
        assert_eq!(state.canvas().pixel(Point::new(1, y)), transparent());
    }
}
