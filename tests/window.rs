use graffiti::napi::{NapiStatus, NapiValueType};
use graffiti::window::{
    Bounds, Event, EventKind, SetText, SurfaceId, Text, UpdateSceneMsg, Window, Pos,
};

fn text(s: &str) -> Option<Text> {
    Some(Text { text: s.to_string() })
}

#[test]
fn event_new_keeps_fields() {
    let e = Event::new(EventKind::KeyDown, SurfaceId(3), 13);
    assert_eq!(e.kind, EventKind::KeyDown);
    assert_eq!(e.target, SurfaceId(3));
    assert_eq!(e.key, 13);
}

#[test]
fn pointer_events_target_topmost_surface() {
    let mut w = Window::new(800, 600);
    w.update_scene(&UpdateSceneMsg { alloc: Some(3), text_changes: None });
    w.set_bounds(SurfaceId(0), Bounds { left: 0, top: 0, right: 800, bottom: 600 });
    w.set_bounds(SurfaceId(1), Bounds { left: 10, top: 10, right: 110, bottom: 60 });
    w.set_bounds(SurfaceId(2), Bounds { left: 50, top: 20, right: 70, bottom: 40 });
    // unknown surface: ignored
    w.set_bounds(SurfaceId(9), Bounds { left: 0, top: 0, right: 1, bottom: 1 });

    let e = w.mouse_move(Pos { x: 20, y: 20 });
    assert_eq!(e, Event { kind: EventKind::MouseMove, target: SurfaceId(1), key: 0 });
    let e = w.mouse_move(Pos { x: 60, y: 30 });
    assert_eq!(e.target, SurfaceId(2));
    assert_eq!(w.mouse_down(), Event { kind: EventKind::MouseDown, target: SurfaceId(2), key: 0 });
    assert_eq!(w.scroll(), Event { kind: EventKind::Scroll, target: SurfaceId(2), key: 0 });
    assert_eq!(w.surface_count(), 3);
    assert_eq!(w.mouse_up(), Event { kind: EventKind::MouseUp, target: SurfaceId(2), key: 0 });
    // right and bottom edges are outside
    assert_eq!(w.mouse_move(Pos { x: 110, y: 30 }).target, SurfaceId(0));
    assert_eq!(w.mouse_move(Pos { x: -5, y: 30 }).target, SurfaceId(0));
}

#[test]
fn empty_window_targets_root() {
    let mut w = Window::new(10, 10);
    assert_eq!(w.mouse_down().target, SurfaceId(0));
    assert_eq!(w.mouse_move(Pos { x: 3, y: 4 }).kind, EventKind::MouseMove);
}

#[test]
fn update_scene_allocates_then_sets_text() {
    let mut w = Window::new(100, 100);
    let msg = UpdateSceneMsg {
        alloc: Some(2),
        text_changes: Some(vec![
            SetText { surface: SurfaceId(1), text: text("hello") },
            SetText { surface: SurfaceId(5), text: text("ignored") },
        ]),
    };
    w.update_scene(&msg);
    let msg = UpdateSceneMsg { alloc: None, text_changes: Some(vec![SetText { surface: SurfaceId(1), text: None }]) };
    w.update_scene(&msg);
    w.update_scene(&UpdateSceneMsg { alloc: Some(1), text_changes: None });
    w.set_bounds(SurfaceId(2), Bounds { left: 0, top: 0, right: 5, bottom: 5 });
    assert_eq!(w.mouse_move(Pos { x: 1, y: 1 }).target, SurfaceId(2));
}

#[test]
fn napi_codes_compare() {
    assert_eq!(NapiStatus::Success, NapiStatus::Success);
    assert_ne!(NapiStatus::InvalidArg, NapiStatus::Cancelled);
    assert_ne!(NapiValueType::String, NapiValueType::Symbol);
}
