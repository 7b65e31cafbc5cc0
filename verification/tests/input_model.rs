use gtk4_e2e_server::input::{
    check_scale, dispatch_focus, dispatch_press, dispatch_set_value, dispatch_tap, dispatch_type,
    focus_outcome, focus_widget, frame_plan, nearest_activatable, resolve_xy, send_key,
    set_value_at, set_value_widget, tap_widget, type_text, validate, validate_hold,
    validate_pinch, validate_press, validate_press_widget, FocusError, KeyError, LongPressPlan,
    PinchError, PressError, SetValueError, SetValuePlan, SwipeError, SwipePlan, TapAction,
    TapError, TypeEdit, TypeError, TypeTarget, MAX_PRESS_HOLD_MS,
};
use gtk4_e2e_server::proto::{FocusRequest, TapTarget, TypeRequest, XY};
use gtk4_e2e_server::tree::{HitBox, WidgetClass, WidgetNode, WidgetTree};

fn w(
    handle: usize,
    kind: &str,
    name: &str,
    class: WidgetClass,
    b: (i64, i64, i64, i64),
    children: Vec<WidgetNode>,
) -> WidgetNode {
    WidgetNode {
        handle,
        kind: kind.to_string(),
        name: if name.is_empty() { None } else { Some(name.to_string()) },
        classes: vec![],
        visible: true,
        mapped: true,
        sensitive: true,
        text: None,
        readable: vec![],
        properties: vec![],
        class,
        zoom_gesture: false,
        long_press_gesture: false,
        width: (b.2 - b.0) as i32,
        height: (b.3 - b.1) as i32,
        hit_box: Some(HitBox { left: b.0, top: b.1, right: b.2, bottom: b.3 }),
        children,
    }
}

/// Window 360x200: a box with an entry, a button (with a label child) and a label.
fn demo_window() -> WidgetNode {
    w(1, "GtkApplicationWindow", "", WidgetClass::Other, (0, 0, 360, 200), vec![w(
        2,
        "GtkBox",
        "",
        WidgetClass::Other,
        (0, 0, 360, 200),
        vec![
            w(3, "GtkEntry", "entry1", WidgetClass::Editable, (0, 0, 360, 40), vec![]),
            w(4, "GtkButton", "btn1", WidgetClass::Button, (0, 40, 360, 80), vec![w(
                5,
                "GtkLabel",
                "",
                WidgetClass::Other,
                (150, 50, 210, 70),
                vec![],
            )]),
            w(6, "GtkLabel", "label1", WidgetClass::Other, (0, 80, 360, 120), vec![]),
            w(7, "GtkTextView", "tv1", WidgetClass::TextView, (0, 120, 360, 200), vec![]),
        ],
    )])
}

fn find<'a>(n: &'a WidgetNode, name: &str) -> &'a WidgetNode {
    if n.name.as_deref() == Some(name) {
        return n;
    }
    for c in &n.children {
        if let Some(x) = find_opt(c, name) {
            return x;
        }
    }
    panic!("no widget {name}")
}

fn find_mut<'a>(n: &'a mut WidgetNode, name: &str) -> &'a mut WidgetNode {
    if n.name.as_deref() == Some(name) {
        return n;
    }
    for c in n.children.iter_mut() {
        if find_opt(c, name).is_some() {
            return find_mut(c, name);
        }
    }
    panic!("no widget {name}")
}

fn find_opt<'a>(n: &'a WidgetNode, name: &str) -> Option<&'a WidgetNode> {
    if n.name.as_deref() == Some(name) {
        return Some(n);
    }
    n.children.iter().find_map(|c| find_opt(c, name))
}

fn only_child(window: WidgetNode, child: WidgetNode) -> WidgetNode {
    let mut window = window;
    window.children = vec![child];
    window
}

/// Window 360x480 holding a scrolled window with a list of rows.
fn scroll_window() -> WidgetNode {
    let rows: Vec<WidgetNode> = (0..30)
        .map(|i| w(100 + i, "GtkLabel", &format!("row-{i}"), WidgetClass::Other, (0, 30 * i as i64, 360, 30 * i as i64 + 30), vec![]))
        .collect();
    let list = w(11, "GtkListBox", "list1", WidgetClass::Other, (0, 0, 360, 900), rows);
    let scrolled = w(10, "GtkScrolledWindow", "scroll1", WidgetClass::ScrolledWindow, (0, 0, 360, 480), vec![list]);
    only_child(w(1, "GtkApplicationWindow", "", WidgetClass::Other, (0, 0, 360, 480), vec![]), scrolled)
}

/// Window 360x200 holding one label.
fn plain_window() -> WidgetNode {
    let label = w(2, "GtkLabel", "label1", WidgetClass::Other, (0, 0, 360, 200), vec![]);
    only_child(w(1, "GtkApplicationWindow", "", WidgetClass::Other, (0, 0, 360, 200), vec![]), label)
}

/// Window 360x480 holding a 160x120 drawing area with a zoom gesture.
fn zoom_window() -> WidgetNode {
    let mut area = w(2, "GtkDrawingArea", "zoom1", WidgetClass::Other, (0, 0, 360, 480), vec![]);
    area.zoom_gesture = true;
    only_child(w(1, "GtkApplicationWindow", "", WidgetClass::Other, (0, 0, 360, 480), vec![]), area)
}

/// Window 360x480 holding a drawing area with a long-press gesture.
fn long_press_window() -> WidgetNode {
    let mut area = w(2, "GtkDrawingArea", "longpress1", WidgetClass::Other, (0, 0, 360, 480), vec![]);
    area.long_press_gesture = true;
    only_child(w(1, "GtkApplicationWindow", "", WidgetClass::Other, (0, 0, 360, 480), vec![]), area)
}

/// Window 400x120 holding a horizontal scale.
fn scale_window() -> WidgetNode {
    let scale = w(2, "GtkScale", "scale1", WidgetClass::Range, (0, 0, 400, 120), vec![]);
    only_child(w(1, "GtkApplicationWindow", "", WidgetClass::Other, (0, 0, 400, 120), vec![]), scale)
}

// ----- tap -----

#[test]
fn button_emit_clicked() {
    let win = demo_window();
    let button = find(&win, "btn1");
    assert_eq!(tap_widget(button, Some("#btn1")), Ok(TapAction::EmitClicked));
}

#[test]
fn input_tap_unsupported_widget_returns_422_code() {
    let win = demo_window();
    let err = tap_widget(find(&win, "label1"), Some("#label1")).unwrap_err();
    assert!(matches!(err, TapError::UnsupportedWidget { .. }));
    assert_eq!(err, TapError::UnsupportedWidget { widget_type: "GtkLabel".into() });
}

#[test]
fn xy_resolves_to_widget() {
    let win = demo_window();
    let hit = resolve_xy(&win, 180, 60).expect("xy at button center should resolve");
    assert_eq!(hit.handle, 5, "the deepest widget is the button's label");
    let target = nearest_activatable(&win, 180, 60).unwrap();
    assert_eq!(target.handle, 4, "a tap there goes to the button");
}

#[test]
fn xy_out_of_bounds_returns_error() {
    let win = demo_window();
    let err = resolve_xy(&win, -1, -1).unwrap_err();
    assert!(matches!(err, TapError::OutOfBounds { .. }));
    let err = resolve_xy(&win, 10_000, 10_000).unwrap_err();
    assert!(matches!(err, TapError::OutOfBounds { .. }));
}

#[test]
fn input_tap_widget_not_visible_returns_error() {
    let mut win = demo_window();
    find_mut(&mut win, "btn1").visible = false;
    let button = find(&win, "btn1");
    let err = tap_widget(button, Some("#btn1")).unwrap_err();
    assert!(matches!(err, TapError::WidgetNotVisible { .. }));
    assert_eq!(err, TapError::WidgetNotVisible { selector: Some("#btn1".into()) });
}

#[test]
fn input_tap_widget_disabled_returns_error() {
    let mut win = demo_window();
    find_mut(&mut win, "btn1").sensitive = false;
    let button = find(&win, "btn1");
    let err = tap_widget(button, Some("#btn1")).unwrap_err();
    assert!(matches!(err, TapError::WidgetDisabled { .. }));
}

#[test]
fn switch_tap_toggles_active() {
    let s = w(2, "GtkSwitch", "switch1", WidgetClass::Switch, (0, 0, 50, 20), vec![]);
    assert_eq!(tap_widget(&s, Some("#switch1")), Ok(TapAction::ToggleActive));
    assert_eq!(tap_widget(&s, Some("#switch1")), Ok(TapAction::ToggleActive));
}

#[test]
fn check_button_tap_toggles_active() {
    let c = w(2, "GtkCheckButton", "check1", WidgetClass::CheckButton, (0, 0, 50, 20), vec![]);
    assert_eq!(tap_widget(&c, Some("#check1")), Ok(TapAction::ToggleActive));
}

#[test]
fn toggle_button_tap_toggles_active() {
    let t = w(2, "GtkToggleButton", "toggle1", WidgetClass::ToggleButton, (0, 0, 50, 20), vec![]);
    assert_eq!(tap_widget(&t, Some("#toggle1")), Ok(TapAction::ToggleActive));
}

#[test]
fn dispatch_tap_by_selector_and_point() {
    let tree = WidgetTree { roots: vec![demo_window()] };
    let sel = TapTarget::Selector { selector: "#btn1".into() };
    assert_eq!(dispatch_tap(&tree, None, &sel), Ok((4, TapAction::EmitClicked)));
    let missing = TapTarget::Selector { selector: "#nope".into() };
    assert_eq!(
        dispatch_tap(&tree, None, &missing),
        Err(TapError::SelectorNotFound { selector: "#nope".into() })
    );
    let bad = TapTarget::Selector { selector: "nope".into() };
    assert_eq!(
        dispatch_tap(&tree, None, &bad),
        Err(TapError::SelectorNotFound {
            selector: "nope: selector must start with `#`".into()
        })
    );
    let at = TapTarget::Xy { xy: XY { x: 180, y: 60 } };
    assert_eq!(dispatch_tap(&tree, None, &at), Err(TapError::NoActiveWindow));
    assert_eq!(dispatch_tap(&tree, Some(&tree.roots[0]), &at), Ok((4, TapAction::EmitClicked)));
    let on_label = TapTarget::Xy { xy: XY { x: 10, y: 90 } };
    assert_eq!(
        dispatch_tap(&tree, Some(&tree.roots[0]), &on_label),
        Err(TapError::UnsupportedWidget { widget_type: "GtkLabel".into() })
    );
}

// ----- type -----

#[test]
fn entry_set_text_replaces() {
    let win = demo_window();
    let r = type_text(find(&win, "entry1"), "world", Some("#input1")).expect("type should succeed on visible entry");
    assert_eq!(r, TypeEdit { target: TypeTarget::Editable, text: "world".into() });
}

#[test]
fn text_view_set_text_replaces() {
    let win = demo_window();
    let r = type_text(find(&win, "tv1"), "abc", Some("#tv1")).expect("type should succeed on TextView");
    assert_eq!(r, TypeEdit { target: TypeTarget::TextViewBuffer, text: "abc".into() });
}

#[test]
fn input_type_unsupported_widget_returns_422_code() {
    let win = demo_window();
    let err = type_text(find(&win, "label1"), "x", Some("#label1")).unwrap_err();
    assert!(matches!(err, TypeError::UnsupportedWidget { .. }));
}

#[test]
fn input_type_widget_not_visible_returns_error() {
    let mut win = demo_window();
    find_mut(&mut win, "entry1").visible = false;
    let entry = find(&win, "entry1");
    let err = type_text(entry, "x", Some("#input1")).unwrap_err();
    assert!(matches!(err, TypeError::WidgetNotVisible { .. }));
}

#[test]
fn input_type_widget_disabled_returns_error() {
    let mut win = demo_window();
    find_mut(&mut win, "entry1").sensitive = false;
    let entry = find(&win, "entry1");
    let err = type_text(entry, "x", Some("#input1")).unwrap_err();
    assert!(matches!(err, TypeError::WidgetDisabled { .. }));
}

#[test]
fn empty_text_is_allowed() {
    let win = demo_window();
    let r = type_text(find(&win, "entry1"), "", Some("#input1")).expect("empty text should be allowed");
    assert_eq!(r.text, "");
}

#[test]
fn dispatch_type_names_the_widget() {
    let tree = WidgetTree { roots: vec![demo_window()] };
    let req = TypeRequest { selector: "#tv1".into(), text: "hi".into() };
    assert_eq!(
        dispatch_type(&tree, &req),
        Ok((7, TypeEdit { target: TypeTarget::TextViewBuffer, text: "hi".into() }))
    );
    let req = TypeRequest { selector: "#gone".into(), text: "hi".into() };
    assert_eq!(dispatch_type(&tree, &req), Err(TypeError::SelectorNotFound { selector: "#gone".into() }));
}

// ----- focus -----

#[test]
fn entry_grabs_focus() {
    let win = demo_window();
    assert_eq!(focus_widget(find(&win, "entry1"), Some("#input1")), Ok(()));
    assert_eq!(focus_outcome(true, Some("#input1")), Ok(()));
}

#[test]
fn non_focusable_widget_is_rejected() {
    let win = demo_window();
    assert_eq!(focus_widget(find(&win, "label1"), Some("#label1")), Ok(()));
    assert_eq!(
        focus_outcome(false, Some("#label1")),
        Err(FocusError::FocusRejected { selector: Some("#label1".into()) })
    );
}

#[test]
fn input_focus_widget_not_visible_returns_error() {
    let mut win = demo_window();
    find_mut(&mut win, "entry1").mapped = false;
    let entry = find(&win, "entry1");
    let err = focus_widget(entry, Some("#input1")).unwrap_err();
    assert!(matches!(err, FocusError::WidgetNotVisible { .. }));
}

#[test]
fn input_focus_widget_disabled_returns_error() {
    let mut win = demo_window();
    find_mut(&mut win, "entry1").sensitive = false;
    let entry = find(&win, "entry1");
    let err = focus_widget(entry, Some("#input1")).unwrap_err();
    assert!(matches!(err, FocusError::WidgetDisabled { .. }));
}

#[test]
fn dispatch_focus_names_the_widget() {
    let tree = WidgetTree { roots: vec![demo_window()] };
    assert_eq!(dispatch_focus(&tree, &FocusRequest { selector: "#entry1".into() }), Ok(3));
    assert_eq!(
        dispatch_focus(&tree, &FocusRequest { selector: "#x".into() }),
        Err(FocusError::SelectorNotFound { selector: "#x".into() })
    );
}

// ----- swipe -----

#[test]
fn swipe_zero_duration_returns_error() {
    let win = scroll_window();
    let err = validate(&win, 360, 480, XY { x: 100, y: 200 }, XY { x: 100, y: 50 }, 0).unwrap_err();
    assert!(matches!(err, SwipeError::ZeroDuration), "got {err:?}");
}

#[test]
fn swipe_duration_too_long_returns_error() {
    let win = scroll_window();
    let err = validate(&win, 360, 480, XY { x: 100, y: 200 }, XY { x: 100, y: 50 }, 10_001).unwrap_err();
    assert!(matches!(err, SwipeError::DurationTooLong { duration_ms: 10_001 }), "got {err:?}");
}

#[test]
fn swipe_out_of_bounds_returns_error() {
    let win = scroll_window();
    let err = validate(&win, 360, 480, XY { x: -1, y: -1 }, XY { x: 100, y: 50 }, 100).unwrap_err();
    assert!(matches!(err, SwipeError::OutOfBounds { .. }), "got {err:?}");
    let err = validate(&win, 360, 480, XY { x: 10_000, y: 10_000 }, XY { x: 100, y: 50 }, 100).unwrap_err();
    assert!(matches!(err, SwipeError::OutOfBounds { .. }), "got {err:?}");
}

#[test]
fn swipe_no_scrollable_returns_error() {
    let win = plain_window();
    let err = validate(&win, 360, 200, XY { x: 50, y: 50 }, XY { x: 50, y: 20 }, 100).unwrap_err();
    assert!(matches!(err, SwipeError::NoScrollableAtPoint { .. }), "got {err:?}");
}

#[test]
fn swipe_modifies_vadjustment_value() {
    let win = scroll_window();
    let plan = validate(&win, 360, 480, XY { x: 100, y: 300 }, XY { x: 100, y: 100 }, 200).unwrap();
    assert_eq!(plan, SwipePlan { scrolled: 10, dx: 0, dy: 200, frames: 12, frame_interval_ms: 16 });
}

#[test]
fn swipe_falls_back_to_default_size_before_allocation() {
    let mut win = scroll_window();
    win.width = 0;
    win.height = 0;
    // The default size admits the point, the allocation does not.
    let err = validate(&win, 360, 480, XY { x: 10, y: 10 }, XY { x: 10, y: 0 }, 100).unwrap_err();
    assert_eq!(err, SwipeError::OutOfBounds { x: 10, y: 10 });
}

#[test]
fn frame_plan_values() {
    assert_eq!(frame_plan(1), (1, 1));
    assert_eq!(frame_plan(16), (1, 16));
    assert_eq!(frame_plan(17), (1, 17));
    assert_eq!(frame_plan(1000), (60, 16));
    assert_eq!(frame_plan(10_000), (600, 16));
}

// ----- pinch -----

#[test]
fn pinch_zero_duration_returns_error() {
    let win = zoom_window();
    let err = validate_pinch(&win, 360, 480, XY { x: 100, y: 100 }, 1.5f32.to_bits(), 0).unwrap_err();
    assert!(matches!(err, PinchError::ZeroDuration), "got {err:?}");
}

#[test]
fn pinch_duration_too_long_returns_error() {
    let win = zoom_window();
    let err = validate_pinch(&win, 360, 480, XY { x: 100, y: 100 }, 1.5f32.to_bits(), 10_001).unwrap_err();
    assert!(matches!(err, PinchError::DurationTooLong { duration_ms: 10_001 }), "got {err:?}");
}

#[test]
fn pinch_invalid_scale_nan() {
    let win = zoom_window();
    let err = validate_pinch(&win, 360, 480, XY { x: 100, y: 100 }, f32::NAN.to_bits(), 100).unwrap_err();
    assert!(matches!(err, PinchError::InvalidScale { reason: "nan" }), "got {err:?}");
}

#[test]
fn pinch_invalid_scale_zero() {
    let win = zoom_window();
    let err = validate_pinch(&win, 360, 480, XY { x: 100, y: 100 }, 0.0f32.to_bits(), 100).unwrap_err();
    assert!(matches!(err, PinchError::InvalidScale { reason: "non_positive" }), "got {err:?}");
}

#[test]
fn pinch_invalid_scale_negative() {
    let win = zoom_window();
    let err = validate_pinch(&win, 360, 480, XY { x: 100, y: 100 }, (-1.0f32).to_bits(), 100).unwrap_err();
    assert!(matches!(err, PinchError::InvalidScale { reason: "non_positive" }), "got {err:?}");
}

#[test]
fn pinch_invalid_scale_too_large() {
    let win = zoom_window();
    let err = validate_pinch(&win, 360, 480, XY { x: 100, y: 100 }, 100.0f32.to_bits(), 100).unwrap_err();
    assert!(matches!(err, PinchError::InvalidScale { reason: "too_large" }), "got {err:?}");
}

#[test]
fn pinch_invalid_scale_too_small() {
    let win = zoom_window();
    let err = validate_pinch(&win, 360, 480, XY { x: 100, y: 100 }, 0.01f32.to_bits(), 100).unwrap_err();
    assert!(matches!(err, PinchError::InvalidScale { reason: "too_small" }), "got {err:?}");
}

#[test]
fn pinch_out_of_bounds_returns_error() {
    let win = zoom_window();
    let err = validate_pinch(&win, 360, 480, XY { x: -1, y: -1 }, 1.5f32.to_bits(), 100).unwrap_err();
    assert!(matches!(err, PinchError::OutOfBounds { .. }), "got {err:?}");
    let err = validate_pinch(&win, 360, 480, XY { x: 10_000, y: 10_000 }, 1.5f32.to_bits(), 100).unwrap_err();
    assert!(matches!(err, PinchError::OutOfBounds { .. }), "got {err:?}");
}

#[test]
fn pinch_no_pinchable_returns_error() {
    let win = plain_window();
    let err = validate_pinch(&win, 360, 200, XY { x: 50, y: 50 }, 1.5f32.to_bits(), 100).unwrap_err();
    assert!(matches!(err, PinchError::NoPinchableAtPoint { .. }), "got {err:?}");
}

#[test]
fn pinch_emits_scale_changed_to_target() {
    let win = zoom_window();
    let plan = validate_pinch(&win, 360, 480, XY { x: 80, y: 60 }, 2.0f32.to_bits(), 200).unwrap();
    assert_eq!(plan.gesture_owner, 2);
    assert_eq!(f32::from_bits(plan.scale_bits), 2.0);
    assert_eq!((plan.frames, plan.frame_interval_ms), (12, 16));
}

#[test]
fn scale_bounds_are_inclusive() {
    assert_eq!(check_scale(50.0f32.to_bits()), None);
    assert_eq!(check_scale((1.0f32 / 50.0f32).to_bits()), None);
    assert_eq!(check_scale(1.0f32.to_bits()), None);
    assert_eq!(check_scale(f32::INFINITY.to_bits()), Some("infinite"));
    assert_eq!(check_scale(f32::NEG_INFINITY.to_bits()), Some("infinite"));
    assert_eq!(check_scale((-0.0f32).to_bits()), Some("non_positive"));
    assert_eq!(check_scale(50.000004f32.to_bits()), Some("too_large"));
}

// ----- press -----

#[test]
fn press_zero_hold_returns_error() {
    let win = long_press_window();
    let err = validate_press(&win, 360, 480, XY { x: 80, y: 60 }, 0).unwrap_err();
    assert!(matches!(err, PressError::ZeroHold), "got {err:?}");
}

#[test]
fn press_hold_too_long_returns_error() {
    let win = long_press_window();
    let err = validate_press(&win, 360, 480, XY { x: 80, y: 60 }, 10_001).unwrap_err();
    assert!(matches!(err, PressError::HoldTooLong { hold_ms: 10_001 }), "got {err:?}");
}

#[test]
fn press_out_of_bounds_returns_error() {
    let win = long_press_window();
    let err = validate_press(&win, 360, 480, XY { x: -1, y: -1 }, 100).unwrap_err();
    assert!(matches!(err, PressError::OutOfBounds { .. }), "got {err:?}");
    let err = validate_press(&win, 360, 480, XY { x: 10_000, y: 10_000 }, 100).unwrap_err();
    assert!(matches!(err, PressError::OutOfBounds { .. }), "got {err:?}");
}

#[test]
fn press_no_long_pressable_returns_error() {
    let win = plain_window();
    let err = validate_press(&win, 360, 200, XY { x: 50, y: 50 }, 100).unwrap_err();
    assert!(matches!(err, PressError::NoLongPressableAtPoint { .. }), "got {err:?}");
}

#[test]
fn press_emits_pressed_to_target() {
    let win = long_press_window();
    let plan = validate_press(&win, 360, 480, XY { x: 80, y: 60 }, 100).unwrap();
    assert_eq!(plan, LongPressPlan { gesture_owner: 2, at: Some(XY { x: 80, y: 60 }), hold_ms: 100 });
}

#[test]
fn press_zero_distance_hold_fires() {
    let win = long_press_window();
    let plan = validate_press(&win, 360, 480, XY { x: 80, y: 60 }, 150).unwrap();
    assert_eq!(plan.hold_ms, 150);
    assert_eq!(plan.at, Some(XY { x: 80, y: 60 }));
}

#[test]
fn press_by_selector_finds_gesture_on_ancestor() {
    let mut win = long_press_window();
    win.children[0].children = vec![w(3, "GtkLabel", "inner", WidgetClass::Other, (0, 0, 10, 10), vec![])];
    let tree = WidgetTree { roots: vec![win] };
    assert_eq!(
        dispatch_press(&tree, None, 0, 0, Some("#inner"), None, 100),
        Ok(LongPressPlan { gesture_owner: 2, at: None, hold_ms: 100 })
    );
    let plain = WidgetTree { roots: vec![plain_window()] };
    assert_eq!(
        dispatch_press(&plain, None, 0, 0, Some("#label1"), None, 100),
        Err(PressError::NoLongPressableForSelector { selector: "#label1".into() })
    );
    assert_eq!(
        dispatch_press(&plain, None, 0, 0, None, None, 100),
        Err(PressError::InvalidTarget { reason: "exactly one of selector / xy required" })
    );
    assert_eq!(
        dispatch_press(&plain, None, 0, 0, None, Some(XY { x: 1, y: 1 }), 100),
        Err(PressError::NoActiveWindow)
    );
    assert_eq!(validate_hold(MAX_PRESS_HOLD_MS), Ok(()));
    assert_eq!(
        validate_press_widget(None, "#x", 0),
        Err(PressError::ZeroHold)
    );
}

// ----- set value -----

#[test]
fn set_value_widget_applies_value() {
    let win = scale_window();
    assert_eq!(set_value_widget(find(&win, "scale1"), "#scale1", 42.0f64.to_bits()), Ok(2));
}

#[test]
fn set_value_widget_rejects_non_finite() {
    let win = scale_window();
    let err = set_value_widget(find(&win, "scale1"), "#scale1", f64::NAN.to_bits()).unwrap_err();
    assert!(matches!(err, SetValueError::InvalidValue { .. }), "got {err:?}");
    let err = set_value_widget(find(&win, "scale1"), "#scale1", f64::INFINITY.to_bits()).unwrap_err();
    assert!(matches!(err, SetValueError::InvalidValue { .. }), "got {err:?}");
}

#[test]
fn set_value_widget_rejects_non_range() {
    let win = plain_window();
    let err = set_value_widget(find(&win, "label1"), "#label1", 10.0f64.to_bits()).unwrap_err();
    assert!(matches!(err, SetValueError::NoRangeForSelector { .. }), "got {err:?}");
}

#[test]
fn set_value_widget_rejects_disabled() {
    let mut win = scale_window();
    find_mut(&mut win, "scale1").sensitive = false;
    let scale = find(&win, "scale1");
    let err = set_value_widget(scale, "#scale1", 10.0f64.to_bits()).unwrap_err();
    assert!(matches!(err, SetValueError::WidgetDisabled { .. }), "got {err:?}");
}

#[test]
fn set_value_at_explicit_value() {
    let win = scale_window();
    let plan = set_value_at(&win, XY { x: 200, y: 60 }, Some(50.0f64.to_bits())).expect("set should succeed");
    assert_eq!(plan, SetValuePlan { range: 2, value_bits: Some(50.0f64.to_bits()) });
}

#[test]
fn set_value_at_derives_from_coordinate() {
    let win = scale_window();
    let plan = set_value_at(&win, XY { x: 10, y: 60 }, None).expect("left set");
    assert_eq!(plan, SetValuePlan { range: 2, value_bits: None });
}

#[test]
fn set_value_at_out_of_bounds() {
    let win = scale_window();
    let err = set_value_at(&win, XY { x: -5, y: -5 }, Some(10.0f64.to_bits())).unwrap_err();
    assert!(matches!(err, SetValueError::OutOfBounds { .. }), "got {err:?}");
}

#[test]
fn find_range_ancestor_walks_up() {
    let mut win = scale_window();
    win.children[0].children = vec![w(3, "GtkLabel", "knob", WidgetClass::Other, (10, 10, 20, 20), vec![])];
    let plan = set_value_at(&win, XY { x: 15, y: 15 }, None).unwrap();
    assert_eq!(plan.range, 2);
    let plain = plain_window();
    assert_eq!(
        set_value_at(&plain, XY { x: 15, y: 15 }, None),
        Err(SetValueError::NoRangeAtPoint { x: 15, y: 15 })
    );
}

#[test]
fn dispatch_set_value_requires_value_for_selector() {
    let tree = WidgetTree { roots: vec![scale_window()] };
    assert_eq!(
        dispatch_set_value(&tree, None, Some("#scale1"), None, None),
        Err(SetValueError::InvalidTarget { reason: "value is required when targeting by selector" })
    );
    assert_eq!(
        dispatch_set_value(&tree, None, Some("#scale1"), None, Some(1.0f64.to_bits())),
        Ok(SetValuePlan { range: 2, value_bits: Some(1.0f64.to_bits()) })
    );
}

// ----- key / popovers -----

fn popover_tree(open: bool) -> WidgetTree {
    let mut pop = w(20, "GtkPopover", "pop1", WidgetClass::Popover, (0, 0, 10, 10), vec![w(
        21,
        "GtkButton",
        "popbtn",
        WidgetClass::Button,
        (0, 0, 10, 10),
        vec![],
    )]);
    pop.visible = open;
    let menu = w(3, "GtkMenuButton", "menu1", WidgetClass::Other, (0, 0, 50, 20), vec![pop]);
    WidgetTree { roots: vec![only_child(w(1, "GtkApplicationWindow", "", WidgetClass::Other, (0, 0, 200, 100), vec![]), menu)] }
}

#[test]
fn find_first_resolves_button_inside_open_modal_popover() {
    let tree = popover_tree(true);
    let sel = gtk4_e2e_server::tree::parse_selector("#popbtn").unwrap();
    let hit = gtk4_e2e_server::tree::find_first(&tree, &sel).expect("button inside popover");
    assert_eq!(hit.handle, 21);
}

#[test]
fn send_key_escape_dismisses_modal_popover() {
    let tree = popover_tree(true);
    assert_eq!(send_key(&tree, "Escape"), Ok(Some(20)));
}

#[test]
fn send_key_escape_is_noop_when_no_popover() {
    let tree = popover_tree(false);
    assert_eq!(send_key(&tree, "Escape"), Ok(None));
}

#[test]
fn send_key_rejects_unsupported_key() {
    let tree = popover_tree(true);
    assert_eq!(send_key(&tree, "Enter"), Err(KeyError::UnsupportedKey { key: "Enter".into() }));
}

#[test]
fn escape_dismisses_the_innermost_popover_first() {
    let mut tree = popover_tree(true);
    let mut inner = w(30, "GtkPopover", "inner", WidgetClass::Popover, (0, 0, 5, 5), vec![]);
    inner.visible = true;
    tree.roots[0].children[0].children[0].children[0].children.push(inner);
    assert_eq!(send_key(&tree, "Escape"), Ok(Some(30)));
}
