use gtk4_e2e_server::port::{default_candidates, ports_in, shuffle_candidates, DEFAULT_PORT_MAX, DEFAULT_PORT_MIN};
use gtk4_e2e_server::registry::{instance_file_name, temp_file_name};
use gtk4_e2e_server::snapshot::{check_capture, render_target, ScreenshotError};
use gtk4_e2e_server::tree::{WidgetClass, WidgetNode, WidgetTree};

#[test]
fn instance_file_names() {
    assert_eq!(instance_file_name(12345), "instance-12345.json");
    assert_eq!(instance_file_name(0), "instance-0.json");
    assert_eq!(temp_file_name(7, "abc"), "instance-7.json.tmp.abc");
    assert_eq!(gtk4_e2e_server::REGISTRY_SUBDIR, "gtk4-e2e");
}

#[test]
fn candidates_cover_the_range_once() {
    let mut c = default_candidates();
    assert_eq!(c.len(), 1000);
    c.sort();
    let expected: Vec<u16> = (DEFAULT_PORT_MIN..=DEFAULT_PORT_MAX).collect();
    assert_eq!(c, expected);
    assert_eq!(ports_in(5, 7), vec![5, 6, 7]);
    assert!(ports_in(7, 5).is_empty());
    let mut two = shuffle_candidates(vec![40000, 40001]);
    two.sort();
    assert_eq!(two, vec![40000, 40001]);
    assert!(shuffle_candidates(vec![]).is_empty());
}

fn window(handle: usize, visible: bool, w: i32, h: i32) -> WidgetNode {
    WidgetNode {
        handle,
        kind: "GtkApplicationWindow".to_string(),
        name: None,
        classes: vec![],
        visible,
        mapped: visible,
        sensitive: true,
        text: None,
        readable: vec![],
        properties: vec![],
        class: WidgetClass::Other,
        zoom_gesture: false,
        long_press_gesture: false,
        width: w,
        height: h,
        hit_box: None,
        children: vec![],
    }
}

#[test]
fn render_no_active_window_errors() {
    let tree = WidgetTree { roots: vec![] };
    assert_eq!(render_target(&tree, None, None, None).err(), Some(ScreenshotError::NoActiveWindow));
}

#[test]
fn render_active_window_returns_png() {
    let tree = WidgetTree { roots: vec![window(1, true, 100, 64), window(2, true, 10, 10)] };
    let target = render_target(&tree, Some(0), None, None).unwrap();
    assert_eq!(target.handle, 1);
    assert_eq!(check_capture(target), Ok(()));
}

#[test]
fn screenshot_target_precedence() {
    let mut second = window(2, false, 10, 10);
    second.name = Some("w2".into());
    let tree = WidgetTree { roots: vec![window(1, true, 0, 64), second] };
    assert_eq!(render_target(&tree, Some(0), Some("#w2"), Some(0)).unwrap().handle, 2);
    assert_eq!(render_target(&tree, Some(0), None, Some(1)).unwrap().handle, 2);
    assert_eq!(
        render_target(&tree, Some(0), None, Some(2)).err(),
        Some(ScreenshotError::WindowOutOfRange { index: 2, count: 2 })
    );
    assert_eq!(
        render_target(&tree, None, Some("#nope"), None).err(),
        Some(ScreenshotError::SelectorNotFound { selector: "#nope".into() })
    );
    assert_eq!(
        render_target(&tree, None, Some("nope"), None).err(),
        Some(ScreenshotError::InvalidSelector { reason: "selector must start with `#`".into() })
    );
    assert_eq!(check_capture(&tree.roots[1]), Err(ScreenshotError::UnrealizedTarget));
    assert_eq!(check_capture(&tree.roots[0]), Err(ScreenshotError::ZeroSize));
}
