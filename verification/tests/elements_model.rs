use gtk4_e2e_server::elements::{read_requested_properties, walk_elements, ElementInfo, ElementsError};
use gtk4_e2e_server::json::{JsonNumber, JsonValue};
use gtk4_e2e_server::tree::{PropReadError, WidgetClass, WidgetNode, WidgetTree};

fn node(handle: usize, kind: &str, name: Option<&str>, classes: &[&str], children: Vec<WidgetNode>) -> WidgetNode {
    WidgetNode {
        handle,
        kind: kind.to_string(),
        name: name.map(|n| n.to_string()),
        classes: classes.iter().map(|c| c.to_string()).collect(),
        visible: true,
        mapped: true,
        sensitive: true,
        text: None,
        readable: vec![],
        properties: vec![],
        class: WidgetClass::Other,
        zoom_gesture: false,
        long_press_gesture: false,
        width: 10,
        height: 10,
        hit_box: None,
        children,
    }
}

/// window > vbox > [entry(.primary)#input1, label#label1].
fn fixture() -> WidgetTree {
    let mut entry = node(3, "GtkEntry", Some("input1"), &["primary"], vec![]);
    entry.text = Some("hello-props".to_string());
    entry.readable = ["name", "visible", "sensitive", "width-request", "height-request", "text", "color"]
        .iter()
        .map(|s| s.to_string())
        .collect();
    entry.properties = vec![
        ("name".to_string(), Ok(JsonValue::String("input1".to_string()))),
        ("visible".to_string(), Ok(JsonValue::Bool(true))),
        ("sensitive".to_string(), Ok(JsonValue::Bool(true))),
        ("width-request".to_string(), Ok(JsonValue::Number(JsonNumber::NegInt(-1)))),
        ("height-request".to_string(), Ok(JsonValue::Number(JsonNumber::NegInt(-1)))),
        ("text".to_string(), Ok(JsonValue::String("hello-props".to_string()))),
        ("color".to_string(), Err(PropReadError::Unsupported("GdkRGBA".to_string()))),
    ];
    let mut label = node(4, "GtkLabel", Some("label1"), &[], vec![]);
    label.text = Some("hi".to_string());
    let vbox = node(2, "GtkBox", None, &[], vec![entry, label]);
    WidgetTree { roots: vec![node(1, "GtkApplicationWindow", None, &[], vec![vbox])] }
}

fn rec(info: &ElementInfo) -> u32 {
    1 + info.children.iter().map(rec).sum::<u32>()
}

fn get<'a>(map: &'a [(String, JsonValue)], key: &str) -> Option<&'a JsonValue> {
    map.iter().find(|(k, _)| k == key).map(|(_, v)| v)
}

fn is_str(v: Option<&JsonValue>, s: &str) -> bool {
    matches!(v, Some(JsonValue::String(x)) if x == s)
}

#[test]
fn full_tree_returns_one_root_per_window() {
    let tree = fixture();
    let resp = walk_elements(&tree, None, None, &vec![]).expect("walk should succeed");
    assert_eq!(resp.roots.len(), 1, "single window expected");
    assert!(resp.count > 1, "tree should have many nodes, got {}", resp.count);
    let recomputed: u32 = resp.roots.iter().map(rec).sum();
    assert_eq!(recomputed, resp.count, "count must equal recursive node count");
}

#[test]
fn selector_hit_by_name() {
    let tree = fixture();
    let resp = walk_elements(&tree, Some("#input1"), None, &vec![]).expect("walk should succeed");
    assert_eq!(resp.roots.len(), 1);
    assert_eq!(resp.roots[0].widget_name.as_deref(), Some("input1"));
    assert_eq!(resp.roots[0].kind, "GtkEntry");
}

#[test]
fn selector_hit_by_class() {
    let tree = fixture();
    let resp = walk_elements(&tree, Some(".primary"), None, &vec![]).expect("walk should succeed");
    assert_eq!(resp.roots.len(), 1);
    assert_eq!(resp.roots[0].widget_name.as_deref(), Some("input1"));
    assert!(resp.roots[0].css_classes.iter().any(|c| c == "primary"));
}

#[test]
fn selector_miss_returns_empty_roots() {
    let tree = fixture();
    let resp = walk_elements(&tree, Some("#nosuch"), None, &vec![]).expect("walk should succeed");
    assert!(resp.roots.is_empty());
    assert_eq!(resp.count, 0);
}

#[test]
fn max_depth_zero_drops_children() {
    let tree = fixture();
    let resp = walk_elements(&tree, None, Some(0), &vec![]).expect("walk should succeed");
    assert_eq!(resp.roots.len(), 1);
    assert!(resp.roots[0].children.is_empty(), "max_depth=0 must drop children");
    assert_eq!(resp.count, 1);
}

#[test]
fn max_depth_one_includes_only_immediate_children() {
    let tree = fixture();
    let resp = walk_elements(&tree, None, Some(1), &vec![]).expect("walk should succeed");
    let root = &resp.roots[0];
    assert!(!root.children.is_empty(), "depth 1 must include children");
    for child in &root.children {
        assert!(child.children.is_empty(), "depth 1 must stop at immediate children");
    }
}

#[test]
fn no_active_window_yields_error() {
    let tree = WidgetTree { roots: vec![] };
    let err = walk_elements(&tree, None, None, &vec![]).expect_err("no windows -> error");
    assert!(matches!(err, ElementsError::NoActiveWindow));
}

#[test]
fn invalid_selector_yields_error() {
    let tree = fixture();
    let err = walk_elements(&tree, Some("@bad"), None, &vec![]).expect_err("invalid selector");
    assert!(matches!(err, ElementsError::InvalidSelector { .. }));
    assert_eq!(
        err,
        ElementsError::InvalidSelector { reason: "selector must start with `#`".into() }
    );
}

#[test]
fn empty_props_leaves_properties_field_off() {
    let tree = fixture();
    let resp = walk_elements(&tree, Some("#input1"), None, &vec![]).expect("walk should succeed");
    assert!(resp.roots[0].properties.is_none(), "empty props must omit the properties field");
}

#[test]
fn props_reads_string_value_from_entry() {
    let tree = fixture();
    let props = vec!["text".to_string()];
    let resp = walk_elements(&tree, Some("#input1"), None, &props).expect("walk should succeed");
    let map = resp.roots[0].properties.as_ref().expect("properties must be present when props non-empty");
    assert!(is_str(get(map, "text"), "hello-props"));
    assert_eq!(map.len(), 1);
}

#[test]
fn props_unknown_name_emits_missing_sentinel() {
    let tree = fixture();
    let props = vec!["this-property-does-not-exist".to_string()];
    let resp = walk_elements(&tree, Some("#input1"), None, &props).expect("walk should succeed");
    let map = resp.roots[0].properties.as_ref().expect("properties present");
    match get(map, "this-property-does-not-exist").expect("entry present") {
        JsonValue::Object(e) => {
            assert_eq!(e.len(), 1);
            assert_eq!(e[0].0, "$missing");
            assert!(matches!(e[0].1, JsonValue::Bool(true)));
        }
        other => panic!("missing properties should surface the $missing sentinel, got {other:?}"),
    }
}

#[test]
fn props_wildcard_enumerates_readable_gobject_properties() {
    let tree = fixture();
    let props = vec!["*".to_string(), "name".to_string()];
    let resp = walk_elements(&tree, Some("#input1"), None, &props).expect("walk should succeed");
    let map = resp.roots[0].properties.as_ref().expect("properties present when * requested");
    assert!(is_str(get(map, "name"), "input1"), "explicit + wildcard: name should equal the set widget_name");
    for required in ["visible", "sensitive", "width-request", "height-request"] {
        assert!(get(map, required).is_some(), "wildcard expansion missing {required:?}");
    }
    assert!(get(map, "text").is_some(), "wildcard expansion on GtkEntry should include `text`");
}

#[test]
fn ids_are_numbered_depth_first() {
    let tree = fixture();
    let resp = walk_elements(&tree, None, None, &vec![]).unwrap();
    let root = &resp.roots[0];
    assert_eq!(root.id, "e0");
    assert_eq!(root.children[0].id, "e1");
    assert_eq!(root.children[0].children[0].id, "e2");
    assert_eq!(root.children[0].children[1].id, "e3");
    assert_eq!(root.children[0].children[1].text.as_deref(), Some("hi"));
    assert_eq!(root.children[0].children[0].handle, 3);
    assert_eq!(resp.count, 4);
}

#[test]
fn a_match_is_not_searched_for_nested_matches() {
    let mut outer = node(1, "GtkBox", None, &["hit"], vec![node(2, "GtkLabel", None, &["hit"], vec![])]);
    outer.children.push(node(3, "GtkLabel", None, &[], vec![]));
    let other = node(4, "GtkBox", None, &["hit"], vec![]);
    let tree = WidgetTree { roots: vec![outer, other] };
    let resp = walk_elements(&tree, Some(".hit"), Some(0), &vec![]).unwrap();
    assert_eq!(resp.roots.len(), 2);
    assert_eq!(resp.roots[0].handle, 1);
    assert_eq!(resp.roots[1].handle, 4);
    assert_eq!((resp.roots[0].id.as_str(), resp.roots[1].id.as_str()), ("e0", "e1"));
    assert_eq!(resp.count, 2);
}

#[test]
fn properties_are_keyed_in_order_with_sentinels() {
    let tree = fixture();
    let entry = &tree.roots[0].children[0].children[0];
    let props = vec!["text".to_string(), "color".to_string(), "zzz".to_string(), "*".to_string()];
    let map = read_requested_properties(entry, &props).unwrap();
    let keys: Vec<&str> = map.iter().map(|(k, _)| k.as_str()).collect();
    assert_eq!(
        keys,
        vec!["color", "height-request", "name", "sensitive", "text", "visible", "width-request", "zzz"]
    );
    match get(&map, "color").unwrap() {
        JsonValue::Object(e) => {
            assert_eq!(e[0].0, "$unsupported");
            assert!(matches!(&e[0].1, JsonValue::String(t) if t == "GdkRGBA"));
        }
        other => panic!("unexpected {other:?}"),
    }
    assert!(read_requested_properties(entry, &vec![]).is_none());
}

fn deepest(info: &ElementInfo) -> u32 {
    info.children.iter().map(|c| 1 + deepest(c)).max().unwrap_or(0)
}

#[test]
fn selected_roots_follow_each_other_and_count_their_subtrees() {
    // window > [a.hit > [b.hit], c > [d.hit > [e]]]: roots are a and d.
    let b = node(3, "GtkLabel", Some("b"), &["hit"], vec![]);
    let a = node(2, "GtkBox", Some("a"), &["hit"], vec![b]);
    let e = node(6, "GtkLabel", Some("e"), &[], vec![]);
    let d = node(5, "GtkBox", Some("d"), &["hit"], vec![e]);
    let c = node(4, "GtkBox", Some("c"), &[], vec![d]);
    let tree = WidgetTree { roots: vec![node(1, "GtkWindow", None, &[], vec![a, c])] };
    let resp = walk_elements(&tree, Some(".hit"), None, &vec![]).unwrap();
    let names: Vec<Option<&str>> = resp.roots.iter().map(|r| r.widget_name.as_deref()).collect();
    assert_eq!(names, vec![Some("a"), Some("d")]);
    assert_eq!(resp.count, 4);
    assert_eq!(resp.roots.iter().map(rec).sum::<u32>(), resp.count);
}

#[test]
fn depth_limit_bounds_every_root() {
    let tree = fixture();
    for m in 0..4u32 {
        let resp = walk_elements(&tree, None, Some(m), &vec![]).unwrap();
        assert!(resp.roots.iter().all(|r| deepest(r) <= m));
        assert_eq!(resp.roots.iter().map(rec).sum::<u32>(), resp.count);
    }
}
