use gtk4_e2e_server::tree::{find_first, parse_selector, Selector, WidgetClass, WidgetNode, WidgetTree};

fn node(name: Option<&str>, classes: &[&str], children: Vec<WidgetNode>) -> WidgetNode {
    WidgetNode {
        handle: 0,
        kind: "GtkWidget".to_string(),
        name: name.map(|n| n.to_string()),
        classes: classes.iter().map(|c| c.to_string()).collect(),
        visible: true,
        mapped: true,
        sensitive: true,
        text: None,
        readable: vec![],
        properties: vec![],
        class: WidgetClass::Other,
        zoom_gesture: false,
        long_press_gesture: false,
        width: 0,
        height: 0,
        hit_box: None,
        children,
    }
}

fn leaf(name: Option<&str>) -> WidgetNode {
    node(name, &[], vec![])
}

#[test]
fn accepts_hash_name() {
    let s = parse_selector("#btn1").expect("#btn1 should parse");
    match s {
        Selector::Name(n) => assert_eq!(n, "btn1"),
        other => panic!("expected Selector::Name, got {other:?}"),
    }
}

#[test]
fn accepts_underscore_and_dash() {
    parse_selector("#btn_1").expect("underscore allowed");
    parse_selector("#btn-1").expect("dash allowed");
    parse_selector("#a").expect("single char allowed");
}

#[test]
fn accepts_dot_class() {
    let s = parse_selector(".foo").expect(".foo should parse");
    match s {
        Selector::Class(n) => assert_eq!(n, "foo"),
        other => panic!("expected Selector::Class, got {other:?}"),
    }
}

#[test]
fn rejects_invalid_dot_class() {
    assert!(parse_selector(".").is_err());
    assert!(parse_selector(".bad space").is_err());
    assert!(parse_selector(".$bad").is_err());
}

#[test]
fn rejects_empty() {
    assert!(parse_selector("#").is_err());
    assert!(parse_selector("").is_err());
}

#[test]
fn rejects_too_long() {
    let long = format!("#{}", "a".repeat(65));
    assert!(parse_selector(&long).is_err(), "65 chars should be rejected");
    let ok = format!("#{}", "a".repeat(64));
    assert!(parse_selector(&ok).is_ok(), "64 chars should be accepted");
}

#[test]
fn rejects_special_chars() {
    assert!(parse_selector("#$bad").is_err());
    assert!(parse_selector("#bad space").is_err());
    assert!(parse_selector("#bad/slash").is_err());
    assert!(parse_selector("#bad.dot").is_err());
}

#[test]
fn rejects_leading_digit() {
    assert!(parse_selector("#1abc").is_err());
}

#[test]
fn rejects_missing_hash() {
    assert!(parse_selector("btn1").is_err());
}

#[test]
fn mock_tree_returns_first_match() {
    let tree = WidgetTree {
        roots: vec![node(
            Some("root"),
            &[],
            vec![
                leaf(Some("a")),
                node(Some("b"), &[], vec![leaf(Some("target")), leaf(Some("c"))]),
                leaf(Some("target")),
            ],
        )],
    };
    let sel = Selector::Name("target".to_string());
    let hit = find_first(&tree, &sel).expect("should find target");
    assert_eq!(hit.name.as_deref(), Some("target"));
    assert!(hit.children.is_empty());
}

#[test]
fn mock_tree_returns_none() {
    let tree = WidgetTree { roots: vec![leaf(Some("only"))] };
    let sel = Selector::Name("missing".to_string());
    assert!(find_first(&tree, &sel).is_none());
}

#[test]
fn mock_tree_skips_unnamed_nodes() {
    let tree = WidgetTree { roots: vec![node(None, &[], vec![leaf(None), leaf(Some("hit"))])] };
    let sel = Selector::Name("hit".to_string());
    assert!(find_first(&tree, &sel).is_some());
}

#[test]
fn mock_tree_matches_class_selector() {
    let tree = WidgetTree {
        roots: vec![node(
            Some("root"),
            &[],
            vec![node(Some("a"), &["other"], vec![]), node(Some("b"), &["primary", "x"], vec![])],
        )],
    };
    let sel = Selector::Class("primary".to_string());
    let hit = find_first(&tree, &sel).expect("should find class match");
    assert_eq!(hit.name.as_deref(), Some("b"));
}

#[test]
fn mock_tree_class_miss_returns_none() {
    let tree = WidgetTree { roots: vec![leaf(Some("solo"))] };
    let sel = Selector::Class("primary".to_string());
    assert!(find_first(&tree, &sel).is_none());
}

#[test]
fn refusal_reasons_are_reported_in_order() {
    assert_eq!(parse_selector("btn").unwrap_err().reason, "selector must start with `#`");
    assert_eq!(parse_selector("#").unwrap_err().reason, "name must not be empty");
    let long = format!("#{}", "a".repeat(65));
    assert_eq!(parse_selector(&long).unwrap_err().reason, "name exceeds 64 characters");
    assert_eq!(
        parse_selector("#1abc").unwrap_err().reason,
        "first char must be ASCII letter or underscore"
    );
    assert_eq!(parse_selector("#a b").unwrap_err().reason, "name may contain only [A-Za-z0-9_-]");
    let e = parse_selector("@bad").unwrap_err();
    assert_eq!(e.input, "@bad");
    assert_eq!(e.message(), "invalid selector \"@bad\": selector must start with `#`");
}

#[test]
fn name_limit_counts_bytes() {
    // 32 two-byte characters are 64 bytes: accepted only when the first is
    // ASCII; the byte limit is checked before the character classes.
    let s = format!("#a{}", "é".repeat(32));
    assert_eq!(parse_selector(&s).unwrap_err().reason, "name exceeds 64 characters");
    let s = format!("#a{}", "é".repeat(31));
    assert_eq!(parse_selector(&s).unwrap_err().reason, "name may contain only [A-Za-z0-9_-]");
}

#[test]
fn find_first_searches_windows_in_order() {
    let tree = WidgetTree {
        roots: vec![
            node(Some("w1"), &[], vec![leaf(Some("x"))]),
            node(Some("w2"), &["hit"], vec![]),
            node(Some("w3"), &["hit"], vec![]),
        ],
    };
    let hit = find_first(&tree, &Selector::Class("hit".to_string())).unwrap();
    assert_eq!(hit.name.as_deref(), Some("w2"));
}

#[test]
fn invalid_selector_message_escapes_input() {
    let e = parse_selector("#a\"b").unwrap_err();
    assert_eq!(e.message(), "invalid selector \"#a\\\"b\": name may contain only [A-Za-z0-9_-]");
    let e = parse_selector("x\\y").unwrap_err();
    assert_eq!(e.message(), "invalid selector \"x\\\\y\": selector must start with `#`");
}
