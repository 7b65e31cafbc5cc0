use gtk4_e2e_server::notify::{is_allowed, registered_properties};

#[test]
fn is_allowed_recognises_known_pair() {
    assert!(is_allowed("GtkStack", "visible-child-name"));
    assert!(is_allowed("GtkSwitch", "active"));
}

#[test]
fn is_allowed_rejects_unknown() {
    assert!(!is_allowed("GtkLabel", "label"));
    assert!(!is_allowed("GtkStack", "no-such-prop"));
}

#[test]
fn registered_properties_follow_the_allowlist() {
    assert_eq!(registered_properties("GtkSwitch"), vec!["active", "state"]);
    assert!(registered_properties("GtkLabel").is_empty());
    for p in registered_properties("GtkStack") {
        assert!(is_allowed("GtkStack", p));
    }
}
