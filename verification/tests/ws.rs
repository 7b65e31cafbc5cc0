use gtk4_e2e_server::json::JsonValue;
use gtk4_e2e_server::proto::{EventEnvelope, EventKind};
use gtk4_e2e_server::ws::{kind_wire_name, parse_kinds, should_forward, unknown_kinds};

fn env(kind: EventKind) -> EventEnvelope {
    EventEnvelope { kind, ts: "1970-01-01T00:00:00Z".into(), data: JsonValue::Object(vec![]) }
}

#[test]
fn parse_kinds_handles_empty_and_none() {
    assert!(parse_kinds(None).is_empty());
    assert!(parse_kinds(Some("")).is_empty());
    assert!(parse_kinds(Some("  ")).is_empty());
}

#[test]
fn parse_kinds_accepts_known_csv() {
    let set = parse_kinds(Some("state_change,log_line"));
    assert!(set.contains(&EventKind::StateChange));
    assert!(set.contains(&EventKind::LogLine));
    assert_eq!(set.len(), 2);
}

#[test]
fn parse_kinds_ignores_unknown_tokens() {
    let set = parse_kinds(Some("state_change,bogus,,log_line"));
    assert!(set.contains(&EventKind::StateChange));
    assert!(set.contains(&EventKind::LogLine));
    assert_eq!(set.len(), 2);
}

#[test]
fn ws_should_forward_empty_filter_passes_all() {
    let filter = Vec::new();
    assert!(should_forward(&env(EventKind::StateChange), &filter));
    assert!(should_forward(&env(EventKind::LogLine), &filter));
}

#[test]
fn should_forward_drops_unmatched_kinds() {
    let filter = vec![EventKind::LogLine];
    assert!(!should_forward(&env(EventKind::StateChange), &filter));
    assert!(should_forward(&env(EventKind::LogLine), &filter));
}

#[test]
fn parse_kinds_trims_and_deduplicates() {
    let set = parse_kinds(Some(" property , property,state_change "));
    assert_eq!(set, vec![EventKind::Property, EventKind::StateChange]);
    assert_eq!(kind_wire_name(EventKind::Property), "property");
    assert_eq!(kind_wire_name(EventKind::StateChange), "state_change");
    assert_eq!(kind_wire_name(EventKind::LogLine), "log_line");
}

#[test]
fn unknown_kinds_lists_ignored_tokens() {
    assert!(unknown_kinds(None).is_empty());
    assert!(unknown_kinds(Some(" , state_change ,log_line")).is_empty());
    assert_eq!(unknown_kinds(Some("bogus, property ,  weird ,")), vec!["bogus".to_string(), "weird".to_string()]);
}
