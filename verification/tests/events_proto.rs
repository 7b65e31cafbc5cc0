use gtk4_e2e_server::json::JsonValue;
use gtk4_e2e_server::proto::{Capability, EventEnvelope, EventKind};
use gtk4_e2e_server::ws::{parse_kinds, should_forward};

#[test]
fn parse_kinds_csv_yields_set() {
    let set = parse_kinds(Some("state_change"));
    assert!(set.contains(&EventKind::StateChange));
    assert!(!set.contains(&EventKind::LogLine));
}

#[test]
fn parse_kinds_unknown_token_is_ignored() {
    let set = parse_kinds(Some("state_change,future_kind"));
    assert_eq!(set.len(), 1);
    assert!(set.contains(&EventKind::StateChange));
}

#[test]
fn events_proto_should_forward_empty_filter_passes_all() {
    let filter = Vec::new();
    let env = EventEnvelope { kind: EventKind::StateChange, ts: "x".into(), data: JsonValue::Object(vec![]) };
    assert!(should_forward(&env, &filter));
}

#[test]
fn should_forward_filter_drops_unmatched() {
    let filter = vec![EventKind::LogLine];
    let env = EventEnvelope { kind: EventKind::StateChange, ts: "x".into(), data: JsonValue::Object(vec![]) };
    assert!(!should_forward(&env, &filter));
}

#[test]
fn capability_includes_events() {
    let caps = [
        Capability::Info,
        Capability::Tap,
        Capability::Wait,
        Capability::Screenshot,
        Capability::Events,
        Capability::Type,
    ];
    assert!(caps.contains(&Capability::Events), "Capability::Events must be advertised");
    assert_eq!(caps.last(), Some(&Capability::Type), "Type must be the trailing variant after Step 9");
}
