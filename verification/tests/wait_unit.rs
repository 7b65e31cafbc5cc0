use gtk4_e2e_server::json::{JsonValue};
use gtk4_e2e_server::main_thread::{WaitEvalError, WaitTickOutcome, WaitTickResult};
use gtk4_e2e_server::proto::{WaitCondition, WaitResult};
use gtk4_e2e_server::state::AppDefinedState;
use gtk4_e2e_server::tree::{PropReadError, WidgetClass, WidgetNode, WidgetTree};
use gtk4_e2e_server::wait::{
    check_timeout, eval_app_state_eq, eval_condition, poll_step, PollStep, WaitError,
    MAX_TIMEOUT_MS, POLL_INTERVAL_MS,
};

fn named(name: &str) -> WidgetNode {
    WidgetNode {
        handle: 0,
        kind: "GtkWidget".to_string(),
        name: Some(name.to_string()),
        classes: vec![],
        visible: true,
        mapped: true,
        sensitive: true,
        text: None,
        readable: vec![],
        // Every mock widget has a property whose type has no JSON mapping.
        properties: vec![(
            "unsupported_type".to_string(),
            Err(PropReadError::Unsupported("ColorRGBA".to_string())),
        )],
        class: WidgetClass::Other,
        zoom_gesture: false,
        long_press_gesture: false,
        width: 0,
        height: 0,
        hit_box: None,
        children: vec![],
    }
}

fn with_prop(mut n: WidgetNode, k: &str, v: JsonValue) -> WidgetNode {
    n.properties.push((k.to_string(), Ok(v)));
    n
}

fn s(x: &str) -> JsonValue {
    JsonValue::String(x.to_string())
}

fn obj(entries: Vec<(&str, JsonValue)>) -> JsonValue {
    JsonValue::Object(entries.into_iter().map(|(k, v)| (k.to_string(), v)).collect())
}

#[test]
fn mock_visible_widget_matches() {
    let tree = WidgetTree { roots: vec![named("btn1")] };
    let cond = WaitCondition::SelectorVisible { selector: "#btn1".into() };
    assert_eq!(eval_condition(&tree, &cond), WaitTickResult::Outcome(WaitTickOutcome::Matched));
}

#[test]
fn mock_invisible_widget_not_yet() {
    let mut n = named("btn1");
    n.visible = false;
    let tree = WidgetTree { roots: vec![n] };
    let cond = WaitCondition::SelectorVisible { selector: "#btn1".into() };
    assert_eq!(eval_condition(&tree, &cond), WaitTickResult::Outcome(WaitTickOutcome::NotYet));
}

#[test]
fn matches_after_widget_appears() {
    let cond = WaitCondition::SelectorVisible { selector: "#btn1".into() };
    let empty = WidgetTree { roots: vec![] };
    let r1 = eval_condition(&empty, &cond);
    assert_eq!(r1, WaitTickResult::SelectorNotFound);

    let later = WidgetTree { roots: vec![named("btn1")] };
    let r2 = eval_condition(&later, &cond);
    assert_eq!(r2, WaitTickResult::Outcome(WaitTickOutcome::Matched));
}

#[test]
fn label_property_matches() {
    let tree = WidgetTree { roots: vec![with_prop(named("label1"), "label", s("hello"))] };
    let cond = WaitCondition::StateEq {
        selector: "#label1".into(),
        property: "label".into(),
        value: s("hello"),
    };
    assert_eq!(eval_condition(&tree, &cond), WaitTickResult::Outcome(WaitTickOutcome::Matched));
}

#[test]
fn label_property_not_yet_when_value_differs() {
    let tree = WidgetTree { roots: vec![with_prop(named("label1"), "label", s("waiting"))] };
    let cond = WaitCondition::StateEq {
        selector: "#label1".into(),
        property: "label".into(),
        value: s("hello"),
    };
    assert_eq!(eval_condition(&tree, &cond), WaitTickResult::Outcome(WaitTickOutcome::NotYet));
}

#[test]
fn unsupported_property_type_errors() {
    let tree = WidgetTree { roots: vec![named("label1")] };
    let cond = WaitCondition::StateEq {
        selector: "#label1".into(),
        property: "unsupported_type".into(),
        value: JsonValue::Null,
    };
    match eval_condition(&tree, &cond) {
        WaitTickResult::PermanentFailure(WaitEvalError::UnsupportedPropertyType(_)) => {}
        other => panic!("expected UnsupportedPropertyType, got {other:?}"),
    }
}

#[test]
fn invalid_selector_is_permanent_failure() {
    let tree = WidgetTree { roots: vec![] };
    let cond = WaitCondition::SelectorVisible { selector: "@bad".into() };
    match eval_condition(&tree, &cond) {
        WaitTickResult::PermanentFailure(WaitEvalError::InvalidSelector(_)) => {}
        other => panic!("expected InvalidSelector, got {other:?}"),
    }
}

#[test]
fn app_state_eq_root_pointer_matches() {
    let mut state = AppDefinedState::default();
    state.set(obj(vec![("hello", s("world"))]));
    let r = eval_app_state_eq(&state, "", &obj(vec![("hello", s("world"))]));
    assert_eq!(r, WaitTickResult::Outcome(WaitTickOutcome::Matched));
}

#[test]
fn app_state_eq_matches_when_path_resolves() {
    let mut state = AppDefinedState::default();
    state.set(obj(vec![("session", obj(vec![("mode", s("applied"))]))]));
    let r = eval_app_state_eq(&state, "/session/mode", &s("applied"));
    assert_eq!(r, WaitTickResult::Outcome(WaitTickOutcome::Matched));
}

#[test]
fn app_state_eq_not_yet_when_value_differs() {
    let mut state = AppDefinedState::default();
    state.set(obj(vec![("session", obj(vec![("mode", s("applied"))]))]));
    let r = eval_app_state_eq(&state, "/session/mode", &s("pending"));
    assert_eq!(r, WaitTickResult::Outcome(WaitTickOutcome::NotYet));
}

#[test]
fn app_state_eq_not_yet_when_path_missing() {
    let mut state = AppDefinedState::default();
    state.set(obj(vec![("session", obj(vec![("mode", s("applied"))]))]));
    let r = eval_app_state_eq(&state, "/no/such/key", &s("anything"));
    assert_eq!(r, WaitTickResult::Outcome(WaitTickOutcome::NotYet));
}

#[test]
fn timeouts_are_bounded() {
    assert_eq!(check_timeout(0), Err(WaitError::InvalidTimeout("zero")));
    assert_eq!(check_timeout(600_001), Err(WaitError::InvalidTimeout("excessive")));
    assert_eq!(check_timeout(1), Ok(()));
    assert_eq!(check_timeout(MAX_TIMEOUT_MS), Ok(()));
}

#[test]
fn poll_steps_follow_the_deadline() {
    let not_yet = WaitTickResult::Outcome(WaitTickOutcome::NotYet);
    assert_eq!(poll_step(not_yet.clone(), 0, 1000), PollStep::Sleep(POLL_INTERVAL_MS));
    assert_eq!(poll_step(not_yet.clone(), 950, 1000), PollStep::Sleep(50));
    assert_eq!(poll_step(not_yet.clone(), 1000, 1000), PollStep::Fail(WaitError::Timeout));
    assert_eq!(poll_step(WaitTickResult::SelectorNotFound, 10, 1000), PollStep::Sleep(100));
    assert_eq!(
        poll_step(WaitTickResult::Outcome(WaitTickOutcome::Matched), 420, 1000),
        PollStep::Finish(WaitResult { elapsed_ms: 420 })
    );
    let failure = WaitTickResult::PermanentFailure(WaitEvalError::Internal("x".into()));
    assert_eq!(
        poll_step(failure, 0, 1000),
        PollStep::Fail(WaitError::Eval(WaitEvalError::Internal("x".into())))
    );
}

#[test]
fn app_state_eq_is_not_evaluated_against_widgets() {
    let tree = WidgetTree { roots: vec![] };
    let cond = WaitCondition::AppStateEq { path: "".into(), value: JsonValue::Null };
    assert!(matches!(
        eval_condition(&tree, &cond),
        WaitTickResult::PermanentFailure(WaitEvalError::Internal(_))
    ));
}

#[test]
fn state_reads_back_what_was_set() {
    let mut state = AppDefinedState::default();
    assert!(matches!(state.snapshot(), JsonValue::Null));
    state.set(obj(vec![("a", JsonValue::Bool(true))]));
    let snap = state.snapshot();
    assert!(gtk4_e2e_server::json::json_eq(&snap, &obj(vec![("a", JsonValue::Bool(true))])));
    let whole = state.pointer("").expect("empty pointer designates the whole state");
    assert!(gtk4_e2e_server::json::json_eq(&whole, &snap));
    assert!(state.pointer("a").is_none());
}
