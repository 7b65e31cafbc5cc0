use gtk4_e2e_server::elements::ElementsError;
use gtk4_e2e_server::http::{
    capability_from_path, check_selector, decode_query_component, parse_elements_query,
    parse_screenshot_query, parse_unsigned, prevalidate_press, prevalidate_set_value,
    prevalidate_tap, prevalidate_wait,
};
use gtk4_e2e_server::input::{PinchError, PressError, SetValueError, SwipeError, TapError};
use gtk4_e2e_server::json::{json_eq, JsonNumber, JsonValue};
use gtk4_e2e_server::main_thread::WaitEvalError;
use gtk4_e2e_server::proto::{PressRequest, SetValueRequest, TapTarget, WaitCondition, WaitRequest, XY};
use gtk4_e2e_server::reply::{
    bad_request, elements_error_response, not_implemented, pinch_error_response,
    press_error_response, screenshot_error_response, server_error, set_value_error_response,
    swipe_error_response, tap_error_response, wait_error_response, ErrorReply,
};
use gtk4_e2e_server::snapshot::ScreenshotError;
use gtk4_e2e_server::wait::WaitError;

fn s(x: &str) -> JsonValue {
    JsonValue::String(x.to_string())
}

fn n(x: i64) -> JsonValue {
    if x >= 0 {
        JsonValue::Number(JsonNumber::PosInt(x as u64))
    } else {
        JsonValue::Number(JsonNumber::NegInt(x))
    }
}

fn obj(entries: Vec<(&str, JsonValue)>) -> JsonValue {
    JsonValue::Object(entries.into_iter().map(|(k, v)| (k.to_string(), v)).collect())
}

fn is_reply(r: &ErrorReply, status: u16, body: JsonValue) -> bool {
    r.status == status && json_eq(&r.body, &body)
}

#[test]
fn capability_is_the_first_segment_after_test() {
    assert_eq!(capability_from_path("/test/blooper"), "blooper");
    assert_eq!(capability_from_path("/test/foo/bar"), "foo");
    assert_eq!(capability_from_path("/test/foo///"), "foo");
    assert_eq!(capability_from_path("/other/x"), "");
    assert_eq!(capability_from_path("plain"), "plain");
    let r = not_implemented("/test/blooper");
    assert!(is_reply(&r, 501, obj(vec![("capability", s("blooper")), ("error", s("not_implemented"))])));
}

#[test]
fn query_components_decode() {
    assert_eq!(decode_query_component("a+b%20c").as_deref(), Some("a b c"));
    assert_eq!(decode_query_component("%23btn1").as_deref(), Some("#btn1"));
    assert_eq!(decode_query_component("%C3%A9").as_deref(), Some("é"));
    assert_eq!(decode_query_component("%2"), None);
    assert_eq!(decode_query_component("%zz"), None);
    assert_eq!(decode_query_component("%FF"), None);
    assert_eq!(decode_query_component("").as_deref(), Some(""));
}

#[test]
fn unsigned_numbers_parse_like_std() {
    let c = |x: &str| x.chars().collect::<Vec<char>>();
    assert_eq!(parse_unsigned(&c("42"), u32::MAX as u64), Some(42));
    assert_eq!(parse_unsigned(&c("+7"), u32::MAX as u64), Some(7));
    assert_eq!(parse_unsigned(&c("007"), u32::MAX as u64), Some(7));
    assert_eq!(parse_unsigned(&c("4294967295"), u32::MAX as u64), Some(4294967295));
    assert_eq!(parse_unsigned(&c("4294967296"), u32::MAX as u64), None);
    assert_eq!(parse_unsigned(&c(""), u32::MAX as u64), None);
    assert_eq!(parse_unsigned(&c("+"), u32::MAX as u64), None);
    assert_eq!(parse_unsigned(&c("-1"), u32::MAX as u64), None);
    assert_eq!(parse_unsigned(&c("1x"), u32::MAX as u64), None);
    for v in ["0", "1", "65535", "123456789"] {
        assert_eq!(parse_unsigned(&c(v), u32::MAX as u64), v.parse::<u32>().ok().map(|x| x as u64));
    }
}

#[test]
fn elements_query_gathers_pairs() {
    let q = parse_elements_query("selector=%23input1&max_depth=2&props=text,+placeholder-text+,,&props=label&other=1&").ok().unwrap();
    assert_eq!(q.selector.as_deref(), Some("#input1"));
    assert_eq!(q.max_depth, Some(2));
    assert_eq!(q.props, vec!["text", "placeholder-text", "label"]);
    let q = parse_elements_query("").ok().unwrap();
    assert_eq!((q.selector, q.max_depth, q.props.len()), (None, None, 0));
    let q = parse_elements_query("selector=.a&selector=.b&selector").ok().unwrap();
    assert_eq!(q.selector.as_deref(), Some(""));
}

#[test]
fn elements_query_refusals() {
    let e = parse_elements_query("max_depth=x").err().unwrap();
    assert!(is_reply(&e, 422, obj(vec![("error", s("invalid_max_depth")), ("reason", s("non_integer"))])));
    let e = parse_elements_query("selector=%zz&max_depth=x").err().unwrap();
    assert!(is_reply(
        &e,
        422,
        obj(vec![("error", s("invalid_query")), ("key", s("selector")), ("reason", s("malformed_percent_encoding"))])
    ));
}

#[test]
fn screenshot_query_gathers_pairs() {
    let q = parse_screenshot_query("window=1&selector=.card").ok().unwrap();
    assert_eq!(q.window, Some(1));
    assert_eq!(q.selector.as_deref(), Some(".card"));
    let e = parse_screenshot_query("window=-1").err().unwrap();
    assert!(is_reply(&e, 422, obj(vec![("error", s("invalid_window")), ("reason", s("non_integer"))])));
}

#[test]
fn tap_invalid_selector_422() {
    let r = prevalidate_tap(&TapTarget::Selector { selector: "@bad".into() }).unwrap_err();
    assert!(is_reply(
        &r,
        422,
        obj(vec![("error", s("invalid_selector")), ("reason", s("selector must start with `#`"))])
    ));
    assert!(prevalidate_tap(&TapTarget::Xy { xy: XY { x: 1, y: 2 } }).is_ok());
    assert!(check_selector("#ok").is_ok());
}

#[test]
fn malformed_body_reply() {
    let r = bad_request("malformed_body");
    assert!(is_reply(&r, 400, obj(vec![("error", s("bad_request")), ("reason", s("malformed_body"))])));
    let r = server_error("main_thread channel closed");
    assert!(is_reply(&r, 500, obj(vec![("error", s("internal")), ("message", s("main_thread channel closed"))])));
}

#[test]
fn press_prevalidation_order() {
    let both = PressRequest { selector: Some("#a".into()), xy: Some(XY { x: 1, y: 1 }), hold_ms: 0 };
    let r = prevalidate_press(&both).unwrap_err();
    assert!(is_reply(&r, 422, obj(vec![("error", s("invalid_target")), ("reason", s("exactly one of selector / xy required"))])));
    let zero = PressRequest { selector: Some("@bad".into()), xy: None, hold_ms: 0 };
    let r = prevalidate_press(&zero).unwrap_err();
    assert!(is_reply(&r, 422, obj(vec![("error", s("invalid_hold")), ("reason", s("zero"))])));
    let long = PressRequest { selector: None, xy: Some(XY { x: 1, y: 1 }), hold_ms: 10_001 };
    let r = prevalidate_press(&long).unwrap_err();
    assert!(is_reply(&r, 422, obj(vec![("error", s("invalid_hold")), ("hold_ms", n(10_001)), ("reason", s("too_long"))])));
    let bad = PressRequest { selector: Some("@bad".into()), xy: None, hold_ms: 5 };
    assert_eq!(prevalidate_press(&bad).unwrap_err().status, 422);
    let ok = PressRequest { selector: Some("#a".into()), xy: None, hold_ms: 10_000 };
    assert!(prevalidate_press(&ok).is_ok());
}

#[test]
fn set_value_prevalidation_order() {
    let no_value = SetValueRequest { selector: Some("#s".into()), xy: None, value_bits: None };
    let r = prevalidate_set_value(&no_value).unwrap_err();
    assert!(is_reply(&r, 422, obj(vec![("error", s("invalid_target")), ("reason", s("value is required when targeting by selector"))])));
    let nan = SetValueRequest { selector: None, xy: Some(XY { x: 0, y: 0 }), value_bits: Some(f64::NAN.to_bits()) };
    let r = prevalidate_set_value(&nan).unwrap_err();
    assert!(is_reply(&r, 422, obj(vec![("error", s("invalid_value")), ("reason", s("not_finite"))])));
    let ok = SetValueRequest { selector: None, xy: Some(XY { x: 0, y: 0 }), value_bits: None };
    assert!(prevalidate_set_value(&ok).is_ok());
}

#[test]
fn wait_invalid_timeout_zero_422() {
    let req = WaitRequest { condition: WaitCondition::SelectorVisible { selector: "#btn1".into() }, timeout_ms: 0 };
    let r = prevalidate_wait(&req).unwrap_err();
    assert!(is_reply(&r, 422, obj(vec![("error", s("invalid_timeout")), ("reason", s("zero"))])));
}

#[test]
fn wait_invalid_timeout_excessive_422() {
    let req = WaitRequest { condition: WaitCondition::SelectorVisible { selector: "#btn1".into() }, timeout_ms: 600_001 };
    let r = prevalidate_wait(&req).unwrap_err();
    assert!(is_reply(&r, 422, obj(vec![("error", s("invalid_timeout")), ("reason", s("excessive"))])));
}

#[test]
fn wait_invalid_selector_and_path_422() {
    let req = WaitRequest { condition: WaitCondition::SelectorVisible { selector: "@bad".into() }, timeout_ms: 100 };
    assert_eq!(prevalidate_wait(&req).unwrap_err().status, 422);
    let req = WaitRequest { condition: WaitCondition::AppStateEq { path: "foo".into(), value: JsonValue::Null }, timeout_ms: 100 };
    let r = prevalidate_wait(&req).unwrap_err();
    assert!(is_reply(&r, 422, obj(vec![("error", s("invalid_path")), ("reason", s("missing_leading_slash"))])));
    let req = WaitRequest { condition: WaitCondition::AppStateEq { path: "".into(), value: JsonValue::Null }, timeout_ms: 100 };
    assert!(prevalidate_wait(&req).is_ok());
}

#[test]
fn wait_error_replies() {
    let r = wait_error_response(&WaitError::Timeout, 250);
    assert!(is_reply(&r, 408, obj(vec![("error", s("wait_timeout")), ("timeout_ms", n(250))])));
    let r = wait_error_response(&WaitError::Eval(WaitEvalError::UnsupportedPropertyType("ColorRGBA".into())), 1);
    assert!(is_reply(&r, 422, obj(vec![("error", s("unsupported_property_type")), ("widget_type", s("ColorRGBA"))])));
    let r = wait_error_response(&WaitError::Internal("boom".into()), 1);
    assert!(is_reply(&r, 500, obj(vec![("error", s("internal")), ("message", s("boom"))])));
}

#[test]
fn tap_error_replies() {
    let r = tap_error_response(&TapError::SelectorNotFound { selector: "#x".into() });
    assert!(is_reply(&r, 404, obj(vec![("error", s("selector_not_found")), ("selector", s("#x"))])));
    let r = tap_error_response(&TapError::OutOfBounds { x: -1, y: 5 });
    assert!(is_reply(&r, 422, obj(vec![("error", s("out_of_bounds")), ("x", n(-1)), ("y", n(5))])));
    let r = tap_error_response(&TapError::WidgetNotVisible { selector: None });
    assert!(is_reply(&r, 422, obj(vec![("error", s("widget_not_visible")), ("selector", JsonValue::Null)])));
    let r = tap_error_response(&TapError::NoActiveWindow);
    assert!(is_reply(&r, 422, obj(vec![("error", s("no_active_window"))])));
}

#[test]
fn gesture_error_replies() {
    let r = swipe_error_response(&SwipeError::DurationTooLong { duration_ms: 10_001 });
    assert!(is_reply(&r, 422, obj(vec![("duration_ms", n(10_001)), ("error", s("invalid_duration")), ("reason", s("too_long"))])));
    let r = swipe_error_response(&SwipeError::NoScrollableAtPoint { x: 3, y: 4 });
    assert!(is_reply(&r, 404, obj(vec![("error", s("no_scrollable_at_point")), ("x", n(3)), ("y", n(4))])));
    let r = pinch_error_response(&PinchError::InvalidScale { reason: "nan" });
    assert!(is_reply(&r, 422, obj(vec![("error", s("invalid_scale")), ("reason", s("nan"))])));
    let r = press_error_response(&PressError::NoLongPressableForSelector { selector: "#a".into() });
    assert!(is_reply(&r, 404, obj(vec![("error", s("no_long_pressable_for_selector")), ("selector", s("#a"))])));
    let r = set_value_error_response(&SetValueError::WidgetDisabled { selector: None });
    assert!(is_reply(&r, 422, obj(vec![("error", s("widget_disabled"))])));
    let r = set_value_error_response(&SetValueError::WidgetDisabled { selector: Some("#s".into()) });
    assert!(is_reply(&r, 422, obj(vec![("error", s("widget_disabled")), ("selector", s("#s"))])));
}

#[test]
fn screenshot_and_elements_error_replies() {
    let r = screenshot_error_response(&ScreenshotError::WindowOutOfRange { index: 3, count: 1 });
    assert!(is_reply(&r, 422, obj(vec![("count", n(1)), ("error", s("window_out_of_range")), ("index", n(3))])));
    let r = screenshot_error_response(&ScreenshotError::RenderRealize("no gl".into()));
    assert!(is_reply(&r, 500, obj(vec![("error", s("internal")), ("message", s("render_failed: no gl"))])));
    let r = elements_error_response(&ElementsError::NoActiveWindow);
    assert!(is_reply(&r, 422, obj(vec![("error", s("no_active_window"))])));
}

#[test]
fn percent_encoded_component_decodes_back() {
    // "é あ" as UTF-8 bytes, each written %XY.
    let enc = "%C3%A9%20%E3%81%82";
    assert_eq!(decode_query_component(enc), Some("é あ".to_string()));
    assert_eq!(decode_query_component("%c3%a9"), Some("é".to_string()));
}

#[test]
fn plain_component_decodes_to_itself() {
    for t in ["", "abc", "#btn-1", "visible,label", "ünï/cödé"] {
        assert_eq!(decode_query_component(t), Some(t.to_string()));
    }
}
