//! Error replies of the HTTP surface: a status code and a JSON body
//! `{"error": <code>, ...details}` for each error of each pipeline.

use vstd::prelude::*;

use crate::elements::ElementsError;
use crate::input::{
    string_opt, FocusError, KeyError, PinchError, PressError, SetValueError, SwipeError, TapError,
    TypeError,
};
use crate::json::{JsonNumber, JsonValue, JsonView};
use crate::main_thread::WaitEvalError;
use crate::snapshot::ScreenshotError;
use crate::wait::WaitError;

verus! {

/// An error answer: HTTP status code and JSON body.
#[derive(Debug)]
pub struct ErrorReply {
    pub status: u16,
    pub body: JsonValue,
}

pub const BAD_REQUEST: u16 = 400;
pub const NOT_FOUND: u16 = 404;
pub const REQUEST_TIMEOUT: u16 = 408;
pub const UNPROCESSABLE_ENTITY: u16 = 422;
pub const INTERNAL_SERVER_ERROR: u16 = 500;
pub const NOT_IMPLEMENTED: u16 = 501;

// ---------------------------------------------------------------------------
// JSON building blocks
// ---------------------------------------------------------------------------

/// A JSON integer.
pub open spec fn jnum(v: int) -> JsonView {
    if v >= 0 {
        JsonView::Number(JsonNumber::PosInt(v as u64))
    } else {
        JsonView::Number(JsonNumber::NegInt(v as i64))
    }
}

/// A JSON string, or `null`.
pub open spec fn jopt(s: Option<Seq<char>>) -> JsonView {
    match s {
        Some(x) => JsonView::Str(x),
        None => JsonView::Null,
    }
}

pub open spec fn obj1(k: Seq<char>, v: JsonView) -> JsonView {
    JsonView::Object(seq![(k, v)])
}

pub open spec fn obj2(k1: Seq<char>, v1: JsonView, k2: Seq<char>, v2: JsonView) -> JsonView {
    JsonView::Object(seq![(k1, v1), (k2, v2)])
}

pub open spec fn obj3(
    k1: Seq<char>,
    v1: JsonView,
    k2: Seq<char>,
    v2: JsonView,
    k3: Seq<char>,
    v3: JsonView,
) -> JsonView {
    JsonView::Object(seq![(k1, v1), (k2, v2), (k3, v3)])
}

/// `{"error": code}`.
pub open spec fn err(code: Seq<char>) -> JsonView {
    obj1("error"@, JsonView::Str(code))
}

/// `{"error": code, k: v}` (every detail key sorts after `error`).
pub open spec fn err_with(code: Seq<char>, k: Seq<char>, v: JsonView) -> JsonView {
    obj2("error"@, JsonView::Str(code), k, v)
}

/// `{"error": code, "x": x, "y": y}`.
pub open spec fn err_xy(code: Seq<char>, x: i32, y: i32) -> JsonView {
    obj3("error"@, JsonView::Str(code), "x"@, jnum(x as int), "y"@, jnum(y as int))
}

/// `{"error": code, "reason": reason}`.
pub open spec fn err_reason(code: Seq<char>, reason: Seq<char>) -> JsonView {
    err_with(code, "reason"@, JsonView::Str(reason))
}

/// `{"error": code, "selector": selector}`.
pub open spec fn err_selector(code: Seq<char>, selector: Seq<char>) -> JsonView {
    err_with(code, "selector"@, JsonView::Str(selector))
}

pub(crate) fn text(s: &str) -> (r: JsonValue)
    ensures
        r@ == JsonView::Str(s@),
{
    JsonValue::String(s.to_owned())
}

fn signed(v: i64) -> (r: JsonValue)
    ensures
        r@ == jnum(v as int),
{
    if v >= 0 {
        JsonValue::Number(JsonNumber::PosInt(v as u64))
    } else {
        JsonValue::Number(JsonNumber::NegInt(v))
    }
}

fn uint(v: u64) -> (r: JsonValue)
    ensures
        r@ == jnum(v as int),
{
    JsonValue::Number(JsonNumber::PosInt(v))
}

fn opt_text(s: &Option<String>) -> (r: JsonValue)
    ensures
        r@ == jopt(string_opt(*s)),
{
    match s {
        Some(x) => JsonValue::String(x.clone()),
        None => JsonValue::Null,
    }
}

fn object1(k: &str, v: JsonValue) -> (r: JsonValue)
    ensures
        r@ == obj1(k@, v@),
{
    let ghost vv = v@;
    let e = vec![(k.to_owned(), v)];
    proof {
        assert(e@.drop_last() =~= Seq::<(String, JsonValue)>::empty());
        assert(JsonValue::view_entries(Seq::<(String, JsonValue)>::empty())
            =~= Seq::<(Seq<char>, JsonView)>::empty());
        assert(JsonValue::view_entries(e@) =~= seq![(k@, vv)]);
    }
    JsonValue::Object(e)
}

fn object2(k1: &str, v1: JsonValue, k2: &str, v2: JsonValue) -> (r: JsonValue)
    ensures
        r@ == obj2(k1@, v1@, k2@, v2@),
{
    let ghost a = v1@;
    let ghost b = v2@;
    let e = vec![(k1.to_owned(), v1), (k2.to_owned(), v2)];
    proof {
        let s0 = e@.drop_last();
        assert(s0.drop_last() =~= Seq::<(String, JsonValue)>::empty());
        assert(JsonValue::view_entries(Seq::<(String, JsonValue)>::empty())
            =~= Seq::<(Seq<char>, JsonView)>::empty());
        assert(JsonValue::view_entries(s0) =~= seq![(k1@, a)]);
        assert(JsonValue::view_entries(e@) =~= seq![(k1@, a), (k2@, b)]);
    }
    JsonValue::Object(e)
}

pub(crate) fn object3(k1: &str, v1: JsonValue, k2: &str, v2: JsonValue, k3: &str, v3: JsonValue) -> (r:
    JsonValue)
    ensures
        r@ == obj3(k1@, v1@, k2@, v2@, k3@, v3@),
{
    let ghost a = v1@;
    let ghost b = v2@;
    let ghost c = v3@;
    let e = vec![(k1.to_owned(), v1), (k2.to_owned(), v2), (k3.to_owned(), v3)];
    proof {
        let s1 = e@.drop_last();
        let s0 = s1.drop_last();
        assert(s0.drop_last() =~= Seq::<(String, JsonValue)>::empty());
        assert(JsonValue::view_entries(Seq::<(String, JsonValue)>::empty())
            =~= Seq::<(Seq<char>, JsonView)>::empty());
        assert(JsonValue::view_entries(s0) =~= seq![(k1@, a)]);
        assert(JsonValue::view_entries(s1) =~= seq![(k1@, a), (k2@, b)]);
        assert(JsonValue::view_entries(e@) =~= seq![(k1@, a), (k2@, b), (k3@, c)]);
    }
    JsonValue::Object(e)
}

fn reply(status: u16, body: JsonValue) -> (r: ErrorReply)
    ensures
        r.status == status,
        r.body@ == body@,
{
    ErrorReply { status, body }
}

fn err_exec(code: &str) -> (r: JsonValue)
    ensures
        r@ == err(code@),
{
    object1("error", text(code))
}

fn err_with_exec(code: &str, k: &str, v: JsonValue) -> (r: JsonValue)
    ensures
        r@ == err_with(code@, k@, v@),
{
    object2("error", text(code), k, v)
}

fn err_xy_exec(code: &str, x: i32, y: i32) -> (r: JsonValue)
    ensures
        r@ == err_xy(code@, x, y),
{
    object3("error", text(code), "x", signed(x as i64), "y", signed(y as i64))
}

// ---------------------------------------------------------------------------
// Generic replies
// ---------------------------------------------------------------------------

/// `400 {"error": "bad_request", "reason": reason}`.
pub fn bad_request(reason: &str) -> (r: ErrorReply)
    ensures
        r.status == BAD_REQUEST,
        r.body@ == err_reason("bad_request"@, reason@),
{
    reply(BAD_REQUEST, err_with_exec("bad_request", "reason", text(reason)))
}

/// `500 {"error": "internal", "message": msg}`.
pub fn server_error(msg: &str) -> (r: ErrorReply)
    ensures
        r.status == INTERNAL_SERVER_ERROR,
        r.body@ == err_with("internal"@, "message"@, JsonView::Str(msg@)),
{
    reply(INTERNAL_SERVER_ERROR, err_with_exec("internal", "message", text(msg)))
}

/// `501 {"capability": <capability>, "error": "not_implemented"}` for a
/// request to an unknown route.
pub fn not_implemented(path: &str) -> (r: ErrorReply)
    ensures
        r.status == NOT_IMPLEMENTED,
        r.body@ == obj2(
            "capability"@,
            JsonView::Str(crate::http::capability_of_path(path@)),
            "error"@,
            JsonView::Str("not_implemented"@),
        ),
{
    let cap = crate::http::capability_from_path(path);
    reply(
        NOT_IMPLEMENTED,
        object2("capability", JsonValue::String(cap), "error", text("not_implemented")),
    )
}

/// `422 {"error": code, "reason": reason}`.
pub fn validation_reason(code: &str, reason: &str) -> (r: ErrorReply)
    ensures
        r.status == UNPROCESSABLE_ENTITY,
        r.body@ == err_reason(code@, reason@),
{
    reply(UNPROCESSABLE_ENTITY, err_with_exec(code, "reason", text(reason)))
}

// ---------------------------------------------------------------------------
// Replies per pipeline
// ---------------------------------------------------------------------------

pub open spec fn tap_error_reply(e: TapError) -> (u16, JsonView) {
    match e {
        TapError::SelectorNotFound { selector } => (
            NOT_FOUND,
            err_selector("selector_not_found"@, selector@),
        ),
        TapError::NoWidgetAtPoint { x, y } => (NOT_FOUND, err_xy("no_widget_at_point"@, x, y)),
        TapError::UnsupportedWidget { widget_type } => (
            UNPROCESSABLE_ENTITY,
            err_with("tap_unsupported_widget"@, "widget_type"@, JsonView::Str(widget_type@)),
        ),
        TapError::WidgetNotVisible { selector } => (
            UNPROCESSABLE_ENTITY,
            err_with("widget_not_visible"@, "selector"@, jopt(string_opt(selector))),
        ),
        TapError::WidgetDisabled { selector } => (
            UNPROCESSABLE_ENTITY,
            err_with("widget_disabled"@, "selector"@, jopt(string_opt(selector))),
        ),
        TapError::OutOfBounds { x, y } => (UNPROCESSABLE_ENTITY, err_xy("out_of_bounds"@, x, y)),
        TapError::NoActiveWindow => (UNPROCESSABLE_ENTITY, err("no_active_window"@)),
    }
}

/// The reply to a failed tap.
pub fn tap_error_response(e: &TapError) -> (r: ErrorReply)
    ensures
        (r.status, r.body@) == tap_error_reply(*e),
{
    match e {
        TapError::SelectorNotFound { selector } => reply(
            NOT_FOUND,
            err_with_exec("selector_not_found", "selector", text(selector.as_str())),
        ),
        TapError::NoWidgetAtPoint { x, y } => reply(
            NOT_FOUND,
            err_xy_exec("no_widget_at_point", *x, *y),
        ),
        TapError::UnsupportedWidget { widget_type } => reply(
            UNPROCESSABLE_ENTITY,
            err_with_exec("tap_unsupported_widget", "widget_type", text(widget_type.as_str())),
        ),
        TapError::WidgetNotVisible { selector } => reply(
            UNPROCESSABLE_ENTITY,
            err_with_exec("widget_not_visible", "selector", opt_text(selector)),
        ),
        TapError::WidgetDisabled { selector } => reply(
            UNPROCESSABLE_ENTITY,
            err_with_exec("widget_disabled", "selector", opt_text(selector)),
        ),
        TapError::OutOfBounds { x, y } => reply(
            UNPROCESSABLE_ENTITY,
            err_xy_exec("out_of_bounds", *x, *y),
        ),
        TapError::NoActiveWindow => reply(UNPROCESSABLE_ENTITY, err_exec("no_active_window")),
    }
}

pub open spec fn type_error_reply(e: TypeError) -> (u16, JsonView) {
    match e {
        TypeError::SelectorNotFound { selector } => (
            NOT_FOUND,
            err_selector("selector_not_found"@, selector@),
        ),
        TypeError::UnsupportedWidget { widget_type } => (
            UNPROCESSABLE_ENTITY,
            err_with("type_unsupported_widget"@, "widget_type"@, JsonView::Str(widget_type@)),
        ),
        TypeError::WidgetNotVisible { selector } => (
            UNPROCESSABLE_ENTITY,
            err_with("widget_not_visible"@, "selector"@, jopt(string_opt(selector))),
        ),
        TypeError::WidgetDisabled { selector } => (
            UNPROCESSABLE_ENTITY,
            err_with("widget_disabled"@, "selector"@, jopt(string_opt(selector))),
        ),
        TypeError::NoActiveWindow => (UNPROCESSABLE_ENTITY, err("no_active_window"@)),
    }
}

/// The reply to a failed type request.
pub fn type_error_response(e: &TypeError) -> (r: ErrorReply)
    ensures
        (r.status, r.body@) == type_error_reply(*e),
{
    match e {
        TypeError::SelectorNotFound { selector } => reply(
            NOT_FOUND,
            err_with_exec("selector_not_found", "selector", text(selector.as_str())),
        ),
        TypeError::UnsupportedWidget { widget_type } => reply(
            UNPROCESSABLE_ENTITY,
            err_with_exec("type_unsupported_widget", "widget_type", text(widget_type.as_str())),
        ),
        TypeError::WidgetNotVisible { selector } => reply(
            UNPROCESSABLE_ENTITY,
            err_with_exec("widget_not_visible", "selector", opt_text(selector)),
        ),
        TypeError::WidgetDisabled { selector } => reply(
            UNPROCESSABLE_ENTITY,
            err_with_exec("widget_disabled", "selector", opt_text(selector)),
        ),
        TypeError::NoActiveWindow => reply(UNPROCESSABLE_ENTITY, err_exec("no_active_window")),
    }
}

pub open spec fn focus_error_reply(e: FocusError) -> (u16, JsonView) {
    match e {
        FocusError::SelectorNotFound { selector } => (
            NOT_FOUND,
            err_selector("selector_not_found"@, selector@),
        ),
        FocusError::FocusRejected { selector } => (
            UNPROCESSABLE_ENTITY,
            err_with("focus_rejected"@, "selector"@, jopt(string_opt(selector))),
        ),
        FocusError::WidgetNotVisible { selector } => (
            UNPROCESSABLE_ENTITY,
            err_with("widget_not_visible"@, "selector"@, jopt(string_opt(selector))),
        ),
        FocusError::WidgetDisabled { selector } => (
            UNPROCESSABLE_ENTITY,
            err_with("widget_disabled"@, "selector"@, jopt(string_opt(selector))),
        ),
        FocusError::NoActiveWindow => (UNPROCESSABLE_ENTITY, err("no_active_window"@)),
    }
}

/// The reply to a failed focus request.
pub fn focus_error_response(e: &FocusError) -> (r: ErrorReply)
    ensures
        (r.status, r.body@) == focus_error_reply(*e),
{
    match e {
        FocusError::SelectorNotFound { selector } => reply(
            NOT_FOUND,
            err_with_exec("selector_not_found", "selector", text(selector.as_str())),
        ),
        FocusError::FocusRejected { selector } => reply(
            UNPROCESSABLE_ENTITY,
            err_with_exec("focus_rejected", "selector", opt_text(selector)),
        ),
        FocusError::WidgetNotVisible { selector } => reply(
            UNPROCESSABLE_ENTITY,
            err_with_exec("widget_not_visible", "selector", opt_text(selector)),
        ),
        FocusError::WidgetDisabled { selector } => reply(
            UNPROCESSABLE_ENTITY,
            err_with_exec("widget_disabled", "selector", opt_text(selector)),
        ),
        FocusError::NoActiveWindow => reply(UNPROCESSABLE_ENTITY, err_exec("no_active_window")),
    }
}

pub open spec fn key_error_reply(e: KeyError) -> (u16, JsonView) {
    match e {
        KeyError::UnsupportedKey { key } => (
            UNPROCESSABLE_ENTITY,
            err_with("unsupported_key"@, "key"@, JsonView::Str(key@)),
        ),
        KeyError::NoActiveWindow => (UNPROCESSABLE_ENTITY, err("no_active_window"@)),
    }
}

/// The reply to a failed key request.
pub fn key_error_response(e: &KeyError) -> (r: ErrorReply)
    ensures
        (r.status, r.body@) == key_error_reply(*e),
{
    match e {
        KeyError::UnsupportedKey { key } => reply(
            UNPROCESSABLE_ENTITY,
            err_with_exec("unsupported_key", "key", text(key.as_str())),
        ),
        KeyError::NoActiveWindow => reply(UNPROCESSABLE_ENTITY, err_exec("no_active_window")),
    }
}

/// `{"duration_ms": d, "error": "invalid_duration", "reason": "too_long"}`.
pub open spec fn too_long_duration(d: u64) -> JsonView {
    obj3(
        "duration_ms"@,
        jnum(d as int),
        "error"@,
        JsonView::Str("invalid_duration"@),
        "reason"@,
        JsonView::Str("too_long"@),
    )
}

fn too_long_duration_exec(d: u64) -> (r: JsonValue)
    ensures
        r@ == too_long_duration(d),
{
    object3("duration_ms", uint(d), "error", text("invalid_duration"), "reason", text("too_long"))
}

pub open spec fn swipe_error_reply(e: SwipeError) -> (u16, JsonView) {
    match e {
        SwipeError::OutOfBounds { x, y } => (UNPROCESSABLE_ENTITY, err_xy("out_of_bounds"@, x, y)),
        SwipeError::NoActiveWindow => (UNPROCESSABLE_ENTITY, err("no_active_window"@)),
        SwipeError::NoScrollableAtPoint { x, y } => (
            NOT_FOUND,
            err_xy("no_scrollable_at_point"@, x, y),
        ),
        SwipeError::ZeroDuration => (UNPROCESSABLE_ENTITY, err_reason("invalid_duration"@, "zero"@)),
        SwipeError::DurationTooLong { duration_ms } => (
            UNPROCESSABLE_ENTITY,
            too_long_duration(duration_ms),
        ),
    }
}

/// The reply to a failed swipe.
pub fn swipe_error_response(e: &SwipeError) -> (r: ErrorReply)
    ensures
        (r.status, r.body@) == swipe_error_reply(*e),
{
    match e {
        SwipeError::OutOfBounds { x, y } => reply(
            UNPROCESSABLE_ENTITY,
            err_xy_exec("out_of_bounds", *x, *y),
        ),
        SwipeError::NoActiveWindow => reply(UNPROCESSABLE_ENTITY, err_exec("no_active_window")),
        SwipeError::NoScrollableAtPoint { x, y } => reply(
            NOT_FOUND,
            err_xy_exec("no_scrollable_at_point", *x, *y),
        ),
        SwipeError::ZeroDuration => validation_reason("invalid_duration", "zero"),
        SwipeError::DurationTooLong { duration_ms } => reply(
            UNPROCESSABLE_ENTITY,
            too_long_duration_exec(*duration_ms),
        ),
    }
}

pub open spec fn pinch_error_reply(e: PinchError) -> (u16, JsonView) {
    match e {
        PinchError::OutOfBounds { x, y } => (UNPROCESSABLE_ENTITY, err_xy("out_of_bounds"@, x, y)),
        PinchError::NoActiveWindow => (UNPROCESSABLE_ENTITY, err("no_active_window"@)),
        PinchError::NoPinchableAtPoint { x, y } => (
            NOT_FOUND,
            err_xy("no_pinchable_at_point"@, x, y),
        ),
        PinchError::ZeroDuration => (UNPROCESSABLE_ENTITY, err_reason("invalid_duration"@, "zero"@)),
        PinchError::DurationTooLong { duration_ms } => (
            UNPROCESSABLE_ENTITY,
            too_long_duration(duration_ms),
        ),
        PinchError::InvalidScale { reason } => (
            UNPROCESSABLE_ENTITY,
            err_reason("invalid_scale"@, reason@),
        ),
    }
}

/// The reply to a failed pinch.
pub fn pinch_error_response(e: &PinchError) -> (r: ErrorReply)
    ensures
        (r.status, r.body@) == pinch_error_reply(*e),
{
    match e {
        PinchError::OutOfBounds { x, y } => reply(
            UNPROCESSABLE_ENTITY,
            err_xy_exec("out_of_bounds", *x, *y),
        ),
        PinchError::NoActiveWindow => reply(UNPROCESSABLE_ENTITY, err_exec("no_active_window")),
        PinchError::NoPinchableAtPoint { x, y } => reply(
            NOT_FOUND,
            err_xy_exec("no_pinchable_at_point", *x, *y),
        ),
        PinchError::ZeroDuration => validation_reason("invalid_duration", "zero"),
        PinchError::DurationTooLong { duration_ms } => reply(
            UNPROCESSABLE_ENTITY,
            too_long_duration_exec(*duration_ms),
        ),
        PinchError::InvalidScale { reason } => validation_reason("invalid_scale", reason),
    }
}

/// `{"error": "invalid_hold", "hold_ms": h, "reason": "too_long"}`.
pub open spec fn too_long_hold(h: u64) -> JsonView {
    obj3(
        "error"@,
        JsonView::Str("invalid_hold"@),
        "hold_ms"@,
        jnum(h as int),
        "reason"@,
        JsonView::Str("too_long"@),
    )
}

fn too_long_hold_exec(h: u64) -> (r: JsonValue)
    ensures
        r@ == too_long_hold(h),
{
    object3("error", text("invalid_hold"), "hold_ms", uint(h), "reason", text("too_long"))
}

pub open spec fn press_error_reply(e: PressError) -> (u16, JsonView) {
    match e {
        PressError::ZeroHold => (UNPROCESSABLE_ENTITY, err_reason("invalid_hold"@, "zero"@)),
        PressError::HoldTooLong { hold_ms } => (UNPROCESSABLE_ENTITY, too_long_hold(hold_ms)),
        PressError::OutOfBounds { x, y } => (UNPROCESSABLE_ENTITY, err_xy("out_of_bounds"@, x, y)),
        PressError::NoActiveWindow => (UNPROCESSABLE_ENTITY, err("no_active_window"@)),
        PressError::NoLongPressableAtPoint { x, y } => (
            NOT_FOUND,
            err_xy("no_long_pressable_at_point"@, x, y),
        ),
        PressError::SelectorNotFound { selector } => (
            NOT_FOUND,
            err_selector("selector_not_found"@, selector@),
        ),
        PressError::NoLongPressableForSelector { selector } => (
            NOT_FOUND,
            err_selector("no_long_pressable_for_selector"@, selector@),
        ),
        PressError::InvalidTarget { reason } => (
            UNPROCESSABLE_ENTITY,
            err_reason("invalid_target"@, reason@),
        ),
    }
}

/// The reply to a failed long press.
pub fn press_error_response(e: &PressError) -> (r: ErrorReply)
    ensures
        (r.status, r.body@) == press_error_reply(*e),
{
    match e {
        PressError::ZeroHold => validation_reason("invalid_hold", "zero"),
        PressError::HoldTooLong { hold_ms } => reply(
            UNPROCESSABLE_ENTITY,
            too_long_hold_exec(*hold_ms),
        ),
        PressError::OutOfBounds { x, y } => reply(
            UNPROCESSABLE_ENTITY,
            err_xy_exec("out_of_bounds", *x, *y),
        ),
        PressError::NoActiveWindow => reply(UNPROCESSABLE_ENTITY, err_exec("no_active_window")),
        PressError::NoLongPressableAtPoint { x, y } => reply(
            NOT_FOUND,
            err_xy_exec("no_long_pressable_at_point", *x, *y),
        ),
        PressError::SelectorNotFound { selector } => reply(
            NOT_FOUND,
            err_with_exec("selector_not_found", "selector", text(selector.as_str())),
        ),
        PressError::NoLongPressableForSelector { selector } => reply(
            NOT_FOUND,
            err_with_exec("no_long_pressable_for_selector", "selector", text(selector.as_str())),
        ),
        PressError::InvalidTarget { reason } => validation_reason("invalid_target", reason),
    }
}

/// `{"error": code, "selector": s}`, or `{"error": code}` without one.
pub open spec fn err_maybe_selector(code: Seq<char>, s: Option<String>) -> JsonView {
    match s {
        Some(x) => err_selector(code, x@),
        None => err(code),
    }
}

fn err_maybe_selector_exec(code: &str, s: &Option<String>) -> (r: JsonValue)
    ensures
        r@ == err_maybe_selector(code@, *s),
{
    match s {
        Some(x) => err_with_exec(code, "selector", text(x.as_str())),
        None => err_exec(code),
    }
}

pub open spec fn set_value_error_reply(e: SetValueError) -> (u16, JsonView) {
    match e {
        SetValueError::InvalidTarget { reason } => (
            UNPROCESSABLE_ENTITY,
            err_reason("invalid_target"@, reason@),
        ),
        SetValueError::InvalidValue { reason } => (
            UNPROCESSABLE_ENTITY,
            err_reason("invalid_value"@, reason@),
        ),
        SetValueError::OutOfBounds { x, y } => (UNPROCESSABLE_ENTITY, err_xy("out_of_bounds"@, x, y)),
        SetValueError::WidgetNotVisible { selector } => (
            UNPROCESSABLE_ENTITY,
            err_maybe_selector("widget_not_visible"@, selector),
        ),
        SetValueError::WidgetDisabled { selector } => (
            UNPROCESSABLE_ENTITY,
            err_maybe_selector("widget_disabled"@, selector),
        ),
        SetValueError::NoActiveWindow => (UNPROCESSABLE_ENTITY, err("no_active_window"@)),
        SetValueError::SelectorNotFound { selector } => (
            NOT_FOUND,
            err_selector("selector_not_found"@, selector@),
        ),
        SetValueError::NoRangeAtPoint { x, y } => (NOT_FOUND, err_xy("no_range_at_point"@, x, y)),
        SetValueError::NoRangeForSelector { selector } => (
            NOT_FOUND,
            err_selector("no_range_for_selector"@, selector@),
        ),
    }
}

/// The reply to a failed set-value request.
pub fn set_value_error_response(e: &SetValueError) -> (r: ErrorReply)
    ensures
        (r.status, r.body@) == set_value_error_reply(*e),
{
    match e {
        SetValueError::InvalidTarget { reason } => validation_reason("invalid_target", reason),
        SetValueError::InvalidValue { reason } => validation_reason("invalid_value", reason),
        SetValueError::OutOfBounds { x, y } => reply(
            UNPROCESSABLE_ENTITY,
            err_xy_exec("out_of_bounds", *x, *y),
        ),
        SetValueError::WidgetNotVisible { selector } => reply(
            UNPROCESSABLE_ENTITY,
            err_maybe_selector_exec("widget_not_visible", selector),
        ),
        SetValueError::WidgetDisabled { selector } => reply(
            UNPROCESSABLE_ENTITY,
            err_maybe_selector_exec("widget_disabled", selector),
        ),
        SetValueError::NoActiveWindow => reply(UNPROCESSABLE_ENTITY, err_exec("no_active_window")),
        SetValueError::SelectorNotFound { selector } => reply(
            NOT_FOUND,
            err_with_exec("selector_not_found", "selector", text(selector.as_str())),
        ),
        SetValueError::NoRangeAtPoint { x, y } => reply(
            NOT_FOUND,
            err_xy_exec("no_range_at_point", *x, *y),
        ),
        SetValueError::NoRangeForSelector { selector } => reply(
            NOT_FOUND,
            err_with_exec("no_range_for_selector", "selector", text(selector.as_str())),
        ),
    }
}

pub open spec fn elements_error_reply(e: ElementsError) -> (u16, JsonView) {
    match e {
        ElementsError::InvalidSelector { reason } => (
            UNPROCESSABLE_ENTITY,
            err_reason("invalid_selector"@, reason@),
        ),
        ElementsError::NoActiveWindow => (UNPROCESSABLE_ENTITY, err("no_active_window"@)),
    }
}

/// The reply to a failed elements query.
pub fn elements_error_response(e: &ElementsError) -> (r: ErrorReply)
    ensures
        (r.status, r.body@) == elements_error_reply(*e),
{
    match e {
        ElementsError::InvalidSelector { reason } => validation_reason(
            "invalid_selector",
            reason.as_str(),
        ),
        ElementsError::NoActiveWindow => reply(UNPROCESSABLE_ENTITY, err_exec("no_active_window")),
    }
}

pub open spec fn render_failed(msg: Seq<char>) -> Seq<char> {
    "render_failed: "@ + msg
}

pub open spec fn screenshot_error_reply(e: ScreenshotError) -> (u16, JsonView) {
    match e {
        ScreenshotError::NoActiveWindow => (UNPROCESSABLE_ENTITY, err("no_active_window"@)),
        ScreenshotError::InvalidSelector { reason } => (
            UNPROCESSABLE_ENTITY,
            err_reason("invalid_selector"@, reason@),
        ),
        ScreenshotError::SelectorNotFound { selector } => (
            NOT_FOUND,
            err_selector("selector_not_found"@, selector@),
        ),
        ScreenshotError::WindowOutOfRange { index, count } => (
            UNPROCESSABLE_ENTITY,
            obj3(
                "count"@,
                jnum(count as int),
                "error"@,
                JsonView::Str("window_out_of_range"@),
                "index"@,
                jnum(index as int),
            ),
        ),
        ScreenshotError::UnrealizedTarget => (UNPROCESSABLE_ENTITY, err("unrealized_target"@)),
        ScreenshotError::EmptyNode => (UNPROCESSABLE_ENTITY, err("empty_node"@)),
        ScreenshotError::ZeroSize => (UNPROCESSABLE_ENTITY, err("zero_size"@)),
        ScreenshotError::RenderRealize(msg) => (
            INTERNAL_SERVER_ERROR,
            err_with("internal"@, "message"@, JsonView::Str(render_failed(msg@))),
        ),
    }
}

/// The reply to a failed screenshot.
pub fn screenshot_error_response(e: &ScreenshotError) -> (r: ErrorReply)
    ensures
        (r.status, r.body@) == screenshot_error_reply(*e),
{
    match e {
        ScreenshotError::NoActiveWindow => reply(UNPROCESSABLE_ENTITY, err_exec("no_active_window")),
        ScreenshotError::InvalidSelector { reason } => validation_reason(
            "invalid_selector",
            reason.as_str(),
        ),
        ScreenshotError::SelectorNotFound { selector } => reply(
            NOT_FOUND,
            err_with_exec("selector_not_found", "selector", text(selector.as_str())),
        ),
        ScreenshotError::WindowOutOfRange { index, count } => reply(
            UNPROCESSABLE_ENTITY,
            object3(
                "count",
                uint(*count as u64),
                "error",
                text("window_out_of_range"),
                "index",
                uint(*index as u64),
            ),
        ),
        ScreenshotError::UnrealizedTarget => reply(UNPROCESSABLE_ENTITY, err_exec("unrealized_target")),
        ScreenshotError::EmptyNode => reply(UNPROCESSABLE_ENTITY, err_exec("empty_node")),
        ScreenshotError::ZeroSize => reply(UNPROCESSABLE_ENTITY, err_exec("zero_size")),
        ScreenshotError::RenderRealize(msg) => {
            let mut m = String::from_str("render_failed: ");
            m.append(msg.as_str());
            server_error(m.as_str())
        },
    }
}

pub open spec fn wait_error_reply(e: WaitError, timeout_ms: u64) -> (u16, JsonView) {
    match e {
        WaitError::Timeout => (
            REQUEST_TIMEOUT,
            err_with("wait_timeout"@, "timeout_ms"@, jnum(timeout_ms as int)),
        ),
        WaitError::InvalidTimeout(reason) => (
            UNPROCESSABLE_ENTITY,
            err_reason("invalid_timeout"@, reason@),
        ),
        WaitError::Eval(WaitEvalError::InvalidSelector(reason)) => (
            UNPROCESSABLE_ENTITY,
            err_reason("invalid_selector"@, reason@),
        ),
        WaitError::Eval(WaitEvalError::UnsupportedPropertyType(t)) => (
            UNPROCESSABLE_ENTITY,
            err_with("unsupported_property_type"@, "widget_type"@, JsonView::Str(t@)),
        ),
        WaitError::Eval(WaitEvalError::Internal(msg)) | WaitError::Internal(msg) => (
            INTERNAL_SERVER_ERROR,
            err_with("internal"@, "message"@, JsonView::Str(msg@)),
        ),
    }
}

/// The reply to a failed wait whose timeout was `timeout_ms`.
pub fn wait_error_response(e: &WaitError, timeout_ms: u64) -> (r: ErrorReply)
    ensures
        (r.status, r.body@) == wait_error_reply(*e, timeout_ms),
{
    match e {
        WaitError::Timeout => reply(
            REQUEST_TIMEOUT,
            err_with_exec("wait_timeout", "timeout_ms", uint(timeout_ms)),
        ),
        WaitError::InvalidTimeout(reason) => validation_reason("invalid_timeout", reason),
        WaitError::Eval(WaitEvalError::InvalidSelector(reason)) => validation_reason(
            "invalid_selector",
            reason.as_str(),
        ),
        WaitError::Eval(WaitEvalError::UnsupportedPropertyType(t)) => reply(
            UNPROCESSABLE_ENTITY,
            err_with_exec("unsupported_property_type", "widget_type", text(t.as_str())),
        ),
        WaitError::Eval(WaitEvalError::Internal(msg)) => server_error(msg.as_str()),
        WaitError::Internal(msg) => server_error(msg.as_str()),
    }
}

} // verus!
