//! Protocol types exchanged with test clients.

use vstd::prelude::*;

use crate::json::{JsonValue, JsonView};

verus! {

/// Capability identifiers advertised in `Info.capabilities`, in the order in
/// which they were introduced.
#[derive(Debug, Clone, Copy, PartialEq, Eq, Hash, Structural)]
pub enum Capability {
    Info,
    Tap,
    Wait,
    Screenshot,
    Events,
    Type,
    Swipe,
    Elements,
    State,
    Pinch,
    Focus,
}

/// Response payload of `GET /test/info`.
#[derive(Debug, Clone, PartialEq, Eq)]
pub struct Info {
    pub instance_id: String,
    pub pid: u32,
    pub port: u16,
    pub app_name: String,
    pub app_version: String,
    pub capabilities: Vec<Capability>,
    pub token_required: Option<bool>,
}

/// Window-local pixel coordinates (top-left origin).
#[derive(Debug, Clone, Copy, PartialEq, Eq, Structural)]
pub struct XY {
    pub x: i32,
    pub y: i32,
}

/// Body of `POST /test/tap`: a selector or a point.
#[derive(Debug, Clone, PartialEq, Eq)]
pub enum TapTarget {
    Selector { selector: String },
    Xy { xy: XY },
}

/// Body of `POST /test/type`: replace the text of the selected widget.
#[derive(Debug, Clone, PartialEq, Eq)]
pub struct TypeRequest {
    pub selector: String,
    pub text: String,
}

/// Body of `POST /test/focus`.
#[derive(Debug, Clone, PartialEq, Eq)]
pub struct FocusRequest {
    pub selector: String,
}

/// Body of `POST /test/swipe`.
#[derive(Debug, Clone, Copy, PartialEq, Eq, Structural)]
pub struct SwipeRequest {
    pub from: XY,
    pub to: XY,
    pub duration_ms: u64,
}

/// Body of `POST /test/pinch`: zoom around `center` to `scale`, given by
/// the bit pattern of the single-precision float.
#[derive(Debug, Clone, Copy, PartialEq, Eq, Structural)]
pub struct PinchRequest {
    pub center: XY,
    pub scale_bits: u32,
    pub duration_ms: u64,
}

/// Body of `POST /test/set-value`: exactly one of `selector` / `xy`, and the
/// target value by the bit pattern of the double (required with a selector).
#[derive(Debug, Clone, PartialEq, Eq)]
pub struct SetValueRequest {
    pub selector: Option<String>,
    pub xy: Option<XY>,
    pub value_bits: Option<u64>,
}

/// Body of `POST /test/press`: exactly one of `selector` / `xy`.
#[derive(Debug, Clone, PartialEq, Eq)]
pub struct PressRequest {
    pub selector: Option<String>,
    pub xy: Option<XY>,
    pub hold_ms: u64,
}

/// Body of `POST /test/key`.
#[derive(Debug, Clone, PartialEq, Eq)]
pub struct KeyRequest {
    pub key: String,
}

/// Condition long-polled by `POST /test/wait`.
#[derive(Debug)]
pub enum WaitCondition {
    /// The selected widget is visible and mapped.
    SelectorVisible { selector: String },
    /// A property of the selected widget equals `value`.
    StateEq { selector: String, property: String, value: JsonValue },
    /// The app-defined state at JSON Pointer `path` equals `value`.
    AppStateEq { path: String, value: JsonValue },
}

/// Body of `POST /test/wait`.
#[derive(Debug)]
pub struct WaitRequest {
    pub condition: WaitCondition,
    pub timeout_ms: u64,
}

/// Success body of `POST /test/wait`.
#[derive(Debug, Clone, Copy, PartialEq, Eq, Structural)]
pub struct WaitResult {
    pub elapsed_ms: u64,
}

/// Discriminator of an event envelope.
#[derive(Debug, Clone, Copy, PartialEq, Eq, Hash, Structural)]
pub enum EventKind {
    StateChange,
    LogLine,
    Property,
}

/// One message of the event stream.
#[derive(Debug)]
pub struct EventEnvelope {
    pub kind: EventKind,
    pub ts: String,
    pub data: JsonValue,
}

/// Payload of a `Property` event.
#[derive(Debug)]
pub struct PropertyEventData {
    pub widget_id: String,
    pub widget_kind: String,
    pub property: String,
    pub value: JsonValue,
    pub ts_ns: u64,
}

/// The capabilities a running server advertises: every capability, in the
/// order in which they were introduced.
pub fn advertised_capabilities() -> (r: Vec<Capability>)
    ensures
        r@ == seq![
            Capability::Info,
            Capability::Tap,
            Capability::Wait,
            Capability::Screenshot,
            Capability::Events,
            Capability::Type,
            Capability::Swipe,
            Capability::Elements,
            Capability::State,
            Capability::Pinch,
            Capability::Focus,
        ],
{
    vec![
        Capability::Info,
        Capability::Tap,
        Capability::Wait,
        Capability::Screenshot,
        Capability::Events,
        Capability::Type,
        Capability::Swipe,
        Capability::Elements,
        Capability::State,
        Capability::Pinch,
        Capability::Focus,
    ]
}

} // verus!
