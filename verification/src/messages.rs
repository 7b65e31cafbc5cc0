//! Human-readable one-line messages for the errors of the pipelines:
//! `<code>` or `<code>: <detail>`, with the codes of the error replies.

use vstd::prelude::*;

use crate::elements::ElementsError;
use crate::input::{
    string_opt, FocusError, KeyError, PinchError, PressError, SetValueError, SwipeError, TapError,
    TypeError,
};
use crate::snapshot::ScreenshotError;
use crate::text::{decimal, push_decimal};

verus! {

/// Decimal representation of `v`, with a leading `-` when negative.
pub open spec fn signed_decimal(v: int) -> Seq<char> {
    if v < 0 {
        "-"@ + decimal((-v) as nat)
    } else {
        decimal(v as nat)
    }
}

/// `(<x>, <y>)`.
pub open spec fn point(x: i32, y: i32) -> Seq<char> {
    "("@ + signed_decimal(x as int) + ", "@ + signed_decimal(y as int) + ")"@
}

/// `<code>: <detail>`.
pub open spec fn tagged(code: Seq<char>, detail: Seq<char>) -> Seq<char> {
    code + ": "@ + detail
}

/// `<code>: <detail>` with a detail, `<code>` without.
pub open spec fn tagged_opt(code: Seq<char>, detail: Option<Seq<char>>) -> Seq<char> {
    match detail {
        Some(d) => tagged(code, d),
        None => code,
    }
}

/// `<code>: too_long (<n> ms)`.
pub open spec fn too_long_ms(code: Seq<char>, n: u64) -> Seq<char> {
    tagged(code, "too_long ("@ + decimal(n as nat) + " ms)"@)
}

fn push_signed(s: &mut String, v: i32)
    ensures
        final(s)@ == old(s)@ + signed_decimal(v as int),
{
    if v < 0 {
        s.append("-");
        let m = -(v as i64);
        push_decimal(s, m as u64);
    } else {
        push_decimal(s, v as u64);
    }
}

fn point_msg(code: &str, x: i32, y: i32) -> (r: String)
    ensures
        r@ == tagged(code@, point(x, y)),
{
    let mut s = code.to_owned();
    s.append(": (");
    push_signed(&mut s, x);
    s.append(", ");
    push_signed(&mut s, y);
    s.append(")");
    proof {
        reveal_strlit(": (");
        reveal_strlit(": ");
        reveal_strlit("(");
        assert(s@ =~= tagged(code@, point(x, y)));
    }
    s
}

fn tagged_msg(code: &str, detail: &str) -> (r: String)
    ensures
        r@ == tagged(code@, detail@),
{
    let mut s = code.to_owned();
    s.append(": ");
    s.append(detail);
    s
}

fn tagged_opt_msg(code: &str, detail: &Option<String>) -> (r: String)
    ensures
        r@ == tagged_opt(code@, string_opt(*detail)),
{
    match detail {
        Some(d) => tagged_msg(code, d.as_str()),
        None => code.to_owned(),
    }
}

fn too_long_msg(code: &str, n: u64) -> (r: String)
    ensures
        r@ == too_long_ms(code@, n),
{
    let mut s = code.to_owned();
    s.append(": too_long (");
    push_decimal(&mut s, n);
    s.append(" ms)");
    proof {
        reveal_strlit(": too_long (");
        reveal_strlit(": ");
        reveal_strlit("too_long (");
        assert(s@ =~= too_long_ms(code@, n));
    }
    s
}

impl TapError {
    pub open spec fn message_spec(self) -> Seq<char> {
        match self {
            TapError::SelectorNotFound { selector } => tagged("selector_not_found"@, selector@),
            TapError::NoWidgetAtPoint { x, y } => tagged("no_widget_at_point"@, point(x, y)),
            TapError::UnsupportedWidget { widget_type } => tagged(
                "tap_unsupported_widget"@,
                widget_type@,
            ),
            TapError::WidgetNotVisible { selector } => tagged_opt(
                "widget_not_visible"@,
                string_opt(selector),
            ),
            TapError::WidgetDisabled { selector } => tagged_opt(
                "widget_disabled"@,
                string_opt(selector),
            ),
            TapError::OutOfBounds { x, y } => tagged("out_of_bounds"@, point(x, y)),
            TapError::NoActiveWindow => "no_active_window"@,
        }
    }

    /// One-line description, see [`TapError::message_spec`].
    pub fn message(&self) -> (r: String)
        ensures
            r@ == self.message_spec(),
    {
        match self {
            TapError::SelectorNotFound { selector } => tagged_msg("selector_not_found", selector.as_str()),
            TapError::NoWidgetAtPoint { x, y } => point_msg("no_widget_at_point", *x, *y),
            TapError::UnsupportedWidget { widget_type } => tagged_msg(
                "tap_unsupported_widget",
                widget_type.as_str(),
            ),
            TapError::WidgetNotVisible { selector } => tagged_opt_msg("widget_not_visible", selector),
            TapError::WidgetDisabled { selector } => tagged_opt_msg("widget_disabled", selector),
            TapError::OutOfBounds { x, y } => point_msg("out_of_bounds", *x, *y),
            TapError::NoActiveWindow => "no_active_window".to_owned(),
        }
    }
}

impl TypeError {
    pub open spec fn message_spec(self) -> Seq<char> {
        match self {
            TypeError::SelectorNotFound { selector } => tagged("selector_not_found"@, selector@),
            TypeError::UnsupportedWidget { widget_type } => tagged(
                "type_unsupported_widget"@,
                widget_type@,
            ),
            TypeError::WidgetNotVisible { selector } => tagged_opt(
                "widget_not_visible"@,
                string_opt(selector),
            ),
            TypeError::WidgetDisabled { selector } => tagged_opt(
                "widget_disabled"@,
                string_opt(selector),
            ),
            TypeError::NoActiveWindow => "no_active_window"@,
        }
    }

    /// One-line description, see [`TypeError::message_spec`].
    pub fn message(&self) -> (r: String)
        ensures
            r@ == self.message_spec(),
    {
        match self {
            TypeError::SelectorNotFound { selector } => tagged_msg("selector_not_found", selector.as_str()),
            TypeError::UnsupportedWidget { widget_type } => tagged_msg(
                "type_unsupported_widget",
                widget_type.as_str(),
            ),
            TypeError::WidgetNotVisible { selector } => tagged_opt_msg("widget_not_visible", selector),
            TypeError::WidgetDisabled { selector } => tagged_opt_msg("widget_disabled", selector),
            TypeError::NoActiveWindow => "no_active_window".to_owned(),
        }
    }
}

impl FocusError {
    pub open spec fn message_spec(self) -> Seq<char> {
        match self {
            FocusError::SelectorNotFound { selector } => tagged("selector_not_found"@, selector@),
            FocusError::FocusRejected { selector } => tagged_opt(
                "focus_rejected"@,
                string_opt(selector),
            ),
            FocusError::WidgetNotVisible { selector } => tagged_opt(
                "widget_not_visible"@,
                string_opt(selector),
            ),
            FocusError::WidgetDisabled { selector } => tagged_opt(
                "widget_disabled"@,
                string_opt(selector),
            ),
            FocusError::NoActiveWindow => "no_active_window"@,
        }
    }

    /// One-line description, see [`FocusError::message_spec`].
    pub fn message(&self) -> (r: String)
        ensures
            r@ == self.message_spec(),
    {
        match self {
            FocusError::SelectorNotFound { selector } => tagged_msg("selector_not_found", selector.as_str()),
            FocusError::FocusRejected { selector } => tagged_opt_msg("focus_rejected", selector),
            FocusError::WidgetNotVisible { selector } => tagged_opt_msg("widget_not_visible", selector),
            FocusError::WidgetDisabled { selector } => tagged_opt_msg("widget_disabled", selector),
            FocusError::NoActiveWindow => "no_active_window".to_owned(),
        }
    }
}

impl KeyError {
    pub open spec fn message_spec(self) -> Seq<char> {
        match self {
            KeyError::UnsupportedKey { key } => tagged("unsupported_key"@, key@),
            KeyError::NoActiveWindow => "no_active_window"@,
        }
    }

    /// One-line description, see [`KeyError::message_spec`].
    pub fn message(&self) -> (r: String)
        ensures
            r@ == self.message_spec(),
    {
        match self {
            KeyError::UnsupportedKey { key } => tagged_msg("unsupported_key", key.as_str()),
            KeyError::NoActiveWindow => "no_active_window".to_owned(),
        }
    }
}

impl SwipeError {
    pub open spec fn message_spec(self) -> Seq<char> {
        match self {
            SwipeError::OutOfBounds { x, y } => tagged("out_of_bounds"@, point(x, y)),
            SwipeError::NoActiveWindow => "no_active_window"@,
            SwipeError::NoScrollableAtPoint { x, y } => tagged("no_scrollable_at_point"@, point(x, y)),
            SwipeError::ZeroDuration => tagged("invalid_duration"@, "zero"@),
            SwipeError::DurationTooLong { duration_ms } => too_long_ms("invalid_duration"@, duration_ms),
        }
    }

    /// One-line description, see [`SwipeError::message_spec`].
    pub fn message(&self) -> (r: String)
        ensures
            r@ == self.message_spec(),
    {
        match self {
            SwipeError::OutOfBounds { x, y } => point_msg("out_of_bounds", *x, *y),
            SwipeError::NoActiveWindow => "no_active_window".to_owned(),
            SwipeError::NoScrollableAtPoint { x, y } => point_msg("no_scrollable_at_point", *x, *y),
            SwipeError::ZeroDuration => tagged_msg("invalid_duration", "zero"),
            SwipeError::DurationTooLong { duration_ms } => too_long_msg("invalid_duration", *duration_ms),
        }
    }
}

impl PinchError {
    pub open spec fn message_spec(self) -> Seq<char> {
        match self {
            PinchError::OutOfBounds { x, y } => tagged("out_of_bounds"@, point(x, y)),
            PinchError::NoActiveWindow => "no_active_window"@,
            PinchError::NoPinchableAtPoint { x, y } => tagged("no_pinchable_at_point"@, point(x, y)),
            PinchError::ZeroDuration => tagged("invalid_duration"@, "zero"@),
            PinchError::DurationTooLong { duration_ms } => too_long_ms("invalid_duration"@, duration_ms),
            PinchError::InvalidScale { reason } => tagged("invalid_scale"@, reason@),
        }
    }

    /// One-line description, see [`PinchError::message_spec`].
    pub fn message(&self) -> (r: String)
        ensures
            r@ == self.message_spec(),
    {
        match self {
            PinchError::OutOfBounds { x, y } => point_msg("out_of_bounds", *x, *y),
            PinchError::NoActiveWindow => "no_active_window".to_owned(),
            PinchError::NoPinchableAtPoint { x, y } => point_msg("no_pinchable_at_point", *x, *y),
            PinchError::ZeroDuration => tagged_msg("invalid_duration", "zero"),
            PinchError::DurationTooLong { duration_ms } => too_long_msg("invalid_duration", *duration_ms),
            PinchError::InvalidScale { reason } => tagged_msg("invalid_scale", reason),
        }
    }
}

impl PressError {
    pub open spec fn message_spec(self) -> Seq<char> {
        match self {
            PressError::ZeroHold => tagged("invalid_hold"@, "zero"@),
            PressError::HoldTooLong { hold_ms } => too_long_ms("invalid_hold"@, hold_ms),
            PressError::OutOfBounds { x, y } => tagged("out_of_bounds"@, point(x, y)),
            PressError::NoActiveWindow => "no_active_window"@,
            PressError::NoLongPressableAtPoint { x, y } => tagged(
                "no_long_pressable_at_point"@,
                point(x, y),
            ),
            PressError::SelectorNotFound { selector } => tagged("selector_not_found"@, selector@),
            PressError::NoLongPressableForSelector { selector } => tagged(
                "no_long_pressable_for_selector"@,
                selector@,
            ),
            PressError::InvalidTarget { reason } => tagged("invalid_target"@, reason@),
        }
    }

    /// One-line description, see [`PressError::message_spec`].
    pub fn message(&self) -> (r: String)
        ensures
            r@ == self.message_spec(),
    {
        match self {
            PressError::ZeroHold => tagged_msg("invalid_hold", "zero"),
            PressError::HoldTooLong { hold_ms } => too_long_msg("invalid_hold", *hold_ms),
            PressError::OutOfBounds { x, y } => point_msg("out_of_bounds", *x, *y),
            PressError::NoActiveWindow => "no_active_window".to_owned(),
            PressError::NoLongPressableAtPoint { x, y } => point_msg(
                "no_long_pressable_at_point",
                *x,
                *y,
            ),
            PressError::SelectorNotFound { selector } => tagged_msg("selector_not_found", selector.as_str()),
            PressError::NoLongPressableForSelector { selector } => tagged_msg(
                "no_long_pressable_for_selector",
                selector.as_str(),
            ),
            PressError::InvalidTarget { reason } => tagged_msg("invalid_target", reason),
        }
    }
}

impl SetValueError {
    pub open spec fn message_spec(self) -> Seq<char> {
        match self {
            SetValueError::InvalidTarget { reason } => tagged("invalid_target"@, reason@),
            SetValueError::InvalidValue { reason } => tagged("invalid_value"@, reason@),
            SetValueError::OutOfBounds { x, y } => tagged("out_of_bounds"@, point(x, y)),
            SetValueError::WidgetNotVisible { selector } => tagged_opt(
                "widget_not_visible"@,
                string_opt(selector),
            ),
            SetValueError::WidgetDisabled { selector } => tagged_opt(
                "widget_disabled"@,
                string_opt(selector),
            ),
            SetValueError::NoActiveWindow => "no_active_window"@,
            SetValueError::SelectorNotFound { selector } => tagged("selector_not_found"@, selector@),
            SetValueError::NoRangeAtPoint { x, y } => tagged("no_range_at_point"@, point(x, y)),
            SetValueError::NoRangeForSelector { selector } => tagged(
                "no_range_for_selector"@,
                selector@,
            ),
        }
    }

    /// One-line description, see [`SetValueError::message_spec`].
    pub fn message(&self) -> (r: String)
        ensures
            r@ == self.message_spec(),
    {
        match self {
            SetValueError::InvalidTarget { reason } => tagged_msg("invalid_target", reason),
            SetValueError::InvalidValue { reason } => tagged_msg("invalid_value", reason),
            SetValueError::OutOfBounds { x, y } => point_msg("out_of_bounds", *x, *y),
            SetValueError::WidgetNotVisible { selector } => tagged_opt_msg("widget_not_visible", selector),
            SetValueError::WidgetDisabled { selector } => tagged_opt_msg("widget_disabled", selector),
            SetValueError::NoActiveWindow => "no_active_window".to_owned(),
            SetValueError::SelectorNotFound { selector } => tagged_msg("selector_not_found", selector.as_str()),
            SetValueError::NoRangeAtPoint { x, y } => point_msg("no_range_at_point", *x, *y),
            SetValueError::NoRangeForSelector { selector } => tagged_msg(
                "no_range_for_selector",
                selector.as_str(),
            ),
        }
    }
}

impl ScreenshotError {
    pub open spec fn message_spec(self) -> Seq<char> {
        match self {
            ScreenshotError::NoActiveWindow => "no_active_window"@,
            ScreenshotError::InvalidSelector { reason } => tagged("invalid_selector"@, reason@),
            ScreenshotError::SelectorNotFound { selector } => tagged("selector_not_found"@, selector@),
            ScreenshotError::WindowOutOfRange { index, count } => tagged(
                "window_out_of_range"@,
                decimal(index as nat) + " (count "@ + decimal(count as nat) + ")"@,
            ),
            ScreenshotError::UnrealizedTarget => "unrealized_target"@,
            ScreenshotError::EmptyNode => "empty_node"@,
            ScreenshotError::ZeroSize => "zero_size"@,
            ScreenshotError::RenderRealize(msg) => tagged("render_failed"@, msg@),
        }
    }

    /// One-line description, see [`ScreenshotError::message_spec`].
    pub fn message(&self) -> (r: String)
        ensures
            r@ == self.message_spec(),
    {
        match self {
            ScreenshotError::NoActiveWindow => "no_active_window".to_owned(),
            ScreenshotError::InvalidSelector { reason } => tagged_msg("invalid_selector", reason.as_str()),
            ScreenshotError::SelectorNotFound { selector } => tagged_msg(
                "selector_not_found",
                selector.as_str(),
            ),
            ScreenshotError::WindowOutOfRange { index, count } => {
                let mut s = String::from_str("window_out_of_range: ");
                push_decimal(&mut s, *index as u64);
                s.append(" (count ");
                push_decimal(&mut s, *count as u64);
                s.append(")");
                proof {
                    reveal_strlit("window_out_of_range: ");
                    reveal_strlit("window_out_of_range");
                    reveal_strlit(": ");
                    assert(s@ =~= self.message_spec());
                }
                s
            },
            ScreenshotError::UnrealizedTarget => "unrealized_target".to_owned(),
            ScreenshotError::EmptyNode => "empty_node".to_owned(),
            ScreenshotError::ZeroSize => "zero_size".to_owned(),
            ScreenshotError::RenderRealize(msg) => tagged_msg("render_failed", msg.as_str()),
        }
    }
}

impl ElementsError {
    pub open spec fn message_spec(self) -> Seq<char> {
        match self {
            ElementsError::InvalidSelector { reason } => tagged("invalid_selector"@, reason@),
            ElementsError::NoActiveWindow => "no_active_window"@,
        }
    }

    /// One-line description, see [`ElementsError::message_spec`].
    pub fn message(&self) -> (r: String)
        ensures
            r@ == self.message_spec(),
    {
        match self {
            ElementsError::InvalidSelector { reason } => tagged_msg("invalid_selector", reason.as_str()),
            ElementsError::NoActiveWindow => "no_active_window".to_owned(),
        }
    }
}

} // verus!
