use gtk4_e2e_server::elements::ElementsError;
use gtk4_e2e_server::input::{
    FocusError, KeyError, PinchError, PressError, SetValueError, SwipeError, TapError, TypeError,
};
use gtk4_e2e_server::snapshot::ScreenshotError;

#[test]
fn error_messages() {
    assert_eq!(TapError::OutOfBounds { x: -1, y: 20 }.message(), "out_of_bounds: (-1, 20)");
    assert_eq!(TapError::WidgetNotVisible { selector: None }.message(), "widget_not_visible");
    assert_eq!(
        TapError::WidgetDisabled { selector: Some("#b".into()) }.message(),
        "widget_disabled: #b"
    );
    assert_eq!(TypeError::UnsupportedWidget { widget_type: "GtkLabel".into() }.message(), "type_unsupported_widget: GtkLabel");
    assert_eq!(FocusError::FocusRejected { selector: Some("#l".into()) }.message(), "focus_rejected: #l");
    assert_eq!(KeyError::UnsupportedKey { key: "Enter".into() }.message(), "unsupported_key: Enter");
    assert_eq!(SwipeError::DurationTooLong { duration_ms: 10_001 }.message(), "invalid_duration: too_long (10001 ms)");
    assert_eq!(SwipeError::ZeroDuration.message(), "invalid_duration: zero");
    assert_eq!(PinchError::InvalidScale { reason: "nan" }.message(), "invalid_scale: nan");
    assert_eq!(PressError::HoldTooLong { hold_ms: 20_000 }.message(), "invalid_hold: too_long (20000 ms)");
    assert_eq!(
        SetValueError::NoRangeAtPoint { x: i32::MIN, y: 0 }.message(),
        "no_range_at_point: (-2147483648, 0)"
    );
    assert_eq!(
        ScreenshotError::WindowOutOfRange { index: 3, count: 1 }.message(),
        "window_out_of_range: 3 (count 1)"
    );
    assert_eq!(ScreenshotError::RenderRealize("x".into()).message(), "render_failed: x");
    assert_eq!(ElementsError::NoActiveWindow.message(), "no_active_window");
}
