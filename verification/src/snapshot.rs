//! Choosing what a screenshot captures, and whether it can be captured.

use vstd::prelude::*;

use crate::tree::{
    find_first, first_match, opt_node, parse_selector, preorder_all, selector_of,
    selector_refusal, WidgetNode, WidgetTree,
};

verus! {

/// Errors of the screenshot pipeline.
#[derive(Debug, Clone, PartialEq, Eq)]
#[allow(inconsistent_fields)]
pub enum ScreenshotError {
    NoActiveWindow,
    /// The `selector` does not parse.
    InvalidSelector { reason: String },
    /// The `selector` matches no widget of any window.
    SelectorNotFound { selector: String },
    /// The `window` index is not below the number of windows.
    WindowOutOfRange { index: usize, count: usize },
    /// The target is not visible or not mapped: it has nothing to paint.
    UnrealizedTarget,
    EmptyNode,
    ZeroSize,
    RenderRealize(String),
}

/// The widget a screenshot captures. The first given of these wins: a
/// `selector` (the first match over all windows, depth first), a `window`
/// index into the windows, and otherwise the active window (`active`, an
/// index into the windows).
pub fn render_target<'a>(
    tree: &'a WidgetTree,
    active: Option<usize>,
    selector: Option<&str>,
    window: Option<usize>,
) -> (r: Result<&'a WidgetNode, ScreenshotError>)
    ensures
        match selector {
            Some(s) => match selector_refusal(s@) {
                Some(reason) => r matches Err(ScreenshotError::InvalidSelector { reason: x }) && x@
                    == reason,
                None => match first_match(preorder_all(tree.roots@), selector_of(s@)) {
                    None => r matches Err(ScreenshotError::SelectorNotFound { selector: x }) && x@
                        == s@,
                    Some(w) => r matches Ok(t) && *t == w,
                },
            },
            None => match window {
                Some(i) => if i < tree.roots@.len() {
                    r matches Ok(t) && *t == tree.roots@[i as int]
                } else {
                    r == Err::<&'a WidgetNode, ScreenshotError>(
                        ScreenshotError::WindowOutOfRange { index: i, count: tree.roots@.len() as usize },
                    )
                },
                None => match active {
                    Some(i) if i < tree.roots@.len() => r matches Ok(t) && *t == tree.roots@[i as int],
                    _ => r == Err::<&'a WidgetNode, ScreenshotError>(ScreenshotError::NoActiveWindow),
                },
            },
        },
{
    if let Some(s) = selector {
        let sel = match parse_selector(s) {
            Ok(p) => p,
            Err(e) => {
                return Err(ScreenshotError::InvalidSelector { reason: e.reason.to_owned() });
            },
        };
        return match find_first(tree, &sel) {
            Some(w) => Ok(w),
            None => Err(ScreenshotError::SelectorNotFound { selector: s.to_owned() }),
        };
    }
    if let Some(i) = window {
        if i < tree.roots.len() {
            return Ok(&tree.roots[i]);
        }
        return Err(ScreenshotError::WindowOutOfRange { index: i, count: tree.roots.len() });
    }
    match active {
        Some(i) => {
            if i < tree.roots.len() {
                Ok(&tree.roots[i])
            } else {
                Err(ScreenshotError::NoActiveWindow)
            }
        },
        None => Err(ScreenshotError::NoActiveWindow),
    }
}

/// Whether `node` can be captured: it must be visible and mapped, then have
/// a positive width and height.
pub fn check_capture(node: &WidgetNode) -> (r: Result<(), ScreenshotError>)
    ensures
        !(node.visible && node.mapped) ==> r == Err::<(), ScreenshotError>(
            ScreenshotError::UnrealizedTarget,
        ),
        node.visible && node.mapped && (node.width <= 0 || node.height <= 0) ==> r == Err::<
            (),
            ScreenshotError,
        >(ScreenshotError::ZeroSize),
        node.visible && node.mapped && node.width > 0 && node.height > 0 ==> r is Ok,
{
    if !(node.visible && node.mapped) {
        return Err(ScreenshotError::UnrealizedTarget);
    }
    if node.width <= 0 || node.height <= 0 {
        return Err(ScreenshotError::ZeroSize);
    }
    Ok(())
}

} // verus!
