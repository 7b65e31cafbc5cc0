//! Decisions of the input pipelines — tap, type, focus, key, swipe, pinch,
//! press and set-value — taken over a snapshot of the widget tree.
//!
//! Each decision names the widget to act on (by its handle) and what to do
//! with it, or the error the request is answered with. Performing the action
//! on the live widget is left to the caller.

use vstd::prelude::*;

use crate::proto::XY;
use crate::tree::{
    find_first, first_match, node_matches, opt_node, parse_selector, preorder, preorder_all,
    selector_of, selector_refusal, HitBox, SelectorView, WidgetClass, WidgetNode, WidgetTree,
    lemma_first_match_append,
};

verus! {

// ---------------------------------------------------------------------------
// Errors
// ---------------------------------------------------------------------------

/// Errors of the tap pipeline.
#[derive(Debug, Clone, PartialEq, Eq)]
#[allow(inconsistent_fields)]
pub enum TapError {
    SelectorNotFound { selector: String },
    NoWidgetAtPoint { x: i32, y: i32 },
    UnsupportedWidget { widget_type: String },
    WidgetNotVisible { selector: Option<String> },
    WidgetDisabled { selector: Option<String> },
    OutOfBounds { x: i32, y: i32 },
    NoActiveWindow,
}

/// Errors of the type pipeline.
#[derive(Debug, Clone, PartialEq, Eq)]
#[allow(inconsistent_fields)]
pub enum TypeError {
    SelectorNotFound { selector: String },
    UnsupportedWidget { widget_type: String },
    WidgetNotVisible { selector: Option<String> },
    WidgetDisabled { selector: Option<String> },
    NoActiveWindow,
}

/// Errors of the focus pipeline.
#[derive(Debug, Clone, PartialEq, Eq)]
#[allow(inconsistent_fields)]
pub enum FocusError {
    SelectorNotFound { selector: String },
    FocusRejected { selector: Option<String> },
    WidgetNotVisible { selector: Option<String> },
    WidgetDisabled { selector: Option<String> },
    NoActiveWindow,
}

/// Errors of the key pipeline.
#[derive(Debug, Clone, PartialEq, Eq)]
pub enum KeyError {
    UnsupportedKey { key: String },
    NoActiveWindow,
}

/// Errors of the swipe pipeline.
#[derive(Debug, Clone, Copy, PartialEq, Eq, Structural)]
pub enum SwipeError {
    OutOfBounds { x: i32, y: i32 },
    NoActiveWindow,
    NoScrollableAtPoint { x: i32, y: i32 },
    ZeroDuration,
    DurationTooLong { duration_ms: u64 },
}

/// Errors of the pinch pipeline.
#[derive(Debug, Clone, Copy, PartialEq, Eq)]
pub enum PinchError {
    OutOfBounds { x: i32, y: i32 },
    NoActiveWindow,
    NoPinchableAtPoint { x: i32, y: i32 },
    ZeroDuration,
    DurationTooLong { duration_ms: u64 },
    InvalidScale { reason: &'static str },
}

/// Errors of the press (long-press) pipeline.
#[derive(Debug, Clone, PartialEq, Eq)]
pub enum PressError {
    ZeroHold,
    HoldTooLong { hold_ms: u64 },
    OutOfBounds { x: i32, y: i32 },
    NoActiveWindow,
    NoLongPressableAtPoint { x: i32, y: i32 },
    SelectorNotFound { selector: String },
    NoLongPressableForSelector { selector: String },
    InvalidTarget { reason: &'static str },
}

/// Errors of the set-value pipeline.
#[derive(Debug, Clone, PartialEq, Eq)]
#[allow(inconsistent_fields)]
pub enum SetValueError {
    InvalidTarget { reason: &'static str },
    InvalidValue { reason: &'static str },
    OutOfBounds { x: i32, y: i32 },
    WidgetNotVisible { selector: Option<String> },
    WidgetDisabled { selector: Option<String> },
    NoActiveWindow,
    SelectorNotFound { selector: String },
    NoRangeAtPoint { x: i32, y: i32 },
    NoRangeForSelector { selector: String },
}

// ---------------------------------------------------------------------------
// Small helpers
// ---------------------------------------------------------------------------

pub open spec fn str_opt(s: Option<&str>) -> Option<Seq<char>> {
    match s {
        Some(x) => Some(x@),
        None => None,
    }
}

pub open spec fn string_opt(s: Option<String>) -> Option<Seq<char>> {
    match s {
        Some(x) => Some(x@),
        None => None,
    }
}

/// An owned copy of an optional string slice.
pub fn owned_opt(s: Option<&str>) -> (r: Option<String>)
    ensures
        string_opt(r) == str_opt(s),
{
    match s {
        Some(x) => Some(x.to_owned()),
        None => None,
    }
}

/// Why a widget refuses interaction, checked in this order.
#[derive(Debug, Clone, Copy, PartialEq, Eq, Structural)]
pub enum Obstacle {
    /// Not visible, or not mapped.
    NotVisible,
    /// Not sensitive.
    Disabled,
}

/// The obstacle that stops interaction with `n`, if any.
pub open spec fn obstacle(n: WidgetNode) -> Option<Obstacle> {
    if !(n.visible && n.mapped) {
        Some(Obstacle::NotVisible)
    } else if !n.sensitive {
        Some(Obstacle::Disabled)
    } else {
        None
    }
}

/// The obstacle that stops interaction with `n`, if any.
pub fn check_obstacle(n: &WidgetNode) -> (r: Option<Obstacle>)
    ensures
        r == obstacle(*n),
{
    if !(n.visible && n.mapped) {
        Some(Obstacle::NotVisible)
    } else if !n.sensitive {
        Some(Obstacle::Disabled)
    } else {
        None
    }
}

// ---------------------------------------------------------------------------
// Tap, type, focus on one widget
// ---------------------------------------------------------------------------

/// What a tap does to the widget it lands on.
#[derive(Debug, Clone, Copy, PartialEq, Eq, Structural)]
pub enum TapAction {
    /// Flip the widget's `active` state (switches, check and toggle buttons).
    ToggleActive,
    /// Emit `clicked` (buttons).
    EmitClicked,
}

/// The tap action for a widget class, if it can be tapped at all.
pub open spec fn tap_action(c: WidgetClass) -> Option<TapAction> {
    match c {
        WidgetClass::Switch | WidgetClass::CheckButton | WidgetClass::ToggleButton => Some(
            TapAction::ToggleActive,
        ),
        WidgetClass::Button => Some(TapAction::EmitClicked),
        _ => None,
    }
}

/// Whether a tap can activate `n` directly.
pub fn is_tap_activatable(n: &WidgetNode) -> (r: bool)
    ensures
        r == (tap_action(n.class) is Some),
{
    match n.class {
        WidgetClass::Switch | WidgetClass::CheckButton | WidgetClass::ToggleButton
        | WidgetClass::Button => true,
        _ => false,
    }
}

/// The answer to a tap on `n`: not visible (or not mapped) first, then not
/// sensitive, then the class decides the action; other classes are refused
/// with their type name.
pub open spec fn tapped(r: Result<TapAction, TapError>, n: WidgetNode, sel: Option<Seq<char>>) -> bool {
    match obstacle(n) {
        Some(Obstacle::NotVisible) => r matches Err(TapError::WidgetNotVisible { selector: s })
            && string_opt(s) == sel,
        Some(Obstacle::Disabled) => r matches Err(TapError::WidgetDisabled { selector: s })
            && string_opt(s) == sel,
        None => match tap_action(n.class) {
            Some(a) => r == Ok::<TapAction, TapError>(a),
            None => r matches Err(TapError::UnsupportedWidget { widget_type })
                && widget_type@ == n.kind@,
        },
    }
}

/// Decide a tap on `node`, see [`tapped`].
pub fn tap_widget(node: &WidgetNode, selector: Option<&str>) -> (r: Result<TapAction, TapError>)
    ensures
        tapped(r, *node, str_opt(selector)),
{
    match check_obstacle(node) {
        Some(Obstacle::NotVisible) => {
            return Err(TapError::WidgetNotVisible { selector: owned_opt(selector) });
        },
        Some(Obstacle::Disabled) => {
            return Err(TapError::WidgetDisabled { selector: owned_opt(selector) });
        },
        None => {},
    }
    match node.class {
        WidgetClass::Switch | WidgetClass::CheckButton | WidgetClass::ToggleButton => Ok(
            TapAction::ToggleActive,
        ),
        WidgetClass::Button => Ok(TapAction::EmitClicked),
        _ => Err(TapError::UnsupportedWidget { widget_type: node.kind.clone() }),
    }
}

/// Where typed text goes.
#[derive(Debug, Clone, Copy, PartialEq, Eq, Structural)]
pub enum TypeTarget {
    /// The text of an editable widget.
    Editable,
    /// The buffer of a text view.
    TextViewBuffer,
}

/// A decided text replacement: set the content of `target` to `text`.
#[derive(Debug, Clone, PartialEq, Eq)]
pub struct TypeEdit {
    pub target: TypeTarget,
    pub text: String,
}

/// Where text typed into a widget of class `c` goes, if it can take text.
pub open spec fn type_target(c: WidgetClass) -> Option<TypeTarget> {
    match c {
        WidgetClass::Editable => Some(TypeTarget::Editable),
        WidgetClass::TextView => Some(TypeTarget::TextViewBuffer),
        _ => None,
    }
}

/// The answer to typing `text` into `n`: the same checks as a tap, then the
/// class decides where the text goes (replacing all content); other classes
/// are refused with their type name.
pub open spec fn typed(r: Result<TypeEdit, TypeError>, n: WidgetNode, text: Seq<char>, sel: Option<
    Seq<char>,
>) -> bool {
    match obstacle(n) {
        Some(Obstacle::NotVisible) => r matches Err(TypeError::WidgetNotVisible { selector: s })
            && string_opt(s) == sel,
        Some(Obstacle::Disabled) => r matches Err(TypeError::WidgetDisabled { selector: s })
            && string_opt(s) == sel,
        None => match type_target(n.class) {
            Some(t) => r matches Ok(e) && e.target == t && e.text@ == text,
            None => r matches Err(TypeError::UnsupportedWidget { widget_type })
                && widget_type@ == n.kind@,
        },
    }
}

/// Decide replacing the content of `node` with `text`, see [`typed`].
pub fn type_text(node: &WidgetNode, text: &str, selector: Option<&str>) -> (r: Result<
    TypeEdit,
    TypeError,
>)
    ensures
        typed(r, *node, text@, str_opt(selector)),
{
    match check_obstacle(node) {
        Some(Obstacle::NotVisible) => {
            return Err(TypeError::WidgetNotVisible { selector: owned_opt(selector) });
        },
        Some(Obstacle::Disabled) => {
            return Err(TypeError::WidgetDisabled { selector: owned_opt(selector) });
        },
        None => {},
    }
    match node.class {
        WidgetClass::Editable => Ok(TypeEdit { target: TypeTarget::Editable, text: text.to_owned() }),
        WidgetClass::TextView => Ok(
            TypeEdit { target: TypeTarget::TextViewBuffer, text: text.to_owned() },
        ),
        _ => Err(TypeError::UnsupportedWidget { widget_type: node.kind.clone() }),
    }
}

/// The checks a focus request passes before keyboard focus is requested.
pub fn focus_widget(node: &WidgetNode, selector: Option<&str>) -> (r: Result<(), FocusError>)
    ensures
        match obstacle(*node) {
            Some(Obstacle::NotVisible) => r matches Err(FocusError::WidgetNotVisible { selector: s })
                && string_opt(s) == str_opt(selector),
            Some(Obstacle::Disabled) => r matches Err(FocusError::WidgetDisabled { selector: s })
                && string_opt(s) == str_opt(selector),
            None => r is Ok,
        },
{
    match check_obstacle(node) {
        Some(Obstacle::NotVisible) => Err(FocusError::WidgetNotVisible { selector: owned_opt(selector) }),
        Some(Obstacle::Disabled) => Err(FocusError::WidgetDisabled { selector: owned_opt(selector) }),
        None => Ok(()),
    }
}

/// The answer to a focus request once the widget was asked to take focus:
/// a widget that would not take it is `FocusRejected`.
pub fn focus_outcome(grabbed: bool, selector: Option<&str>) -> (r: Result<(), FocusError>)
    ensures
        grabbed ==> r is Ok,
        !grabbed ==> (r matches Err(FocusError::FocusRejected { selector: s }) && string_opt(s)
            == str_opt(selector)),
{
    if grabbed {
        Ok(())
    } else {
        Err(FocusError::FocusRejected { selector: owned_opt(selector) })
    }
}

// ---------------------------------------------------------------------------
// Hit testing
// ---------------------------------------------------------------------------

/// Does the box cover integer point `(x, y)`?
pub open spec fn covers(b: Option<HitBox>, x: int, y: int) -> bool {
    match b {
        Some(h) => h.left <= x < h.right && h.top <= y < h.bottom,
        None => false,
    }
}

fn covers_exec(b: Option<HitBox>, x: i32, y: i32) -> (r: bool)
    ensures
        r == covers(b, x as int, y as int),
{
    match b {
        Some(h) => h.left <= x as i64 && (x as i64) < h.right && h.top <= y as i64 && (y as i64)
            < h.bottom,
        None => false,
    }
}

/// The path from `n` down to the deepest widget under `(x, y)`: a widget
/// that covers the point, then the path into the last of its children (in
/// sibling order) that has a hit; `None` when `n` does not cover the point.
pub open spec fn pick_path(n: WidgetNode, x: int, y: int) -> Option<Seq<WidgetNode>>
    decreases n,
{
    if covers(n.hit_box, x, y) {
        match pick_last(n.children@, x, y) {
            Some(p) => Some(seq![n] + p),
            None => Some(seq![n]),
        }
    } else {
        None
    }
}

/// The hit path of the last tree of `s` that has one.
pub open spec fn pick_last(s: Seq<WidgetNode>, x: int, y: int) -> Option<Seq<WidgetNode>>
    decreases s,
{
    if s.len() == 0 {
        None
    } else {
        match pick_path(s.last(), x, y) {
            Some(p) => Some(p),
            None => pick_last(s.drop_last(), x, y),
        }
    }
}

/// What an ancestor search along a hit path looks for.
#[derive(Debug, Clone, Copy, PartialEq, Eq, Structural)]
pub enum Seek {
    /// A widget a tap activates directly.
    Activatable,
    /// A scrolled window.
    Scrollable,
    /// A widget with a zoom gesture.
    Zoomable,
    /// A widget with a long-press gesture.
    LongPressable,
    /// A range.
    Range,
}

pub open spec fn seeks(q: Seek, n: WidgetNode) -> bool {
    match q {
        Seek::Activatable => tap_action(n.class) is Some,
        Seek::Scrollable => n.class == WidgetClass::ScrolledWindow,
        Seek::Zoomable => n.zoom_gesture,
        Seek::LongPressable => n.long_press_gesture,
        Seek::Range => n.class == WidgetClass::Range,
    }
}

fn seeks_exec(q: Seek, n: &WidgetNode) -> (r: bool)
    ensures
        r == seeks(q, *n),
{
    match q {
        Seek::Activatable => is_tap_activatable(n),
        Seek::Scrollable => n.class == WidgetClass::ScrolledWindow,
        Seek::Zoomable => n.zoom_gesture,
        Seek::LongPressable => n.long_press_gesture,
        Seek::Range => n.class == WidgetClass::Range,
    }
}

/// The last widget of a root-to-leaf path that `q` looks for: the nearest
/// such ancestor of the path's end, the end itself included.
pub open spec fn nearest(p: Seq<WidgetNode>, q: Seek) -> Option<WidgetNode>
    decreases p.len(),
{
    if p.len() == 0 {
        None
    } else if seeks(q, p.last()) {
        Some(p.last())
    } else {
        nearest(p.drop_last(), q)
    }
}

/// Prepending a widget to a path only matters when the rest has no match.
pub proof fn lemma_nearest_cons(n: WidgetNode, p: Seq<WidgetNode>, q: Seek)
    ensures
        nearest(seq![n] + p, q) == (if nearest(p, q) is Some {
            nearest(p, q)
        } else if seeks(q, n) {
            Some(n)
        } else {
            None
        }),
    decreases p.len(),
{
    let s = seq![n] + p;
    if p.len() == 0 {
        assert(s =~= seq![n]);
        assert(s.drop_last() =~= Seq::<WidgetNode>::empty());
        assert(nearest(Seq::<WidgetNode>::empty(), q) is None);
        assert(nearest(p, q) is None);
        assert(s.last() == n);
    } else {
        assert(s.last() == p.last());
        assert(s.drop_last() =~= seq![n] + p.drop_last());
        lemma_nearest_cons(n, p.drop_last(), q);
    }
}

proof fn lemma_pick_nonempty(n: WidgetNode, x: int, y: int)
    ensures
        pick_path(n, x, y) matches Some(p) ==> p.len() > 0 && p[0] == n,
{
}

proof fn lemma_pick_last_nonempty(s: Seq<WidgetNode>, x: int, y: int)
    ensures
        pick_last(s, x, y) matches Some(p) ==> p.len() > 0,
    decreases s.len(),
{
    if s.len() > 0 {
        lemma_pick_nonempty(s.last(), x, y);
        lemma_pick_last_nonempty(s.drop_last(), x, y);
    }
}

pub open spec fn hit_of<'a>(r: Option<(&'a WidgetNode, Option<&'a WidgetNode>)>, p: Option<
    Seq<WidgetNode>,
>, q: Seek) -> bool {
    match p {
        None => r is None,
        Some(path) => r matches Some((leaf, near)) && *leaf == path.last() && opt_node(near)
            == nearest(path, q),
    }
}

/// The deepest widget under `(x, y)` within `node`, with the nearest widget
/// on the path to it that `q` looks for.
fn pick<'a>(node: &'a WidgetNode, x: i32, y: i32, q: Seek) -> (r: Option<
    (&'a WidgetNode, Option<&'a WidgetNode>),
>)
    ensures
        hit_of(r, pick_path(*node, x as int, y as int), q),
    decreases node,
{
    if !covers_exec(node.hit_box, x, y) {
        return None;
    }
    let mut best: Option<(&'a WidgetNode, Option<&'a WidgetNode>)> = None;
    let mut i: usize = 0;
    assert(node.children@.take(0) =~= Seq::<WidgetNode>::empty());
    while i < node.children.len()
        invariant
            i <= node.children.len(),
            hit_of(best, pick_last(node.children@.take(i as int), x as int, y as int), q),
        decreases node.children.len() - i,
    {
        proof {
            assert(decreases_to!(*node => node.children));
            assert(decreases_to!(node.children => node.children@));
            assert(decreases_to!(node.children@ => node.children@[i as int]));
        }
        let ghost prefix = node.children@.take(i as int);
        let ghost next = node.children@.take(i as int + 1);
        assert(next.drop_last() =~= prefix);
        assert(next.last() == node.children@[i as int]);
        match pick(&node.children[i], x, y, q) {
            Some(h) => {
                best = Some(h);
            },
            None => {},
        }
        i += 1;
    }
    assert(node.children@.take(node.children.len() as int) =~= node.children@);
    let own: Option<&'a WidgetNode> = if seeks_exec(q, node) {
        Some(node)
    } else {
        None
    };
    proof {
        lemma_pick_last_nonempty(node.children@, x as int, y as int);
    }
    match best {
        Some((leaf, near)) => {
            let ghost p = pick_last(node.children@, x as int, y as int)->0;
            proof {
                lemma_nearest_cons(*node, p, q);
                assert((seq![*node] + p).last() == p.last());
            }
            let near2 = match near {
                Some(m) => Some(m),
                None => own,
            };
            Some((leaf, near2))
        },
        None => {
            proof {
                lemma_nearest_cons(*node, Seq::<WidgetNode>::empty(), q);
                assert(seq![*node] + Seq::<WidgetNode>::empty() =~= seq![*node]);
            }
            Some((node, own))
        },
    }
}

/// The deepest widget of `window` under window-local point `(x, y)`, with
/// the nearest widget on the path to it that `q` looks for. A point outside
/// the window's allocation is `OutOfBounds`; a point no widget covers is
/// `NoWidgetAtPoint`.
pub fn resolve_xy_nearest<'a>(window: &'a WidgetNode, x: i32, y: i32, q: Seek) -> (r: Result<
    (&'a WidgetNode, Option<&'a WidgetNode>),
    TapError,
>)
    ensures
        (x < 0 || y < 0 || x >= window.width || y >= window.height) ==> r == Err::<
            (&'a WidgetNode, Option<&'a WidgetNode>),
            TapError,
        >(TapError::OutOfBounds { x, y }),
        !(x < 0 || y < 0 || x >= window.width || y >= window.height) ==> match pick_path(
            *window,
            x as int,
            y as int,
        ) {
            None => r == Err::<(&'a WidgetNode, Option<&'a WidgetNode>), TapError>(
                TapError::NoWidgetAtPoint { x, y },
            ),
            Some(p) => r matches Ok((leaf, near)) && *leaf == p.last() && opt_node(near)
                == nearest(p, q),
        },
{
    if x < 0 || y < 0 || x >= window.width || y >= window.height {
        return Err(TapError::OutOfBounds { x, y });
    }
    match pick(window, x, y, q) {
        Some(h) => Ok(h),
        None => Err(TapError::NoWidgetAtPoint { x, y }),
    }
}

/// The deepest widget of `window` under window-local point `(x, y)`.
pub fn resolve_xy<'a>(window: &'a WidgetNode, x: i32, y: i32) -> (r: Result<
    &'a WidgetNode,
    TapError,
>)
    ensures
        (x < 0 || y < 0 || x >= window.width || y >= window.height) ==> r == Err::<
            &'a WidgetNode,
            TapError,
        >(TapError::OutOfBounds { x, y }),
        !(x < 0 || y < 0 || x >= window.width || y >= window.height) ==> match pick_path(
            *window,
            x as int,
            y as int,
        ) {
            None => r == Err::<&'a WidgetNode, TapError>(TapError::NoWidgetAtPoint { x, y }),
            Some(p) => r matches Ok(leaf) && *leaf == p.last(),
        },
{
    match resolve_xy_nearest(window, x, y, Seek::Activatable) {
        Ok((leaf, _)) => Ok(leaf),
        Err(e) => Err(e),
    }
}

/// The widget a tap at `(x, y)` lands on: the nearest widget a tap
/// activates on the path to the deepest hit (as a real pointer event bubbles
/// up), or the deepest hit itself when there is none.
pub open spec fn tap_target_at(p: Seq<WidgetNode>) -> WidgetNode {
    match nearest(p, Seek::Activatable) {
        Some(n) => n,
        None => p.last(),
    }
}

/// The widget `(x, y)` names for a tap, see [`tap_target_at`].
pub fn nearest_activatable<'a>(window: &'a WidgetNode, x: i32, y: i32) -> (r: Result<
    &'a WidgetNode,
    TapError,
>)
    ensures
        (x < 0 || y < 0 || x >= window.width || y >= window.height) ==> r == Err::<
            &'a WidgetNode,
            TapError,
        >(TapError::OutOfBounds { x, y }),
        !(x < 0 || y < 0 || x >= window.width || y >= window.height) ==> match pick_path(
            *window,
            x as int,
            y as int,
        ) {
            None => r == Err::<&'a WidgetNode, TapError>(TapError::NoWidgetAtPoint { x, y }),
            Some(p) => r matches Ok(t) && *t == tap_target_at(p),
        },
{
    match resolve_xy_nearest(window, x, y, Seek::Activatable) {
        Ok((leaf, near)) => match near {
            Some(n) => Ok(n),
            None => Ok(leaf),
        },
        Err(e) => Err(e),
    }
}

// ---------------------------------------------------------------------------
// Gesture planning: swipe, pinch, press
// ---------------------------------------------------------------------------

/// Longest accepted swipe, in milliseconds.
pub const MAX_SWIPE_DURATION_MS: u64 = 10_000;

/// Longest accepted pinch, in milliseconds.
pub const MAX_PINCH_DURATION_MS: u64 = 10_000;

/// Longest accepted long-press hold, in milliseconds.
pub const MAX_PRESS_HOLD_MS: u64 = 10_000;

/// Frame rate of the swipe and pinch animations.
pub const TARGET_FPS: u64 = 60;

/// Number of animation frames for a gesture of `d` milliseconds (at least 1).
pub open spec fn frames_for(d: u64) -> u64 {
    let f = d * TARGET_FPS / 1000;
    if f < 1 {
        1
    } else {
        f as u64
    }
}

/// Milliseconds between two frames (at least 1).
pub open spec fn interval_for(d: u64) -> u64 {
    let i = d / frames_for(d);
    if i < 1 {
        1
    } else {
        i as u64
    }
}

/// Frame count and frame interval for a gesture of `d` milliseconds.
pub fn frame_plan(d: u64) -> (r: (u64, u64))
    requires
        d * TARGET_FPS <= u64::MAX,
    ensures
        r == (frames_for(d), interval_for(d)),
{
    let f = d * TARGET_FPS / 1000;
    let frames: u64 = if f < 1 { 1 } else { f };
    let i = d / frames;
    let interval: u64 = if i < 1 { 1 } else { i };
    (frames, interval)
}

/// The window size used for bounds checks: the allocation, or, while the
/// window has no allocation yet, its default size where that is positive.
pub open spec fn effective_size(w: i32, h: i32, dw: i32, dh: i32) -> (i32, i32) {
    if w <= 0 || h <= 0 {
        (if dw > 0 { dw } else { w }, if dh > 0 { dh } else { h })
    } else {
        (w, h)
    }
}

/// Why no target widget was found at a point.
#[derive(Debug, Clone, Copy, PartialEq, Eq, Structural)]
pub enum Miss {
    /// The point is outside the window.
    OutOfBounds,
    /// No widget of the kind sought is under the point.
    Nothing,
}

/// The widget that a gesture at `at` addresses in `window` (default size
/// `(dw, dh)`): the point must lie in the window's effective size and in its
/// allocation; then the nearest widget that `q` looks for on the path to the
/// deepest hit.
pub open spec fn locate(window: WidgetNode, dw: i32, dh: i32, at: XY, q: Seek) -> Result<
    WidgetNode,
    Miss,
> {
    let (w, h) = effective_size(window.width, window.height, dw, dh);
    if at.x < 0 || at.y < 0 || at.x >= w || at.y >= h {
        Err(Miss::OutOfBounds)
    } else if at.x >= window.width || at.y >= window.height {
        Err(Miss::OutOfBounds)
    } else {
        match pick_path(window, at.x as int, at.y as int) {
            None => Err(Miss::Nothing),
            Some(p) => match nearest(p, q) {
                None => Err(Miss::Nothing),
                Some(n) => Ok(n),
            },
        }
    }
}

/// The widget that a gesture at `at` addresses, see [`locate`].
pub fn locate_target<'a>(window: &'a WidgetNode, dw: i32, dh: i32, at: XY, q: Seek) -> (r: Result<
    &'a WidgetNode,
    Miss,
>)
    ensures
        match locate(*window, dw, dh, at, q) {
            Ok(n) => r matches Ok(t) && *t == n,
            Err(m) => r == Err::<&'a WidgetNode, Miss>(m),
        },
{
    let mut w = window.width;
    let mut h = window.height;
    if w <= 0 || h <= 0 {
        if dw > 0 {
            w = dw;
        }
        if dh > 0 {
            h = dh;
        }
    }
    if at.x < 0 || at.y < 0 || at.x >= w || at.y >= h {
        return Err(Miss::OutOfBounds);
    }
    match resolve_xy_nearest(window, at.x, at.y, q) {
        Ok((_, near)) => match near {
            Some(n) => Ok(n),
            None => Err(Miss::Nothing),
        },
        Err(TapError::OutOfBounds { .. }) => Err(Miss::OutOfBounds),
        Err(_) => Err(Miss::Nothing),
    }
}

/// A validated swipe: scroll `scrolled` by `(dx, dy)` over `frames` frames,
/// `frame_interval_ms` apart.
#[derive(Debug, Clone, Copy, PartialEq, Eq, Structural)]
pub struct SwipePlan {
    /// Handle of the scrolled window to animate.
    pub scrolled: usize,
    pub dx: i64,
    pub dy: i64,
    pub frames: u64,
    pub frame_interval_ms: u64,
}

/// The answer to a swipe request, see [`validate`].
pub open spec fn swipe_spec(window: WidgetNode, dw: i32, dh: i32, from: XY, to: XY, d: u64) -> Result<
    SwipePlan,
    SwipeError,
> {
    if d == 0 {
        Err(SwipeError::ZeroDuration)
    } else if d > MAX_SWIPE_DURATION_MS {
        Err(SwipeError::DurationTooLong { duration_ms: d })
    } else {
        match locate(window, dw, dh, from, Seek::Scrollable) {
            Err(Miss::OutOfBounds) => Err(SwipeError::OutOfBounds { x: from.x, y: from.y }),
            Err(Miss::Nothing) => Err(SwipeError::NoScrollableAtPoint { x: from.x, y: from.y }),
            Ok(s) => Ok(
                SwipePlan {
                    scrolled: s.handle,
                    dx: (from.x - to.x) as i64,
                    dy: (from.y - to.y) as i64,
                    frames: frames_for(d),
                    frame_interval_ms: interval_for(d),
                },
            ),
        }
    }
}

/// A swipe scrolls the content against the finger: whenever a swipe is
/// accepted, the planned scroll is the start point minus the end point, on
/// both axes, whatever the window.
pub proof fn law_swipe_scrolls_against_finger(
    window: WidgetNode,
    dw: i32,
    dh: i32,
    from: XY,
    to: XY,
    d: u64,
)
    ensures
        swipe_spec(window, dw, dh, from, to, d) matches Ok(p) ==> p.dx == from.x - to.x && p.dy
            == from.y - to.y,
{
}

/// Validate a swipe from `from` to `to` over `duration_ms` in `window`
/// (default size `(default_width, default_height)`): the duration first
/// (zero, then too long), then the start point, which must lie in a
/// scrolled window. The content scrolls against the finger: by
/// `from - to`.
pub fn validate(
    window: &WidgetNode,
    default_width: i32,
    default_height: i32,
    from: XY,
    to: XY,
    duration_ms: u64,
) -> (r: Result<SwipePlan, SwipeError>)
    ensures
        r == swipe_spec(*window, default_width, default_height, from, to, duration_ms),
        r matches Ok(p) ==> p.dx == from.x - to.x && p.dy == from.y - to.y,
{
    if duration_ms == 0 {
        return Err(SwipeError::ZeroDuration);
    }
    if duration_ms > MAX_SWIPE_DURATION_MS {
        return Err(SwipeError::DurationTooLong { duration_ms });
    }
    let target = match locate_target(window, default_width, default_height, from, Seek::Scrollable) {
        Ok(t) => t,
        Err(Miss::OutOfBounds) => {
            return Err(SwipeError::OutOfBounds { x: from.x, y: from.y });
        },
        Err(Miss::Nothing) => {
            return Err(SwipeError::NoScrollableAtPoint { x: from.x, y: from.y });
        },
    };
    let (frames, frame_interval_ms) = frame_plan(duration_ms);
    Ok(
        SwipePlan {
            scrolled: target.handle,
            dx: from.x as i64 - to.x as i64,
            dy: from.y as i64 - to.y as i64,
            frames,
            frame_interval_ms,
        },
    )
}

/// Bit pattern of the largest accepted pinch scale, `50.0_f32`.
pub const MAX_PINCH_SCALE_BITS: u32 = 0x4248_0000;

/// Bit pattern of the smallest accepted pinch scale, `1.0_f32 / 50.0_f32`.
pub const MIN_PINCH_SCALE_BITS: u32 = 0x3CA3_D70A;

/// Why a pinch scale, given by its IEEE-754 single-precision bit pattern, is
/// refused: NaN, infinite, not positive, above 50, below 1/50 — in that order.
/// Positive finite floats are ordered as their bit patterns are, so the
/// range checks compare bit patterns.
pub open spec fn scale_refusal(bits: u32) -> Option<Seq<char>> {
    let exponent = (bits / 0x80_0000) % 256;
    let mantissa = bits % 0x80_0000;
    if exponent == 255 && mantissa != 0 {
        Some("nan"@)
    } else if exponent == 255 {
        Some("infinite"@)
    } else if bits >= 0x8000_0000 || bits == 0 {
        Some("non_positive"@)
    } else if bits > MAX_PINCH_SCALE_BITS {
        Some("too_large"@)
    } else if bits < MIN_PINCH_SCALE_BITS {
        Some("too_small"@)
    } else {
        None
    }
}

/// Why a pinch scale is refused, see [`scale_refusal`].
pub fn check_scale(bits: u32) -> (r: Option<&'static str>)
    ensures
        match r {
            Some(x) => scale_refusal(bits) == Some(x@),
            None => scale_refusal(bits) is None,
        },
{
    proof {
        reveal_strlit("nan");
        reveal_strlit("infinite");
        reveal_strlit("non_positive");
        reveal_strlit("too_large");
        reveal_strlit("too_small");
    }
    let exponent = (bits / 0x80_0000) % 256;
    let mantissa = bits % 0x80_0000;
    if exponent == 255 && mantissa != 0 {
        Some("nan")
    } else if exponent == 255 {
        Some("infinite")
    } else if bits >= 0x8000_0000 || bits == 0 {
        Some("non_positive")
    } else if bits > MAX_PINCH_SCALE_BITS {
        Some("too_large")
    } else if bits < MIN_PINCH_SCALE_BITS {
        Some("too_small")
    } else {
        None
    }
}

/// A validated pinch: drive the zoom gesture of widget `gesture_owner` from
/// scale 1 to the scale with bit pattern `scale_bits` over `frames` frames.
#[derive(Debug, Clone, Copy, PartialEq, Eq, Structural)]
pub struct PinchPlan {
    pub gesture_owner: usize,
    pub scale_bits: u32,
    pub frames: u64,
    pub frame_interval_ms: u64,
}

/// The answer to a pinch request whose scale is accepted, see
/// [`validate_pinch`].
pub open spec fn pinch_spec(window: WidgetNode, dw: i32, dh: i32, center: XY, scale_bits: u32, d: u64) -> Result<
    PinchPlan,
    PinchError,
> {
    if d == 0 {
        Err(PinchError::ZeroDuration)
    } else if d > MAX_PINCH_DURATION_MS {
        Err(PinchError::DurationTooLong { duration_ms: d })
    } else {
        match locate(window, dw, dh, center, Seek::Zoomable) {
            Err(Miss::OutOfBounds) => Err(PinchError::OutOfBounds { x: center.x, y: center.y }),
            Err(Miss::Nothing) => Err(PinchError::NoPinchableAtPoint { x: center.x, y: center.y }),
            Ok(g) => Ok(
                PinchPlan {
                    gesture_owner: g.handle,
                    scale_bits,
                    frames: frames_for(d),
                    frame_interval_ms: interval_for(d),
                },
            ),
        }
    }
}

/// Validate a pinch around `center` to the scale with single-precision bit
/// pattern `scale_bits` over `duration_ms`: the scale first, then the
/// duration, then the point, which must lie in a widget (or descendant of
/// one) with a zoom gesture.
pub fn validate_pinch(
    window: &WidgetNode,
    default_width: i32,
    default_height: i32,
    center: XY,
    scale_bits: u32,
    duration_ms: u64,
) -> (r: Result<PinchPlan, PinchError>)
    ensures
        match scale_refusal(scale_bits) {
            Some(reason) => r matches Err(PinchError::InvalidScale { reason: x }) && x@ == reason,
            None => r == pinch_spec(*window, default_width, default_height, center, scale_bits, duration_ms),
        },
{
    if let Some(reason) = check_scale(scale_bits) {
        return Err(PinchError::InvalidScale { reason });
    }
    if duration_ms == 0 {
        return Err(PinchError::ZeroDuration);
    }
    if duration_ms > MAX_PINCH_DURATION_MS {
        return Err(PinchError::DurationTooLong { duration_ms });
    }
    let target = match locate_target(window, default_width, default_height, center, Seek::Zoomable) {
        Ok(t) => t,
        Err(Miss::OutOfBounds) => {
            return Err(PinchError::OutOfBounds { x: center.x, y: center.y });
        },
        Err(Miss::Nothing) => {
            return Err(PinchError::NoPinchableAtPoint { x: center.x, y: center.y });
        },
    };
    let (frames, frame_interval_ms) = frame_plan(duration_ms);
    Ok(PinchPlan { gesture_owner: target.handle, scale_bits, frames, frame_interval_ms })
}

/// A validated long press: after `hold_ms`, fire the long-press gesture of
/// widget `gesture_owner` at `at`, or at the centre of the selected widget
/// when `at` is `None`.
#[derive(Debug, Clone, Copy, PartialEq, Eq, Structural)]
pub struct LongPressPlan {
    pub gesture_owner: usize,
    pub at: Option<XY>,
    pub hold_ms: u64,
}

/// Refuse a hold of zero or above `MAX_PRESS_HOLD_MS`.
pub fn validate_hold(hold_ms: u64) -> (r: Result<(), PressError>)
    ensures
        hold_ms == 0 ==> r == Err::<(), PressError>(PressError::ZeroHold),
        hold_ms > MAX_PRESS_HOLD_MS ==> r == Err::<(), PressError>(PressError::HoldTooLong { hold_ms }),
        1 <= hold_ms <= MAX_PRESS_HOLD_MS ==> r is Ok,
{
    if hold_ms == 0 {
        return Err(PressError::ZeroHold);
    }
    if hold_ms > MAX_PRESS_HOLD_MS {
        return Err(PressError::HoldTooLong { hold_ms });
    }
    Ok(())
}

/// Validate a long press at `center`: the hold first, then the point, which
/// must lie in a widget (or descendant of one) with a long-press gesture.
pub fn validate_press(
    window: &WidgetNode,
    default_width: i32,
    default_height: i32,
    center: XY,
    hold_ms: u64,
) -> (r: Result<LongPressPlan, PressError>)
    ensures
        hold_ms == 0 ==> r == Err::<LongPressPlan, PressError>(PressError::ZeroHold),
        hold_ms > MAX_PRESS_HOLD_MS ==> r == Err::<LongPressPlan, PressError>(
            PressError::HoldTooLong { hold_ms },
        ),
        1 <= hold_ms <= MAX_PRESS_HOLD_MS ==> match locate(
            *window,
            default_width,
            default_height,
            center,
            Seek::LongPressable,
        ) {
            Err(Miss::OutOfBounds) => r == Err::<LongPressPlan, PressError>(
                PressError::OutOfBounds { x: center.x, y: center.y },
            ),
            Err(Miss::Nothing) => r == Err::<LongPressPlan, PressError>(
                PressError::NoLongPressableAtPoint { x: center.x, y: center.y },
            ),
            Ok(g) => r == Ok::<LongPressPlan, PressError>(
                LongPressPlan { gesture_owner: g.handle, at: Some(center), hold_ms },
            ),
        },
{
    validate_hold(hold_ms)?;
    let target = match locate_target(window, default_width, default_height, center, Seek::LongPressable) {
        Ok(t) => t,
        Err(Miss::OutOfBounds) => {
            return Err(PressError::OutOfBounds { x: center.x, y: center.y });
        },
        Err(Miss::Nothing) => {
            return Err(PressError::NoLongPressableAtPoint { x: center.x, y: center.y });
        },
    };
    Ok(LongPressPlan { gesture_owner: target.handle, at: Some(center), hold_ms })
}

/// Validate a long press on a selected widget, given `owner`, the nearest
/// widget with a long-press gesture on the path to it (itself included): the
/// hold first, then the gesture must exist.
pub fn validate_press_widget(owner: Option<&WidgetNode>, selector: &str, hold_ms: u64) -> (r: Result<
    LongPressPlan,
    PressError,
>)
    ensures
        hold_ms == 0 ==> r == Err::<LongPressPlan, PressError>(PressError::ZeroHold),
        hold_ms > MAX_PRESS_HOLD_MS ==> r == Err::<LongPressPlan, PressError>(
            PressError::HoldTooLong { hold_ms },
        ),
        1 <= hold_ms <= MAX_PRESS_HOLD_MS ==> match owner {
            None => r matches Err(PressError::NoLongPressableForSelector { selector: s }) && s@
                == selector@,
            Some(g) => r == Ok::<LongPressPlan, PressError>(
                LongPressPlan { gesture_owner: g.handle, at: None, hold_ms },
            ),
        },
{
    validate_hold(hold_ms)?;
    match owner {
        None => Err(PressError::NoLongPressableForSelector { selector: selector.to_owned() }),
        Some(g) => Ok(LongPressPlan { gesture_owner: g.handle, at: None, hold_ms }),
    }
}

// ---------------------------------------------------------------------------
// Set value (ranges)
// ---------------------------------------------------------------------------

/// Is the IEEE-754 double with bit pattern `bits` finite (not NaN, not
/// infinite)?
pub open spec fn finite_f64(bits: u64) -> bool {
    (bits / 0x10_0000_0000_0000) % 2048 != 2047
}

/// Refuse a non-finite target value.
pub fn validate_value(bits: u64) -> (r: Result<(), SetValueError>)
    ensures
        finite_f64(bits) ==> r is Ok,
        !finite_f64(bits) ==> (r matches Err(SetValueError::InvalidValue { reason }) && reason@
            == "not_finite"@),
{
    proof {
        reveal_strlit("not_finite");
    }
    if (bits / 0x10_0000_0000_0000) % 2048 == 2047 {
        Err(SetValueError::InvalidValue { reason: "not_finite" })
    } else {
        Ok(())
    }
}

/// Drive a selected widget, which must itself be a range, to the value with
/// bit pattern `value_bits`: the value must be finite, the widget a range,
/// then visible, mapped and sensitive. Names the range to set.
pub fn set_value_widget(node: &WidgetNode, selector: &str, value_bits: u64) -> (r: Result<
    usize,
    SetValueError,
>)
    ensures
        !finite_f64(value_bits) ==> (r matches Err(SetValueError::InvalidValue { reason }) && reason@
            == "not_finite"@),
        finite_f64(value_bits) && node.class != WidgetClass::Range ==> (r matches Err(
            SetValueError::NoRangeForSelector { selector: s },
        ) && s@ == selector@),
        finite_f64(value_bits) && node.class == WidgetClass::Range ==> match obstacle(*node) {
            Some(Obstacle::NotVisible) => r matches Err(SetValueError::WidgetNotVisible { selector: s })
                && string_opt(s) == Some(selector@),
            Some(Obstacle::Disabled) => r matches Err(SetValueError::WidgetDisabled { selector: s })
                && string_opt(s) == Some(selector@),
            None => r == Ok::<usize, SetValueError>(node.handle),
        },
{
    validate_value(value_bits)?;
    if node.class != WidgetClass::Range {
        return Err(SetValueError::NoRangeForSelector { selector: selector.to_owned() });
    }
    match check_obstacle(node) {
        Some(Obstacle::NotVisible) => Err(SetValueError::WidgetNotVisible { selector: Some(selector.to_owned()) }),
        Some(Obstacle::Disabled) => Err(SetValueError::WidgetDisabled { selector: Some(selector.to_owned()) }),
        None => Ok(node.handle),
    }
}

/// A validated set-value at a point: set range `range` to the value with bit
/// pattern `value_bits`, or, when that is `None`, to the value the point's
/// position along the range implies.
#[derive(Debug, Clone, Copy, PartialEq, Eq, Structural)]
pub struct SetValuePlan {
    pub range: usize,
    pub value_bits: Option<u64>,
}

/// The answer to a set-value at `xy` in `window`, see [`set_value_at`].
pub open spec fn set_value_at_post(r: Result<SetValuePlan, SetValueError>, window: WidgetNode, xy: XY, value_bits: Option<u64>) -> bool {
    &&& (value_bits matches Some(b) && !finite_f64(b)) ==> (r matches Err(
            SetValueError::InvalidValue { reason },
        ) && reason@ == "not_finite"@)
    &&& !(value_bits matches Some(b) && !finite_f64(b)) ==> {
            if xy.x < 0 || xy.y < 0 || xy.x >= window.width || xy.y >= window.height {
                r == Err::<SetValuePlan, SetValueError>(SetValueError::OutOfBounds { x: xy.x, y: xy.y })
            } else {
                match pick_path(window, xy.x as int, xy.y as int) {
                    None => r == Err::<SetValuePlan, SetValueError>(
                        SetValueError::NoRangeAtPoint { x: xy.x, y: xy.y },
                    ),
                    Some(p) => match nearest(p, Seek::Range) {
                        None => r == Err::<SetValuePlan, SetValueError>(
                            SetValueError::NoRangeAtPoint { x: xy.x, y: xy.y },
                        ),
                        Some(g) => match obstacle(g) {
                            Some(Obstacle::NotVisible) => r matches Err(
                                SetValueError::WidgetNotVisible { selector: None },
                            ),
                            Some(Obstacle::Disabled) => r matches Err(
                                SetValueError::WidgetDisabled { selector: None },
                            ),
                            None => r == Ok::<SetValuePlan, SetValueError>(
                                SetValuePlan { range: g.handle, value_bits },
                            ),
                        },
                    },
                }
            }
        }
}

/// Drive the range under window-local `xy`: a given value must be finite;
/// the point must lie in the window's allocation and in a range (or a
/// descendant of one), which must be visible, mapped and sensitive.
pub fn set_value_at(window: &WidgetNode, xy: XY, value_bits: Option<u64>) -> (r: Result<
    SetValuePlan,
    SetValueError,
>)
    ensures
        set_value_at_post(r, *window, xy, value_bits),
{
    if let Some(b) = value_bits {
        validate_value(b)?;
    }
    let range = match resolve_xy_nearest(window, xy.x, xy.y, Seek::Range) {
        Ok((_, Some(g))) => g,
        Ok((_, None)) => {
            return Err(SetValueError::NoRangeAtPoint { x: xy.x, y: xy.y });
        },
        Err(TapError::OutOfBounds { x, y }) => {
            return Err(SetValueError::OutOfBounds { x, y });
        },
        Err(_) => {
            return Err(SetValueError::NoRangeAtPoint { x: xy.x, y: xy.y });
        },
    };
    match check_obstacle(range) {
        Some(Obstacle::NotVisible) => Err(SetValueError::WidgetNotVisible { selector: None }),
        Some(Obstacle::Disabled) => Err(SetValueError::WidgetDisabled { selector: None }),
        None => Ok(SetValuePlan { range: range.handle, value_bits }),
    }
}

// ---------------------------------------------------------------------------
// The path to a selected widget
// ---------------------------------------------------------------------------

/// The path from `n` to the first widget of its subtree, in depth-first
/// order, that satisfies `sel`.
pub open spec fn match_path(n: WidgetNode, sel: SelectorView) -> Option<Seq<WidgetNode>>
    decreases n,
{
    if node_matches(sel, n) {
        Some(seq![n])
    } else {
        match match_path_all(n.children@, sel) {
            Some(p) => Some(seq![n] + p),
            None => None,
        }
    }
}

/// The path into the first tree of `s` that holds a widget satisfying `sel`.
pub open spec fn match_path_all(s: Seq<WidgetNode>, sel: SelectorView) -> Option<Seq<WidgetNode>>
    decreases s,
{
    if s.len() == 0 {
        None
    } else {
        match match_path_all(s.drop_last(), sel) {
            Some(p) => Some(p),
            None => match_path(s.last(), sel),
        }
    }
}

pub open spec fn path_end(p: Option<Seq<WidgetNode>>) -> Option<WidgetNode> {
    match p {
        Some(x) => Some(x.last()),
        None => None,
    }
}

/// The path to a selected widget ends at the first match in depth-first
/// order.
pub proof fn lemma_match_path_ends_at_first_match(n: WidgetNode, sel: SelectorView)
    ensures
        path_end(match_path(n, sel)) == first_match(preorder(n), sel),
        match_path(n, sel) matches Some(p) ==> p.len() > 0,
    decreases n,
{
    let pre = preorder(n);
    assert(pre[0] == n);
    assert(pre.drop_first() =~= preorder_all(n.children@));
    lemma_match_path_all_ends_at_first_match(n.children@, sel);
}

/// Over a sequence of trees, the path ends at the first match of their
/// concatenated depth-first orders.
pub proof fn lemma_match_path_all_ends_at_first_match(s: Seq<WidgetNode>, sel: SelectorView)
    ensures
        path_end(match_path_all(s, sel)) == first_match(preorder_all(s), sel),
        match_path_all(s, sel) matches Some(p) ==> p.len() > 0,
    decreases s,
{
    if s.len() > 0 {
        lemma_match_path_all_ends_at_first_match(s.drop_last(), sel);
        lemma_match_path_ends_at_first_match(s.last(), sel);
        lemma_first_match_append(preorder_all(s.drop_last()), preorder(s.last()), sel);
    }
}

pub open spec fn found_of<'a>(r: Option<(&'a WidgetNode, Option<&'a WidgetNode>)>, p: Option<
    Seq<WidgetNode>,
>, q: Seek) -> bool {
    match p {
        None => r is None,
        Some(path) => r matches Some((m, near)) && *m == path.last() && opt_node(near) == nearest(
            path,
            q,
        ),
    }
}

fn walk_nearest<'a>(node: &'a WidgetNode, sel: &crate::tree::Selector, q: Seek) -> (r: Option<
    (&'a WidgetNode, Option<&'a WidgetNode>),
>)
    ensures
        found_of(r, match_path(*node, sel@), q),
    decreases node,
{
    let own: Option<&'a WidgetNode> = if seeks_exec(q, node) {
        Some(node)
    } else {
        None
    };
    if crate::tree::matches_selector(node, sel) {
        proof {
            lemma_nearest_cons(*node, Seq::<WidgetNode>::empty(), q);
            assert(seq![*node] + Seq::<WidgetNode>::empty() =~= seq![*node]);
        }
        return Some((node, own));
    }
    let mut i: usize = 0;
    assert(node.children@.take(0) =~= Seq::<WidgetNode>::empty());
    while i < node.children.len()
        invariant
            i <= node.children.len(),
            !node_matches(sel@, *node),
            match_path_all(node.children@.take(i as int), sel@) is None,
            own == (if seeks(q, *node) { Some(node) } else { None::<&'a WidgetNode> }),
        decreases node.children.len() - i,
    {
        proof {
            assert(decreases_to!(*node => node.children));
            assert(decreases_to!(node.children => node.children@));
            assert(decreases_to!(node.children@ => node.children@[i as int]));
        }
        let ghost prefix = node.children@.take(i as int);
        let ghost next = node.children@.take(i as int + 1);
        assert(next.drop_last() =~= prefix);
        assert(next.last() == node.children@[i as int]);
        match walk_nearest(&node.children[i], sel, q) {
            Some((m, near)) => {
                proof {
                    lemma_match_path_prefix(node.children@, i as int + 1, sel@);
                    let p = match_path(node.children@[i as int], sel@)->0;
                    lemma_match_path_ends_at_first_match(node.children@[i as int], sel@);
                    lemma_nearest_cons(*node, p, q);
                    assert((seq![*node] + p).last() == p.last());
                }
                let near2 = match near {
                    Some(x) => Some(x),
                    None => own,
                };
                return Some((m, near2));
            },
            None => {},
        }
        i += 1;
    }
    assert(node.children@.take(node.children.len() as int) =~= node.children@);
    None
}

/// A path found among the first `n` trees is the path over all of them.
proof fn lemma_match_path_prefix(s: Seq<WidgetNode>, n: int, sel: SelectorView)
    requires
        0 <= n <= s.len(),
        match_path_all(s.take(n), sel) is Some,
    ensures
        match_path_all(s, sel) == match_path_all(s.take(n), sel),
    decreases s.len() - n,
{
    if n < s.len() {
        assert(s.take(n + 1).drop_last() =~= s.take(n));
        lemma_match_path_prefix(s, n + 1, sel);
    } else {
        assert(s.take(n) =~= s);
    }
}

/// The first widget of `tree`, in depth-first order over all windows, that
/// satisfies `selector`, with the nearest widget on the path to it (itself
/// included) that `q` looks for.
pub fn find_first_nearest<'a>(tree: &'a WidgetTree, selector: &crate::tree::Selector, q: Seek) -> (r: Option<
    (&'a WidgetNode, Option<&'a WidgetNode>),
>)
    ensures
        found_of(r, match_path_all(tree.roots@, selector@), q),
{
    let mut i: usize = 0;
    assert(tree.roots@.take(0) =~= Seq::<WidgetNode>::empty());
    while i < tree.roots.len()
        invariant
            i <= tree.roots.len(),
            match_path_all(tree.roots@.take(i as int), selector@) is None,
        decreases tree.roots.len() - i,
    {
        let ghost prefix = tree.roots@.take(i as int);
        let ghost next = tree.roots@.take(i as int + 1);
        assert(next.drop_last() =~= prefix);
        assert(next.last() == tree.roots@[i as int]);
        match walk_nearest(&tree.roots[i], selector, q) {
            Some(h) => {
                proof {
                    lemma_match_path_prefix(tree.roots@, i as int + 1, selector@);
                }
                return Some(h);
            },
            None => {},
        }
        i += 1;
    }
    assert(tree.roots@.take(tree.roots.len() as int) =~= tree.roots@);
    None
}

// ---------------------------------------------------------------------------
// Dispatch of whole requests
// ---------------------------------------------------------------------------

/// What a selector that does not parse is reported as by the dispatchers
/// (requests are pre-validated, so this is a fallback): `<selector>: <reason>`.
pub open spec fn unparsed_selector(selector: Seq<char>, reason: Seq<char>) -> Seq<char> {
    selector + ": "@ + reason
}

fn unparsed_message(selector: &str, reason: &str) -> (r: String)
    ensures
        r@ == unparsed_selector(selector@, reason@),
{
    let mut m = selector.to_owned();
    proof {
        reveal_strlit(": ");
    }
    m.append(": ");
    m.append(reason);
    m
}

pub open spec fn with_handle<A, E>(r: Result<(usize, A), E>) -> Result<A, E> {
    match r {
        Ok((_, a)) => Ok(a),
        Err(e) => Err(e),
    }
}

/// Tap `target`: a selector names the first widget (depth first, over all
/// windows) that it matches; a point names, in `window` (the active window),
/// the nearest widget a tap activates on the path to the deepest hit, or the
/// deepest hit itself. Names the tapped widget's handle.
pub fn dispatch_tap(tree: &WidgetTree, window: Option<&WidgetNode>, target: &crate::proto::TapTarget) -> (r: Result<
    (usize, TapAction),
    TapError,
>)
    ensures
        match target {
            crate::proto::TapTarget::Selector { selector } => match selector_refusal(selector@) {
                Some(reason) => r matches Err(TapError::SelectorNotFound { selector: s }) && s@
                    == unparsed_selector(selector@, reason),
                None => match first_match(preorder_all(tree.roots@), selector_of(selector@)) {
                    None => r matches Err(TapError::SelectorNotFound { selector: s }) && s@
                        == selector@,
                    Some(w) => tapped(with_handle(r), w, Some(selector@)) && (r matches Ok((h, _))
                        ==> h == w.handle),
                },
            },
            crate::proto::TapTarget::Xy { xy } => match window {
                None => r == Err::<(usize, TapAction), TapError>(TapError::NoActiveWindow),
                Some(win) => if xy.x < 0 || xy.y < 0 || xy.x >= win.width || xy.y >= win.height {
                    r == Err::<(usize, TapAction), TapError>(
                        TapError::OutOfBounds { x: xy.x, y: xy.y },
                    )
                } else {
                    match pick_path(*win, xy.x as int, xy.y as int) {
                        None => r == Err::<(usize, TapAction), TapError>(
                            TapError::NoWidgetAtPoint { x: xy.x, y: xy.y },
                        ),
                        Some(p) => tapped(with_handle(r), tap_target_at(p), None) && (r matches Ok(
                            (h, _),
                        ) ==> h == tap_target_at(p).handle),
                    }
                },
            },
        },
{
    match target {
        crate::proto::TapTarget::Selector { selector } => {
            let sel = match parse_selector(selector.as_str()) {
                Ok(s) => s,
                Err(e) => {
                    return Err(
                        TapError::SelectorNotFound {
                            selector: unparsed_message(selector.as_str(), e.reason),
                        },
                    );
                },
            };
            let w = match find_first(tree, &sel) {
                Some(w) => w,
                None => {
                    return Err(TapError::SelectorNotFound { selector: selector.clone() });
                },
            };
            match tap_widget(w, Some(selector.as_str())) {
                Ok(a) => Ok((w.handle, a)),
                Err(e) => Err(e),
            }
        },
        crate::proto::TapTarget::Xy { xy } => {
            let win = match window {
                Some(w) => w,
                None => {
                    return Err(TapError::NoActiveWindow);
                },
            };
            let t = nearest_activatable(win, xy.x, xy.y)?;
            match tap_widget(t, None) {
                Ok(a) => Ok((t.handle, a)),
                Err(e) => Err(e),
            }
        },
    }
}

/// Replace the text of the first widget matching the request's selector.
/// Names the widget's handle.
pub fn dispatch_type(tree: &WidgetTree, req: &crate::proto::TypeRequest) -> (r: Result<
    (usize, TypeEdit),
    TypeError,
>)
    ensures
        match selector_refusal(req.selector@) {
            Some(reason) => r matches Err(TypeError::SelectorNotFound { selector: s }) && s@
                == unparsed_selector(req.selector@, reason),
            None => match first_match(preorder_all(tree.roots@), selector_of(req.selector@)) {
                None => r matches Err(TypeError::SelectorNotFound { selector: s }) && s@
                    == req.selector@,
                Some(w) => typed(with_handle(r), w, req.text@, Some(req.selector@)) && (r matches Ok((
                    h,
                    _,
                )) ==> h == w.handle),
            },
        },
{
    let sel = match parse_selector(req.selector.as_str()) {
        Ok(s) => s,
        Err(e) => {
            return Err(
                TypeError::SelectorNotFound {
                    selector: unparsed_message(req.selector.as_str(), e.reason),
                },
            );
        },
    };
    let w = match find_first(tree, &sel) {
        Some(w) => w,
        None => {
            return Err(TypeError::SelectorNotFound { selector: req.selector.clone() });
        },
    };
    match type_text(w, req.text.as_str(), Some(req.selector.as_str())) {
        Ok(a) => Ok((w.handle, a)),
        Err(e) => Err(e),
    }
}

/// Find the widget a focus request names and run the same checks;
/// names the widget to ask for keyboard focus (see [`focus_outcome`]).
pub fn dispatch_focus(tree: &WidgetTree, req: &crate::proto::FocusRequest) -> (r: Result<usize, FocusError>)
    ensures
        match selector_refusal(req.selector@) {
            Some(reason) => r matches Err(FocusError::SelectorNotFound { selector: s }) && s@
                == unparsed_selector(req.selector@, reason),
            None => match first_match(preorder_all(tree.roots@), selector_of(req.selector@)) {
                None => r matches Err(FocusError::SelectorNotFound { selector: s }) && s@
                    == req.selector@,
                Some(w) => match obstacle(w) {
                    Some(Obstacle::NotVisible) => r matches Err(
                        FocusError::WidgetNotVisible { selector: s },
                    ) && string_opt(s) == Some(req.selector@),
                    Some(Obstacle::Disabled) => r matches Err(FocusError::WidgetDisabled { selector: s })
                        && string_opt(s) == Some(req.selector@),
                    None => r == Ok::<usize, FocusError>(w.handle),
                },
            },
        },
{
    let sel = match parse_selector(req.selector.as_str()) {
        Ok(s) => s,
        Err(e) => {
            return Err(
                FocusError::SelectorNotFound {
                    selector: unparsed_message(req.selector.as_str(), e.reason),
                },
            );
        },
    };
    let w = match find_first(tree, &sel) {
        Some(w) => w,
        None => {
            return Err(FocusError::SelectorNotFound { selector: req.selector.clone() });
        },
    };
    focus_widget(w, Some(req.selector.as_str()))?;
    Ok(w.handle)
}

pub open spec fn target_reason() -> Seq<char> {
    "exactly one of selector / xy required"@
}

pub open spec fn value_required_reason() -> Seq<char> {
    "value is required when targeting by selector"@
}

/// A long press on exactly one of a selected widget or a point of `window`
/// (the active window, default size `(default_width, default_height)`).
pub fn dispatch_press(
    tree: &WidgetTree,
    window: Option<&WidgetNode>,
    default_width: i32,
    default_height: i32,
    selector: Option<&str>,
    xy: Option<XY>,
    hold_ms: u64,
) -> (r: Result<LongPressPlan, PressError>)
    ensures
        match (selector, xy) {
            (Some(sel), None) => match selector_refusal(sel@) {
                Some(reason) => r matches Err(PressError::SelectorNotFound { selector: s }) && s@
                    == unparsed_selector(sel@, reason),
                None => match match_path_all(tree.roots@, selector_of(sel@)) {
                    None => r matches Err(PressError::SelectorNotFound { selector: s }) && s@
                        == sel@,
                    Some(p) => {
                        &&& hold_ms == 0 ==> r == Err::<LongPressPlan, PressError>(
                            PressError::ZeroHold,
                        )
                        &&& hold_ms > MAX_PRESS_HOLD_MS ==> r == Err::<LongPressPlan, PressError>(
                            PressError::HoldTooLong { hold_ms },
                        )
                        &&& 1 <= hold_ms <= MAX_PRESS_HOLD_MS ==> match nearest(
                            p,
                            Seek::LongPressable,
                        ) {
                            None => r matches Err(
                                PressError::NoLongPressableForSelector { selector: s },
                            ) && s@ == sel@,
                            Some(g) => r == Ok::<LongPressPlan, PressError>(
                                LongPressPlan { gesture_owner: g.handle, at: None, hold_ms },
                            ),
                        }
                    },
                },
            },
            (None, Some(c)) => match window {
                None => r == Err::<LongPressPlan, PressError>(PressError::NoActiveWindow),
                Some(win) => {
                    &&& hold_ms == 0 ==> r == Err::<LongPressPlan, PressError>(PressError::ZeroHold)
                    &&& hold_ms > MAX_PRESS_HOLD_MS ==> r == Err::<LongPressPlan, PressError>(
                        PressError::HoldTooLong { hold_ms },
                    )
                    &&& 1 <= hold_ms <= MAX_PRESS_HOLD_MS ==> match locate(
                        *win,
                        default_width,
                        default_height,
                        c,
                        Seek::LongPressable,
                    ) {
                        Err(Miss::OutOfBounds) => r == Err::<LongPressPlan, PressError>(
                            PressError::OutOfBounds { x: c.x, y: c.y },
                        ),
                        Err(Miss::Nothing) => r == Err::<LongPressPlan, PressError>(
                            PressError::NoLongPressableAtPoint { x: c.x, y: c.y },
                        ),
                        Ok(g) => r == Ok::<LongPressPlan, PressError>(
                            LongPressPlan { gesture_owner: g.handle, at: Some(c), hold_ms },
                        ),
                    }
                },
            },
            _ => r matches Err(PressError::InvalidTarget { reason }) && reason@ == target_reason(),
        },
{
    proof {
        reveal_strlit("exactly one of selector / xy required");
    }
    match (selector, xy) {
        (Some(sel_str), None) => {
            let sel = match parse_selector(sel_str) {
                Ok(s) => s,
                Err(e) => {
                    return Err(
                        PressError::SelectorNotFound { selector: unparsed_message(sel_str, e.reason) },
                    );
                },
            };
            match find_first_nearest(tree, &sel, Seek::LongPressable) {
                None => Err(PressError::SelectorNotFound { selector: sel_str.to_owned() }),
                Some((_, owner)) => validate_press_widget(owner, sel_str, hold_ms),
            }
        },
        (None, Some(c)) => match window {
            None => Err(PressError::NoActiveWindow),
            Some(win) => validate_press(win, default_width, default_height, c, hold_ms),
        },
        _ => Err(PressError::InvalidTarget { reason: "exactly one of selector / xy required" }),
    }
}

/// Set the value of a range named by exactly one of a selector (which then
/// needs an explicit value) or a point of `window` (the active window).
pub fn dispatch_set_value(
    tree: &WidgetTree,
    window: Option<&WidgetNode>,
    selector: Option<&str>,
    xy: Option<XY>,
    value_bits: Option<u64>,
) -> (r: Result<SetValuePlan, SetValueError>)
    ensures
        match (selector, xy) {
            (Some(sel), None) => match value_bits {
                None => r matches Err(SetValueError::InvalidTarget { reason }) && reason@
                    == value_required_reason(),
                Some(v) => match selector_refusal(sel@) {
                    Some(reason) => r matches Err(SetValueError::SelectorNotFound { selector: s })
                        && s@ == unparsed_selector(sel@, reason),
                    None => match first_match(preorder_all(tree.roots@), selector_of(sel@)) {
                        None => r matches Err(SetValueError::SelectorNotFound { selector: s }) && s@
                            == sel@,
                        Some(w) => {
                            &&& !finite_f64(v) ==> (r matches Err(
                                SetValueError::InvalidValue { reason },
                            ) && reason@ == "not_finite"@)
                            &&& finite_f64(v) && w.class != WidgetClass::Range ==> (r matches Err(
                                SetValueError::NoRangeForSelector { selector: s },
                            ) && s@ == sel@)
                            &&& finite_f64(v) && w.class == WidgetClass::Range ==> match obstacle(w) {
                                Some(Obstacle::NotVisible) => r matches Err(
                                    SetValueError::WidgetNotVisible { selector: s },
                                ) && string_opt(s) == Some(sel@),
                                Some(Obstacle::Disabled) => r matches Err(
                                    SetValueError::WidgetDisabled { selector: s },
                                ) && string_opt(s) == Some(sel@),
                                None => r == Ok::<SetValuePlan, SetValueError>(
                                    SetValuePlan { range: w.handle, value_bits },
                                ),
                            }
                        },
                    },
                },
            },
            (None, Some(c)) => match window {
                None => r == Err::<SetValuePlan, SetValueError>(SetValueError::NoActiveWindow),
                Some(win) => set_value_at_post(r, *win, c, value_bits),
            },
            _ => r matches Err(SetValueError::InvalidTarget { reason }) && reason@
                == target_reason(),
        },
{
    proof {
        reveal_strlit("exactly one of selector / xy required");
        reveal_strlit("value is required when targeting by selector");
    }
    match (selector, xy) {
        (Some(sel_str), None) => {
            let v = match value_bits {
                Some(v) => v,
                None => {
                    return Err(
                        SetValueError::InvalidTarget {
                            reason: "value is required when targeting by selector",
                        },
                    );
                },
            };
            let sel = match parse_selector(sel_str) {
                Ok(s) => s,
                Err(e) => {
                    return Err(
                        SetValueError::SelectorNotFound {
                            selector: unparsed_message(sel_str, e.reason),
                        },
                    );
                },
            };
            match find_first(tree, &sel) {
                None => Err(SetValueError::SelectorNotFound { selector: sel_str.to_owned() }),
                Some(w) => {
                    let h = set_value_widget(w, sel_str, v)?;
                    Ok(SetValuePlan { range: h, value_bits })
                },
            }
        },
        (None, Some(c)) => match window {
            None => Err(SetValueError::NoActiveWindow),
            Some(win) => set_value_at(win, c, value_bits),
        },
        _ => Err(SetValueError::InvalidTarget { reason: "exactly one of selector / xy required" }),
    }
}

// ---------------------------------------------------------------------------
// Keys
// ---------------------------------------------------------------------------

/// The last open (visible) popover of a sequence of widgets.
pub open spec fn last_open_popover(s: Seq<WidgetNode>) -> Option<WidgetNode>
    decreases s.len(),
{
    if s.len() == 0 {
        None
    } else if s.last().class == WidgetClass::Popover && s.last().visible {
        Some(s.last())
    } else {
        last_open_popover(s.drop_last())
    }
}

proof fn lemma_last_open_popover_append(a: Seq<WidgetNode>, b: Seq<WidgetNode>)
    ensures
        last_open_popover(a + b) == (if last_open_popover(b) is Some {
            last_open_popover(b)
        } else {
            last_open_popover(a)
        }),
    decreases b.len(),
{
    if b.len() == 0 {
        assert(a + b =~= a);
    } else {
        assert((a + b).drop_last() =~= a + b.drop_last());
        assert((a + b).last() == b.last());
        lemma_last_open_popover_append(a, b.drop_last());
    }
}

fn topmost_in<'a>(node: &'a WidgetNode, found: Option<&'a WidgetNode>) -> (r: Option<&'a WidgetNode>)
    ensures
        opt_node(r) == (if last_open_popover(preorder(*node)) is Some {
            last_open_popover(preorder(*node))
        } else {
            opt_node(found)
        }),
    decreases node,
{
    let mut cur: Option<&'a WidgetNode> = if node.class == WidgetClass::Popover && node.visible {
        Some(node)
    } else {
        found
    };
    proof {
        assert(seq![*node].drop_last() =~= Seq::<WidgetNode>::empty());
    }
    let mut i: usize = 0;
    assert(node.children@.take(0) =~= Seq::<WidgetNode>::empty());
    assert(preorder_all(Seq::<WidgetNode>::empty()) =~= Seq::<WidgetNode>::empty());
    assert(seq![*node] + preorder_all(node.children@.take(0)) =~= seq![*node]);
    assert(last_open_popover(Seq::<WidgetNode>::empty()) is None);
    assert(seq![*node].last() == *node);
    while i < node.children.len()
        invariant
            i <= node.children.len(),
            opt_node(cur) == (if last_open_popover(
                seq![*node] + preorder_all(node.children@.take(i as int)),
            ) is Some {
                last_open_popover(seq![*node] + preorder_all(node.children@.take(i as int)))
            } else {
                opt_node(found)
            }),
        decreases node.children.len() - i,
    {
        proof {
            assert(decreases_to!(*node => node.children));
            assert(decreases_to!(node.children => node.children@));
            assert(decreases_to!(node.children@ => node.children@[i as int]));
        }
        let ghost prefix = node.children@.take(i as int);
        let ghost next = node.children@.take(i as int + 1);
        assert(next.drop_last() =~= prefix);
        assert(next.last() == node.children@[i as int]);
        assert(preorder_all(next) == preorder_all(prefix) + preorder(node.children@[i as int]));
        proof {
            assert(seq![*node] + preorder_all(next) =~= (seq![*node] + preorder_all(prefix))
                + preorder(node.children@[i as int]));
            lemma_last_open_popover_append(
                seq![*node] + preorder_all(prefix),
                preorder(node.children@[i as int]),
            );
        }
        cur = topmost_in(&node.children[i], cur);
        i += 1;
    }
    assert(node.children@.take(node.children.len() as int) =~= node.children@);
    cur
}

/// The topmost open popover of `tree`: the last visible popover in
/// depth-first order over all windows (a popover's content comes after the
/// popover itself, so nested popovers come last).
pub fn topmost_popover<'a>(tree: &'a WidgetTree) -> (r: Option<&'a WidgetNode>)
    ensures
        opt_node(r) == last_open_popover(preorder_all(tree.roots@)),
{
    let mut cur: Option<&'a WidgetNode> = None;
    let mut i: usize = 0;
    assert(tree.roots@.take(0) =~= Seq::<WidgetNode>::empty());
    while i < tree.roots.len()
        invariant
            i <= tree.roots.len(),
            opt_node(cur) == last_open_popover(preorder_all(tree.roots@.take(i as int))),
        decreases tree.roots.len() - i,
    {
        let ghost prefix = tree.roots@.take(i as int);
        let ghost next = tree.roots@.take(i as int + 1);
        assert(next.drop_last() =~= prefix);
        assert(next.last() == tree.roots@[i as int]);
        assert(preorder_all(next) == preorder_all(prefix) + preorder(tree.roots@[i as int]));
        proof {
            lemma_last_open_popover_append(preorder_all(prefix), preorder(tree.roots@[i as int]));
        }
        cur = topmost_in(&tree.roots[i], cur);
        i += 1;
    }
    assert(tree.roots@.take(tree.roots.len() as int) =~= tree.roots@);
    cur
}

/// Send a key: only `Escape` is supported; it dismisses the topmost open
/// popover, named by its handle (`None`: nothing to dismiss).
pub fn send_key(tree: &WidgetTree, key: &str) -> (r: Result<Option<usize>, KeyError>)
    ensures
        key@ == "Escape"@ ==> r == Ok::<Option<usize>, KeyError>(
            match last_open_popover(preorder_all(tree.roots@)) {
                Some(p) => Some(p.handle),
                None => None,
            },
        ),
        key@ != "Escape"@ ==> (r matches Err(KeyError::UnsupportedKey { key: k }) && k@ == key@),
{
    proof {
        reveal_strlit("Escape");
    }
    if crate::text::same_text(key, "Escape") {
        match topmost_popover(tree) {
            Some(p) => Ok(Some(p.handle)),
            None => Ok(None),
        }
    } else {
        Err(KeyError::UnsupportedKey { key: key.to_owned() })
    }
}

// ---------------------------------------------------------------------------
// Laws
// ---------------------------------------------------------------------------

/// An animation of an accepted duration has at least one frame, frames at
/// least a millisecond apart, and never runs longer than requested.
pub proof fn law_animation_fits_duration(d: u64)
    requires
        1 <= d <= MAX_SWIPE_DURATION_MS,
    ensures
        1 <= frames_for(d) <= 600,
        interval_for(d) >= 1,
        frames_for(d) * interval_for(d) <= d,
{
    let f = frames_for(d);
    assert(d * 60 / 1000 <= d) by (nonlinear_arith)
        requires
            d >= 1,
    ;
    assert(d * 60 / 1000 <= 600) by (nonlinear_arith)
        requires
            d <= 10_000,
    ;
    assert(f <= d);
    assert(d / f >= 1) by (nonlinear_arith)
        requires
            1 <= f <= d,
    ;
    assert(f * (d / f) <= d) by (nonlinear_arith)
        requires
            f >= 1,
    ;
}

/// The widget found on a path is one of the path's widgets, of the kind
/// sought.
proof fn lemma_nearest_seeks(p: Seq<WidgetNode>, q: Seek)
    ensures
        nearest(p, q) matches Some(n) ==> seeks(q, n) && p.contains(n),
    decreases p.len(),
{
    if p.len() > 0 && !seeks(q, p.last()) {
        lemma_nearest_seeks(p.drop_last(), q);
        if let Some(n) = nearest(p.drop_last(), q) {
            let j = choose|j: int| 0 <= j < p.drop_last().len() && p.drop_last()[j] == n;
            assert(p[j] == n);
        }
    } else if p.len() > 0 {
        assert(p[p.len() - 1] == p.last());
    }
}

/// A gesture addresses a widget of the kind it seeks (scrolled window,
/// zoom gesture, long-press gesture, ...) whose hit box holds the point.
pub proof fn law_gesture_target_under_point(window: WidgetNode, dw: i32, dh: i32, at: XY, q: Seek)
    ensures
        locate(window, dw, dh, at, q) matches Ok(n) ==> seeks(q, n) && covers(n.hit_box, at.x as int, at.y as int),
{
    if let Ok(n) = locate(window, dw, dh, at, q) {
        let p = pick_path(window, at.x as int, at.y as int)->0;
        law_hit_path_covers_point(window, at.x as int, at.y as int);
        lemma_nearest_seeks(p, q);
        let j = choose|j: int| 0 <= j < p.len() && p[j] == n;
        assert(covers(p[j].hit_box, at.x as int, at.y as int));
    }
}

/// An accepted swipe scrolls a scrolled window under its start point, and an
/// accepted pinch drives a zoom gesture under its center to the requested
/// scale.
pub proof fn law_gesture_plans_target_point(
    window: WidgetNode,
    dw: i32,
    dh: i32,
    from: XY,
    to: XY,
    center: XY,
    scale_bits: u32,
    d: u64,
)
    ensures
        swipe_spec(window, dw, dh, from, to, d) matches Ok(p) ==> exists|n: WidgetNode|
            n.class == WidgetClass::ScrolledWindow && covers(n.hit_box, from.x as int, from.y as int)
                && #[trigger] n.handle == p.scrolled,
        pinch_spec(window, dw, dh, center, scale_bits, d) matches Ok(p) ==> p.scale_bits == scale_bits
            && exists|n: WidgetNode|
            n.zoom_gesture && covers(n.hit_box, center.x as int, center.y as int) && #[trigger] n.handle
                == p.gesture_owner,
{
    law_gesture_target_under_point(window, dw, dh, from, Seek::Scrollable);
    law_gesture_target_under_point(window, dw, dh, center, Seek::Zoomable);
    if let Ok(p) = swipe_spec(window, dw, dh, from, to, d) {
        let n = locate(window, dw, dh, from, Seek::Scrollable)->Ok_0;
        assert(n.handle == p.scrolled);
    }
    if let Ok(p) = pinch_spec(window, dw, dh, center, scale_bits, d) {
        let n = locate(window, dw, dh, center, Seek::Zoomable)->Ok_0;
        assert(n.handle == p.gesture_owner);
    }
}

/// Every widget on a hit path covers the point: a widget is only hit
/// through ancestors that contain the point too.
pub proof fn law_hit_path_covers_point(n: WidgetNode, x: int, y: int)
    ensures
        pick_path(n, x, y) matches Some(p) ==> forall|i: int|
            0 <= i < p.len() ==> covers(#[trigger] p[i].hit_box, x, y),
    decreases n,
{
    lemma_pick_last_covers(n.children@, x, y);
    if let Some(p) = pick_path(n, x, y) {
        match pick_last(n.children@, x, y) {
            Some(c) => {
                assert forall|i: int| 0 <= i < p.len() implies covers(#[trigger] p[i].hit_box, x, y) by {
                    if i > 0 {
                        assert(p[i] == c[i - 1]);
                    }
                }
            },
            None => {},
        }
    }
}

proof fn lemma_pick_last_covers(s: Seq<WidgetNode>, x: int, y: int)
    ensures
        pick_last(s, x, y) matches Some(p) ==> forall|i: int|
            0 <= i < p.len() ==> covers(#[trigger] p[i].hit_box, x, y),
    decreases s,
{
    if s.len() > 0 {
        law_hit_path_covers_point(s.last(), x, y);
        lemma_pick_last_covers(s.drop_last(), x, y);
    }
}

/// No tap, typing or focus acts on a widget that is hidden, unmapped or
/// insensitive.
pub proof fn law_blocked_widgets_refused(
    t: Result<TapAction, TapError>,
    y: Result<TypeEdit, TypeError>,
    n: WidgetNode,
    text: Seq<char>,
    sel: Option<Seq<char>>,
)
    requires
        obstacle(n) is Some,
        tapped(t, n, sel),
        typed(y, n, text, sel),
    ensures
        t is Err,
        y is Err,
{
}

} // verus!
