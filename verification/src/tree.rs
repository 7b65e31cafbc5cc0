//! Selector parsing and a widget-tree model searched in depth-first order.
//!
//! Selector grammar:
//!
//! ```text
//! selector   := "#" identifier        (widget name)
//!             | "." identifier        (CSS class)
//! identifier := [A-Za-z_][A-Za-z0-9_-]*   at most 64 bytes
//! ```

use vstd::prelude::*;
use vstd::utf8::*;

use crate::json::{duplicate, JsonValue, JsonView};
use crate::text::{chars_of, string_of, utf8_len_exceeds};
pub use crate::wait::PropReadError;

verus! {

/// Longest accepted identifier, in bytes.
pub const MAX_NAME_LEN: usize = 64;

/// A parsed selector.
#[derive(Debug, Clone, PartialEq, Eq)]
pub enum Selector {
    /// `#name`: the widget whose name is exactly `name`.
    Name(String),
    /// `.class`: a widget carrying CSS class `class`.
    Class(String),
}

/// Why a selector string was refused.
#[derive(Debug, Clone, PartialEq, Eq)]
pub struct InvalidSelector {
    pub input: String,
    pub reason: &'static str,
}

/// What `format!("{:?}", s)` gives for a string `s`: `s` in double quotes,
/// with quotes, backslashes and characters that are not printable escaped.
pub uninterp spec fn debug_quoted(s: Seq<char>) -> Seq<char>;

/// A character that std's `Debug` for strings writes as it is: printable
/// ASCII other than the double quote, the single quote and the backslash.
pub open spec fn debug_plain_char(c: char) -> bool {
    ' ' <= c && c <= '~' && c != '"' && c != '\\' && c != '\''
}

/// std's `Debug` formatting of a string slice (`format!("{:?}", s)`).
///
/// Trusted: the result is named `debug_quoted(s)`. Of it the contract states
/// only that a string made of printable ASCII other than quotes and the
/// backslash comes out in double quotes, unchanged; how other characters are
/// escaped (which needs the Unicode printability tables) is left unsaid.
#[verifier::external_body]
fn debug_str(s: &str) -> (r: String)
    ensures
        r@ == debug_quoted(s@),
        (forall|i: int| 0 <= i < s@.len() ==> debug_plain_char(#[trigger] s@[i])) ==> r@ == seq!['"']
            + s@ + seq!['"'],
{
    format!("{:?}", s)
}

impl InvalidSelector {
    /// Human-readable message: `invalid selector <input as a quoted, escaped
    /// string>: <reason>`.
    pub fn message(&self) -> (m: String)
        ensures
            m@ == seq!['i', 'n', 'v', 'a', 'l', 'i', 'd', ' ', 's', 'e', 'l', 'e', 'c', 't', 'o', 'r', ' ']
                + debug_quoted(self.input@) + seq![':', ' '] + self.reason@,
    {
        let mut m = String::from_str("invalid selector ");
        proof {
            reveal_strlit("invalid selector ");
            reveal_strlit(": ");
        }
        let quoted = debug_str(self.input.as_str());
        m.append(quoted.as_str());
        m.append(": ");
        m.append(self.reason);
        m
    }
}

/// Selector view: which kind, and the identifier.
pub enum SelectorView {
    Name(Seq<char>),
    Class(Seq<char>),
}

impl View for Selector {
    type V = SelectorView;

    open spec fn view(&self) -> SelectorView {
        match self {
            Selector::Name(n) => SelectorView::Name(n@),
            Selector::Class(c) => SelectorView::Class(c@),
        }
    }
}

pub open spec fn is_ascii_alpha(c: char) -> bool {
    ('a' <= c && c <= 'z') || ('A' <= c && c <= 'Z')
}

pub open spec fn is_ascii_alnum(c: char) -> bool {
    is_ascii_alpha(c) || ('0' <= c && c <= '9')
}

/// May start an identifier.
pub open spec fn ident_start(c: char) -> bool {
    is_ascii_alpha(c) || c == '_'
}

/// May continue an identifier.
pub open spec fn ident_char(c: char) -> bool {
    is_ascii_alnum(c) || c == '_' || c == '-'
}

pub open spec fn reason_prefix() -> Seq<char> {
    "selector must start with `#`"@
}

pub open spec fn reason_empty() -> Seq<char> {
    "name must not be empty"@
}

pub open spec fn reason_too_long() -> Seq<char> {
    "name exceeds 64 characters"@
}

pub open spec fn reason_first() -> Seq<char> {
    "first char must be ASCII letter or underscore"@
}

pub open spec fn reason_chars() -> Seq<char> {
    "name may contain only [A-Za-z0-9_-]"@
}

/// The reason `parse_selector` gives for refusing `s`, or `None` when it
/// accepts `s`. Checks run in this order: prefix, emptiness, byte length,
/// first character, remaining characters.
pub open spec fn selector_refusal(s: Seq<char>) -> Option<Seq<char>> {
    if s.len() == 0 || (s[0] != '#' && s[0] != '.') {
        Some(reason_prefix())
    } else if s.len() == 1 {
        Some(reason_empty())
    } else if encode_utf8(s.drop_first()).len() > MAX_NAME_LEN {
        Some(reason_too_long())
    } else if !ident_start(s[1]) {
        Some(reason_first())
    } else if exists|k: int| 2 <= k < s.len() && !ident_char(#[trigger] s[k]) {
        Some(reason_chars())
    } else {
        None
    }
}

/// The selector that an accepted string denotes.
pub open spec fn selector_of(s: Seq<char>) -> SelectorView {
    if s[0] == '#' {
        SelectorView::Name(s.drop_first())
    } else {
        SelectorView::Class(s.drop_first())
    }
}

/// Every identifier selector is accepted: `#` or `.` followed by a letter
/// (`a`-`z`, `A`-`Z`) or `_`, then letters, digits (`0`-`9`), `_` or `-`, at
/// most 64 characters in all after the prefix, parses to the name (for `#`)
/// or class (for `.`) that the identifier spells.
pub proof fn law_identifier_selectors_accepted(prefix: char, ident: Seq<char>)
    requires
        prefix == '#' || prefix == '.',
        1 <= ident.len() <= 64,
        ('a' <= ident[0] && ident[0] <= 'z') || ('A' <= ident[0] && ident[0] <= 'Z') || ident[0] == '_',
        forall|k: int|
            1 <= k < ident.len() ==> ('a' <= #[trigger] ident[k] && ident[k] <= 'z') || ('A' <= ident[k]
                && ident[k] <= 'Z') || ('0' <= ident[k] && ident[k] <= '9') || ident[k] == '_'
                || ident[k] == '-',
    ensures
        selector_refusal(seq![prefix] + ident) is None,
        selector_of(seq![prefix] + ident) == if prefix == '#' {
            SelectorView::Name(ident)
        } else {
            SelectorView::Class(ident)
        },
{
    let s = seq![prefix] + ident;
    assert(s.drop_first() =~= ident);
    assert(vstd::utf8::is_ascii_chars(ident));
    vstd::utf8::is_ascii_chars_encode_utf8(ident);
    assert(s[1] == ident[0]);
    assert forall|k: int| 2 <= k < s.len() implies ident_char(#[trigger] s[k]) by {
        assert(s[k] == ident[k - 1]);
    }
}

proof fn lemma_ascii_width(c: char)
    requires
        (c as int) < 128,
    ensures
        encode_scalar(c as u32).len() == 1,
{
    let u = c as u32;
    assert(has_width_1_encoding(u));
}

/// Parse a selector string (see the module documentation for the grammar).
pub fn parse_selector(input: &str) -> (r: Result<Selector, InvalidSelector>)
    ensures
        match r {
            Ok(sel) => selector_refusal(input@) is None && sel@ == selector_of(input@),
            Err(e) => e.input@ == input@ && selector_refusal(input@) == Some(e.reason@),
        },
{
    let cs = chars_of(input);
    proof {
        reveal_strlit("selector must start with `#`");
        reveal_strlit("name must not be empty");
        reveal_strlit("name exceeds 64 characters");
        reveal_strlit("first char must be ASCII letter or underscore");
        reveal_strlit("name may contain only [A-Za-z0-9_-]");
    }
    if cs.len() == 0 || (cs[0] != '#' && cs[0] != '.') {
        return Err(InvalidSelector { input: input.to_owned(), reason: "selector must start with `#`" });
    }
    if cs.len() == 1 {
        return Err(InvalidSelector { input: input.to_owned(), reason: "name must not be empty" });
    }
    proof {
        lemma_ascii_width(cs@[0]);
        assert(cs@.drop_first() =~= input@.drop_first());
        assert(cs@.subrange(1, cs@.len() as int) =~= input@.drop_first());
    }
    if utf8_len_exceeds(&cs, 1, MAX_NAME_LEN) {
        return Err(InvalidSelector { input: input.to_owned(), reason: "name exceeds 64 characters" });
    }
    let first = cs[1];
    if !(('a' <= first && first <= 'z') || ('A' <= first && first <= 'Z') || first == '_') {
        return Err(InvalidSelector {
            input: input.to_owned(),
            reason: "first char must be ASCII letter or underscore",
        });
    }
    let mut i: usize = 2;
    while i < cs.len()
        invariant
            2 <= i <= cs.len(),
            cs@ == input@,
            input@.len() >= 2,
            input@[0] == '#' || input@[0] == '.',
            encode_utf8(input@.drop_first()).len() <= MAX_NAME_LEN,
            ident_start(input@[1]),
            forall|k: int| 2 <= k < i ==> ident_char(#[trigger] cs@[k]),
        decreases cs.len() - i,
    {
        let c = cs[i];
        if !(('a' <= c && c <= 'z') || ('A' <= c && c <= 'Z') || ('0' <= c && c <= '9') || c == '_'
            || c == '-') {
            assert(!ident_char(input@[i as int]));
            return Err(InvalidSelector {
                input: input.to_owned(),
                reason: "name may contain only [A-Za-z0-9_-]",
            });
        }
        i += 1;
    }
    let mut ident: Vec<char> = Vec::new();
    let mut j: usize = 1;
    while j < cs.len()
        invariant
            1 <= j <= cs.len(),
            ident@ == cs@.subrange(1, j as int),
        decreases cs.len() - j,
    {
        ident.push(cs[j]);
        j += 1;
    }
    assert(ident@ =~= input@.drop_first());
    let name = string_of(&ident);
    if cs[0] == '#' {
        Ok(Selector::Name(name))
    } else {
        Ok(Selector::Class(name))
    }
}


// ---------------------------------------------------------------------------
// Widget tree model
// ---------------------------------------------------------------------------

/// What is known of one widget: identity, state, and the property values that
/// were read from it. `children` are in sibling order.
#[derive(Debug)]
pub struct WidgetNode {
    /// Identifier assigned by whoever built the tree, to find the widget again.
    pub handle: usize,
    /// Type name of the widget (e.g. `GtkButton`).
    pub kind: String,
    /// Widget name; `None` when the widget has no (or an empty) name.
    pub name: Option<String>,
    /// CSS classes, in order.
    pub classes: Vec<String>,
    pub visible: bool,
    pub mapped: bool,
    pub sensitive: bool,
    /// Human-visible text for text-bearing widgets.
    pub text: Option<String>,
    /// Names of every readable property the widget's class advertises.
    pub readable: Vec<String>,
    /// Values read for properties, by name; a name that is absent here is a
    /// property the widget does not have.
    pub properties: Vec<(String, Result<JsonValue, PropReadError>)>,
    /// Which widget class the widget belongs to, for the input pipelines.
    pub class: WidgetClass,
    /// A zoom (pinch) gesture controller is attached to the widget.
    pub zoom_gesture: bool,
    /// A long-press gesture controller is attached to the widget.
    pub long_press_gesture: bool,
    /// Allocated width and height in pixels.
    pub width: i32,
    pub height: i32,
    /// The integer points the widget covers in its window's coordinates;
    /// `None` when its bounds cannot be computed relative to the window.
    pub hit_box: Option<HitBox>,
    pub children: Vec<WidgetNode>,
}

/// The class of a widget as the input pipelines tell widgets apart: the
/// first of these classes that the widget is an instance of.
#[derive(Debug, Clone, Copy, PartialEq, Eq, Structural)]
pub enum WidgetClass {
    Switch,
    CheckButton,
    ToggleButton,
    Button,
    /// Implements the editable-text interface (entries, spin buttons, ...).
    Editable,
    TextView,
    ScrolledWindow,
    /// A range (scale, scrollbar).
    Range,
    Popover,
    Other,
}

/// Integer points `(x, y)` with `left <= x < right` and `top <= y < bottom`.
///
/// For a rectangle with origin `(ox, oy)` and size `(w, h)` in real numbers,
/// the integer points it contains (`ox <= x < ox + w`) are exactly those of
/// the box `left = ceil(ox)`, `right = ceil(ox + w)` (likewise vertically).
#[derive(Debug, Clone, Copy, PartialEq, Eq, Structural)]
pub struct HitBox {
    pub left: i64,
    pub top: i64,
    pub right: i64,
    pub bottom: i64,
}

/// A forest of widgets: one root per toplevel window, in window order.
#[derive(Debug)]
pub struct WidgetTree {
    pub roots: Vec<WidgetNode>,
}

/// Does node `n` satisfy selector `sel`?
pub open spec fn node_matches(sel: SelectorView, n: WidgetNode) -> bool {
    match sel {
        SelectorView::Name(t) => n.name matches Some(nm) && nm@ == t,
        SelectorView::Class(t) => exists|i: int| 0 <= i < n.classes@.len() && (#[trigger] n.classes@[i])@ == t,
    }
}

/// `n` followed by its descendants, depth first, children in order.
pub open spec fn preorder(n: WidgetNode) -> Seq<WidgetNode>
    decreases n,
{
    seq![n] + preorder_all(n.children@)
}

/// The depth-first orders of a sequence of sibling trees, concatenated.
pub open spec fn preorder_all(s: Seq<WidgetNode>) -> Seq<WidgetNode>
    decreases s,
{
    if s.len() == 0 {
        Seq::empty()
    } else {
        preorder_all(s.drop_last()) + preorder(s.last())
    }
}

/// The first node of `s` satisfying `sel`.
pub open spec fn first_match(s: Seq<WidgetNode>, sel: SelectorView) -> Option<WidgetNode>
    decreases s.len(),
{
    if s.len() == 0 {
        None
    } else if node_matches(sel, s[0]) {
        Some(s[0])
    } else {
        first_match(s.drop_first(), sel)
    }
}

pub open spec fn opt_node(r: Option<&WidgetNode>) -> Option<WidgetNode> {
    match r {
        Some(x) => Some(*x),
        None => None,
    }
}

pub proof fn lemma_first_match_append(a: Seq<WidgetNode>, b: Seq<WidgetNode>, sel: SelectorView)
    ensures
        first_match(a + b, sel) == (if first_match(a, sel) is Some {
            first_match(a, sel)
        } else {
            first_match(b, sel)
        }),
    decreases a.len(),
{
    if a.len() == 0 {
        assert(a + b =~= b);
    } else {
        assert((a + b).drop_first() =~= a.drop_first() + b);
        lemma_first_match_append(a.drop_first(), b, sel);
    }
}

/// Whether `n` satisfies `sel`.
pub fn matches_selector(n: &WidgetNode, sel: &Selector) -> (r: bool)
    ensures
        r == node_matches(sel@, *n),
{
    match sel {
        Selector::Name(t) => match &n.name {
            Some(nm) => *nm == *t,
            None => false,
        },
        Selector::Class(t) => {
            let mut i: usize = 0;
            while i < n.classes.len()
                invariant
                    i <= n.classes.len(),
                    sel@ == SelectorView::Class(t@),
                    forall|k: int| 0 <= k < i ==> (#[trigger] n.classes@[k])@ != t@,
                decreases n.classes.len() - i,
            {
                if n.classes[i] == *t {
                    assert((n.classes@[i as int])@ == t@);
                    return true;
                }
                i += 1;
            }
            false
        },
    }
}

fn walk<'a>(node: &'a WidgetNode, sel: &Selector) -> (r: Option<&'a WidgetNode>)
    ensures
        opt_node(r) == first_match(preorder(*node), sel@),
    decreases node,
{
    let ghost pre = preorder(*node);
    assert(pre[0] == *node);
    if matches_selector(node, sel) {
        return Some(node);
    }
    assert(pre.drop_first() =~= preorder_all(node.children@));
    let mut i: usize = 0;
    assert(node.children@.take(0) =~= Seq::<WidgetNode>::empty());
    while i < node.children.len()
        invariant
            i <= node.children.len(),
            pre == preorder(*node),
            first_match(pre, sel@) == first_match(preorder_all(node.children@), sel@),
            first_match(preorder_all(node.children@.take(i as int)), sel@) is None,
        decreases node.children.len() - i,
    {
        proof {
            assert(decreases_to!(*node => node.children));
            assert(decreases_to!(node.children => node.children@));
            assert(decreases_to!(node.children@ => node.children@[i as int]));
        }
        let ghost prefix = node.children@.take(i as int);
        let ghost next = node.children@.take(i as int + 1);
        assert(next.drop_last() =~= prefix);
        assert(next.last() == node.children@[i as int]);
        proof {
            lemma_first_match_append(preorder_all(prefix), preorder(node.children@[i as int]), sel@);
            assert(preorder_all(next) == preorder_all(prefix) + preorder(node.children@[i as int]));
        }
        match walk(&node.children[i], sel) {
            Some(h) => {
                proof {
                    lemma_split_children(node.children@, i as int + 1, sel@);
                }
                return Some(h);
            },
            None => {},
        }
        i += 1;
    }
    assert(node.children@.take(node.children.len() as int) =~= node.children@);
    None
}

/// `preorder_all(s)` is `preorder_all(s.take(n))` followed by the rest.
pub proof fn lemma_preorder_all_split(s: Seq<WidgetNode>, n: int)
    requires
        0 <= n <= s.len(),
    ensures
        preorder_all(s) == preorder_all(s.take(n)) + preorder_all(s.subrange(n, s.len() as int)),
    decreases s.len() - n,
{
    if n == s.len() {
        assert(s.take(n) =~= s);
        assert(s.subrange(n, s.len() as int) =~= Seq::<WidgetNode>::empty());
        assert(preorder_all(s) + Seq::<WidgetNode>::empty() =~= preorder_all(s));
    } else {
        lemma_preorder_all_split(s, n + 1);
        let rest = s.subrange(n, s.len() as int);
        let rest1 = s.subrange(n + 1, s.len() as int);
        assert(s.take(n + 1).drop_last() =~= s.take(n));
        assert(s.take(n + 1).last() == s[n]);
        lemma_preorder_all_cons(rest);
        assert(rest.drop_first() =~= rest1);
        assert(preorder_all(s.take(n)) + preorder(s[n]) + preorder_all(rest1)
            =~= preorder_all(s.take(n)) + (preorder(s[n]) + preorder_all(rest1)));
    }
}

/// `preorder_all` of a non-empty sequence starts with its first tree.
pub proof fn lemma_preorder_all_cons(s: Seq<WidgetNode>)
    requires
        s.len() > 0,
    ensures
        preorder_all(s) == preorder(s[0]) + preorder_all(s.drop_first()),
    decreases s.len(),
{
    if s.len() == 1 {
        assert(s.drop_last() =~= Seq::<WidgetNode>::empty());
        assert(s.drop_first() =~= Seq::<WidgetNode>::empty());
        assert(preorder(s[0]) + Seq::<WidgetNode>::empty() =~= preorder(s[0]));
        assert(Seq::<WidgetNode>::empty() + preorder(s[0]) =~= preorder(s[0]));
    } else {
        lemma_preorder_all_cons(s.drop_last());
        assert(s.drop_last().drop_first() =~= s.drop_first().drop_last());
        assert(s.drop_first().last() == s.last());
        assert(preorder(s[0]) + preorder_all(s.drop_first().drop_last()) + preorder(s.last())
            =~= preorder(s[0]) + (preorder_all(s.drop_first().drop_last()) + preorder(s.last())));
    }
}

/// A match inside the first `n` trees is the first match of the whole forest.
proof fn lemma_split_children(s: Seq<WidgetNode>, n: int, sel: SelectorView)
    requires
        0 <= n <= s.len(),
        first_match(preorder_all(s.take(n)), sel) is Some,
    ensures
        first_match(preorder_all(s), sel) == first_match(preorder_all(s.take(n)), sel),
{
    lemma_preorder_all_split(s, n);
    lemma_first_match_append(preorder_all(s.take(n)), preorder_all(s.subrange(n, s.len() as int)), sel);
}

/// The first widget, in depth-first order over all windows, that satisfies
/// `selector`.
pub fn find_first<'a>(tree: &'a WidgetTree, selector: &Selector) -> (r: Option<&'a WidgetNode>)
    ensures
        opt_node(r) == first_match(preorder_all(tree.roots@), selector@),
{
    let mut i: usize = 0;
    assert(tree.roots@.take(0) =~= Seq::<WidgetNode>::empty());
    while i < tree.roots.len()
        invariant
            i <= tree.roots.len(),
            first_match(preorder_all(tree.roots@.take(i as int)), selector@) is None,
        decreases tree.roots.len() - i,
    {
        let ghost prefix = tree.roots@.take(i as int);
        let ghost next = tree.roots@.take(i as int + 1);
        assert(next.drop_last() =~= prefix);
        assert(next.last() == tree.roots@[i as int]);
        proof {
            lemma_first_match_append(preorder_all(prefix), preorder(tree.roots@[i as int]), selector@);
            assert(preorder_all(next) == preorder_all(prefix) + preorder(tree.roots@[i as int]));
        }
        match walk(&tree.roots[i], selector) {
            Some(h) => {
                proof {
                    lemma_split_children(tree.roots@, i as int + 1, selector@);
                }
                return Some(h);
            },
            None => {},
        }
        i += 1;
    }
    assert(tree.roots@.take(tree.roots.len() as int) =~= tree.roots@);
    None
}


/// The first property entry of `props` named `name`.
pub open spec fn prop_entry(props: Seq<(String, Result<JsonValue, PropReadError>)>, name: Seq<char>) -> Option<
    Result<JsonValue, PropReadError>,
>
    decreases props.len(),
{
    if props.len() == 0 {
        None
    } else if props[0].0@ == name {
        Some(props[0].1)
    } else {
        prop_entry(props.drop_first(), name)
    }
}

/// A copy of a property-read error.
pub fn copy_prop_error(e: &PropReadError) -> (r: PropReadError)
    ensures
        r == *e,
{
    match e {
        PropReadError::Unsupported(t) => PropReadError::Unsupported(t.clone()),
        PropReadError::Missing => PropReadError::Missing,
    }
}

impl WidgetNode {
    /// The value of property `name` as JSON: the recorded value, the recorded
    /// error, or `Missing` when the widget has no such property.
    pub fn read_property(&self, name: &str) -> (r: Result<JsonValue, PropReadError>)
        ensures
            match prop_entry(self.properties@, name@) {
                None => r == Err::<JsonValue, PropReadError>(PropReadError::Missing),
                Some(Ok(v)) => r matches Ok(x) && x@ == v@,
                Some(Err(e)) => r == Err::<JsonValue, PropReadError>(e),
            },
    {
        let key = name.to_owned();
        let mut i: usize = 0;
        assert(self.properties@.subrange(0, self.properties@.len() as int) =~= self.properties@);
        while i < self.properties.len()
            invariant
                i <= self.properties.len(),
                key@ == name@,
                prop_entry(self.properties@, name@) == prop_entry(
                    self.properties@.subrange(i as int, self.properties@.len() as int),
                    name@,
                ),
            decreases self.properties.len() - i,
        {
            if self.properties[i].0 == key {
                return match &self.properties[i].1 {
                    Ok(v) => Ok(duplicate(v)),
                    Err(e) => Err(copy_prop_error(e)),
                };
            }
            assert(self.properties@.subrange(i as int, self.properties@.len() as int).drop_first()
                =~= self.properties@.subrange(i as int + 1, self.properties@.len() as int));
            i += 1;
        }
        Err(PropReadError::Missing)
    }
}

} // verus!
