//! The widget-tree query behind `GET /test/elements`.
//!
//! With no selector every window's subtree is described; with a selector,
//! each widget matching it (depth first) becomes a root, and the subtree of a
//! match is not searched for further matches. Ids `e0`, `e1`, ... are handed
//! out in the order the descriptions are produced (depth first), and
//! `max_depth` limits how deep below each root children are described.

use vstd::prelude::*;

use crate::json::{
    entries_wf, keys_sorted, lookup, object_get, object_insert, JsonNumber, JsonValue, JsonView,
};
use crate::text::{decimal, push_decimal, same_text};
use crate::input::string_opt;
use crate::tree::{
    lemma_preorder_all_split, preorder, preorder_all, matches_selector, node_matches, parse_selector, prop_entry, selector_of, selector_refusal,
    PropReadError, Selector, SelectorView, WidgetNode, WidgetTree,
};

verus! {

/// Errors of the elements query.
#[derive(Debug, Clone, PartialEq, Eq)]
pub enum ElementsError {
    InvalidSelector { reason: String },
    NoActiveWindow,
}

/// Description of one widget and (up to the depth limit) its children.
#[derive(Debug)]
pub struct ElementInfo {
    /// `e<n>`, unique within one response.
    pub id: String,
    pub kind: String,
    pub widget_name: Option<String>,
    pub css_classes: Vec<String>,
    pub visible: bool,
    pub sensitive: bool,
    pub text: Option<String>,
    /// Handle of the described widget, by which its bounds are measured.
    pub handle: usize,
    /// Requested properties by name, keys in order; `None` when none were
    /// requested.
    pub properties: Option<Vec<(String, JsonValue)>>,
    pub children: Vec<ElementInfo>,
}

/// Response of the elements query.
#[derive(Debug)]
pub struct ElementsResponse {
    pub roots: Vec<ElementInfo>,
    /// Number of descriptions in the response, nested ones included.
    pub count: u32,
}

// ---------------------------------------------------------------------------
// Properties
// ---------------------------------------------------------------------------

/// `{"$missing": true}`: the widget has no such property.
pub open spec fn missing_sentinel() -> JsonView {
    JsonView::Object(seq![("$missing"@, JsonView::Bool(true))])
}

/// `{"$unsupported": "<type>"}`: the property's type has no JSON mapping.
pub open spec fn unsupported_sentinel(t: Seq<char>) -> JsonView {
    JsonView::Object(seq![("$unsupported"@, JsonView::Str(t))])
}

/// What the description reports for property `k` of `n`: its value, or a
/// sentinel saying why there is none.
pub open spec fn prop_json(n: WidgetNode, k: Seq<char>) -> JsonView {
    match prop_entry(n.properties@, k) {
        Some(Ok(v)) => v@,
        Some(Err(PropReadError::Unsupported(t))) => unsupported_sentinel(t@),
        _ => missing_sentinel(),
    }
}

/// `k` is asked for by name (the wildcard `*` is not a name).
pub open spec fn named(props: Seq<Seq<char>>, k: Seq<char>) -> bool {
    k != "*"@ && exists|i: int| 0 <= i < props.len() && #[trigger] props[i] == k
}

/// The wildcard `*` is among the requested names.
pub open spec fn wants_all(props: Seq<Seq<char>>) -> bool {
    exists|i: int| 0 <= i < props.len() && #[trigger] props[i] == "*"@
}

/// `k` is one of the readable property names of `n`.
pub open spec fn readable(n: WidgetNode, k: Seq<char>) -> bool {
    exists|i: int| 0 <= i < n.readable@.len() && (#[trigger] n.readable@[i])@ == k
}

/// Is property `k` described for `n` when `props` were requested?
pub open spec fn reported(n: WidgetNode, props: Seq<Seq<char>>, k: Seq<char>) -> bool {
    named(props, k) || (wants_all(props) && readable(n, k))
}

pub open spec fn strs(s: Seq<String>) -> Seq<Seq<char>> {
    s.map_values(|x: String| x@)
}

/// The property map of a description: keys in order, holding exactly the
/// reported properties with their values.
pub open spec fn props_described(m: Seq<(String, JsonValue)>, n: WidgetNode, props: Seq<Seq<char>>) -> bool {
    let e = JsonValue::view_entries(m);
    &&& keys_sorted(e)
    &&& forall|k: Seq<char>| #[trigger] lookup(e, k) == (if reported(n, props, k) {
        Some(prop_json(n, k))
    } else {
        None
    })
}

fn sentinel(e: &PropReadError) -> (r: JsonValue)
    ensures
        r@ == (match e {
            PropReadError::Unsupported(t) => unsupported_sentinel(t@),
            PropReadError::Missing => missing_sentinel(),
        }),
{
    proof {
        reveal_strlit("$missing");
        reveal_strlit("$unsupported");
    }
    let entry = match e {
        PropReadError::Unsupported(t) => (String::from_str("$unsupported"), JsonValue::String(t.clone())),
        PropReadError::Missing => (String::from_str("$missing"), JsonValue::Bool(true)),
    };
    let v = vec![entry];
    proof {
        assert(v@.len() == 1);
        assert(v@.drop_last() =~= Seq::<(String, JsonValue)>::empty());
        assert(JsonValue::view_entries(Seq::<(String, JsonValue)>::empty()) =~= Seq::<(Seq<char>, JsonView)>::empty());
        assert(v@.last() == v@[0]);
        assert(JsonValue::view_entries(v@) =~= seq![(v@[0].0@, v@[0].1.view_json())]);
    }
    JsonValue::Object(v)
}

/// The reported value of property `name` of `node`.
fn property_value(node: &WidgetNode, name: &str) -> (r: JsonValue)
    ensures
        r@ == prop_json(*node, name@),
{
    match node.read_property(name) {
        Ok(v) => v,
        Err(e) => sentinel(&e),
    }
}

/// The properties of `node` requested by `props`: each name asked for, and
/// with the wildcard `*` every readable property; `None` when nothing was
/// requested. A property the widget lacks, or whose type has no JSON
/// mapping, is reported by a sentinel object.
pub fn read_requested_properties(node: &WidgetNode, props: &Vec<String>) -> (r: Option<
    Vec<(String, JsonValue)>,
>)
    ensures
        props@.len() == 0 ==> r is None,
        props@.len() > 0 ==> (r matches Some(m) && props_described(m@, *node, strs(props@))),
{
    if props.len() == 0 {
        return None;
    }
    proof {
        reveal_strlit("*");
    }
    let ghost ps = strs(props@);
    let mut map: Vec<(String, JsonValue)> = Vec::new();
    let mut want_all = false;
    let mut i: usize = 0;
    assert(JsonValue::view_entries(map@) =~= Seq::<(Seq<char>, JsonView)>::empty());
    while i < props.len()
        invariant
            i <= props.len(),
            ps == strs(props@),
            keys_sorted(JsonValue::view_entries(map@)),
            want_all == wants_all(ps.take(i as int)),
            forall|k: Seq<char>| #[trigger] lookup(JsonValue::view_entries(map@), k) == (if named(
                ps.take(i as int),
                k,
            ) {
                Some(prop_json(*node, k))
            } else {
                None
            }),
        decreases props.len() - i,
    {
        let ghost before = ps.take(i as int);
        let ghost after = ps.take(i as int + 1);
        assert(after =~= before.push(ps[i as int]));
        assert(ps[i as int] == props@[i as int]@);
        assert(after[i as int] == ps[i as int]);
        assert forall|k: Seq<char>| #[trigger] named(after, k) == (named(before, k) || (k != "*"@
            && ps[i as int] == k)) by {
            if named(after, k) && !named(before, k) {
                let j = choose|j: int| 0 <= j < after.len() && #[trigger] after[j] == k;
                if j < i {
                    assert(before[j] == after[j]);
                }
            }
            if named(before, k) {
                let j = choose|j: int| 0 <= j < before.len() && #[trigger] before[j] == k;
                assert(after[j] == before[j]);
            }
        }
        assert(wants_all(after) == (wants_all(before) || ps[i as int] == "*"@)) by {
            if wants_all(after) && !wants_all(before) {
                let j = choose|j: int| 0 <= j < after.len() && #[trigger] after[j] == "*"@;
                if j < i {
                    assert(before[j] == after[j]);
                }
            }
            if wants_all(before) {
                let j = choose|j: int| 0 <= j < before.len() && #[trigger] before[j] == "*"@;
                assert(after[j] == before[j]);
            }
        }
        let name = &props[i];
        if same_text(name.as_str(), "*") {
            want_all = true;
        } else {
            let v = property_value(node, name.as_str());
            object_insert(&mut map, name.clone(), v);
        }
        i += 1;
    }
    assert(ps.take(props.len() as int) =~= ps);
    if want_all {
        let ghost base = JsonValue::view_entries(map@);
        let mut j: usize = 0;
        while j < node.readable.len()
            invariant
                j <= node.readable.len(),
                ps == strs(props@),
                wants_all(ps),
                keys_sorted(JsonValue::view_entries(map@)),
                forall|k: Seq<char>| #[trigger] lookup(JsonValue::view_entries(map@), k) == (if named(
                    ps,
                    k,
                ) || (exists|t: int| 0 <= t < j && (#[trigger] node.readable@[t])@ == k) {
                    Some(prop_json(*node, k))
                } else {
                    None
                }),
            decreases node.readable.len() - j,
        {
            let name = &node.readable[j];
            let ghost nk = name@;
            let present = object_get(&map, name);
            if present.is_none() {
                let v = property_value(node, name.as_str());
                object_insert(&mut map, name.clone(), v);
            }
            assert forall|k: Seq<char>| #[trigger] lookup(JsonValue::view_entries(map@), k) == (if named(
                ps,
                k,
            ) || (exists|t: int| 0 <= t < j + 1 && (#[trigger] node.readable@[t])@ == k) {
                Some(prop_json(*node, k))
            } else {
                None
            }) by {
                if k == nk {
                    assert(node.readable@[j as int]@ == k);
                } else if exists|t: int| 0 <= t < j + 1 && (#[trigger] node.readable@[t])@ == k {
                    let t = choose|t: int| 0 <= t < j + 1 && (#[trigger] node.readable@[t])@ == k;
                    assert(t < j);
                }
            }
            j += 1;
        }
        assert forall|k: Seq<char>| #[trigger] lookup(JsonValue::view_entries(map@), k) == (if reported(
            *node,
            ps,
            k,
        ) {
            Some(prop_json(*node, k))
        } else {
            None
        }) by {
            if readable(*node, k) {
                let t = choose|t: int| 0 <= t < node.readable@.len() && (#[trigger] node.readable@[t])@ == k;
                assert(0 <= t < node.readable.len());
            }
        }
    } else {
        assert(!wants_all(ps));
    }
    Some(map)
}

// ---------------------------------------------------------------------------
// Descriptions
// ---------------------------------------------------------------------------

/// Are the children of a widget at `depth` described?
pub open spec fn allows(depth: u32, md: Option<u32>) -> bool {
    match md {
        None => true,
        Some(m) => depth < m,
    }
}

/// The depth passed on to children (only counted when there is a limit).
pub open spec fn next_depth(depth: u32, md: Option<u32>) -> u32 {
    match md {
        Some(_) => (depth + 1) as u32,
        None => depth,
    }
}

/// Number of descriptions produced for `n` at `depth`.
pub open spec fn size(n: WidgetNode, depth: u32, md: Option<u32>) -> nat
    decreases n,
{
    1 + if allows(depth, md) {
        sizes(n.children@, next_depth(depth, md), md)
    } else {
        0
    }
}

/// Number of descriptions produced for a sequence of sibling trees.
pub open spec fn sizes(s: Seq<WidgetNode>, depth: u32, md: Option<u32>) -> nat
    decreases s,
{
    if s.len() == 0 {
        0
    } else {
        sizes(s.drop_last(), depth, md) + size(s.last(), depth, md)
    }
}

/// The id of the description produced `c`-th: `e<c>`.
pub open spec fn element_id(c: nat) -> Seq<char> {
    "e"@ + decimal(c)
}

/// `e` describes `n` at `depth`, its id being the `c`-th: the widget's own
/// fields, the requested properties, and — while the depth limit allows —
/// its children, numbered depth first after it.
pub open spec fn describes(
    e: ElementInfo,
    n: WidgetNode,
    depth: u32,
    md: Option<u32>,
    props: Seq<Seq<char>>,
    c: nat,
) -> bool
    decreases n,
{
    &&& e.id@ == element_id(c)
    &&& e.kind@ == n.kind@
    &&& string_opt(e.widget_name) == string_opt(n.name)
    &&& strs(e.css_classes@) == strs(n.classes@)
    &&& e.visible == n.visible
    &&& e.sensitive == n.sensitive
    &&& string_opt(e.text) == string_opt(n.text)
    &&& e.handle == n.handle
    &&& (props.len() == 0 ==> e.properties is None)
    &&& (props.len() > 0 ==> (e.properties matches Some(m) && props_described(m@, n, props)))
    &&& if allows(depth, md) {
        describes_all(e.children@, n.children@, next_depth(depth, md), md, props, c + 1)
    } else {
        e.children@.len() == 0
    }
}

/// `es` describe the sibling trees `ns` in order, the first id being the
/// `c`-th.
pub open spec fn describes_all(
    es: Seq<ElementInfo>,
    ns: Seq<WidgetNode>,
    depth: u32,
    md: Option<u32>,
    props: Seq<Seq<char>>,
    c: nat,
) -> bool
    decreases ns,
{
    if ns.len() == 0 {
        es.len() == 0
    } else {
        &&& es.len() == ns.len()
        &&& describes_all(es.drop_last(), ns.drop_last(), depth, md, props, c)
        &&& describes(es.last(), ns.last(), depth, md, props, c + sizes(ns.drop_last(), depth, md))
    }
}

/// No more descriptions than widgets.
pub proof fn lemma_size_le(n: WidgetNode, depth: u32, md: Option<u32>)
    ensures
        size(n, depth, md) <= preorder(n).len(),
    decreases n,
{
    lemma_sizes_le(n.children@, next_depth(depth, md), md);
}

/// No more descriptions than widgets, over sibling trees.
pub proof fn lemma_sizes_le(s: Seq<WidgetNode>, depth: u32, md: Option<u32>)
    ensures
        sizes(s, depth, md) <= preorder_all(s).len(),
    decreases s,
{
    if s.len() > 0 {
        lemma_sizes_le(s.drop_last(), depth, md);
        lemma_size_le(s.last(), depth, md);
    }
}

fn clone_strings(v: &Vec<String>) -> (r: Vec<String>)
    ensures
        strs(r@) == strs(v@),
{
    let mut r: Vec<String> = Vec::new();
    let mut i: usize = 0;
    while i < v.len()
        invariant
            i <= v.len(),
            strs(r@) == strs(v@.take(i as int)),
        decreases v.len() - i,
    {
        let c = v[i].clone();
        assert(strs(r@.push(c)) =~= strs(r@).push(c@));
        assert(strs(v@.take(i as int + 1)) =~= strs(v@.take(i as int)).push(v@[i as int]@));
        r.push(c);
        i += 1;
    }
    assert(v@.take(v.len() as int) =~= v@);
    r
}

fn clone_opt(v: &Option<String>) -> (r: Option<String>)
    ensures
        string_opt(r) == string_opt(*v),
{
    match v {
        Some(s) => Some(s.clone()),
        None => None,
    }
}

/// Describe `node` at `depth`, numbering from `*counter`; `*counter` ends
/// past the last id used.
fn to_element_info(
    node: &WidgetNode,
    depth: u32,
    max_depth: Option<u32>,
    props: &Vec<String>,
    counter: &mut u32,
) -> (e: ElementInfo)
    requires
        *old(counter) + preorder(*node).len() <= u32::MAX,
    ensures
        describes(e, *node, depth, max_depth, strs(props@), *old(counter) as nat),
        *final(counter) == *old(counter) + size(*node, depth, max_depth),
    decreases node,
{
    let ghost c0 = *counter as nat;
    let ghost ps = strs(props@);
    proof {
        lemma_size_le(*node, depth, max_depth);
        reveal_strlit("e");
    }
    let mut id = String::from_str("e");
    push_decimal(&mut id, *counter as u64);
    *counter = *counter + 1;
    let properties = read_requested_properties(node, props);
    let mut children: Vec<ElementInfo> = Vec::new();
    let allowed = match max_depth {
        None => true,
        Some(m) => depth < m,
    };
    if allowed {
        let nd: u32 = match max_depth {
            Some(_) => depth + 1,
            None => depth,
        };
        let mut i: usize = 0;
        assert(node.children@.take(0) =~= Seq::<WidgetNode>::empty());
        proof {
            let pre = preorder(*node);
            assert(pre =~= seq![*node] + preorder_all(node.children@));
        }
        while i < node.children.len()
            invariant
                i <= node.children.len(),
                nd == next_depth(depth, max_depth),
                allows(depth, max_depth),
                ps == strs(props@),
                c0 + preorder(*node).len() <= u32::MAX,
                preorder(*node).len() == 1 + preorder_all(node.children@).len(),
                describes_all(children@, node.children@.take(i as int), nd, max_depth, ps, c0 + 1),
                *counter == c0 + 1 + sizes(node.children@.take(i as int), nd, max_depth),
            decreases node.children.len() - i,
        {
            proof {
                assert(decreases_to!(*node => node.children));
                assert(decreases_to!(node.children => node.children@));
                assert(decreases_to!(node.children@ => node.children@[i as int]));
            }
            let ghost prefix = node.children@.take(i as int);
            let ghost next = node.children@.take(i as int + 1);
            assert(next.drop_last() =~= prefix);
            assert(next.last() == node.children@[i as int]);
            proof {
                lemma_sizes_le(prefix, nd, max_depth);
                assert(preorder_all(next) == preorder_all(prefix) + preorder(node.children@[i as int]));
                lemma_preorder_all_split(node.children@, i as int + 1);
            }
            let child = to_element_info(&node.children[i], nd, max_depth, props, counter);
            let ghost before = children@;
            children.push(child);
            assert(children@.drop_last() =~= before);
            i += 1;
        }
        assert(node.children@.take(node.children.len() as int) =~= node.children@);
    }
    ElementInfo {
        id,
        kind: node.kind.clone(),
        widget_name: clone_opt(&node.name),
        css_classes: clone_strings(&node.classes),
        visible: node.visible,
        sensitive: node.sensitive,
        text: clone_opt(&node.text),
        handle: node.handle,
        properties,
        children,
    }
}

/// The widgets of `n`'s subtree that become roots for selector `sel`:
/// `n` itself when it matches (its subtree is then not searched), else the
/// matches among its children, in order.
pub open spec fn matched(n: WidgetNode, sel: SelectorView) -> Seq<WidgetNode>
    decreases n,
{
    if node_matches(sel, n) {
        seq![n]
    } else {
        matched_all(n.children@, sel)
    }
}

/// The matches among sibling trees, in order.
pub open spec fn matched_all(s: Seq<WidgetNode>, sel: SelectorView) -> Seq<WidgetNode>
    decreases s,
{
    if s.len() == 0 {
        Seq::empty()
    } else {
        matched_all(s.drop_last(), sel) + matched(s.last(), sel)
    }
}

/// Describe every match of `sel` in `node`'s subtree after the roots already
/// collected (which describe `done`).
fn collect_matches(
    node: &WidgetNode,
    sel: &Selector,
    max_depth: Option<u32>,
    props: &Vec<String>,
    counter: &mut u32,
    roots: &mut Vec<ElementInfo>,
    Ghost(done): Ghost<Seq<WidgetNode>>,
)
    requires
        *old(counter) + preorder(*node).len() <= u32::MAX,
        describes_all(old(roots)@, done, 0, max_depth, strs(props@), 0),
        *old(counter) == sizes(done, 0, max_depth),
    ensures
        describes_all(final(roots)@, done + matched(*node, sel@), 0, max_depth, strs(props@), 0),
        *final(counter) == sizes(done + matched(*node, sel@), 0, max_depth),
        *final(counter) <= *old(counter) + preorder(*node).len(),
    decreases node,
{
    let ghost ps = strs(props@);
    proof {
        lemma_size_le(*node, 0, max_depth);
        let pre = preorder(*node);
        assert(pre =~= seq![*node] + preorder_all(node.children@));
    }
    if matches_selector(node, sel) {
        let ghost before = roots@;
        let info = to_element_info(node, 0, max_depth, props, counter);
        roots.push(info);
        proof {
            assert(roots@.drop_last() =~= before);
            assert(done + seq![*node] =~= done.push(*node));
            assert((done + seq![*node]).drop_last() =~= done);
        }
        return;
    }
    let mut i: usize = 0;
    assert(node.children@.take(0) =~= Seq::<WidgetNode>::empty());
    assert(done + matched_all(Seq::<WidgetNode>::empty(), sel@) =~= done);
    while i < node.children.len()
        invariant
            i <= node.children.len(),
            ps == strs(props@),
            !node_matches(sel@, *node),
            *old(counter) + preorder(*node).len() <= u32::MAX,
            preorder(*node).len() == 1 + preorder_all(node.children@).len(),
            describes_all(roots@, done + matched_all(node.children@.take(i as int), sel@), 0, max_depth, ps, 0),
            *counter == sizes(done + matched_all(node.children@.take(i as int), sel@), 0, max_depth),
            *counter <= *old(counter) + preorder_all(node.children@.take(i as int)).len(),
        decreases node.children.len() - i,
    {
        proof {
            assert(decreases_to!(*node => node.children));
            assert(decreases_to!(node.children => node.children@));
            assert(decreases_to!(node.children@ => node.children@[i as int]));
        }
        let ghost prefix = node.children@.take(i as int);
        let ghost next = node.children@.take(i as int + 1);
        assert(next.drop_last() =~= prefix);
        assert(next.last() == node.children@[i as int]);
        proof {
            assert(preorder_all(next) == preorder_all(prefix) + preorder(node.children@[i as int]));
            lemma_preorder_all_split(node.children@, i as int + 1);
            assert(done + matched_all(next, sel@) =~= (done + matched_all(prefix, sel@)) + matched(
                node.children@[i as int],
                sel@,
            ));
        }
        collect_matches(
            &node.children[i],
            sel,
            max_depth,
            props,
            counter,
            roots,
            Ghost(done + matched_all(prefix, sel@)),
        );
        i += 1;
    }
    assert(node.children@.take(node.children.len() as int) =~= node.children@);
}

/// Describe the widget tree for `GET /test/elements`: every window's tree
/// without a selector, or one root per match of `selector` (depth first;
/// the subtree of a match is not searched). A tree without windows is
/// `NoActiveWindow`, checked before the selector.
pub fn walk_elements(
    tree: &WidgetTree,
    selector: Option<&str>,
    max_depth: Option<u32>,
    props: &Vec<String>,
) -> (r: Result<ElementsResponse, ElementsError>)
    requires
        preorder_all(tree.roots@).len() <= u32::MAX,
    ensures
        tree.roots@.len() == 0 ==> r == Err::<ElementsResponse, ElementsError>(
            ElementsError::NoActiveWindow,
        ),
        tree.roots@.len() > 0 ==> match selector {
            None => r matches Ok(resp) && describes_all(
                resp.roots@,
                tree.roots@,
                0,
                max_depth,
                strs(props@),
                0,
            ) && resp.count == sizes(tree.roots@, 0, max_depth),
            Some(s) => match selector_refusal(s@) {
                Some(reason) => r matches Err(ElementsError::InvalidSelector { reason: x }) && x@
                    == reason,
                None => r matches Ok(resp) && describes_all(
                    resp.roots@,
                    matched_all(tree.roots@, selector_of(s@)),
                    0,
                    max_depth,
                    strs(props@),
                    0,
                ) && resp.count == sizes(matched_all(tree.roots@, selector_of(s@)), 0, max_depth),
            },
        },
{
    if tree.roots.len() == 0 {
        return Err(ElementsError::NoActiveWindow);
    }
    let parsed = match selector {
        Some(s) => match parse_selector(s) {
            Ok(p) => Some(p),
            Err(e) => {
                return Err(ElementsError::InvalidSelector { reason: e.reason.to_owned() });
            },
        },
        None => None,
    };
    let ghost ps = strs(props@);
    let mut roots: Vec<ElementInfo> = Vec::new();
    let mut counter: u32 = 0;
    let mut i: usize = 0;
    assert(tree.roots@.take(0) =~= Seq::<WidgetNode>::empty());
    match &parsed {
        None => {
            while i < tree.roots.len()
                invariant
                    i <= tree.roots.len(),
                    ps == strs(props@),
                    preorder_all(tree.roots@).len() <= u32::MAX,
                    describes_all(roots@, tree.roots@.take(i as int), 0, max_depth, ps, 0),
                    counter == sizes(tree.roots@.take(i as int), 0, max_depth),
                decreases tree.roots.len() - i,
            {
                let ghost prefix = tree.roots@.take(i as int);
                let ghost next = tree.roots@.take(i as int + 1);
                assert(next.drop_last() =~= prefix);
                assert(next.last() == tree.roots@[i as int]);
                proof {
                    lemma_sizes_le(prefix, 0, max_depth);
                    assert(preorder_all(next) == preorder_all(prefix) + preorder(tree.roots@[i as int]));
                    lemma_preorder_all_split(tree.roots@, i as int + 1);
                }
                let info = to_element_info(&tree.roots[i], 0, max_depth, props, &mut counter);
                let ghost before = roots@;
                roots.push(info);
                assert(roots@.drop_last() =~= before);
                i += 1;
            }
            assert(tree.roots@.take(tree.roots.len() as int) =~= tree.roots@);
        },
        Some(sel) => {
            while i < tree.roots.len()
                invariant
                    i <= tree.roots.len(),
                    ps == strs(props@),
                    preorder_all(tree.roots@).len() <= u32::MAX,
                    describes_all(roots@, matched_all(tree.roots@.take(i as int), sel@), 0, max_depth, ps, 0),
                    counter == sizes(matched_all(tree.roots@.take(i as int), sel@), 0, max_depth),
                    counter <= preorder_all(tree.roots@.take(i as int)).len(),
                decreases tree.roots.len() - i,
            {
                let ghost prefix = tree.roots@.take(i as int);
                let ghost next = tree.roots@.take(i as int + 1);
                assert(next.drop_last() =~= prefix);
                assert(next.last() == tree.roots@[i as int]);
                proof {
                    assert(preorder_all(next) == preorder_all(prefix) + preorder(tree.roots@[i as int]));
                    lemma_preorder_all_split(tree.roots@, i as int + 1);
                }
                collect_matches(
                    &tree.roots[i],
                    sel,
                    max_depth,
                    props,
                    &mut counter,
                    &mut roots,
                    Ghost(matched_all(prefix, sel@)),
                );
                i += 1;
            }
            assert(tree.roots@.take(tree.roots.len() as int) =~= tree.roots@);
        },
    }
    Ok(ElementsResponse { roots, count: counter })
}

// ---------------------------------------------------------------------------
// Ids
// ---------------------------------------------------------------------------

/// The ids of a description and its nested descriptions, depth first.
pub open spec fn ids_of(e: ElementInfo) -> Seq<Seq<char>>
    decreases e,
{
    seq![e.id@] + ids_all(e.children@)
}

/// The ids of a sequence of descriptions, depth first.
pub open spec fn ids_all(es: Seq<ElementInfo>) -> Seq<Seq<char>>
    decreases es,
{
    if es.len() == 0 {
        Seq::empty()
    } else {
        ids_all(es.drop_last()) + ids_of(es.last())
    }
}

/// `n` consecutive ids from the `c`-th: `e<c>`, `e<c+1>`, ...
pub open spec fn numbered(c: nat, n: nat) -> Seq<Seq<char>> {
    Seq::new(n, |i: int| element_id((c + i) as nat))
}

/// A description starting at id `c` uses the ids `e<c>` ... in depth-first
/// order, one per description.
pub proof fn lemma_ids_numbered(
    e: ElementInfo,
    n: WidgetNode,
    depth: u32,
    md: Option<u32>,
    props: Seq<Seq<char>>,
    c: nat,
)
    requires
        describes(e, n, depth, md, props, c),
    ensures
        ids_of(e) == numbered(c, size(n, depth, md)),
    decreases n,
{
    if allows(depth, md) {
        lemma_ids_all_numbered(e.children@, n.children@, next_depth(depth, md), md, props, c + 1);
        assert(ids_of(e) =~= numbered(c, size(n, depth, md)));
    } else {
        assert(e.children@ =~= Seq::<ElementInfo>::empty());
        assert(ids_all(e.children@) =~= Seq::<Seq<char>>::empty());
        assert(ids_of(e) =~= numbered(c, size(n, depth, md)));
    }
}

/// Over a sequence of descriptions, see [`lemma_ids_numbered`].
pub proof fn lemma_ids_all_numbered(
    es: Seq<ElementInfo>,
    ns: Seq<WidgetNode>,
    depth: u32,
    md: Option<u32>,
    props: Seq<Seq<char>>,
    c: nat,
)
    requires
        describes_all(es, ns, depth, md, props, c),
    ensures
        ids_all(es) == numbered(c, sizes(ns, depth, md)),
    decreases ns,
{
    if ns.len() == 0 {
        assert(ids_all(es) =~= numbered(c, sizes(ns, depth, md)));
    } else {
        lemma_ids_all_numbered(es.drop_last(), ns.drop_last(), depth, md, props, c);
        lemma_ids_numbered(
            es.last(),
            ns.last(),
            depth,
            md,
            props,
            c + sizes(ns.drop_last(), depth, md),
        );
        assert(ids_all(es) =~= numbered(c, sizes(ns, depth, md)));
    }
}

proof fn lemma_decimal_len(n: nat)
    ensures
        decimal(n).len() >= 1,
        n >= 10 ==> decimal(n).len() >= 2,
    decreases n,
{
    if n >= 10 {
        lemma_decimal_len(n / 10);
    }
}

proof fn lemma_digit_char_injective(a: nat, b: nat)
    requires
        a < 10,
        b < 10,
        crate::text::digit_char(a) == crate::text::digit_char(b),
    ensures
        a == b,
{
    assert(crate::text::digit_char(a) as u32 == (a + 48) as u32);
    assert(crate::text::digit_char(b) as u32 == (b + 48) as u32);
}

/// Different numbers have different decimal representations.
pub proof fn lemma_decimal_injective(a: nat, b: nat)
    requires
        decimal(a) == decimal(b),
    ensures
        a == b,
    decreases a,
{
    lemma_decimal_len(a);
    lemma_decimal_len(b);
    if a < 10 && b < 10 {
        assert(decimal(a) == seq![crate::text::digit_char(a)]);
        assert(decimal(b) == seq![crate::text::digit_char(b)]);
        assert(seq![crate::text::digit_char(a)][0] == crate::text::digit_char(a));
        assert(seq![crate::text::digit_char(b)][0] == crate::text::digit_char(b));
        assert(decimal(a)[0] == decimal(b)[0]);
        lemma_digit_char_injective(a, b);
    } else if a >= 10 && b >= 10 {
        assert(decimal(a) == decimal(a / 10).push(crate::text::digit_char(a % 10)));
        assert(decimal(b) == decimal(b / 10).push(crate::text::digit_char(b % 10)));
        assert(decimal(a).last() == crate::text::digit_char(a % 10));
        assert(decimal(b).last() == crate::text::digit_char(b % 10));
        assert(decimal(a).last() == decimal(b).last());
        lemma_digit_char_injective(a % 10, b % 10);
        assert(decimal(a).drop_last() =~= decimal(a / 10));
        assert(decimal(b).drop_last() =~= decimal(b / 10));
        lemma_decimal_injective(a / 10, b / 10);
    } else if a < 10 {
        assert(decimal(a).len() == 1);
    } else {
        assert(decimal(b).len() == 1);
    }
}

/// The ids of a response are `e0`, `e1`, ... in depth-first order, one per
/// description (as many as `count`), and no two are equal.
pub proof fn law_element_ids_unique(
    roots: Seq<ElementInfo>,
    ns: Seq<WidgetNode>,
    md: Option<u32>,
    props: Seq<Seq<char>>,
)
    requires
        describes_all(roots, ns, 0, md, props, 0),
    ensures
        ids_all(roots) == numbered(0, sizes(ns, 0, md)),
        forall|i: int, j: int|
            0 <= i < j < ids_all(roots).len() ==> ids_all(roots)[i] != ids_all(roots)[j],
{
    lemma_ids_all_numbered(roots, ns, 0, md, props, 0);
    reveal_strlit("e");
    let ids = ids_all(roots);
    assert forall|i: int, j: int| 0 <= i < j < ids.len() implies ids[i] != ids[j] by {
        if ids[i] == ids[j] {
            assert(ids[i] == element_id(i as nat));
            assert(ids[j] == element_id(j as nat));
            assert(element_id(i as nat).skip(1) =~= decimal(i as nat));
            assert(element_id(j as nat).skip(1) =~= decimal(j as nat));
            lemma_decimal_injective(i as nat, j as nat);
        }
    }
}


// ---------------------------------------------------------------------------
// Shape of a response
// ---------------------------------------------------------------------------

/// Number of descriptions in `e`: itself and all nested ones.
pub open spec fn node_count(e: ElementInfo) -> nat
    decreases e,
{
    1 + node_count_all(e.children@)
}

/// Number of descriptions in a sequence of descriptions.
pub open spec fn node_count_all(es: Seq<ElementInfo>) -> nat
    decreases es,
{
    if es.len() == 0 {
        0
    } else {
        node_count_all(es.drop_last()) + node_count(es.last())
    }
}

/// No description nested more than `k` levels below `e`.
pub open spec fn within_levels(e: ElementInfo, k: int) -> bool
    decreases e,
{
    e.children@.len() == 0 || (k > 0 && all_within_levels(e.children@, k - 1))
}

/// [`within_levels`] for every description of `es`.
pub open spec fn all_within_levels(es: Seq<ElementInfo>, k: int) -> bool
    decreases es,
{
    es.len() == 0 || (all_within_levels(es.drop_last(), k) && within_levels(es.last(), k))
}

proof fn lemma_node_count_ids(e: ElementInfo)
    ensures
        node_count(e) == ids_of(e).len(),
    decreases e,
{
    lemma_node_count_ids_all(e.children@);
}

proof fn lemma_node_count_ids_all(es: Seq<ElementInfo>)
    ensures
        node_count_all(es) == ids_all(es).len(),
    decreases es,
{
    if es.len() > 0 {
        lemma_node_count_ids_all(es.drop_last());
        lemma_node_count_ids(es.last());
    }
}

proof fn lemma_describes_within(
    e: ElementInfo,
    n: WidgetNode,
    depth: u32,
    m: u32,
    props: Seq<Seq<char>>,
    c: nat,
)
    requires
        describes(e, n, depth, Some(m), props, c),
        depth <= m,
    ensures
        within_levels(e, m - depth),
    decreases n,
{
    if depth < m {
        lemma_describes_all_within(e.children@, n.children@, (depth + 1) as u32, m, props, c + 1);
    }
}

proof fn lemma_describes_all_within(
    es: Seq<ElementInfo>,
    ns: Seq<WidgetNode>,
    depth: u32,
    m: u32,
    props: Seq<Seq<char>>,
    c: nat,
)
    requires
        describes_all(es, ns, depth, Some(m), props, c),
        depth <= m,
    ensures
        all_within_levels(es, m - depth),
    decreases ns,
{
    if ns.len() > 0 {
        lemma_describes_all_within(es.drop_last(), ns.drop_last(), depth, m, props, c);
        lemma_describes_within(
            es.last(),
            ns.last(),
            depth,
            m,
            props,
            c + sizes(ns.drop_last(), depth, Some(m)),
        );
    }
}

/// The shape of a response that describes the trees `ns`: `count` (which
/// the walk sets to `sizes(ns, 0, md)`) is the number of descriptions in the
/// returned roots, and with a depth limit `m` no description lies more than
/// `m` levels below its root (a limit of 0 leaves every root childless).
pub proof fn law_response_shape(
    roots: Seq<ElementInfo>,
    ns: Seq<WidgetNode>,
    md: Option<u32>,
    props: Seq<Seq<char>>,
)
    requires
        describes_all(roots, ns, 0, md, props, 0),
    ensures
        node_count_all(roots) == sizes(ns, 0, md),
        md matches Some(m) ==> all_within_levels(roots, m as int),
{
    lemma_ids_all_numbered(roots, ns, 0, md, props, 0);
    lemma_node_count_ids_all(roots);
    if let Some(m) = md {
        lemma_describes_all_within(roots, ns, 0, m, props, 0);
    }
}

/// Where the roots of `matched(n, sel)` start in the depth-first order of
/// `n`'s subtree, positions counted from `base`.
pub open spec fn matched_at(n: WidgetNode, sel: SelectorView, base: int) -> Seq<int>
    decreases n,
{
    if node_matches(sel, n) {
        seq![base]
    } else {
        matched_at_all(n.children@, sel, base + 1)
    }
}

/// [`matched_at`] over sibling trees.
pub open spec fn matched_at_all(s: Seq<WidgetNode>, sel: SelectorView, base: int) -> Seq<int>
    decreases s,
{
    if s.len() == 0 {
        Seq::empty()
    } else {
        matched_at_all(s.drop_last(), sel, base) + matched_at(
            s.last(),
            sel,
            base + preorder_all(s.drop_last()).len(),
        )
    }
}

/// The roots `m` match `sel`, and start at the positions `p` (counted from
/// `base`) of the depth-first order `pre`, each root's whole subtree lying
/// there and ending before the next root starts: no root lies inside another.
pub open spec fn roots_apart(
    m: Seq<WidgetNode>,
    p: Seq<int>,
    pre: Seq<WidgetNode>,
    base: int,
    sel: SelectorView,
) -> bool {
    &&& p.len() == m.len()
    &&& forall|k: int| 0 <= k < m.len() ==> #[trigger] node_matches(sel, m[k])
    &&& forall|k: int|
        0 <= k < m.len() ==> base <= #[trigger] p[k] && p[k] - base + preorder(m[k]).len() <= pre.len()
            && pre.subrange(p[k] - base, p[k] - base + preorder(m[k]).len()) == preorder(m[k])
    &&& forall|k: int, l: int|
        0 <= k < l < m.len() ==> #[trigger] p[k] + preorder(m[k]).len() <= #[trigger] p[l]
}

proof fn lemma_matched_apart(n: WidgetNode, sel: SelectorView, base: int)
    ensures
        roots_apart(matched(n, sel), matched_at(n, sel, base), preorder(n), base, sel),
    decreases n,
{
    let pre = preorder(n);
    if node_matches(sel, n) {
        let m = matched(n, sel);
        assert(m[0] == n);
        assert(pre.subrange(0, pre.len() as int) =~= pre);
    } else {
        let kids = n.children@;
        lemma_matched_all_apart(kids, sel, base + 1);
        let m = matched_all(kids, sel);
        let p = matched_at_all(kids, sel, base + 1);
        let inner = preorder_all(kids);
        assert(pre == seq![n] + inner);
        assert forall|k: int| 0 <= k < m.len() implies base <= #[trigger] p[k] && p[k] - base + preorder(
            m[k],
        ).len() <= pre.len() && pre.subrange(p[k] - base, p[k] - base + preorder(m[k]).len())
            == preorder(m[k]) by {
            let lo = p[k] - (base + 1);
            let hi = lo + preorder(m[k]).len();
            assert(inner.subrange(lo, hi) == preorder(m[k]));
            assert(pre.subrange(lo + 1, hi + 1) =~= inner.subrange(lo, hi));
        }
    }
}

proof fn lemma_matched_all_apart(s: Seq<WidgetNode>, sel: SelectorView, base: int)
    ensures
        roots_apart(matched_all(s, sel), matched_at_all(s, sel, base), preorder_all(s), base, sel),
    decreases s,
{
    if s.len() > 0 {
        let s1 = s.drop_last();
        let t = s.last();
        let len1 = preorder_all(s1).len();
        lemma_matched_all_apart(s1, sel, base);
        lemma_matched_apart(t, sel, base + len1);
        let m1 = matched_all(s1, sel);
        let p1 = matched_at_all(s1, sel, base);
        let m2 = matched(t, sel);
        let p2 = matched_at(t, sel, base + len1);
        let pre1 = preorder_all(s1);
        let pre2 = preorder(t);
        let m = matched_all(s, sel);
        let p = matched_at_all(s, sel, base);
        let pre = preorder_all(s);
        assert(m == m1 + m2);
        assert(p == p1 + p2);
        assert(pre == pre1 + pre2);
        assert forall|k: int| 0 <= k < m.len() implies #[trigger] node_matches(sel, m[k]) by {
            if k < m1.len() {
                assert(m[k] == m1[k]);
            } else {
                assert(m[k] == m2[k - m1.len()]);
            }
        }
        assert forall|k: int| 0 <= k < m.len() implies base <= #[trigger] p[k] && p[k] - base + preorder(
            m[k],
        ).len() <= pre.len() && pre.subrange(p[k] - base, p[k] - base + preorder(m[k]).len())
            == preorder(m[k]) by {
            if k < m1.len() {
                assert(m[k] == m1[k] && p[k] == p1[k]);
                let lo = p1[k] - base;
                let hi = lo + preorder(m1[k]).len();
                assert(pre1.subrange(lo, hi) == preorder(m1[k]));
                assert(pre.subrange(lo, hi) =~= pre1.subrange(lo, hi));
            } else {
                let j = k - m1.len();
                assert(m[k] == m2[j] && p[k] == p2[j]);
                let lo = p2[j] - (base + len1);
                let hi = lo + preorder(m2[j]).len();
                assert(pre2.subrange(lo, hi) == preorder(m2[j]));
                assert(pre.subrange(lo + len1, hi + len1) =~= pre2.subrange(lo, hi));
            }
        }
        assert forall|k: int, l: int| 0 <= k < l < m.len() implies #[trigger] p[k] + preorder(m[k]).len()
            <= #[trigger] p[l] by {
            if l < m1.len() {
                assert(m[k] == m1[k] && p[k] == p1[k] && p[l] == p1[l]);
                assert(p1[k] + preorder(m1[k]).len() <= p1[l]);
            } else if k >= m1.len() {
                assert(m[k] == m2[k - m1.len()] && p[k] == p2[k - m1.len()] && p[l] == p2[l - m1.len()]);
                assert(p2[k - m1.len()] + preorder(m2[k - m1.len()]).len() <= p2[l - m1.len()]);
            } else {
                assert(m[k] == m1[k] && p[k] == p1[k] && p[l] == p2[l - m1.len()]);
                assert(base <= p1[k] && p1[k] - base + preorder(m1[k]).len() <= len1);
                assert(base + len1 <= p2[l - m1.len()]);
            }
        }
    }
}

/// The roots of a response for a selector are the matching widgets in
/// depth-first order, none inside another: each starts at a position of the
/// depth-first order of the windows' trees, its whole subtree lying there
/// and ending before the next root starts (the subtree of a match is not
/// searched).
pub proof fn law_selected_roots_apart(ns: Seq<WidgetNode>, sel: SelectorView)
    ensures
        roots_apart(matched_all(ns, sel), matched_at_all(ns, sel, 0), preorder_all(ns), 0, sel),
{
    lemma_matched_all_apart(ns, sel, 0);
}

/// `e` reports the widget `n`'s own handle, type and visible and sensitive
/// flags, and so do the descriptions nested in it, each for the child of
/// `n` at the same position.
pub open spec fn reports_flags(e: ElementInfo, n: WidgetNode) -> bool
    decreases n,
{
    &&& e.handle == n.handle
    &&& e.kind@ == n.kind@
    &&& e.visible == n.visible
    &&& e.sensitive == n.sensitive
    &&& (e.children@.len() == 0 || reports_all(e.children@, n.children@))
}

/// [`reports_flags`] position by position over sibling descriptions.
pub open spec fn reports_all(es: Seq<ElementInfo>, ns: Seq<WidgetNode>) -> bool
    decreases ns,
{
    &&& es.len() == ns.len()
    &&& (ns.len() == 0 || (reports_all(es.drop_last(), ns.drop_last()) && reports_flags(
        es.last(),
        ns.last(),
    )))
}

proof fn lemma_describes_reports(
    e: ElementInfo,
    n: WidgetNode,
    depth: u32,
    md: Option<u32>,
    props: Seq<Seq<char>>,
    c: nat,
)
    requires
        describes(e, n, depth, md, props, c),
    ensures
        reports_flags(e, n),
    decreases n,
{
    if allows(depth, md) {
        lemma_describes_all_reports(e.children@, n.children@, next_depth(depth, md), md, props, c + 1);
    }
}

proof fn lemma_describes_all_reports(
    es: Seq<ElementInfo>,
    ns: Seq<WidgetNode>,
    depth: u32,
    md: Option<u32>,
    props: Seq<Seq<char>>,
    c: nat,
)
    requires
        describes_all(es, ns, depth, md, props, c),
    ensures
        reports_all(es, ns),
    decreases ns,
{
    if ns.len() > 0 {
        lemma_describes_all_reports(es.drop_last(), ns.drop_last(), depth, md, props, c);
        lemma_describes_reports(
            es.last(),
            ns.last(),
            depth,
            md,
            props,
            c + sizes(ns.drop_last(), depth, md),
        );
    }
}

proof fn lemma_reports_all_index(es: Seq<ElementInfo>, ns: Seq<WidgetNode>)
    requires
        reports_all(es, ns),
    ensures
        forall|k: int| 0 <= k < ns.len() ==> reports_flags(#[trigger] es[k], ns[k]),
    decreases ns,
{
    if ns.len() > 0 {
        lemma_reports_all_index(es.drop_last(), ns.drop_last());
        assert forall|k: int| 0 <= k < ns.len() implies reports_flags(#[trigger] es[k], ns[k]) by {
            if k < ns.len() - 1 {
                assert(es[k] == es.drop_last()[k]);
                assert(ns[k] == ns.drop_last()[k]);
            }
        }
    }
}

/// Every description reports its own widget's flags: each returned root
/// has the visible and sensitive flags, handle and type of the widget it
/// describes (a window, or a match of the selector), and each nested
/// description those of the child at its position.
pub proof fn law_descriptions_report_widget_flags(
    roots: Seq<ElementInfo>,
    ns: Seq<WidgetNode>,
    md: Option<u32>,
    props: Seq<Seq<char>>,
)
    requires
        describes_all(roots, ns, 0, md, props, 0),
    ensures
        roots.len() == ns.len(),
        forall|k: int|
            0 <= k < ns.len() ==> (#[trigger] roots[k]).visible == ns[k].visible && roots[k].sensitive
                == ns[k].sensitive && roots[k].handle == ns[k].handle,
        forall|k: int| 0 <= k < ns.len() ==> reports_flags(#[trigger] roots[k], ns[k]),
{
    lemma_describes_all_reports(roots, ns, 0, md, props, 0);
    lemma_reports_all_index(roots, ns);
}

} // verus!
