//! Which widget properties stream change events: a fixed allowlist of
//! `(widget kind, property names)` pairs.

use vstd::prelude::*;

use crate::text::same_text;

verus! {

/// The allowlist: GObject type names with the properties whose changes are
/// forwarded as `Property` events.
pub open spec fn allowlist_spec() -> Seq<(Seq<char>, Seq<Seq<char>>)> {
    seq![
        ("GtkStack"@, seq!["visible-child-name"@, "visible-child"@]),
        ("GtkSwitch"@, seq!["active"@, "state"@]),
        ("GtkSpinner"@, seq!["spinning"@]),
        ("GtkPicture"@, seq!["file"@, "paintable"@]),
        ("GtkEntry"@, seq!["text"@]),
        ("GtkNotebook"@, seq!["page"@]),
        ("GtkRevealer"@, seq!["reveal-child"@, "child-revealed"@]),
        ("GtkExpander"@, seq!["expanded"@]),
    ]
}

/// The allowlist, as strings.
pub fn allowlist() -> (v: Vec<(&'static str, Vec<&'static str>)>)
    ensures
        v.len() == allowlist_spec().len(),
        forall|i: int|
            0 <= i < v.len() ==> (#[trigger] v@[i]).0@ == allowlist_spec()[i].0 && v@[i].1.len()
                == allowlist_spec()[i].1.len() && forall|j: int|
                0 <= j < v@[i].1.len() ==> (#[trigger] v@[i].1@[j])@ == allowlist_spec()[i].1[j],
{
    let mut v: Vec<(&'static str, Vec<&'static str>)> = Vec::new();
    v.push(("GtkStack", vec!["visible-child-name", "visible-child"]));
    v.push(("GtkSwitch", vec!["active", "state"]));
    v.push(("GtkSpinner", vec!["spinning"]));
    v.push(("GtkPicture", vec!["file", "paintable"]));
    v.push(("GtkEntry", vec!["text"]));
    v.push(("GtkNotebook", vec!["page"]));
    v.push(("GtkRevealer", vec!["reveal-child", "child-revealed"]));
    v.push(("GtkExpander", vec!["expanded"]));
    v
}

/// `(kind, property)` is in the allowlist.
pub open spec fn allowed(kind: Seq<char>, property: Seq<char>) -> bool {
    exists|i: int|
        0 <= i < allowlist_spec().len() && (#[trigger] allowlist_spec()[i]).0 == kind
            && allowlist_spec()[i].1.contains(property)
}

/// `true` if `(kind, property)` is in the allowlist.
pub fn is_allowed(kind: &str, property: &str) -> (r: bool)
    ensures
        r == allowed(kind@, property@),
{
    let list = allowlist();
    let mut i: usize = 0;
    while i < list.len()
        invariant
            i <= list.len(),
            list.len() == allowlist_spec().len(),
            forall|a: int|
                0 <= a < list.len() ==> (#[trigger] list@[a]).0@ == allowlist_spec()[a].0
                    && list@[a].1.len() == allowlist_spec()[a].1.len() && forall|j: int|
                    0 <= j < list@[a].1.len() ==> (#[trigger] list@[a].1@[j])@
                        == allowlist_spec()[a].1[j],
            forall|a: int|
                0 <= a < i ==> !((#[trigger] allowlist_spec()[a]).0 == kind@
                    && allowlist_spec()[a].1.contains(property@)),
        decreases list.len() - i,
    {
        if same_text(list[i].0, kind) {
            let props = &list[i].1;
            let mut j: usize = 0;
            while j < props.len()
                invariant
                    j <= props.len(),
                    i < allowlist_spec().len(),
                    allowlist_spec()[i as int].0 == kind@,
                    props.len() == allowlist_spec()[i as int].1.len(),
                    forall|b: int| 0 <= b < props.len() ==> (#[trigger] props@[b])@ == allowlist_spec()[i as int].1[b],
                    forall|b: int| 0 <= b < j ==> allowlist_spec()[i as int].1[b] != property@,
                decreases props.len() - j,
            {
                if same_text(props[j], property) {
                    assert(allowlist_spec()[i as int].1[j as int] == property@);
                    assert(allowlist_spec()[i as int].1.contains(property@));
                    return true;
                }
                j += 1;
            }
        }
        i += 1;
    }
    false
}

/// Properties to subscribe to on a widget of type `kind`: those of the first
/// allowlist entry for `kind`, none when `kind` is not listed.
pub fn registered_properties(kind: &str) -> (r: Vec<&'static str>)
    ensures
        (exists|i: int| 0 <= i < allowlist_spec().len() && (#[trigger] allowlist_spec()[i]).0 == kind@) ==> {
            let i = choose|i: int| 0 <= i < allowlist_spec().len() && (#[trigger] allowlist_spec()[i]).0 == kind@
                && forall|a: int| 0 <= a < i ==> (#[trigger] allowlist_spec()[a]).0 != kind@;
            &&& r.len() == allowlist_spec()[i].1.len()
            &&& forall|b: int| 0 <= b < r.len() ==> (#[trigger] r@[b])@ == allowlist_spec()[i].1[b]
        },
        (forall|i: int| 0 <= i < allowlist_spec().len() ==> (#[trigger] allowlist_spec()[i]).0 != kind@) ==> r.len() == 0,
        forall|b: int| 0 <= b < r.len() ==> allowed(kind@, (#[trigger] r@[b])@),
{
    let list = allowlist();
    let mut i: usize = 0;
    while i < list.len()
        invariant
            i <= list.len(),
            list.len() == allowlist_spec().len(),
            forall|a: int|
                0 <= a < list.len() ==> (#[trigger] list@[a]).0@ == allowlist_spec()[a].0
                    && list@[a].1.len() == allowlist_spec()[a].1.len() && forall|j: int|
                    0 <= j < list@[a].1.len() ==> (#[trigger] list@[a].1@[j])@
                        == allowlist_spec()[a].1[j],
            forall|a: int| 0 <= a < i ==> (#[trigger] allowlist_spec()[a]).0 != kind@,
        decreases list.len() - i,
    {
        if same_text(list[i].0, kind) {
            let mut out: Vec<&'static str> = Vec::new();
            let mut j: usize = 0;
            while j < list[i].1.len()
                invariant
                    i < list.len(),
                    j <= list@[i as int].1.len(),
                    out.len() == j,
                    forall|b: int| 0 <= b < j ==> (#[trigger] out@[b])@ == list@[i as int].1@[b]@,
                decreases list@[i as int].1.len() - j,
            {
                out.push(list[i].1[j]);
                j += 1;
            }
            let ghost w = choose|w: int| 0 <= w < allowlist_spec().len() && (#[trigger] allowlist_spec()[w]).0 == kind@
                && forall|a: int| 0 <= a < w ==> (#[trigger] allowlist_spec()[a]).0 != kind@;
            proof {
                assert(allowlist_spec()[i as int].0 == kind@);
                if w < i {
                } else if w > i {
                }
                assert(w == i);
                assert forall|b: int| 0 <= b < out.len() implies allowed(kind@, (#[trigger] out@[b])@) by {
                    assert(allowlist_spec()[i as int].1[b] == out@[b]@);
                    assert(allowlist_spec()[i as int].1.contains(out@[b]@));
                }
            }
            return out;
        }
        i += 1;
    }
    Vec::new()
}

} // verus!
