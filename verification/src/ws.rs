//! Event-stream subscription filters: which event kinds a subscriber asked
//! for, and whether an event is forwarded to it.

use vstd::prelude::*;

use crate::proto::{EventEnvelope, EventKind};
use crate::elements::strs;
use crate::text::{chars_of, same_chars, split_chars, split_on, string_of, trim, trim_chars};

verus! {

/// The event kind whose wire name is `t`.
pub open spec fn kind_named(t: Seq<char>) -> Option<EventKind> {
    if t == "state_change"@ {
        Some(EventKind::StateChange)
    } else if t == "log_line"@ {
        Some(EventKind::LogLine)
    } else if t == "property"@ {
        Some(EventKind::Property)
    } else {
        None
    }
}

/// The wire name of an event kind.
pub open spec fn kind_name(k: EventKind) -> Seq<char> {
    match k {
        EventKind::StateChange => "state_change"@,
        EventKind::LogLine => "log_line"@,
        EventKind::Property => "property"@,
    }
}

/// Some comma-separated token of `s`, once trimmed, names kind `k`.
pub open spec fn csv_names_kind(s: Seq<char>, k: EventKind) -> bool {
    exists|i: int| 0 <= i < split_on(s, ',').len() && kind_named(trim(#[trigger] split_on(s, ',')[i])) == Some(k)
}

/// The event kind named by `t`, if any.
pub fn kind_from_name(t: &Vec<char>) -> (r: Option<EventKind>)
    ensures
        r == kind_named(t@),
{
    let a = chars_of("state_change");
    let b = chars_of("log_line");
    let c = chars_of("property");
    if same_chars(t, &a) {
        Some(EventKind::StateChange)
    } else if same_chars(t, &b) {
        Some(EventKind::LogLine)
    } else if same_chars(t, &c) {
        Some(EventKind::Property)
    } else {
        None
    }
}

/// Wire name of `k`.
pub fn kind_wire_name(k: EventKind) -> (r: &'static str)
    ensures
        r@ == kind_name(k),
{
    match k {
        EventKind::StateChange => "state_change",
        EventKind::LogLine => "log_line",
        EventKind::Property => "property",
    }
}

/// The set of event kinds named in a `kinds=` CSV value. Tokens are trimmed;
/// empty and unknown tokens are ignored. No value (or no known token) gives
/// the empty set, which means "every kind" (see [`should_forward`]). Each kind
/// occurs at most once.
pub fn parse_kinds(s: Option<&str>) -> (r: Vec<EventKind>)
    ensures
        s is None ==> r.len() == 0,
        s matches Some(x) ==> forall|k: EventKind| r@.contains(k) <==> csv_names_kind(x@, k),
        forall|a: int, b: int| 0 <= a < b < r.len() ==> r@[a] != r@[b],
{
    let mut set: Vec<EventKind> = Vec::new();
    let x = match s {
        None => {
            return set;
        },
        Some(x) => x,
    };
    let cs = chars_of(x);
    let toks = split_chars(&cs, ',');
    let mut i: usize = 0;
    while i < toks.len()
        invariant
            i <= toks.len(),
            cs@ == x@,
            toks.len() == split_on(cs@, ',').len(),
            forall|k: int| 0 <= k < toks.len() ==> #[trigger] toks@[k]@ == split_on(cs@, ',')[k],
            forall|k: EventKind|
                set@.contains(k) <==> exists|j: int| 0 <= j < i && kind_named(trim(#[trigger] split_on(cs@, ',')[j])) == Some(k),
            forall|a: int, b: int| 0 <= a < b < set.len() ==> set@[a] != set@[b],
        decreases toks.len() - i,
    {
        let t = trim_chars(&toks[i]);
        let ghost old_set = set@;
        let ghost tok = split_on(cs@, ',')[i as int];
        assert(t@ == trim(tok));
        match kind_from_name(&t) {
            Some(k) => {
                if !contains_kind(&set, k) {
                    set.push(k);
                    proof {
                        assert forall|a: int, b: int| 0 <= a < b < set.len() implies set@[a] != set@[b] by {
                            if b == set.len() - 1 {
                                assert(old_set[a] == set@[a]);
                                assert(!old_set.contains(k));
                            }
                        }
                    }
                }
                assert forall|q: EventKind| set@.contains(q) <==> (old_set.contains(q) || Some(q) == kind_named(trim(tok))) by {
                    if q == k && !old_set.contains(q) {
                        assert(set@[set.len() - 1] == k);
                    }
                    if old_set.contains(q) {
                        let w = choose|w: int| 0 <= w < old_set.len() && old_set[w] == q;
                        assert(set@[w] == q);
                    }
                    if set@.contains(q) && set@ != old_set {
                        let w = choose|w: int| 0 <= w < set.len() && set@[w] == q;
                        if w < old_set.len() {
                            assert(old_set[w] == q);
                        }
                    }
                }
            },
            None => {
                assert forall|q: EventKind| set@.contains(q) <==> (old_set.contains(q) || Some(q) == kind_named(trim(tok))) by {}
            },
        }
        assert(forall|q: EventKind| set@.contains(q) <==> (old_set.contains(q) || Some(q) == kind_named(trim(tok))));
        assert forall|k: EventKind|
            set@.contains(k) <==> exists|j: int| 0 <= j < i + 1 && kind_named(trim(#[trigger] split_on(cs@, ',')[j])) == Some(k) by {
            if kind_named(trim(tok)) == Some(k) {
                assert(kind_named(trim(split_on(cs@, ',')[i as int])) == Some(k));
            }
            if set@.contains(k) {
                if old_set.contains(k) {
                    assert(exists|j: int| 0 <= j < i && kind_named(trim(#[trigger] split_on(cs@, ',')[j])) == Some(k));
                    let j = choose|j: int| 0 <= j < i && kind_named(trim(#[trigger] split_on(cs@, ',')[j])) == Some(k);
                    assert(kind_named(trim(split_on(cs@, ',')[j])) == Some(k));
                } else {
                    assert(kind_named(trim(split_on(cs@, ',')[i as int])) == Some(k));
                }
            }
            if exists|j: int| 0 <= j < i + 1 && kind_named(trim(#[trigger] split_on(cs@, ',')[j])) == Some(k) {
                let j = choose|j: int| 0 <= j < i + 1 && kind_named(trim(#[trigger] split_on(cs@, ',')[j])) == Some(k);
                if j < i {
                    assert(old_set.contains(k));
                }
            }
        }
        i += 1;
    }
    set
}

/// The trimmed tokens of `toks` that are not empty and name no event kind,
/// in order.
pub open spec fn unknown_tokens(toks: Seq<Seq<char>>) -> Seq<Seq<char>>
    decreases toks.len(),
{
    if toks.len() == 0 {
        Seq::empty()
    } else {
        let t = trim(toks.last());
        unknown_tokens(toks.drop_last()) + if t.len() > 0 && kind_named(t) is None {
            seq![t]
        } else {
            Seq::empty()
        }
    }
}

/// The tokens of a `kinds=` CSV value that [`parse_kinds`] ignores because
/// they name no event kind: trimmed, in order, empty tokens left out.
pub fn unknown_kinds(s: Option<&str>) -> (r: Vec<String>)
    ensures
        strs(r@) == match s {
            None => Seq::<Seq<char>>::empty(),
            Some(x) => unknown_tokens(split_on(x@, ',')),
        },
{
    let mut out: Vec<String> = Vec::new();
    let x = match s {
        None => {
            assert(strs(out@) =~= Seq::<Seq<char>>::empty());
            return out;
        },
        Some(x) => x,
    };
    let cs = chars_of(x);
    let toks = split_chars(&cs, ',');
    let ghost ps = split_on(cs@, ',');
    let mut i: usize = 0;
    assert(ps.take(0) =~= Seq::<Seq<char>>::empty());
    assert(strs(out@) =~= Seq::<Seq<char>>::empty());
    while i < toks.len()
        invariant
            i <= toks.len(),
            cs@ == x@,
            ps == split_on(cs@, ','),
            toks.len() == ps.len(),
            forall|k: int| 0 <= k < toks.len() ==> #[trigger] toks@[k]@ == ps[k],
            strs(out@) == unknown_tokens(ps.take(i as int)),
        decreases toks.len() - i,
    {
        let t = trim_chars(&toks[i]);
        assert(ps.take(i as int + 1).drop_last() =~= ps.take(i as int));
        assert(ps.take(i as int + 1).last() == ps[i as int]);
        let ghost before = out@;
        if t.len() > 0 && kind_from_name(&t).is_none() {
            out.push(string_of(&t));
            assert(strs(out@) =~= strs(before) + seq![t@]);
        } else {
            assert(strs(before) + Seq::<Seq<char>>::empty() =~= strs(before));
        }
        i += 1;
    }
    assert(ps.take(toks.len() as int) =~= ps);
    out
}

/// Whether `k` is in `set`.
pub fn contains_kind(set: &Vec<EventKind>, k: EventKind) -> (r: bool)
    ensures
        r == set@.contains(k),
{
    let mut i: usize = 0;
    while i < set.len()
        invariant
            i <= set.len(),
            forall|j: int| 0 <= j < i ==> set@[j] != k,
        decreases set.len() - i,
    {
        if set[i] == k {
            assert(set@[i as int] == k);
            return true;
        }
        i += 1;
    }
    false
}

/// Forward `env` to a subscriber whose filter is `filter`: an empty filter
/// accepts every kind.
pub fn should_forward(env: &EventEnvelope, filter: &Vec<EventKind>) -> (r: bool)
    ensures
        r == (filter@.len() == 0 || filter@.contains(env.kind)),
{
    filter.len() == 0 || contains_kind(filter, env.kind)
}

/// Query parameters of the event-stream upgrade request: `kinds`, a CSV
/// list of event kinds to subscribe to (unset: every kind).
#[derive(Debug, Clone, Default, PartialEq, Eq)]
pub struct EventsQuery {
    pub kinds: Option<String>,
}

impl EventsQuery {
    /// The subscription filter of this query, see [`parse_kinds`].
    pub fn filter(&self) -> (r: Vec<EventKind>)
        ensures
            self.kinds is None ==> r.len() == 0,
            self.kinds matches Some(x) ==> forall|k: EventKind| r@.contains(k) <==> csv_names_kind(x@, k),
            forall|a: int, b: int| 0 <= a < b < r.len() ==> r@[a] != r@[b],
    {
        match &self.kinds {
            Some(k) => parse_kinds(Some(k.as_str())),
            None => parse_kinds(None),
        }
    }
}

} // verus!
