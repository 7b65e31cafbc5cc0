//! A JSON document model with a spec view, structural equality and
//! JSON Pointer (RFC 6901) resolution.
//!
//! Objects keep their entries strictly ordered by key (code-point order, the
//! order in which a `BTreeMap<String, _>` iterates), so two well-formed
//! objects are equal exactly when they hold the same keys with equal values.

use vstd::prelude::*;

use crate::text::{chars_of, lemma_split_on_nonempty, split_chars, split_on, string_of};

verus! {

/// A JSON number. `NegInt` only ever holds negative values; `Float` holds the
/// IEEE-754 bit pattern of a finite double (positive zero for either zero).
#[derive(Debug, Clone, Copy, PartialEq, Eq, Structural)]
pub enum JsonNumber {
    PosInt(u64),
    NegInt(i64),
    Float(u64),
}

/// A JSON value.
#[derive(Debug)]
pub enum JsonValue {
    Null,
    Bool(bool),
    Number(JsonNumber),
    String(String),
    Array(Vec<JsonValue>),
    /// Entries ordered strictly by key.
    Object(Vec<(String, JsonValue)>),
}

/// Mathematical view of a [`JsonValue`].
pub enum JsonView {
    Null,
    Bool(bool),
    Number(JsonNumber),
    Str(Seq<char>),
    Array(Seq<JsonView>),
    Object(Seq<(Seq<char>, JsonView)>),
}

impl JsonValue {
    /// The view of one value.
    pub open spec fn view_json(self) -> JsonView
        decreases self,
    {
        match self {
            JsonValue::Null => JsonView::Null,
            JsonValue::Bool(b) => JsonView::Bool(b),
            JsonValue::Number(n) => JsonView::Number(n),
            JsonValue::String(s) => JsonView::Str(s@),
            JsonValue::Array(v) => JsonView::Array(Self::view_items(v@)),
            JsonValue::Object(e) => JsonView::Object(Self::view_entries(e@)),
        }
    }

    /// The views of a sequence of values, element by element.
    pub open spec fn view_items(s: Seq<JsonValue>) -> Seq<JsonView>
        decreases s,
    {
        if s.len() == 0 {
            Seq::empty()
        } else {
            Self::view_items(s.drop_last()).push(s.last().view_json())
        }
    }

    /// The views of a sequence of object entries, entry by entry.
    pub open spec fn view_entries(s: Seq<(String, JsonValue)>) -> Seq<(Seq<char>, JsonView)>
        decreases s,
    {
        if s.len() == 0 {
            Seq::empty()
        } else {
            Self::view_entries(s.drop_last()).push((s.last().0@, s.last().1.view_json()))
        }
    }
}

impl View for JsonValue {
    type V = JsonView;

    open spec fn view(&self) -> JsonView {
        self.view_json()
    }
}


/// Strict lexicographic order on character sequences, comparing code points.
pub open spec fn key_lt(a: Seq<char>, b: Seq<char>) -> bool
    decreases a.len(),
{
    if b.len() == 0 {
        false
    } else if a.len() == 0 {
        true
    } else if (a[0] as int) < (b[0] as int) {
        true
    } else if a[0] == b[0] {
        key_lt(a.drop_first(), b.drop_first())
    } else {
        false
    }
}

/// Object entries whose keys are strictly increasing.
pub open spec fn keys_sorted(e: Seq<(Seq<char>, JsonView)>) -> bool {
    forall|i: int, j: int| 0 <= i < j < e.len() ==> key_lt(#[trigger] e[i].0, #[trigger] e[j].0)
}

/// Every object inside the value, at any depth, has strictly increasing keys.
pub open spec fn json_wf(v: JsonView) -> bool
    decreases v,
{
    match v {
        JsonView::Array(s) => forall|i: int| 0 <= i < s.len() ==> json_wf(#[trigger] s[i]),
        JsonView::Object(e) => keys_sorted(e) && forall|i: int|
            0 <= i < e.len() ==> json_wf(#[trigger] e[i].1),
        _ => true,
    }
}

/// The value stored under key `k`, searching entries front to back.
pub open spec fn lookup(e: Seq<(Seq<char>, JsonView)>, k: Seq<char>) -> Option<JsonView>
    decreases e.len(),
{
    if e.len() == 0 {
        None
    } else if e[0].0 == k {
        Some(e[0].1)
    } else {
        lookup(e.drop_first(), k)
    }
}

pub proof fn lemma_key_lt_irreflexive(a: Seq<char>)
    ensures
        !key_lt(a, a),
    decreases a.len(),
{
    if a.len() > 0 {
        lemma_key_lt_irreflexive(a.drop_first());
    }
}

pub proof fn lemma_key_lt_transitive(a: Seq<char>, b: Seq<char>, c: Seq<char>)
    requires
        key_lt(a, b),
        key_lt(b, c),
    ensures
        key_lt(a, c),
    decreases a.len(),
{
    if a.len() > 0 && b.len() > 0 && c.len() > 0 {
        if a[0] == b[0] && b[0] == c[0] {
            lemma_key_lt_transitive(a.drop_first(), b.drop_first(), c.drop_first());
        }
    }
}

pub proof fn lemma_key_lt_total(a: Seq<char>, b: Seq<char>)
    ensures
        a == b || key_lt(a, b) || key_lt(b, a),
    decreases a.len(),
{
    if a.len() > 0 && b.len() > 0 {
        if a[0] == b[0] {
            lemma_key_lt_total(a.drop_first(), b.drop_first());
            if a.drop_first() == b.drop_first() {
                assert(a =~= seq![a[0]] + a.drop_first());
                assert(b =~= seq![b[0]] + b.drop_first());
            }
        } else {
            assert((a[0] as int) != (b[0] as int));
        }
    } else if a.len() == 0 && b.len() == 0 {
        assert(a =~= b);
    }
}

pub proof fn lemma_key_lt_asymmetric(a: Seq<char>, b: Seq<char>)
    requires
        key_lt(a, b),
    ensures
        !key_lt(b, a),
{
    if key_lt(b, a) {
        lemma_key_lt_transitive(a, b, a);
        lemma_key_lt_irreflexive(a);
    }
}

impl JsonValue {
    pub proof fn lemma_view_items(s: Seq<JsonValue>)
        ensures
            Self::view_items(s).len() == s.len(),
            forall|i: int| 0 <= i < s.len() ==> #[trigger] Self::view_items(s)[i] == s[i].view_json(),
        decreases s.len(),
    {
        if s.len() > 0 {
            Self::lemma_view_items(s.drop_last());
        }
    }

    pub proof fn lemma_view_entries(s: Seq<(String, JsonValue)>)
        ensures
            Self::view_entries(s).len() == s.len(),
            forall|i: int| 0 <= i < s.len() ==> #[trigger] Self::view_entries(s)[i] == (s[i].0@, s[i].1.view_json()),
        decreases s.len(),
    {
        if s.len() > 0 {
            Self::lemma_view_entries(s.drop_last());
        }
    }
}


/// Strict code-point order on two keys.
pub fn key_less(a: &Vec<char>, b: &Vec<char>) -> (r: bool)
    ensures
        r == key_lt(a@, b@),
{
    let mut i: usize = 0;
    assert(a@.skip(0) =~= a@);
    assert(b@.skip(0) =~= b@);
    while i < a.len() && i < b.len()
        invariant
            i <= a.len(),
            i <= b.len(),
            key_lt(a@, b@) == key_lt(a@.skip(i as int), b@.skip(i as int)),
        decreases a.len() - i,
    {
        if a[i] < b[i] {
            return true;
        }
        if a[i] != b[i] {
            return false;
        }
        assert(a@.skip(i as int).drop_first() =~= a@.skip(i as int + 1));
        assert(b@.skip(i as int).drop_first() =~= b@.skip(i as int + 1));
        i += 1;
    }
    i < b.len()
}

/// Structural equality of two JSON values.
pub fn json_eq(a: &JsonValue, b: &JsonValue) -> (r: bool)
    ensures
        r == (a@ == b@),
    decreases a,
{
    match (a, b) {
        (JsonValue::Null, JsonValue::Null) => true,
        (JsonValue::Bool(x), JsonValue::Bool(y)) => *x == *y,
        (JsonValue::Number(x), JsonValue::Number(y)) => *x == *y,
        (JsonValue::String(x), JsonValue::String(y)) => *x == *y,
        (JsonValue::Array(x), JsonValue::Array(y)) => {
            proof {
                JsonValue::lemma_view_items(x@);
                JsonValue::lemma_view_items(y@);
            }
            if x.len() != y.len() {
                return false;
            }
            let mut i: usize = 0;
            while i < x.len()
                invariant
                    *a == JsonValue::Array(*x),
                    *b == JsonValue::Array(*y),
                    x.len() == y.len(),
                    i <= x.len(),
                    forall|k: int| 0 <= k < i ==> #[trigger] x@[k].view_json() == y@[k].view_json(),
                    JsonValue::view_items(x@).len() == x.len(),
                    JsonValue::view_items(y@).len() == y.len(),
                    forall|k: int| 0 <= k < x.len() ==> #[trigger] JsonValue::view_items(x@)[k] == x@[k].view_json(),
                    forall|k: int| 0 <= k < y.len() ==> #[trigger] JsonValue::view_items(y@)[k] == y@[k].view_json(),
                decreases x.len() - i,
            {
                proof {
                    assert(decreases_to!(*a => (*a)->Array_0));
                    assert(decreases_to!(*x => x@));
                    assert(decreases_to!(x@ => x@[i as int]));
                    assert(decreases_to!(*a => x@[i as int]));
                }
                if !json_eq(&x[i], &y[i]) {
                    assert(JsonValue::view_items(x@)[i as int] != JsonValue::view_items(y@)[i as int]);
                    return false;
                }
                i += 1;
            }
            assert(JsonValue::view_items(x@) =~= JsonValue::view_items(y@));
            true
        },
        (JsonValue::Object(x), JsonValue::Object(y)) => {
            proof {
                JsonValue::lemma_view_entries(x@);
                JsonValue::lemma_view_entries(y@);
            }
            if x.len() != y.len() {
                return false;
            }
            let mut i: usize = 0;
            while i < x.len()
                invariant
                    *a == JsonValue::Object(*x),
                    *b == JsonValue::Object(*y),
                    x.len() == y.len(),
                    i <= x.len(),
                    forall|k: int|
                        0 <= k < i ==> #[trigger] JsonValue::view_entries(x@)[k]
                            == JsonValue::view_entries(y@)[k],
                    JsonValue::view_entries(x@).len() == x.len(),
                    JsonValue::view_entries(y@).len() == y.len(),
                    forall|k: int| 0 <= k < x.len() ==> #[trigger] JsonValue::view_entries(x@)[k] == (x@[k].0@, x@[k].1.view_json()),
                    forall|k: int| 0 <= k < y.len() ==> #[trigger] JsonValue::view_entries(y@)[k] == (y@[k].0@, y@[k].1.view_json()),
                decreases x.len() - i,
            {
                proof {
                    assert(decreases_to!(*a => (*a)->Object_0));
                    assert(decreases_to!(*x => x@));
                    assert(decreases_to!(x@ => x@[i as int]));
                    assert(decreases_to!(x@[i as int] => x@[i as int].1));
                    assert(decreases_to!(*a => x@[i as int].1));
                }
                if !(x[i].0 == y[i].0) {
                    assert(JsonValue::view_entries(x@)[i as int].0 != JsonValue::view_entries(y@)[i as int].0);
                    return false;
                }
                if !json_eq(&x[i].1, &y[i].1) {
                    assert(JsonValue::view_entries(x@)[i as int].1 != JsonValue::view_entries(y@)[i as int].1);
                    return false;
                }
                i += 1;
            }
            assert(JsonValue::view_entries(x@) =~= JsonValue::view_entries(y@));
            true
        },
        _ => false,
    }
}

/// A deep copy of `a`.
pub fn duplicate(a: &JsonValue) -> (r: JsonValue)
    ensures
        r@ == a@,
    decreases a,
{
    match a {
        JsonValue::Null => JsonValue::Null,
        JsonValue::Bool(x) => JsonValue::Bool(*x),
        JsonValue::Number(x) => JsonValue::Number(*x),
        JsonValue::String(x) => JsonValue::String(x.clone()),
        JsonValue::Array(x) => {
            let mut out: Vec<JsonValue> = Vec::new();
            let mut i: usize = 0;
            while i < x.len()
                invariant
                    *a == JsonValue::Array(*x),
                    i <= x.len(),
                    out.len() == i,
                    forall|k: int| 0 <= k < i ==> #[trigger] out@[k].view_json() == x@[k].view_json(),
                decreases x.len() - i,
            {
                proof {
                    assert(decreases_to!(*a => (*a)->Array_0));
                    assert(decreases_to!(*x => x@));
                    assert(decreases_to!(x@ => x@[i as int]));
                    assert(decreases_to!(*a => x@[i as int]));
                }
                let d = duplicate(&x[i]);
                out.push(d);
                i += 1;
            }
            proof {
                JsonValue::lemma_view_items(x@);
                JsonValue::lemma_view_items(out@);
                assert(JsonValue::view_items(out@) =~= JsonValue::view_items(x@));
            }
            JsonValue::Array(out)
        },
        JsonValue::Object(x) => {
            let mut out: Vec<(String, JsonValue)> = Vec::new();
            let mut i: usize = 0;
            while i < x.len()
                invariant
                    *a == JsonValue::Object(*x),
                    i <= x.len(),
                    out.len() == i,
                    forall|k: int| 0 <= k < i ==> #[trigger] out@[k].0@ == x@[k].0@ && out@[k].1.view_json() == x@[k].1.view_json(),
                decreases x.len() - i,
            {
                proof {
                    assert(decreases_to!(*a => (*a)->Object_0));
                    assert(decreases_to!(*x => x@));
                    assert(decreases_to!(x@ => x@[i as int]));
                    assert(decreases_to!(x@[i as int] => x@[i as int].1));
                    assert(decreases_to!(*a => x@[i as int].1));
                }
                let d = duplicate(&x[i].1);
                out.push((x[i].0.clone(), d));
                i += 1;
            }
            proof {
                JsonValue::lemma_view_entries(x@);
                JsonValue::lemma_view_entries(out@);
                assert(JsonValue::view_entries(out@) =~= JsonValue::view_entries(x@));
            }
            JsonValue::Object(out)
        },
    }
}


// ---------------------------------------------------------------------------
// JSON Pointer (RFC 6901)
// ---------------------------------------------------------------------------

/// Replaces, scanning left to right without overlap, every `~` followed by
/// `esc` with the single character `out`.
pub open spec fn replace_escape(s: Seq<char>, esc: char, out: char) -> Seq<char>
    decreases s.len(),
{
    if s.len() < 2 {
        s
    } else if s[0] == '~' && s[1] == esc {
        seq![out] + replace_escape(s.subrange(2, s.len() as int), esc, out)
    } else {
        seq![s[0]] + replace_escape(s.drop_first(), esc, out)
    }
}

/// A reference token with its escapes undone: `~1` becomes `/`, then `~0`
/// becomes `~`.
pub open spec fn unescape_token(t: Seq<char>) -> Seq<char> {
    replace_escape(replace_escape(t, '1', '/'), '0', '~')
}

pub open spec fn is_digit(c: char) -> bool {
    '0' <= c && c <= '9'
}

/// Decimal value of a sequence of ASCII digits.
pub open spec fn digits_value(t: Seq<char>) -> nat
    decreases t.len(),
{
    if t.len() == 0 {
        0
    } else {
        digits_value(t.drop_last()) * 10 + ((t.last() as int) - ('0' as int)) as nat
    }
}

/// An array index token: decimal digits with no sign and no leading zero,
/// whose value fits in `usize`.
pub open spec fn array_index(t: Seq<char>) -> Option<nat> {
    if t.len() == 0 || t[0] == '+' || (t[0] == '0' && t.len() != 1) {
        None
    } else if (forall|k: int| 0 <= k < t.len() ==> is_digit(#[trigger] t[k])) && digits_value(t)
        <= usize::MAX {
        Some(digits_value(t))
    } else {
        None
    }
}

/// Follows reference tokens from `v`: an object by key, an array by index.
pub open spec fn resolve_tokens(v: JsonView, tokens: Seq<Seq<char>>) -> Option<JsonView>
    decreases tokens.len(),
{
    if tokens.len() == 0 {
        Some(v)
    } else {
        match v {
            JsonView::Object(e) => match lookup(e, tokens[0]) {
                Some(x) => resolve_tokens(x, tokens.drop_first()),
                None => None,
            },
            JsonView::Array(a) => match array_index(tokens[0]) {
                Some(i) => if i < a.len() {
                    resolve_tokens(a[i as int], tokens.drop_first())
                } else {
                    None
                },
                None => None,
            },
            _ => None,
        }
    }
}

/// The reference tokens of a pointer that starts with `/`.
pub open spec fn pointer_tokens(p: Seq<char>) -> Seq<Seq<char>> {
    split_on(p, '/').drop_first().map_values(|t: Seq<char>| unescape_token(t))
}

/// The value that JSON Pointer `p` designates in `v`: the whole document for
/// the empty pointer, nothing for a pointer that does not start with `/`.
pub open spec fn json_pointer(v: JsonView, p: Seq<char>) -> Option<JsonView> {
    if p.len() == 0 {
        Some(v)
    } else if p[0] != '/' {
        None
    } else {
        resolve_tokens(v, pointer_tokens(p))
    }
}

pub open spec fn opt_view(r: Option<&JsonValue>) -> Option<JsonView> {
    match r {
        Some(x) => Some(x@),
        None => None,
    }
}

/// Replaces every `~esc` (left to right, non-overlapping) with `out`.
fn replace_escape_exec(s: &Vec<char>, esc: char, out: char) -> (r: Vec<char>)
    ensures
        r@ == replace_escape(s@, esc, out),
{
    let mut r: Vec<char> = Vec::new();
    let mut i: usize = 0;
    assert(s@.subrange(0, s.len() as int) =~= s@);
    while i < s.len()
        invariant
            i <= s.len(),
            r@ + replace_escape(s@.subrange(i as int, s.len() as int), esc, out) == replace_escape(s@, esc, out),
        decreases s.len() - i,
    {
        let ghost rest = s@.subrange(i as int, s.len() as int);
        if i + 1 < s.len() && s[i] == '~' && s[i + 1] == esc {
            assert(rest.subrange(2, rest.len() as int) =~= s@.subrange(i as int + 2, s.len() as int));
            assert(r@.push(out) + replace_escape(s@.subrange(i as int + 2, s.len() as int), esc, out)
                =~= r@ + (seq![out] + replace_escape(rest.subrange(2, rest.len() as int), esc, out)));
            r.push(out);
            i += 2;
        } else {
            assert(rest.drop_first() =~= s@.subrange(i as int + 1, s.len() as int));
            proof {
            if rest.len() >= 2 {
                assert(r@.push(s@[i as int]) + replace_escape(s@.subrange(i as int + 1, s.len() as int), esc, out)
                    =~= r@ + (seq![rest[0]] + replace_escape(rest.drop_first(), esc, out)));
            } else {
                assert(rest =~= seq![s@[i as int]]);
                assert(s@.subrange(i as int + 1, s.len() as int) =~= Seq::<char>::empty());
                assert(r@.push(s@[i as int]) + replace_escape(s@.subrange(i as int + 1, s.len() as int), esc, out)
                    =~= r@ + rest);
            }
            }
            r.push(s[i]);
            i += 1;
        }
    }
    assert(s@.subrange(s.len() as int, s.len() as int) =~= Seq::<char>::empty());
    assert(r@ + Seq::<char>::empty() =~= r@);
    r
}

/// The array index written by token `t`, if it is one.
fn array_index_exec(t: &Vec<char>) -> (r: Option<usize>)
    ensures
        match r {
            Some(i) => array_index(t@) == Some(i as nat),
            None => array_index(t@) is None,
        },
{
    if t.len() == 0 || t[0] == '+' || (t[0] == '0' && t.len() != 1) {
        return None;
    }
    let mut v: usize = 0;
    let mut i: usize = 0;
    assert(t@.take(0) =~= Seq::<char>::empty());
    while i < t.len()
        invariant
            i <= t.len(),
            v == digits_value(t@.take(i as int)),
            forall|k: int| 0 <= k < i ==> is_digit(#[trigger] t@[k]),
        decreases t.len() - i,
    {
        let c = t[i];
        if !('0' <= c && c <= '9') {
            return None;
        }
        let d = (c as u32 - '0' as u32) as usize;
        assert(t@.take(i as int + 1).drop_last() =~= t@.take(i as int));
        if v > (usize::MAX - d) / 10 {
            proof {
                let m = (usize::MAX - d) as int;
                assert(v * 10 + d > usize::MAX) by (nonlinear_arith)
                    requires
                        v > m / 10,
                        m == usize::MAX - d,
                        0 <= d <= 9,
                        m >= 0,
                ;
                assert(digits_value(t@.take(i as int + 1)) == v * 10 + d);
                if forall|k: int| 0 <= k < t.len() ==> is_digit(#[trigger] t@[k]) {
                    lemma_digits_value_prefix_monotone(t@, i as int + 1);
                }
            }
            return None;
        }
        v = v * 10 + d;
        i += 1;
    }
    assert(t@.take(t.len() as int) =~= t@);
    Some(v)
}

/// The value of a digit string never drops as digits are appended.
pub proof fn lemma_digits_value_prefix_monotone(t: Seq<char>, n: int)
    requires
        0 <= n <= t.len(),
        forall|k: int| 0 <= k < t.len() ==> is_digit(#[trigger] t[k]),
    ensures
        digits_value(t.take(n)) <= digits_value(t),
    decreases t.len() - n,
{
    if n < t.len() {
        lemma_digits_value_prefix_monotone(t, n + 1);
        assert(t.take(n + 1).drop_last() =~= t.take(n));
    } else {
        assert(t.take(n) =~= t);
    }
}


/// The value stored under `key` among object entries `e` (first match).
pub fn object_get<'a>(e: &'a Vec<(String, JsonValue)>, key: &String) -> (r: Option<&'a JsonValue>)
    ensures
        opt_view(r) == lookup(JsonValue::view_entries(e@), key@),
{
    let ghost ve = JsonValue::view_entries(e@);
    proof {
        JsonValue::lemma_view_entries(e@);
    }
    assert(ve.subrange(0, ve.len() as int) =~= ve);
    let mut i: usize = 0;
    while i < e.len()
        invariant
            i <= e.len(),
            ve == JsonValue::view_entries(e@),
            ve.len() == e.len(),
            forall|k: int| 0 <= k < e.len() ==> #[trigger] ve[k] == (e@[k].0@, e@[k].1.view_json()),
            lookup(ve, key@) == lookup(ve.subrange(i as int, ve.len() as int), key@),
        decreases e.len() - i,
    {
        if e[i].0 == *key {
            return Some(&e[i].1);
        }
        assert(ve.subrange(i as int, ve.len() as int).drop_first() =~= ve.subrange(
            i as int + 1,
            ve.len() as int,
        ));
        i += 1;
    }
    None
}

/// Resolves JSON Pointer `path` (RFC 6901) against `doc`.
pub fn pointer<'a>(doc: &'a JsonValue, path: &str) -> (r: Option<&'a JsonValue>)
    ensures
        opt_view(r) == json_pointer(doc@, path@),
{
    let p = chars_of(path);
    if p.len() == 0 {
        return Some(doc);
    }
    if p[0] != '/' {
        return None;
    }
    let toks = split_chars(&p, '/');
    let ghost tokens = pointer_tokens(p@);
    proof {
        lemma_split_on_nonempty(p@, '/');
    }
    assert(tokens.len() == toks.len() - 1);
    assert(tokens.subrange(0, tokens.len() as int) =~= tokens);
    let mut cur: &JsonValue = doc;
    let mut i: usize = 1;
    while i < toks.len()
        invariant
            1 <= i <= toks.len(),
            p@ == path@,
            p@.len() > 0 && p@[0] == '/',
            tokens == pointer_tokens(p@),
            tokens.len() == toks.len() - 1,
            forall|k: int| 0 <= k < toks.len() ==> #[trigger] toks@[k]@ == split_on(p@, '/')[k],
            toks.len() == split_on(p@, '/').len(),
            json_pointer(doc@, path@) == resolve_tokens(
                cur@,
                tokens.subrange(i as int - 1, tokens.len() as int),
            ),
        decreases toks.len() - i,
    {
        let t1 = replace_escape_exec(&toks[i], '1', '/');
        let t = replace_escape_exec(&t1, '0', '~');
        let ghost rest = tokens.subrange(i as int - 1, tokens.len() as int);
        assert(t@ == tokens[i as int - 1]);
        assert(rest[0] == t@);
        assert(rest.drop_first() =~= tokens.subrange(i as int, tokens.len() as int));
        match cur {
            JsonValue::Object(e) => {
                let key = string_of(&t);
                match object_get(e, &key) {
                    Some(x) => {
                        cur = x;
                    },
                    None => {
                        return None;
                    },
                }
            },
            JsonValue::Array(a) => {
                proof {
                    JsonValue::lemma_view_items(a@);
                }
                match array_index_exec(&t) {
                    Some(ix) => {
                        if ix < a.len() {
                            cur = &a[ix];
                        } else {
                            return None;
                        }
                    },
                    None => {
                        return None;
                    },
                }
            },
            _ => {
                return None;
            },
        }
        i += 1;
    }
    Some(cur)
}


// ---------------------------------------------------------------------------
// Object entries
// ---------------------------------------------------------------------------

/// In sorted entries, the entry at `i` is what `lookup` finds for its key.
pub proof fn lemma_lookup_at(e: Seq<(Seq<char>, JsonView)>, i: int)
    requires
        keys_sorted(e),
        0 <= i < e.len(),
    ensures
        lookup(e, e[i].0) == Some(e[i].1),
    decreases i,
{
    if i > 0 {
        assert(key_lt(e[0].0, e[i].0));
        lemma_key_lt_irreflexive(e[0].0);
        let t = e.drop_first();
        assert forall|a: int, b: int| 0 <= a < b < t.len() implies key_lt(#[trigger] t[a].0, #[trigger] t[b].0) by {
            assert(t[a] == e[a + 1] && t[b] == e[b + 1]);
        }
        lemma_lookup_at(t, i - 1);
    }
}

/// A key held by no entry is not found.
pub proof fn lemma_lookup_absent(e: Seq<(Seq<char>, JsonView)>, k: Seq<char>)
    requires
        forall|i: int| 0 <= i < e.len() ==> (#[trigger] e[i]).0 != k,
    ensures
        lookup(e, k) is None,
    decreases e.len(),
{
    if e.len() > 0 {
        let t = e.drop_first();
        assert forall|i: int| 0 <= i < t.len() implies (#[trigger] t[i]).0 != k by {
            assert(t[i] == e[i + 1]);
        }
        lemma_lookup_absent(t, k);
    }
}

/// Keys of all entries and values.
pub open spec fn entries_wf(e: Seq<(Seq<char>, JsonView)>) -> bool {
    keys_sorted(e) && forall|i: int| 0 <= i < e.len() ==> json_wf(#[trigger] e[i].1)
}

/// Stores `value` under `key`, keeping the keys strictly ordered: an existing
/// entry for `key` has its value replaced, otherwise a new entry is inserted
/// in key order.
pub fn object_insert(e: &mut Vec<(String, JsonValue)>, key: String, value: JsonValue)
    requires
        keys_sorted(JsonValue::view_entries(old(e)@)),
    ensures
        keys_sorted(JsonValue::view_entries(final(e)@)),
        lookup(JsonValue::view_entries(final(e)@), key@) == Some(value@),
        forall|k: Seq<char>|
            k != key@ ==> #[trigger] lookup(JsonValue::view_entries(final(e)@), k) == lookup(
                JsonValue::view_entries(old(e)@),
                k,
            ),
        entries_wf(JsonValue::view_entries(old(e)@)) && json_wf(value@) ==> entries_wf(
            JsonValue::view_entries(final(e)@),
        ),
{
    let ghost old_e = e@;
    let ghost ov = JsonValue::view_entries(e@);
    proof {
        JsonValue::lemma_view_entries(e@);
    }
    let kc = chars_of(key.as_str());
    let mut i: usize = 0;
    while i < e.len()
        invariant
            e@ == old_e,
            ov == JsonValue::view_entries(old_e),
            ov.len() == e.len(),
            forall|j: int| 0 <= j < e.len() ==> #[trigger] ov[j] == (e@[j].0@, e@[j].1.view_json()),
            kc@ == key@,
            i <= e.len(),
            forall|j: int| 0 <= j < i ==> key_lt(#[trigger] ov[j].0, key@),
        ensures
            i <= e.len(),
            i < e.len() ==> !key_lt(ov[i as int].0, key@),
        decreases e.len() - i,
    {
        let ec = chars_of(e[i].0.as_str());
        if !key_less(&ec, &kc) {
            break;
        }
        i += 1;
    }
    let ghost vv = value@;
    if i < e.len() && e[i].0 == key {
        e.set(i, (key, value));
        proof {
            JsonValue::lemma_view_entries(e@);
            let nv = JsonValue::view_entries(e@);
            assert(nv =~= ov.update(i as int, (nv[i as int].0, vv)));
            assert(keys_sorted(nv)) by {
                assert forall|a: int, b: int| 0 <= a < b < nv.len() implies key_lt(#[trigger] nv[a].0, #[trigger] nv[b].0) by {
                    assert(nv[a].0 == ov[a].0 && nv[b].0 == ov[b].0);
                }
            }
            lemma_lookup_at(nv, i as int);
            assert forall|k: Seq<char>| k != key@ implies #[trigger] lookup(nv, k) == lookup(ov, k) by {
                if exists|j: int| 0 <= j < ov.len() && ov[j].0 == k {
                    let j = choose|j: int| 0 <= j < ov.len() && ov[j].0 == k;
                    lemma_lookup_at(ov, j);
                    lemma_lookup_at(nv, j);
                } else {
                    lemma_lookup_absent(ov, k);
                    lemma_lookup_absent(nv, k);
                }
            }
        }
    } else {
        proof {
            if i < ov.len() {
                lemma_key_lt_total(ov[i as int].0, key@);
            }
        }
        e.insert(i, (key, value));
        proof {
            JsonValue::lemma_view_entries(e@);
            let nv = JsonValue::view_entries(e@);
            assert(nv =~= ov.insert(i as int, (key@, vv)));
            assert(keys_sorted(nv)) by {
                assert forall|a: int, b: int| 0 <= a < b < nv.len() implies key_lt(#[trigger] nv[a].0, #[trigger] nv[b].0) by {
                    if a < i && b > i {
                        assert(nv[a] == ov[a] && nv[b] == ov[b - 1]);
                        if i < ov.len() {
                            assert(key_lt(ov[a].0, ov[i as int].0));
                        }
                    } else if a == i && b > i {
                        assert(nv[b] == ov[b - 1]);
                        if b - 1 > i {
                            lemma_key_lt_transitive(key@, ov[i as int].0, ov[b - 1].0);
                        }
                    } else if b == i {
                        assert(nv[a] == ov[a]);
                    } else if a > i {
                        assert(nv[a] == ov[a - 1] && nv[b] == ov[b - 1]);
                    } else {
                        assert(nv[a] == ov[a] && nv[b] == ov[b]);
                    }
                }
            }
            lemma_lookup_at(nv, i as int);
            assert forall|k: Seq<char>| k != key@ implies #[trigger] lookup(nv, k) == lookup(ov, k) by {
                if exists|j: int| 0 <= j < ov.len() && ov[j].0 == k {
                    let j = choose|j: int| 0 <= j < ov.len() && ov[j].0 == k;
                    lemma_lookup_at(ov, j);
                    if j < i {
                        assert(nv[j] == ov[j]);
                        lemma_lookup_at(nv, j);
                    } else {
                        assert(nv[j + 1] == ov[j]);
                        lemma_lookup_at(nv, j + 1);
                    }
                } else {
                    lemma_lookup_absent(ov, k);
                    assert forall|j: int| 0 <= j < nv.len() implies (#[trigger] nv[j]).0 != k by {
                        if j < i {
                            assert(nv[j] == ov[j]);
                        } else if j > i {
                            assert(nv[j] == ov[j - 1]);
                        }
                    }
                    lemma_lookup_absent(nv, k);
                }
            }
            if entries_wf(ov) && json_wf(vv) {
                assert forall|j: int| 0 <= j < nv.len() implies json_wf(#[trigger] nv[j].1) by {
                    if j < i {
                        assert(nv[j] == ov[j]);
                    } else if j > i {
                        assert(nv[j] == ov[j - 1]);
                    }
                }
            }
        }
    }
}

} // verus!
