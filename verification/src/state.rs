//! App-defined state: a JSON snapshot pushed by the application and read
//! through JSON Pointers.

use vstd::prelude::*;

use crate::json::{
    duplicate, entries_wf, json_pointer, json_wf, keys_sorted, lookup, object_get, object_insert,
    array_index, digits_value, is_digit, pointer, pointer_tokens, replace_escape, resolve_tokens,
    unescape_token, JsonValue, JsonView,
};
use crate::text::{chars_of, decimal, digit_char, split_chars, split_on, string_of};

verus! {

/// The most recent whole-state snapshot pushed by the application.
#[derive(Debug)]
pub struct AppDefinedState {
    snapshot: JsonValue,
}

impl View for AppDefinedState {
    type V = JsonView;

    closed spec fn view(&self) -> JsonView {
        self.snapshot@
    }
}

impl Default for AppDefinedState {
    /// The state before any snapshot was pushed: JSON `null`.
    fn default() -> (s: Self)
        ensures
            s@ == JsonView::Null,
    {
        AppDefinedState { snapshot: JsonValue::Null }
    }
}

impl AppDefinedState {
    /// Copy of the current snapshot (`null` before any `set`).
    pub fn snapshot(&self) -> (v: JsonValue)
        ensures
            v@ == self@,
    {
        duplicate(&self.snapshot)
    }

    /// Replace the entire snapshot.
    pub fn set(&mut self, value: JsonValue)
        ensures
            final(self)@ == value@,
    {
        self.snapshot = value;
    }

    /// Copy of the value that JSON Pointer `path` designates in the snapshot,
    /// or `None` when the path does not resolve.
    pub fn pointer(&self, path: &str) -> (r: Option<JsonValue>)
        ensures
            match r {
                Some(v) => json_pointer(self@, path@) == Some(v@),
                None => json_pointer(self@, path@) is None,
            },
    {
        match pointer(&self.snapshot, path) {
            Some(v) => Some(duplicate(v)),
            None => None,
        }
    }
}

/// After `set(value)`, reads observe the new value: the snapshot is `value`,
/// and the empty JSON Pointer designates all of it.
pub proof fn law_read_after_set(after: AppDefinedState, value: JsonView)
    requires
        after@ == value,
    ensures
        json_pointer(after@, ""@) == Some(value),
{
    reveal_strlit("");
}

// ---------------------------------------------------------------------------
// Writing into a state document
// ---------------------------------------------------------------------------

/// The entries of an object, none for any other value.
pub open spec fn object_entries(v: JsonView) -> Seq<(Seq<char>, JsonView)> {
    match v {
        JsonView::Object(e) => e,
        _ => Seq::empty(),
    }
}

/// The object stored under `k` in `v`, or an empty object when there is
/// none (or the value there is not an object).
pub open spec fn child_object(v: JsonView, k: Seq<char>) -> JsonView {
    match lookup(object_entries(v), k) {
        Some(c) => if c is Object {
            c
        } else {
            JsonView::Object(Seq::empty())
        },
        None => JsonView::Object(Seq::empty()),
    }
}

/// `new` is `old` with `value` stored at the key path `parts`: an object
/// (keys in order) holding the entries of `old` (none when `old` is not an
/// object) except under `parts[0]`, where it holds `value` for the last key
/// and otherwise the child object, written in the same way.
pub open spec fn set_rel(old: JsonView, new: JsonView, parts: Seq<Seq<char>>, value: JsonView) -> bool
    decreases parts.len(),
{
    &&& parts.len() > 0
    &&& new is Object
    &&& keys_sorted(object_entries(new))
    &&& forall|k: Seq<char>|
        k != parts[0] ==> #[trigger] lookup(object_entries(new), k) == lookup(
            object_entries(old),
            k,
        )
    &&& if parts.len() == 1 {
        lookup(object_entries(new), parts[0]) == Some(value)
    } else {
        match lookup(object_entries(new), parts[0]) {
            Some(c) => set_rel(child_object(old, parts[0]), c, parts.drop_first(), value),
            None => false,
        }
    }
}

/// `p` without its leading `/` characters.
pub open spec fn trim_leading_slashes(p: Seq<char>) -> Seq<char>
    decreases p.len(),
{
    if p.len() > 0 && p[0] == '/' {
        trim_leading_slashes(p.drop_first())
    } else {
        p
    }
}

/// The keys a path names: its `/`-separated segments after the leading
/// slashes, taken literally.
pub open spec fn set_path_parts(p: Seq<char>) -> Seq<Seq<char>> {
    split_on(trim_leading_slashes(p), '/')
}

proof fn lemma_lookup_wf(e: Seq<(Seq<char>, JsonView)>, k: Seq<char>)
    requires
        forall|i: int| 0 <= i < e.len() ==> json_wf(#[trigger] e[i].1),
    ensures
        lookup(e, k) matches Some(x) ==> json_wf(x),
    decreases e.len(),
{
    if e.len() > 0 && e[0].0 != k {
        let t = e.drop_first();
        assert forall|i: int| 0 <= i < t.len() implies json_wf(#[trigger] t[i].1) by {
            assert(t[i] == e[i + 1]);
        }
        lemma_lookup_wf(t, k);
    }
}

fn set_parts(doc: JsonValue, parts: &Vec<Vec<char>>, i: usize, value: JsonValue, Ghost(ps): Ghost<Seq<Seq<char>>>) -> (r: JsonValue)
    requires
        i < parts.len(),
        ps.len() == parts.len(),
        forall|k: int| 0 <= k < ps.len() ==> #[trigger] parts@[k]@ == ps[k],
        json_wf(doc@),
        json_wf(value@),
    ensures
        json_wf(r@),
        set_rel(doc@, r@, ps.skip(i as int), value@),
    decreases parts.len() - i,
{
    let ghost old_doc = doc@;
    let ghost vv = value@;
    let mut entries: Vec<(String, JsonValue)> = match doc {
        JsonValue::Object(e) => e,
        _ => Vec::new(),
    };
    let ghost before = JsonValue::view_entries(entries@);
    assert(before == object_entries(old_doc));
    assert(JsonValue::view_entries(Seq::<(String, JsonValue)>::empty()) =~= Seq::<(Seq<char>, JsonView)>::empty());
    assert(entries_wf(before));
    let key = string_of(&parts[i]);
    assert(key@ == ps[i as int]);
    let ghost rest = ps.skip(i as int);
    assert(rest[0] == ps[i as int]);
    if i + 1 == parts.len() {
        object_insert(&mut entries, key, value);
    } else {
        proof {
            lemma_lookup_wf(before, ps[i as int]);
        }
        let child = match object_get(&entries, &key) {
            Some(c) => match c {
                JsonValue::Object(_) => duplicate(c),
                _ => JsonValue::Object(Vec::new()),
            },
            None => JsonValue::Object(Vec::new()),
        };
        assert(child@ == child_object(old_doc, ps[i as int]));
        let new_child = set_parts(child, parts, i + 1, value, Ghost(ps));
        let ghost nc = new_child@;
        object_insert(&mut entries, key, new_child);
        assert(rest.drop_first() =~= ps.skip(i as int + 1));
        assert(lookup(JsonValue::view_entries(entries@), rest[0]) == Some(nc));
    }
    JsonValue::Object(entries)
}

/// Store `value` at `path` in `doc`: the empty path replaces the whole
/// document; otherwise the `/`-separated segments after the leading slashes
/// are keys, taken literally, each naming an object that is created (or
/// that replaces a non-object value) on the way, the last one holding
/// `value`. A document that is not an object becomes one.
pub fn set_at(doc: JsonValue, path: &str, value: JsonValue) -> (r: JsonValue)
    requires
        json_wf(doc@),
        json_wf(value@),
    ensures
        path@.len() == 0 ==> r@ == value@,
        path@.len() > 0 ==> set_rel(doc@, r@, set_path_parts(path@), value@),
        json_wf(r@),
{
    let cs = chars_of(path);
    if cs.len() == 0 {
        return value;
    }
    let mut start: usize = 0;
    assert(cs@.subrange(0, cs@.len() as int) =~= cs@);
    while start < cs.len() && cs[start] == '/'
        invariant
            start <= cs.len(),
            cs@ == path@,
            trim_leading_slashes(path@) == trim_leading_slashes(cs@.subrange(start as int, cs@.len() as int)),
        decreases cs.len() - start,
    {
        assert(cs@.subrange(start as int, cs@.len() as int).drop_first() =~= cs@.subrange(
            start as int + 1,
            cs@.len() as int,
        ));
        start += 1;
    }
    let trimmed = crate::text::slice_chars(&cs, start, cs.len());
    assert(trim_leading_slashes(trimmed@) == trimmed@);
    let parts = split_chars(&trimmed, '/');
    let ghost ps = split_on(trimmed@, '/');
    proof {
        crate::text::lemma_split_on_nonempty(trimmed@, '/');
    }
    let r = set_parts(doc, &parts, 0, value, Ghost(ps));
    assert(ps.skip(0) =~= ps);
    r
}

/// A read at a path gives back what was written there: after `set_at`, the
/// JSON Pointer of the same path designates the written value, for paths of
/// the pointer syntax that need no escapes (one leading `/`, no `~`).
pub proof fn law_read_after_set_at(old: JsonView, new: JsonView, path: Seq<char>, value: JsonView)
    requires
        path.len() > 0,
        path[0] == '/',
        path.len() == 1 || path[1] != '/',
        forall|i: int| 0 <= i < path.len() ==> path[i] != '~',
        set_rel(old, new, set_path_parts(path), value),
    ensures
        json_pointer(new, path) == Some(value),
{
    let rest = path.drop_first();
    assert(trim_leading_slashes(path) == trim_leading_slashes(rest));
    assert(trim_leading_slashes(rest) == rest);
    lemma_split_on_slash_prefix(rest);
    assert(path =~= seq!['/'] + rest);
    let parts = split_on(rest, '/');
    assert(split_on(path, '/').drop_first() =~= parts);
    lemma_no_escapes(parts, rest);
    assert(pointer_tokens(path) =~= parts);
    lemma_set_rel_resolves(old, new, parts, value);
}

/// Splitting after a leading separator adds one empty piece in front.
proof fn lemma_split_on_slash_prefix(rest: Seq<char>)
    ensures
        split_on(seq!['/'] + rest, '/') == seq![Seq::<char>::empty()] + split_on(rest, '/'),
    decreases rest.len(),
{
    let s = seq!['/'] + rest;
    let e = Seq::<char>::empty();
    if rest.len() == 0 {
        assert(s.drop_last() =~= e);
        assert(s.last() == '/');
        assert(split_on(e, '/') == seq![e]);
        assert(split_on(s, '/') == split_on(e, '/').push(e));
        assert(seq![e] + seq![e] =~= seq![e].push(e));
    } else {
        assert(s.drop_last() =~= seq!['/'] + rest.drop_last());
        assert(s.last() == rest.last());
        lemma_split_on_slash_prefix(rest.drop_last());
        crate::text::lemma_split_on_nonempty(rest.drop_last(), '/');
        let init = split_on(rest.drop_last(), '/');
        let big = seq![e] + init;
        assert(split_on(s.drop_last(), '/') == big);
        if rest.last() == '/' {
            assert(split_on(s, '/') == big.push(e));
            assert(split_on(rest, '/') == init.push(e));
            assert(seq![e] + init.push(e) =~= big.push(e));
        } else {
            assert(big.last() == init.last());
            assert(split_on(s, '/') == big.update(big.len() - 1, big.last().push(rest.last())));
            assert(split_on(rest, '/') == init.update(init.len() - 1, init.last().push(rest.last())));
            assert(big.update(big.len() - 1, big.last().push(rest.last())) =~= seq![e] + init.update(
                init.len() - 1,
                init.last().push(rest.last()),
            ));
        }
    }
}

proof fn lemma_replace_escape_identity(t: Seq<char>, esc: char, out: char)
    requires
        forall|i: int| 0 <= i < t.len() ==> t[i] != '~',
    ensures
        replace_escape(t, esc, out) == t,
    decreases t.len(),
{
    if t.len() > 0 {
        lemma_replace_escape_identity(t.drop_first(), esc, out);
        assert(seq![t[0]] + t.drop_first() =~= t);
    }
}

/// Pieces of a `~`-free sequence are their own unescaping.
proof fn lemma_no_escapes(parts: Seq<Seq<char>>, rest: Seq<char>)
    requires
        parts == split_on(rest, '/'),
        forall|i: int| 0 <= i < rest.len() ==> rest[i] != '~',
    ensures
        parts.map_values(|t: Seq<char>| unescape_token(t)) == parts,
{
    lemma_pieces_free_of(rest, '/', '~');
    assert forall|j: int| 0 <= j < parts.len() implies #[trigger] unescape_token(parts[j]) == parts[j] by {
        lemma_replace_escape_identity(parts[j], '1', '/');
        lemma_replace_escape_identity(parts[j], '0', '~');
    }
    assert(parts.map_values(|t: Seq<char>| unescape_token(t)) =~= parts);
}

/// The pieces of a sequence free of `c` are free of `c`.
proof fn lemma_pieces_free_of(s: Seq<char>, sep: char, c: char)
    requires
        forall|i: int| 0 <= i < s.len() ==> s[i] != c,
    ensures
        forall|j: int, i: int|
            0 <= j < split_on(s, sep).len() && 0 <= i < split_on(s, sep)[j].len() ==> #[trigger] split_on(
                s,
                sep,
            )[j][i] != c,
    decreases s.len(),
{
    if s.len() > 0 {
        lemma_pieces_free_of(s.drop_last(), sep, c);
        crate::text::lemma_split_on_nonempty(s.drop_last(), sep);
        let init = split_on(s.drop_last(), sep);
        assert forall|j: int, i: int|
            0 <= j < split_on(s, sep).len() && 0 <= i < split_on(s, sep)[j].len() implies #[trigger] split_on(
            s,
            sep,
        )[j][i] != c by {
            if s.last() != sep && j == init.len() - 1 {
                if i < init.last().len() {
                    assert(split_on(s, sep)[j][i] == init[j][i]);
                }
            } else if j < init.len() {
                assert(split_on(s, sep)[j] == init[j]);
            }
        }
    }
}

/// Following the written keys leads to the written value.
proof fn lemma_set_rel_resolves(old: JsonView, new: JsonView, parts: Seq<Seq<char>>, value: JsonView)
    requires
        set_rel(old, new, parts, value),
    ensures
        resolve_tokens(new, parts) == Some(value),
    decreases parts.len(),
{
    if parts.len() == 1 {
        assert(parts.drop_first() =~= Seq::<Seq<char>>::empty());
    } else {
        let c = lookup(object_entries(new), parts[0])->0;
        lemma_set_rel_resolves(child_object(old, parts[0]), c, parts.drop_first(), value);
    }
}

/// Array positions are read 0-based: in an array `a`, the pointer `/<i>`
/// (the index written in decimal, no leading zeros) designates `a[i]`, for
/// every `i` below the array's length.
pub proof fn law_pointer_reads_array_index(a: Seq<JsonView>, i: nat)
    requires
        i < a.len(),
        i <= usize::MAX,
    ensures
        json_pointer(JsonView::Array(a), seq!['/'] + decimal(i)) == Some(a[i as int]),
{
    let d = decimal(i);
    let p = seq!['/'] + d;
    lemma_decimal_digits(i);
    lemma_split_on_slash_prefix(d);
    lemma_split_no_separator(d, '/');
    assert(split_on(p, '/').drop_first() =~= seq![d]);
    lemma_replace_escape_identity(d, '1', '/');
    lemma_replace_escape_identity(d, '0', '~');
    assert(unescape_token(d) == d);
    assert(pointer_tokens(p) =~= seq![d]);
    assert(array_index(d) == Some(i));
    let toks = pointer_tokens(p);
    assert(toks.drop_first() =~= Seq::<Seq<char>>::empty());
    assert(toks[0] == d);
    assert(resolve_tokens(a[i as int], toks.drop_first()) == Some(a[i as int]));
    assert(resolve_tokens(JsonView::Array(a), toks) == Some(a[i as int]));
    assert(p[0] == '/');
}

/// The decimal representation of `n` is digits only, starts with `0` only
/// for zero, and has the value `n`.
proof fn lemma_decimal_digits(n: nat)
    ensures
        decimal(n).len() >= 1,
        forall|k: int| 0 <= k < decimal(n).len() ==> is_digit(#[trigger] decimal(n)[k]),
        digits_value(decimal(n)) == n,
        decimal(n)[0] == '0' ==> n == 0 && decimal(n).len() == 1,
    decreases n,
{
    if n < 10 {
        assert(digit_char(n) as u32 == (n + 48) as u32);
        let d = decimal(n);
        assert(d.drop_last() =~= Seq::<char>::empty());
        assert(d.last() == digit_char(n));
        assert(digits_value(d.drop_last()) == 0);
        assert(d.last() as int == n + 48);
    } else {
        lemma_decimal_digits(n / 10);
        let d = decimal(n);
        let c = digit_char(n % 10);
        assert(c as u32 == (n % 10 + 48) as u32);
        assert(d.drop_last() =~= decimal(n / 10));
        assert(d[0] == decimal(n / 10)[0]);
        assert forall|k: int| 0 <= k < d.len() implies is_digit(#[trigger] d[k]) by {
            if k < d.len() - 1 {
                assert(d[k] == decimal(n / 10)[k]);
            }
        }
        assert(d.last() == c);
        assert(c as int == n % 10 + 48);
        assert(digits_value(d) == digits_value(decimal(n / 10)) * 10 + (n % 10));
        assert((n / 10) * 10 + n % 10 == n);
    }
}

/// A sequence without the separator is a single piece.
proof fn lemma_split_no_separator(s: Seq<char>, sep: char)
    requires
        forall|k: int| 0 <= k < s.len() ==> #[trigger] s[k] != sep,
    ensures
        split_on(s, sep) == seq![s],
    decreases s.len(),
{
    if s.len() > 0 {
        lemma_split_no_separator(s.drop_last(), sep);
        assert(s.last() != sep);
        assert(s.drop_last().push(s.last()) =~= s);
        assert(seq![s.drop_last()].update(0, s.drop_last().push(s.last())) =~= seq![s]);
    } else {
        assert(s =~= Seq::<char>::empty());
    }
}

} // verus!
