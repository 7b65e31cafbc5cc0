//! Request-level rules of the HTTP surface: the capability named by an
//! unknown route, query-string decoding and parsing, request pre-validation
//! and the error replies.

use vstd::prelude::*;
use vstd::utf8::*;

use crate::json::{digits_value, is_digit, lemma_digits_value_prefix_monotone, JsonView};
use crate::reply::{err_reason, obj3, too_long_hold, ErrorReply, UNPROCESSABLE_ENTITY};
use crate::text::{
    chars_of, lemma_split_on_nonempty, same_chars, split_chars, split_on, string_of, trim,
    trim_chars,
};

verus! {

// ---------------------------------------------------------------------------
// Capability named by a route
// ---------------------------------------------------------------------------

/// `s` with every trailing `/` removed.
pub open spec fn trim_trailing_slashes(s: Seq<char>) -> Seq<char>
    decreases s.len(),
{
    if s.len() > 0 && s.last() == '/' {
        trim_trailing_slashes(s.drop_last())
    } else {
        s
    }
}

/// The capability an (unknown) route names: the path without its `/test/`
/// prefix (when present) and trailing slashes, up to the first `/`.
pub open spec fn capability_of_path(p: Seq<char>) -> Seq<char> {
    let rest = if p.len() >= 6 && p.take(6) == "/test/"@ {
        p.skip(6)
    } else {
        p
    };
    split_on(trim_trailing_slashes(rest), '/')[0]
}

/// The capability an unknown route names (reported with `501`).
pub fn capability_from_path(path: &str) -> (r: String)
    ensures
        r@ == capability_of_path(path@),
{
    let p = chars_of(path);
    let prefix = chars_of("/test/");
    proof {
        reveal_strlit("/test/");
    }
    let mut has_prefix = p.len() >= 6;
    let mut k: usize = 0;
    while k < 6 && has_prefix
        invariant
            k <= 6,
            prefix@ == "/test/"@,
            prefix.len() == 6,
            has_prefix ==> p.len() >= 6 && forall|j: int| 0 <= j < k ==> p@[j] == prefix@[j],
            !has_prefix ==> !(p@.len() >= 6 && p@.take(6) == "/test/"@),
        decreases 6 - k,
    {
        if p[k] != prefix[k] {
            has_prefix = false;
            proof {
                if p@.len() >= 6 && p@.take(6) == "/test/"@ {
                    assert(p@.take(6)[k as int] == p@[k as int]);
                }
            }
        }
        k += 1;
    }
    if has_prefix {
        assert(p@.take(6) =~= "/test/"@);
    }
    let start: usize = if has_prefix { 6 } else { 0 };
    let mut end: usize = p.len();
    let ghost rest = if has_prefix { p@.skip(6) } else { p@ };
    assert(rest =~= p@.subrange(start as int, end as int));
    while end > start && p[end - 1] == '/'
        invariant
            start <= end <= p.len(),
            trim_trailing_slashes(rest) == trim_trailing_slashes(p@.subrange(start as int, end as int)),
        decreases end,
    {
        assert(p@.subrange(start as int, end as int).drop_last() =~= p@.subrange(start as int, end as int - 1));
        end -= 1;
    }
    let ghost trimmed = p@.subrange(start as int, end as int);
    assert(trim_trailing_slashes(trimmed) == trimmed);
    let mut seg: Vec<char> = Vec::new();
    let mut i = start;
    while i < end && p[i] != '/'
        invariant
            start <= i <= end,
            end <= p.len(),
            seg@ == p@.subrange(start as int, i as int),
            forall|j: int| start <= j < i ==> p@[j] != '/',
        decreases end - i,
    {
        seg.push(p[i]);
        i += 1;
    }
    proof {
        lemma_first_piece(trimmed, '/', (i - start) as int);
    }
    string_of(&seg)
}

/// The first piece of `split_on(s, sep)` is `s` up to its first `sep`.
proof fn lemma_first_piece(s: Seq<char>, sep: char, n: int)
    requires
        0 <= n <= s.len(),
        forall|j: int| 0 <= j < n ==> s[j] != sep,
        n == s.len() || s[n] == sep,
    ensures
        split_on(s, sep)[0] == s.take(n),
    decreases s.len(),
{
    lemma_split_on_nonempty(s, sep);
    if s.len() == 0 {
        assert(s.take(0) =~= Seq::<char>::empty());
    } else if n == s.len() {
        lemma_first_piece(s.drop_last(), sep, n - 1);
        lemma_split_on_nonempty(s.drop_last(), sep);
        lemma_split_on_single(s.drop_last(), sep, n - 1);
        assert(s.drop_last().take(n - 1).push(s.last()) =~= s.take(n));
    } else {
        lemma_first_piece(s.drop_last(), sep, n);
        lemma_split_on_nonempty(s.drop_last(), sep);
        assert(s.drop_last().take(n) =~= s.take(n));
        if s.last() != sep {
            lemma_split_on_pieces(s.drop_last(), sep, n);
        }
    }
}

/// A sequence without separators splits into itself alone.
proof fn lemma_split_on_single(s: Seq<char>, sep: char, n: int)
    requires
        n == s.len(),
        forall|j: int| 0 <= j < n ==> s[j] != sep,
    ensures
        split_on(s, sep).len() == 1,
    decreases s.len(),
{
    if s.len() > 0 {
        lemma_split_on_single(s.drop_last(), sep, n - 1);
    }
}

/// When `s` holds a separator at `n`, it splits into at least two pieces.
proof fn lemma_split_on_pieces(s: Seq<char>, sep: char, n: int)
    requires
        0 <= n < s.len(),
        s[n] == sep,
    ensures
        split_on(s, sep).len() >= 2,
    decreases s.len(),
{
    lemma_split_on_nonempty(s.drop_last(), sep);
    if n < s.len() - 1 {
        lemma_split_on_pieces(s.drop_last(), sep, n);
    }
}


// ---------------------------------------------------------------------------
// Query components
// ---------------------------------------------------------------------------

/// Value of a hexadecimal digit byte (`0-9`, `a-f`, `A-F`).
pub open spec fn hex_value(b: u8) -> Option<u8> {
    if 48 <= b <= 57 {
        Some((b - 48) as u8)
    } else if 97 <= b <= 102 {
        Some((b - 87) as u8)
    } else if 65 <= b <= 70 {
        Some((b - 55) as u8)
    } else {
        None
    }
}

/// Byte-level form decoding: `+` is a space, `%XY` is the byte `0xXY`, any
/// other byte stands for itself; a `%` without two hex digits after it makes
/// the whole component invalid.
pub open spec fn form_decode(b: Seq<u8>) -> Option<Seq<u8>>
    decreases b.len(),
{
    if b.len() == 0 {
        Some(Seq::empty())
    } else if b[0] == 43 {
        match form_decode(b.drop_first()) {
            Some(r) => Some(seq![32u8] + r),
            None => None,
        }
    } else if b[0] == 37 {
        if b.len() >= 3 {
            match (hex_value(b[1]), hex_value(b[2])) {
                (Some(h), Some(l)) => match form_decode(b.subrange(3, b.len() as int)) {
                    Some(r) => Some(seq![(h * 16 + l) as u8] + r),
                    None => None,
                },
                _ => None,
            }
        } else {
            None
        }
    } else {
        match form_decode(b.drop_first()) {
            Some(r) => Some(seq![b[0]] + r),
            None => None,
        }
    }
}

/// A query component, decoded: the form-decoded bytes of `s` read as UTF-8;
/// `None` when a `%` escape is malformed or the bytes are not UTF-8.
pub open spec fn query_component(s: Seq<char>) -> Option<Seq<char>> {
    match form_decode(encode_utf8(s)) {
        Some(b) => if valid_utf8(b) {
            Some(decode_utf8(b))
        } else {
            None
        },
        None => None,
    }
}

/// Upper-case hexadecimal digit for `d` in `0..16`.
pub open spec fn hex_digit_char(d: int) -> char {
    if d < 10 {
        (d + 48) as char
    } else {
        (d + 55) as char
    }
}

/// The percent-encoding of bytes: `%XY` for every byte, `XY` its value in
/// upper-case hexadecimal.
pub open spec fn percent_encode(b: Seq<u8>) -> Seq<char>
    decreases b.len(),
{
    if b.len() == 0 {
        Seq::empty()
    } else {
        seq!['%', hex_digit_char((b[0] / 16) as int), hex_digit_char((b[0] % 16) as int)] + percent_encode(b.drop_first())
    }
}

/// The bytes of [`percent_encode`]`(b)`.
spec fn percent_bytes(b: Seq<u8>) -> Seq<u8>
    decreases b.len(),
{
    if b.len() == 0 {
        Seq::empty()
    } else {
        seq![37u8, hex_digit_char((b[0] / 16) as int) as u8, hex_digit_char((b[0] % 16) as int) as u8] + percent_bytes(
            b.drop_first(),
        )
    }
}

/// Neither a `%` nor a `+` byte.
spec fn plain_bytes(b: Seq<u8>) -> bool {
    forall|i: int| 0 <= i < b.len() ==> #[trigger] b[i] != 37u8 && b[i] != 43u8
}

/// Decoding a query component undoes percent-encoding: the percent-encoding
/// of the UTF-8 bytes of any string decodes back to that string.
pub proof fn law_percent_encoding_decodes(s: Seq<char>)
    ensures
        query_component(percent_encode(encode_utf8(s))) == Some(s),
{
    let b = encode_utf8(s);
    lemma_encode_percent(b);
    lemma_decode_percent_bytes(b);
    vstd::utf8::encode_utf8_valid_utf8(s);
    vstd::utf8::encode_utf8_decode_utf8(s);
}

/// A query component with neither `%` nor `+` decodes to itself.
pub proof fn law_plain_component_decodes(t: Seq<char>)
    requires
        forall|i: int| 0 <= i < t.len() ==> #[trigger] t[i] != '%' && t[i] != '+',
    ensures
        query_component(t) == Some(t),
{
    lemma_encode_plain(t);
    lemma_decode_plain_bytes(encode_utf8(t));
    vstd::utf8::encode_utf8_valid_utf8(t);
    vstd::utf8::encode_utf8_decode_utf8(t);
}

proof fn lemma_encode_concat(a: Seq<char>, c: Seq<char>)
    ensures
        encode_utf8(a + c) == encode_utf8(a) + encode_utf8(c),
    decreases a.len(),
{
    if a.len() == 0 {
        assert(a + c =~= c);
        assert(encode_utf8(a) + encode_utf8(c) =~= encode_utf8(c));
    } else {
        assert((a + c).drop_first() =~= a.drop_first() + c);
        assert((a + c)[0] == a[0]);
        lemma_encode_concat(a.drop_first(), c);
        assert(encode_scalar_of(a[0]) + (encode_utf8(a.drop_first()) + encode_utf8(c)) =~= (
        encode_scalar_of(a[0]) + encode_utf8(a.drop_first())) + encode_utf8(c));
    }
}

spec fn encode_scalar_of(c: char) -> Seq<u8> {
    vstd::utf8::encode_scalar(c as u32)
}

proof fn lemma_hex_digit(d: int)
    requires
        0 <= d < 16,
    ensures
        hex_digit_char(d) as int == if d < 10 { d + 48 } else { d + 55 },
        hex_digit_char(d) as u8 == if d < 10 { d + 48 } else { d + 55 },
        hex_value(hex_digit_char(d) as u8) == Some(d as u8),
{
}

proof fn lemma_encode_percent(b: Seq<u8>)
    ensures
        encode_utf8(percent_encode(b)) == percent_bytes(b),
    decreases b.len(),
{
    if b.len() > 0 {
        let h = hex_digit_char((b[0] / 16) as int);
        let l = hex_digit_char((b[0] % 16) as int);
        lemma_hex_digit((b[0] / 16) as int);
        lemma_hex_digit((b[0] % 16) as int);
        let head = seq!['%', h, l];
        assert(vstd::utf8::is_ascii_chars(head));
        vstd::utf8::is_ascii_chars_encode_utf8(head);
        assert(head[0] as u8 == encode_utf8(head)[0]);
        assert(head[1] as u8 == encode_utf8(head)[1]);
        assert(head[2] as u8 == encode_utf8(head)[2]);
        assert(encode_utf8(head) =~= seq![37u8, h as u8, l as u8]);
        lemma_encode_concat(head, percent_encode(b.drop_first()));
        lemma_encode_percent(b.drop_first());
    }
}

proof fn lemma_decode_percent_bytes(b: Seq<u8>)
    ensures
        form_decode(percent_bytes(b)) == Some(b),
    decreases b.len(),
{
    if b.len() > 0 {
        let p = percent_bytes(b);
        let hi = b[0] / 16;
        let lo = b[0] % 16;
        lemma_hex_digit(hi as int);
        lemma_hex_digit(lo as int);
        assert(p[0] == 37u8);
        assert(p.subrange(3, p.len() as int) =~= percent_bytes(b.drop_first()));
        lemma_decode_percent_bytes(b.drop_first());
        assert((hi * 16 + lo) as u8 == b[0]);
        assert(seq![b[0]] + b.drop_first() =~= b);
    }
}

proof fn lemma_decode_plain_bytes(b: Seq<u8>)
    requires
        plain_bytes(b),
    ensures
        form_decode(b) == Some(b),
    decreases b.len(),
{
    if b.len() > 0 {
        assert(b[0] != 37u8 && b[0] != 43u8);
        let r = b.drop_first();
        assert(plain_bytes(r)) by {
            assert forall|i: int| 0 <= i < r.len() implies #[trigger] r[i] != 37u8 && r[i] != 43u8 by {
                assert(r[i] == b[i + 1]);
            }
        }
        lemma_decode_plain_bytes(r);
        assert(seq![b[0]] + r =~= b);
    }
}

proof fn lemma_or_high(x: u8)
    by (bit_vector)
    ensures
        (0x80u8 | x) >= 0x80u8,
        (0xC0u8 | x) >= 0x80u8,
        (0xE0u8 | x) >= 0x80u8,
        (0xF0u8 | x) >= 0x80u8,
{
}

proof fn lemma_low_byte(v: u32)
    by (bit_vector)
    requires
        v <= 0x7Fu32,
    ensures
        (v & 0x7Fu32) as u8 == v,
{
}

proof fn lemma_encode_scalar_plain(c: char)
    requires
        c != '%',
        c != '+',
    ensures
        plain_bytes(encode_scalar_of(c)),
{
    let v = c as u32;
    let e = encode_scalar_of(c);
    if v <= 0x7F {
        lemma_low_byte(v);
        assert(e[0] == v as u8);
    } else {
        lemma_or_high(((v >> 6u32) & 0x1Fu32) as u8);
        lemma_or_high(((v >> 12u32) & 0x0Fu32) as u8);
        lemma_or_high(((v >> 18u32) & 0x7u32) as u8);
        lemma_or_high((v & 0x3Fu32) as u8);
        lemma_or_high(((v >> 6u32) & 0x3Fu32) as u8);
        lemma_or_high(((v >> 12u32) & 0x3Fu32) as u8);
        assert forall|i: int| 0 <= i < e.len() implies #[trigger] e[i] != 37u8 && e[i] != 43u8 by {
            assert(e[i] >= 0x80u8);
        }
    }
}

proof fn lemma_encode_plain(t: Seq<char>)
    requires
        forall|i: int| 0 <= i < t.len() ==> #[trigger] t[i] != '%' && t[i] != '+',
    ensures
        plain_bytes(encode_utf8(t)),
    decreases t.len(),
{
    if t.len() > 0 {
        let r = t.drop_first();
        assert forall|i: int| 0 <= i < r.len() implies #[trigger] r[i] != '%' && r[i] != '+' by {
            assert(r[i] == t[i + 1]);
        }
        lemma_encode_plain(r);
        assert(t[0] != '%' && t[0] != '+');
        lemma_encode_scalar_plain(t[0]);
        let e = encode_utf8(t);
        let a = encode_scalar_of(t[0]);
        let z = encode_utf8(r);
        assert(e == a + z);
        assert forall|i: int| 0 <= i < e.len() implies #[trigger] e[i] != 37u8 && e[i] != 43u8 by {
            if i < a.len() {
                assert(e[i] == a[i]);
            } else {
                assert(e[i] == z[i - a.len()]);
            }
        }
    }
}

pub open spec fn prepend_opt(a: Seq<u8>, r: Option<Seq<u8>>) -> Option<Seq<u8>> {
    match r {
        Some(x) => Some(a + x),
        None => None,
    }
}

/// Converts bytes to a `String` (`String::from_utf8`).
///
/// Trusted: std documents that `from_utf8` succeeds exactly on valid UTF-8
/// and then holds the encoded characters; the contract states that with
/// vstd's UTF-8 definitions.
#[verifier::external_body]
fn string_from_utf8(bytes: Vec<u8>) -> (r: Option<String>)
    ensures
        r is Some <==> valid_utf8(bytes@),
        r matches Some(s) ==> s@ == decode_utf8(bytes@),
{
    String::from_utf8(bytes).ok()
}

fn hex_value_exec(b: u8) -> (r: Option<u8>)
    ensures
        r == hex_value(b),
{
    if 48 <= b && b <= 57 {
        Some(b - 48)
    } else if 97 <= b && b <= 102 {
        Some(b - 87)
    } else if 65 <= b && b <= 70 {
        Some(b - 55)
    } else {
        None
    }
}

/// Decode one `application/x-www-form-urlencoded` query component.
pub fn decode_query_component(s: &str) -> (r: Option<String>)
    ensures
        match r {
            Some(x) => query_component(s@) == Some(x@),
            None => query_component(s@) is None,
        },
{
    let bytes = s.as_bytes();
    let ghost b = bytes@;
    assert(b == encode_utf8(s@));
    let mut out: Vec<u8> = Vec::new();
    let mut i: usize = 0;
    assert(b.subrange(0, b.len() as int) =~= b);
    assert(out@ + b =~= b);
    while i < bytes.len()
        invariant
            i <= bytes.len(),
            b == bytes@,
            b == encode_utf8(s@),
            form_decode(b) == prepend_opt(out@, form_decode(b.subrange(i as int, b.len() as int))),
        decreases bytes.len() - i,
    {
        let ghost rest = b.subrange(i as int, b.len() as int);
        let c = bytes[i];
        if c == 43 {
            assert(rest.drop_first() =~= b.subrange(i as int + 1, b.len() as int));
            proof {
                match form_decode(rest.drop_first()) {
                    Some(x) => {
                        assert(out@.push(32u8) + x =~= out@ + (seq![32u8] + x));
                    },
                    None => {},
                }
            }
            out.push(32);
            i += 1;
        } else if c == 37 {
            assert(rest[0] == 37u8);
            if bytes.len() - i > 2 {
                let hi = hex_value_exec(bytes[i + 1]);
                let lo = hex_value_exec(bytes[i + 2]);
                match (hi, lo) {
                    (Some(h), Some(l)) => {
                        let v: u8 = h * 16 + l;
                        assert(rest.subrange(3, rest.len() as int) =~= b.subrange(i as int + 3, b.len() as int));
                        proof {
                            match form_decode(rest.subrange(3, rest.len() as int)) {
                                Some(x) => {
                                    assert(out@.push(v) + x =~= out@ + (seq![v] + x));
                                },
                                None => {},
                            }
                        }
                        out.push(v);
                        i += 3;
                    },
                    _ => {
                        assert(form_decode(rest) is None);
                        return None;
                    },
                }
            } else {
                assert(form_decode(rest) is None);
                return None;
            }
        } else {
            assert(rest.drop_first() =~= b.subrange(i as int + 1, b.len() as int));
            proof {
                match form_decode(rest.drop_first()) {
                    Some(x) => {
                        assert(out@.push(c) + x =~= out@ + (seq![c] + x));
                    },
                    None => {},
                }
            }
            out.push(c);
            i += 1;
        }
    }
    assert(b.subrange(b.len() as int, b.len() as int) =~= Seq::<u8>::empty());
    assert(out@ + Seq::<u8>::empty() =~= out@);
    string_from_utf8(out)
}

// ---------------------------------------------------------------------------
// Query strings
// ---------------------------------------------------------------------------

/// The value of an unsigned decimal integer as `str::parse` reads it: an
/// optional `+`, then one or more ASCII digits (leading zeros allowed);
/// `None` otherwise or when the value exceeds `max`.
pub open spec fn unsigned_value(s: Seq<char>, max: nat) -> Option<nat> {
    let d = unsigned_digits(s);
    if d.len() > 0 && all_digits(d) && digits_value(d) <= max {
        Some(digits_value(d))
    } else {
        None
    }
}

/// `s` without one leading `+`.
pub open spec fn unsigned_digits(s: Seq<char>) -> Seq<char> {
    if s.len() > 0 && s[0] == '+' {
        s.drop_first()
    } else {
        s
    }
}

pub open spec fn all_digits(d: Seq<char>) -> bool {
    forall|k: int| 0 <= k < d.len() ==> is_digit(#[trigger] d[k])
}

/// Parse an unsigned decimal integer no larger than `max`, see
/// [`unsigned_value`].
pub fn parse_unsigned(s: &Vec<char>, max: u64) -> (r: Option<u64>)
    ensures
        match r {
            Some(v) => unsigned_value(s@, max as nat) == Some(v as nat),
            None => unsigned_value(s@, max as nat) is None,
        },
{
    let start: usize = if s.len() > 0 && s[0] == '+' { 1 } else { 0 };
    let ghost d = unsigned_digits(s@);
    assert(d =~= s@.subrange(start as int, s@.len() as int));
    if start >= s.len() {
        return None;
    }
    let mut v: u64 = 0;
    let mut i: usize = start;
    assert(d.take(0) =~= Seq::<char>::empty());
    while i < s.len()
        invariant
            start <= i <= s.len(),
            d =~= s@.subrange(start as int, s@.len() as int),
            d == unsigned_digits(s@),
            v == digits_value(d.take(i - start)),
            v <= max,
            forall|k: int| 0 <= k < i - start ==> is_digit(#[trigger] d[k]),
        decreases s.len() - i,
    {
        let c = s[i];
        assert(d[i - start] == c);
        if !('0' <= c && c <= '9') {
            assert(!is_digit(d[i - start]));
            return None;
        }
        let digit = (c as u32 - '0' as u32) as u64;
        assert(d.take(i - start + 1).drop_last() =~= d.take(i - start));
        if digit > max || v > (max - digit) / 10 {
            proof {
                if digit <= max {
                    let m = (max - digit) as int;
                    assert(v * 10 + digit > max) by (nonlinear_arith)
                        requires
                            v > m / 10,
                            m == max - digit,
                            0 <= digit <= 9,
                            m >= 0,
                    ;
                }
                assert(digits_value(d.take(i - start + 1)) == v * 10 + digit);
                if forall|k: int| 0 <= k < d.len() ==> is_digit(#[trigger] d[k]) {
                    lemma_digits_value_prefix_monotone(d, i - start + 1);
                }
            }
            return None;
        }
        assert(v * 10 + digit <= max) by (nonlinear_arith)
            requires
                v <= (max - digit) / 10,
                digit <= max,
        ;
        v = v * 10 + digit;
        i += 1;
    }
    assert(d.take(s.len() - start) =~= d);
    Some(v)
}

/// Index of the first `=` in `p`, or its length when there is none.
pub open spec fn first_eq(p: Seq<char>) -> nat
    decreases p.len(),
{
    if p.len() == 0 {
        0
    } else if p[0] == '=' {
        0
    } else {
        1 + first_eq(p.drop_first())
    }
}

/// The key of a `key=value` pair (the whole pair when it has no `=`).
pub open spec fn pair_key(p: Seq<char>) -> Seq<char> {
    p.take(first_eq(p) as int)
}

/// The raw value of a `key=value` pair (empty when it has no `=`).
pub open spec fn pair_value(p: Seq<char>) -> Seq<char> {
    if first_eq(p) < p.len() {
        p.skip(first_eq(p) as int + 1)
    } else {
        Seq::empty()
    }
}

proof fn lemma_first_eq(p: Seq<char>)
    ensures
        first_eq(p) <= p.len(),
        forall|k: int| 0 <= k < first_eq(p) ==> p[k] != '=',
        first_eq(p) < p.len() ==> p[first_eq(p) as int] == '=',
    decreases p.len(),
{
    if p.len() > 0 && p[0] != '=' {
        lemma_first_eq(p.drop_first());
        assert forall|k: int| 0 <= k < first_eq(p) implies p[k] != '=' by {
            if k > 0 {
                assert(p[k] == p.drop_first()[k - 1]);
            }
        }
    }
}

/// Split a pair at its first `=`.
fn split_pair(p: &Vec<char>) -> (r: (Vec<char>, Vec<char>))
    ensures
        r.0@ == pair_key(p@),
        r.1@ == pair_value(p@),
{
    let mut i: usize = 0;
    proof {
        lemma_first_eq(p@);
    }
    while i < p.len() && p[i] != '='
        invariant
            i <= p.len(),
            forall|k: int| 0 <= k < i ==> p@[k] != '=',
            first_eq(p@) <= p.len(),
            forall|k: int| 0 <= k < first_eq(p@) ==> p@[k] != '=',
            first_eq(p@) < p.len() ==> p@[first_eq(p@) as int] == '=',
        decreases p.len() - i,
    {
        i += 1;
    }
    assert(i == first_eq(p@));
    let key = crate::text::slice_chars(p, 0, i);
    assert(key@ =~= pair_key(p@));
    if i < p.len() {
        let value = crate::text::slice_chars(p, i + 1, p.len());
        assert(value@ =~= pair_value(p@));
        (key, value)
    } else {
        assert(pair_value(p@) =~= Seq::<char>::empty());
        (key, Vec::new())
    }
}

/// The trimmed, non-empty pieces of a list of comma-separated pieces.
pub open spec fn names_of(pieces: Seq<Seq<char>>) -> Seq<Seq<char>>
    decreases pieces.len(),
{
    if pieces.len() == 0 {
        Seq::empty()
    } else {
        names_of(pieces.drop_last()) + if trim(pieces.last()).len() > 0 {
            seq![trim(pieces.last())]
        } else {
            Seq::empty()
        }
    }
}

/// The reply to a query value that does not decode.
pub open spec fn malformed_query(key: Seq<char>) -> (u16, JsonView) {
    (
        UNPROCESSABLE_ENTITY,
        obj3(
            "error"@,
            JsonView::Str("invalid_query"@),
            "key"@,
            JsonView::Str(key),
            "reason"@,
            JsonView::Str("malformed_percent_encoding"@),
        ),
    )
}

fn malformed_query_reply(key: &Vec<char>) -> (r: ErrorReply)
    ensures
        (r.status, r.body@) == malformed_query(key@),
{
    let k = string_of(key);
    let body = crate::reply::object3(
        "error",
        crate::reply::text("invalid_query"),
        "key",
        crate::json::JsonValue::String(k),
        "reason",
        crate::reply::text("malformed_percent_encoding"),
    );
    ErrorReply { status: UNPROCESSABLE_ENTITY, body }
}

/// Parsed query of `GET /test/elements`.
#[derive(Debug, Clone, PartialEq, Eq)]
pub struct ElementsQuery {
    pub selector: Option<String>,
    pub max_depth: Option<u32>,
    /// Property names to read per described widget, in request order.
    pub props: Vec<String>,
}

/// What an elements query has gathered: selector, depth limit, names.
pub struct ElementsQueryView {
    pub selector: Option<Seq<char>>,
    pub max_depth: Option<u32>,
    pub props: Seq<Seq<char>>,
}

impl ElementsQuery {
    pub open spec fn view_query(self) -> ElementsQueryView {
        ElementsQueryView {
            selector: crate::input::string_opt(self.selector),
            max_depth: self.max_depth,
            props: crate::elements::strs(self.props@),
        }
    }
}

/// One `key=value` pair of an elements query applied to what was gathered:
/// a value that does not decode is refused with its (raw) key; `selector`
/// sets the selector (the last one wins), `max_depth` must be an unsigned
/// 32-bit integer, `props` adds the trimmed non-empty comma-separated
/// names; empty pairs and other keys are ignored.
pub open spec fn elements_step(st: ElementsQueryView, pair: Seq<char>) -> Result<
    ElementsQueryView,
    (u16, JsonView),
> {
    if pair.len() == 0 {
        Ok(st)
    } else {
        let k = pair_key(pair);
        match query_component(pair_value(pair)) {
            None => Err(malformed_query(k)),
            Some(v) => if k == "selector"@ {
                Ok(ElementsQueryView { selector: Some(v), ..st })
            } else if k == "max_depth"@ {
                match unsigned_value(v, u32::MAX as nat) {
                    Some(n) => Ok(ElementsQueryView { max_depth: Some(n as u32), ..st }),
                    None => Err((UNPROCESSABLE_ENTITY, err_reason("invalid_max_depth"@, "non_integer"@))),
                }
            } else if k == "props"@ {
                Ok(ElementsQueryView { props: st.props + names_of(split_on(v, ',')), ..st })
            } else {
                Ok(st)
            },
        }
    }
}

/// The pairs of an elements query applied in order from nothing gathered;
/// the first refused pair decides the answer.
pub open spec fn elements_fold(pairs: Seq<Seq<char>>) -> Result<ElementsQueryView, (u16, JsonView)>
    decreases pairs.len(),
{
    if pairs.len() == 0 {
        Ok(ElementsQueryView { selector: None, max_depth: None, props: Seq::empty() })
    } else {
        match elements_fold(pairs.drop_last()) {
            Err(e) => Err(e),
            Ok(st) => elements_step(st, pairs.last()),
        }
    }
}

/// The names of a `props` value: comma-separated, trimmed, empty ones dropped.
fn prop_names(v: &Vec<char>, out: &mut Vec<String>)
    ensures
        crate::elements::strs(final(out)@) == crate::elements::strs(old(out)@) + names_of(
            split_on(v@, ','),
        ),
{
    let pieces = split_chars(v, ',');
    let ghost ps = split_on(v@, ',');
    let ghost base = crate::elements::strs(out@);
    let mut i: usize = 0;
    assert(ps.take(0) =~= Seq::<Seq<char>>::empty());
    assert(base + names_of(Seq::<Seq<char>>::empty()) =~= base);
    while i < pieces.len()
        invariant
            i <= pieces.len(),
            pieces.len() == ps.len(),
            ps == split_on(v@, ','),
            forall|k: int| 0 <= k < pieces.len() ==> #[trigger] pieces@[k]@ == ps[k],
            crate::elements::strs(out@) == base + names_of(ps.take(i as int)),
        decreases pieces.len() - i,
    {
        let t = trim_chars(&pieces[i]);
        assert(ps.take(i as int + 1).drop_last() =~= ps.take(i as int));
        assert(ps.take(i as int + 1).last() == ps[i as int]);
        if t.len() > 0 {
            let name = string_of(&t);
            let ghost before = out@;
            out.push(name);
            assert(crate::elements::strs(out@) =~= crate::elements::strs(before).push(name@));
            assert(base + names_of(ps.take(i as int + 1)) =~= base + names_of(ps.take(i as int)).push(
                trim(ps[i as int]),
            ));
        } else {
            assert(base + names_of(ps.take(i as int + 1)) =~= base + names_of(ps.take(i as int)));
        }
        i += 1;
    }
    assert(ps.take(pieces.len() as int) =~= ps);
}

fn is_key(k: &Vec<char>, name: &str) -> (r: bool)
    ensures
        r == (k@ == name@),
{
    let n = chars_of(name);
    same_chars(k, &n)
}

/// Parse the raw query string of `GET /test/elements`, see
/// [`elements_fold`] over its `&`-separated pairs.
pub fn parse_elements_query(raw: &str) -> (r: Result<ElementsQuery, ErrorReply>)
    ensures
        match elements_fold(split_on(raw@, '&')) {
            Ok(st) => r matches Ok(q) && q.view_query() == st,
            Err(x) => r matches Err(e) && (e.status, e.body@) == x,
        },
{
    let cs = chars_of(raw);
    let pairs = split_chars(&cs, '&');
    let ghost ps = split_on(raw@, '&');
    let mut q = ElementsQuery { selector: None, max_depth: None, props: Vec::new() };
    let mut i: usize = 0;
    assert(ps.take(0) =~= Seq::<Seq<char>>::empty());
    assert(crate::elements::strs(q.props@) =~= Seq::<Seq<char>>::empty());
    while i < pairs.len()
        invariant
            i <= pairs.len(),
            pairs.len() == ps.len(),
            ps == split_on(raw@, '&'),
            forall|k: int| 0 <= k < pairs.len() ==> #[trigger] pairs@[k]@ == ps[k],
            elements_fold(ps.take(i as int)) == Ok::<ElementsQueryView, (u16, JsonView)>(q.view_query()),
        decreases pairs.len() - i,
    {
        let ghost st = q.view_query();
        assert(ps.take(i as int + 1).drop_last() =~= ps.take(i as int));
        assert(ps.take(i as int + 1).last() == ps[i as int]);
        let pair = &pairs[i];
        if pair.len() > 0 {
            let (k, v) = split_pair(pair);
            let vs = string_of(&v);
            let value = match decode_query_component(vs.as_str()) {
                Some(x) => x,
                None => {
                    proof {
                        lemma_elements_fold_err(ps, i as int + 1);
                    }
                    return Err(malformed_query_reply(&k));
                },
            };
            if is_key(&k, "selector") {
                q.selector = Some(value);
                assert(q.view_query() =~~= ElementsQueryView { selector: Some(value@), ..st });
            } else if is_key(&k, "max_depth") {
                let vc = chars_of(value.as_str());
                match parse_unsigned(&vc, u32::MAX as u64) {
                    Some(n) => {
                        q.max_depth = Some(n as u32);
                        assert(q.view_query() =~~= ElementsQueryView { max_depth: Some(n as u32), ..st });
                    },
                    None => {
                        proof {
                            lemma_elements_fold_err(ps, i as int + 1);
                        }
                        return Err(
                            crate::reply::validation_reason("invalid_max_depth", "non_integer"),
                        );
                    },
                }
            } else if is_key(&k, "props") {
                let vc = chars_of(value.as_str());
                prop_names(&vc, &mut q.props);
                assert(q.view_query() =~~= ElementsQueryView {
                    props: st.props + names_of(split_on(value@, ',')),
                    ..st
                });
            }
        }
        i += 1;
    }
    assert(ps.take(pairs.len() as int) =~= ps);
    Ok(q)
}

/// Parsed query of `GET /test/screenshot`.
#[derive(Debug, Clone, PartialEq, Eq)]
pub struct ScreenshotQuery {
    pub selector: Option<String>,
    pub window: Option<usize>,
}

/// What a screenshot query has gathered: selector and window index.
pub struct ScreenshotQueryView {
    pub selector: Option<Seq<char>>,
    pub window: Option<usize>,
}

impl ScreenshotQuery {
    pub open spec fn view_query(self) -> ScreenshotQueryView {
        ScreenshotQueryView { selector: crate::input::string_opt(self.selector), window: self.window }
    }
}

/// One pair of a screenshot query: like the elements query, with `window`
/// an unsigned machine-size integer.
pub open spec fn screenshot_step(st: ScreenshotQueryView, pair: Seq<char>) -> Result<
    ScreenshotQueryView,
    (u16, JsonView),
> {
    if pair.len() == 0 {
        Ok(st)
    } else {
        let k = pair_key(pair);
        match query_component(pair_value(pair)) {
            None => Err(malformed_query(k)),
            Some(v) => if k == "selector"@ {
                Ok(ScreenshotQueryView { selector: Some(v), ..st })
            } else if k == "window"@ {
                match unsigned_value(v, usize::MAX as nat) {
                    Some(n) => Ok(ScreenshotQueryView { window: Some(n as usize), ..st }),
                    None => Err((UNPROCESSABLE_ENTITY, err_reason("invalid_window"@, "non_integer"@))),
                }
            } else {
                Ok(st)
            },
        }
    }
}

pub open spec fn screenshot_fold(pairs: Seq<Seq<char>>) -> Result<ScreenshotQueryView, (u16, JsonView)>
    decreases pairs.len(),
{
    if pairs.len() == 0 {
        Ok(ScreenshotQueryView { selector: None, window: None })
    } else {
        match screenshot_fold(pairs.drop_last()) {
            Err(e) => Err(e),
            Ok(st) => screenshot_step(st, pairs.last()),
        }
    }
}

/// Parse the raw query string of `GET /test/screenshot`, see
/// [`screenshot_fold`] over its `&`-separated pairs.
pub fn parse_screenshot_query(raw: &str) -> (r: Result<ScreenshotQuery, ErrorReply>)
    ensures
        match screenshot_fold(split_on(raw@, '&')) {
            Ok(st) => r matches Ok(q) && q.view_query() == st,
            Err(x) => r matches Err(e) && (e.status, e.body@) == x,
        },
{
    let cs = chars_of(raw);
    let pairs = split_chars(&cs, '&');
    let ghost ps = split_on(raw@, '&');
    let mut q = ScreenshotQuery { selector: None, window: None };
    let mut i: usize = 0;
    assert(ps.take(0) =~= Seq::<Seq<char>>::empty());
    while i < pairs.len()
        invariant
            i <= pairs.len(),
            pairs.len() == ps.len(),
            ps == split_on(raw@, '&'),
            forall|k: int| 0 <= k < pairs.len() ==> #[trigger] pairs@[k]@ == ps[k],
            screenshot_fold(ps.take(i as int)) == Ok::<ScreenshotQueryView, (u16, JsonView)>(q.view_query()),
        decreases pairs.len() - i,
    {
        let ghost st = q.view_query();
        assert(ps.take(i as int + 1).drop_last() =~= ps.take(i as int));
        assert(ps.take(i as int + 1).last() == ps[i as int]);
        let pair = &pairs[i];
        if pair.len() > 0 {
            let (k, v) = split_pair(pair);
            let vs = string_of(&v);
            let value = match decode_query_component(vs.as_str()) {
                Some(x) => x,
                None => {
                    proof {
                        lemma_screenshot_fold_err(ps, i as int + 1);
                    }
                    return Err(malformed_query_reply(&k));
                },
            };
            if is_key(&k, "selector") {
                q.selector = Some(value);
            } else if is_key(&k, "window") {
                let vc = chars_of(value.as_str());
                match parse_unsigned(&vc, usize::MAX as u64) {
                    Some(n) => {
                        q.window = Some(n as usize);
                    },
                    None => {
                        proof {
                            lemma_screenshot_fold_err(ps, i as int + 1);
                        }
                        return Err(crate::reply::validation_reason("invalid_window", "non_integer"));
                    },
                }
            }
        }
        i += 1;
    }
    assert(ps.take(pairs.len() as int) =~= ps);
    Ok(q)
}

/// A refused prefix of pairs refuses the whole query, with the same answer.
proof fn lemma_elements_fold_err(ps: Seq<Seq<char>>, n: int)
    requires
        0 <= n <= ps.len(),
        elements_fold(ps.take(n)) is Err,
    ensures
        elements_fold(ps) == elements_fold(ps.take(n)),
    decreases ps.len() - n,
{
    if n < ps.len() {
        assert(ps.take(n + 1).drop_last() =~= ps.take(n));
        lemma_elements_fold_err(ps, n + 1);
    } else {
        assert(ps.take(n) =~= ps);
    }
}

/// A refused prefix of pairs refuses the whole query, with the same answer.
proof fn lemma_screenshot_fold_err(ps: Seq<Seq<char>>, n: int)
    requires
        0 <= n <= ps.len(),
        screenshot_fold(ps.take(n)) is Err,
    ensures
        screenshot_fold(ps) == screenshot_fold(ps.take(n)),
    decreases ps.len() - n,
{
    if n < ps.len() {
        assert(ps.take(n + 1).drop_last() =~= ps.take(n));
        lemma_screenshot_fold_err(ps, n + 1);
    } else {
        assert(ps.take(n) =~= ps);
    }
}

// ---------------------------------------------------------------------------
// Pre-validation of request bodies
// ---------------------------------------------------------------------------

/// Is `r` the answer `a` (`None`: go on with the request)?
pub open spec fn answers(r: Result<(), ErrorReply>, a: Option<(u16, JsonView)>) -> bool {
    match a {
        None => r is Ok,
        Some(x) => r matches Err(e) && (e.status, e.body@) == x,
    }
}

/// `422 invalid_selector` for a selector that does not parse.
pub open spec fn selector_answer(s: Seq<char>) -> Option<(u16, JsonView)> {
    match crate::tree::selector_refusal(s) {
        Some(reason) => Some((UNPROCESSABLE_ENTITY, err_reason("invalid_selector"@, reason))),
        None => None,
    }
}

/// Refuse a selector that does not parse (before the widget side is asked).
pub fn check_selector(s: &str) -> (r: Result<(), ErrorReply>)
    ensures
        answers(r, selector_answer(s@)),
{
    match crate::tree::parse_selector(s) {
        Ok(_) => Ok(()),
        Err(e) => Err(crate::reply::validation_reason("invalid_selector", e.reason)),
    }
}

/// Pre-validate a tap: a selector must parse.
pub fn prevalidate_tap(target: &crate::proto::TapTarget) -> (r: Result<(), ErrorReply>)
    ensures
        answers(
            r,
            match target {
                crate::proto::TapTarget::Selector { selector } => selector_answer(selector@),
                crate::proto::TapTarget::Xy { .. } => None,
            },
        ),
{
    match target {
        crate::proto::TapTarget::Selector { selector } => check_selector(selector.as_str()),
        crate::proto::TapTarget::Xy { .. } => Ok(()),
    }
}

pub open spec fn invalid_target(reason: Seq<char>) -> Option<(u16, JsonView)> {
    Some((UNPROCESSABLE_ENTITY, err_reason("invalid_target"@, reason)))
}

/// The pre-validation answer to a press: exactly one target, then the hold
/// (zero, too long), then the selector's syntax.
pub open spec fn press_answer(selector: Option<Seq<char>>, has_xy: bool, hold_ms: u64) -> Option<
    (u16, JsonView),
> {
    if (selector is Some) == has_xy {
        invalid_target(crate::input::target_reason())
    } else if hold_ms == 0 {
        Some((UNPROCESSABLE_ENTITY, err_reason("invalid_hold"@, "zero"@)))
    } else if hold_ms > crate::input::MAX_PRESS_HOLD_MS {
        Some((UNPROCESSABLE_ENTITY, too_long_hold(hold_ms)))
    } else {
        match selector {
            Some(s) => selector_answer(s),
            None => None,
        }
    }
}

/// Pre-validate a long press, see [`press_answer`].
pub fn prevalidate_press(req: &crate::proto::PressRequest) -> (r: Result<(), ErrorReply>)
    ensures
        answers(r, press_answer(crate::input::string_opt(req.selector), req.xy is Some, req.hold_ms)),
{
    proof {
        reveal_strlit("exactly one of selector / xy required");
    }
    if req.selector.is_some() == req.xy.is_some() {
        return Err(
            crate::reply::validation_reason("invalid_target", "exactly one of selector / xy required"),
        );
    }
    if req.hold_ms == 0 {
        return Err(crate::reply::validation_reason("invalid_hold", "zero"));
    }
    if req.hold_ms > crate::input::MAX_PRESS_HOLD_MS {
        let body = crate::reply::object3(
            "error",
            crate::reply::text("invalid_hold"),
            "hold_ms",
            crate::json::JsonValue::Number(crate::json::JsonNumber::PosInt(req.hold_ms)),
            "reason",
            crate::reply::text("too_long"),
        );
        return Err(ErrorReply { status: UNPROCESSABLE_ENTITY, body });
    }
    match &req.selector {
        Some(s) => check_selector(s.as_str()),
        None => Ok(()),
    }
}

/// The pre-validation answer to a set-value: exactly one target, a value
/// when targeting by selector, a finite value, then the selector's syntax.
pub open spec fn set_value_answer(
    selector: Option<Seq<char>>,
    has_xy: bool,
    value_bits: Option<u64>,
) -> Option<(u16, JsonView)> {
    if (selector is Some) == has_xy {
        invalid_target(crate::input::target_reason())
    } else if selector is Some && value_bits is None {
        invalid_target(crate::input::value_required_reason())
    } else if value_bits matches Some(b) && !crate::input::finite_f64(b) {
        Some((UNPROCESSABLE_ENTITY, err_reason("invalid_value"@, "not_finite"@)))
    } else {
        match selector {
            Some(s) => selector_answer(s),
            None => None,
        }
    }
}

/// Pre-validate a set-value, see [`set_value_answer`].
pub fn prevalidate_set_value(req: &crate::proto::SetValueRequest) -> (r: Result<(), ErrorReply>)
    ensures
        answers(
            r,
            set_value_answer(crate::input::string_opt(req.selector), req.xy is Some, req.value_bits),
        ),
{
    proof {
        reveal_strlit("exactly one of selector / xy required");
        reveal_strlit("value is required when targeting by selector");
    }
    if req.selector.is_some() == req.xy.is_some() {
        return Err(
            crate::reply::validation_reason("invalid_target", "exactly one of selector / xy required"),
        );
    }
    if req.selector.is_some() && req.value_bits.is_none() {
        return Err(
            crate::reply::validation_reason(
                "invalid_target",
                "value is required when targeting by selector",
            ),
        );
    }
    if let Some(b) = req.value_bits {
        if crate::input::validate_value(b).is_err() {
            return Err(crate::reply::validation_reason("invalid_value", "not_finite"));
        }
    }
    match &req.selector {
        Some(s) => check_selector(s.as_str()),
        None => Ok(()),
    }
}

/// The pre-validation answer to a wait: the timeout (zero, above the
/// maximum), then a selector's syntax, or a JSON Pointer path that is
/// neither empty nor starts with `/`.
pub open spec fn wait_answer(req: crate::proto::WaitRequest) -> Option<(u16, JsonView)> {
    if req.timeout_ms == 0 {
        Some((UNPROCESSABLE_ENTITY, err_reason("invalid_timeout"@, "zero"@)))
    } else if req.timeout_ms > crate::wait::MAX_TIMEOUT_MS {
        Some((UNPROCESSABLE_ENTITY, err_reason("invalid_timeout"@, "excessive"@)))
    } else {
        match req.condition {
            crate::proto::WaitCondition::SelectorVisible { selector } => selector_answer(selector@),
            crate::proto::WaitCondition::StateEq { selector, .. } => selector_answer(selector@),
            crate::proto::WaitCondition::AppStateEq { path, .. } => if path@.len() > 0 && path@[0]
                != '/' {
                Some((UNPROCESSABLE_ENTITY, err_reason("invalid_path"@, "missing_leading_slash"@)))
            } else {
                None
            },
        }
    }
}

/// Pre-validate a wait, see [`wait_answer`].
pub fn prevalidate_wait(req: &crate::proto::WaitRequest) -> (r: Result<(), ErrorReply>)
    ensures
        answers(r, wait_answer(*req)),
{
    if let Err(e) = crate::wait::check_timeout(req.timeout_ms) {
        proof {
            reveal_strlit("zero");
            reveal_strlit("excessive");
        }
        let reason = match e {
            crate::wait::WaitError::InvalidTimeout(reason) => reason,
            _ => "zero",
        };
        return Err(crate::reply::validation_reason("invalid_timeout", reason));
    }
    match &req.condition {
        crate::proto::WaitCondition::SelectorVisible { selector } => check_selector(selector.as_str()),
        crate::proto::WaitCondition::StateEq { selector, .. } => check_selector(selector.as_str()),
        crate::proto::WaitCondition::AppStateEq { path, .. } => {
            let pc = chars_of(path.as_str());
            if pc.len() > 0 && pc[0] != '/' {
                Err(crate::reply::validation_reason("invalid_path", "missing_leading_slash"))
            } else {
                Ok(())
            }
        },
    }
}

} // verus!
