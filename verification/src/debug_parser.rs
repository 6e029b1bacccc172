//! Parser for the pretty-printed Rust `Debug` format (`{:#?}`), turning it
//! into JSON for display.
//!
//! The grammar, tried in this order at each value:
//! string literal, `true`/`false`, number, `[..]` array, `(..)` tuple,
//! `{ key: value, .. }` map, `Name { field: value, .. }` struct,
//! `Name(..)` tuple struct, and a bare `Name`. Items are separated by commas,
//! a trailing comma is allowed, and spaces, tabs and line breaks may surround
//! the punctuation. An input that is not one complete value is returned
//! as a JSON string holding the input itself.

use vstd::prelude::*;
use crate::json::{
    Json, JsonValue, obj_from, int_decimal, json_text, entries_model, values_model,
    lemma_array_model, lemma_object_model, object_insert, write_int, write_json,
};
use crate::text::{
    matches_at, replace_all, spec_is_alphanumeric, spec_is_whitespace, trim, all_whitespace,
    trim_start_index, trim_end_index,
    chars_match_at, replace_chars, string_of, string_of_range, is_alphanumeric, is_whitespace,
    chars_of, trim_chars,
};

verus! {

broadcast use vstd::std_specs::vec::group_vec_axioms;

// ---------------------------------------------------------------------------
// Specification
// ---------------------------------------------------------------------------

/// Space, tab, carriage return or line feed.
pub open spec fn is_space(c: char) -> bool {
    c == ' ' || c == '\t' || c == '\r' || c == '\n'
}

/// The first position at or after `p` that does not hold a space character.
pub open spec fn skip_space(s: Seq<char>, p: int) -> int
    decreases s.len() - p,
{
    if 0 <= p < s.len() && is_space(s[p]) {
        skip_space(s, p + 1)
    } else {
        p
    }
}

pub proof fn lemma_skip_space_bounds(s: Seq<char>, p: int)
    requires
        0 <= p <= s.len(),
    ensures
        p <= skip_space(s, p) <= s.len(),
    decreases s.len() - p,
{
    if p < s.len() && is_space(s[p]) {
        lemma_skip_space_bounds(s, p + 1);
    }
}

/// A character of an identifier: alphanumeric or `_`.
pub open spec fn is_ident_char(c: char) -> bool {
    spec_is_alphanumeric(c) || c == '_'
}

/// The end of the longest run of identifier characters starting at `p`.
pub open spec fn ident_end(s: Seq<char>, p: int) -> int
    decreases s.len() - p,
{
    if 0 <= p < s.len() && is_ident_char(s[p]) {
        ident_end(s, p + 1)
    } else {
        p
    }
}

pub proof fn lemma_ident_end_bounds(s: Seq<char>, p: int)
    requires
        0 <= p <= s.len(),
    ensures
        p <= ident_end(s, p) <= s.len(),
    decreases s.len() - p,
{
    if p < s.len() && is_ident_char(s[p]) {
        lemma_ident_end_bounds(s, p + 1);
    }
}

/// An ASCII decimal digit.
pub open spec fn is_digit(c: char) -> bool {
    '0' <= c && c <= '9'
}

/// The end of the longest run of digits starting at `p`.
pub open spec fn digits_end(s: Seq<char>, p: int) -> int
    decreases s.len() - p,
{
    if 0 <= p < s.len() && is_digit(s[p]) {
        digits_end(s, p + 1)
    } else {
        p
    }
}

/// A character that may follow a backslash in a string literal.
pub open spec fn is_escapable(c: char) -> bool {
    c == '\\' || c == '"' || c == 'n' || c == 'r' || c == 't' || c == '0' || c == '\''
}

/// Scans the body of a string literal that starts at `start`, now at `j`:
/// ordinary characters and backslash escapes, up to the first unescaped
/// quote. `None` when a backslash is last or is followed by a character that
/// cannot be escaped, or when the body is empty.
pub open spec fn escaped_scan(s: Seq<char>, start: int, j: int) -> Option<int>
    decreases s.len() - j,
{
    if j < 0 || j >= s.len() {
        Some(s.len() as int)
    } else if s[j] != '\\' && s[j] != '"' {
        escaped_scan(s, start, j + 1)
    } else if s[j] == '\\' {
        if j + 1 < s.len() && is_escapable(s[j + 1]) {
            escaped_scan(s, start, j + 2)
        } else {
            None
        }
    } else if j == start {
        None
    } else {
        Some(j)
    }
}

/// The end of the body of a string literal whose body starts at `start`.
pub open spec fn string_body_end(s: Seq<char>, start: int) -> int {
    match escaped_scan(s, start, start) {
        Some(e) => e,
        None => start,
    }
}

/// The character that a backslash escape stands for in a string literal:
/// `\n`, `\r` and `\t` stand for the control characters, `\\`, `\"` and
/// `\'` for the character after the backslash.
pub open spec fn escape_of(c: char) -> Option<char> {
    if c == 'n' {
        Some('\n')
    } else if c == 'r' {
        Some('\r')
    } else if c == 't' {
        Some('\t')
    } else if c == '\\' || c == '"' || c == '\'' {
        Some(c)
    } else {
        None
    }
}

/// The body of a string literal with its escapes resolved from left to
/// right: a backslash and a character that `escape_of` knows become the
/// character it stands for; every other character is kept as it is.
pub open spec fn unescape(body: Seq<char>) -> Seq<char>
    decreases body.len(),
{
    if body.len() == 0 {
        Seq::empty()
    } else if body[0] == '\\' && body.len() >= 2 && escape_of(body[1]) is Some {
        seq![escape_of(body[1])->Some_0] + unescape(body.skip(2))
    } else {
        seq![body[0]] + unescape(body.skip(1))
    }
}

/// How `Debug` writes a character inside a string literal: a backslash,
/// a quote, a newline, a carriage return and a tab as their escapes, every
/// other character as itself.
pub open spec fn char_debug(c: char) -> Seq<char> {
    if c == '\\' {
        seq!['\\', '\\']
    } else if c == '"' {
        seq!['\\', '"']
    } else if c == '\n' {
        seq!['\\', 'n']
    } else if c == '\r' {
        seq!['\\', 'r']
    } else if c == '\t' {
        seq!['\\', 't']
    } else {
        seq![c]
    }
}

/// The body of the `Debug` text of a string whose other characters `Debug`
/// writes as themselves.
pub open spec fn debug_escape(s: Seq<char>) -> Seq<char>
    decreases s.len(),
{
    if s.len() == 0 {
        Seq::empty()
    } else {
        char_debug(s[0]) + debug_escape(s.drop_first())
    }
}

/// The scan of a literal's body passes over escaped text as a whole.
proof fn lemma_scan_escaped(s: Seq<char>, t: Seq<char>, start: int, j: int)
    requires
        0 <= j,
        j + debug_escape(s).len() <= t.len(),
        t.subrange(j, j + debug_escape(s).len()) == debug_escape(s),
    ensures
        escaped_scan(t, start, j) == escaped_scan(t, start, j + debug_escape(s).len()),
    decreases s.len(),
{
    if s.len() > 0 {
        let c = s[0];
        let e = debug_escape(s);
        let head = char_debug(c);
        let tail = debug_escape(s.drop_first());
        assert(e == head + tail);
        let k = head.len() as int;
        assert(t[j] == e[0]);
        if head.len() == 2 {
            assert(t[j + 1] == e[1]);
        }
        assert(t.subrange(j + k, j + k + tail.len()) =~= tail) by {
            assert forall|m: int| 0 <= m < tail.len() implies t.subrange(j + k, j + k + tail.len())[m]
                == tail[m] by {
                assert(t.subrange(j, j + e.len())[k + m] == e[k + m]);
            }
        }
        lemma_scan_escaped(s.drop_first(), t, start, j + k);
    }
}

/// Resolving the escapes of escaped text gives the text back.
proof fn lemma_unescape_escaped(s: Seq<char>)
    ensures
        unescape(debug_escape(s)) == s,
    decreases s.len(),
{
    if s.len() > 0 {
        let c = s[0];
        let head = char_debug(c);
        let tail = debug_escape(s.drop_first());
        let e = head + tail;
        assert(debug_escape(s) == e);
        lemma_unescape_escaped(s.drop_first());
        assert(e.skip(head.len() as int) =~= tail);
        assert(s =~= seq![c] + s.drop_first());
    }
}

/// The `Debug` text of a string parses back as that string: the escapes
/// of a backslash, a quote, a newline, a carriage return and a tab are
/// resolved, and every other character is kept.
pub proof fn lemma_debug_string_round_trip(s: Seq<char>)
    ensures
        spec_parse_debug(seq!['"'] + debug_escape(s) + seq!['"']) == Json::Str(s),
{
    let e = debug_escape(s);
    let t = seq!['"'] + e + seq!['"'];
    let n = t.len() as int;
    assert(t[0] == '"' && t[n - 1] == '"');
    assert(!spec_is_whitespace('"'));
    assert(trim_start_index(t, 0) == 0);
    assert(trim_end_index(t, 0, n) == n);
    assert(trim(t) =~= t);
    assert(skip_space(t, 0) == 0);
    assert(t.subrange(1, 1 + e.len() as int) =~= e);
    lemma_scan_escaped(s, t, 1, 1);
    assert(escaped_scan(t, 1, n - 1) == if n - 1 == 1 {
        None::<int>
    } else {
        Some(n - 1)
    });
    assert(string_body_end(t, 1) == n - 1);
    assert(t.subrange(1, n - 1) =~= e);
    lemma_unescape_escaped(s);
    assert(spec_string(t, 0) == Some((Json::Str(s), n)));
}

/// A string literal at `p`.
pub open spec fn spec_string(s: Seq<char>, p: int) -> Option<(Json, int)> {
    if 0 <= p < s.len() && s[p] == '"' {
        let e = string_body_end(s, p + 1);
        if p + 1 <= e < s.len() && s[e] == '"' {
            Some((Json::Str(unescape(s.subrange(p + 1, e))), e + 1))
        } else {
            None
        }
    } else {
        None
    }
}

/// `true` or `false` at `p`.
pub open spec fn spec_bool(s: Seq<char>, p: int) -> Option<(Json, int)> {
    if matches_at(s, p, seq!['t', 'r', 'u', 'e']) {
        Some((Json::Bool(true), p + 4))
    } else if matches_at(s, p, seq!['f', 'a', 'l', 's', 'e']) {
        Some((Json::Bool(false), p + 5))
    } else {
        None
    }
}

/// The end of a number at `p`: an optional `-`, digits, and optionally a
/// `.` followed by digits.
pub open spec fn number_end(s: Seq<char>, p: int) -> Option<int> {
    let q = if 0 <= p < s.len() && s[p] == '-' {
        p + 1
    } else {
        p
    };
    let d = digits_end(s, q);
    if d == q {
        None
    } else if d < s.len() && s[d] == '.' && digits_end(s, d + 1) > d + 1 {
        Some(digits_end(s, d + 1))
    } else {
        Some(d)
    }
}

/// The value of a string of decimal digits.
pub open spec fn decimal_value(digits: Seq<char>) -> nat
    decreases digits.len(),
{
    if digits.len() == 0 {
        0
    } else {
        decimal_value(digits.drop_last()) * 10 + ((digits.last() as int) - ('0' as int)) as nat
    }
}

/// The JSON number for the text of a number: a 64-bit integer when the text
/// has no fraction and fits, otherwise the text itself.
pub open spec fn number_value(t: Seq<char>) -> Json {
    let neg = t.len() > 0 && t[0] == '-';
    let body = if neg {
        t.drop_first()
    } else {
        t
    };
    if body.contains('.') {
        Json::Float(t)
    } else {
        let v = if neg {
            -(decimal_value(body) as int)
        } else {
            decimal_value(body) as int
        };
        if i64::MIN <= v <= i64::MAX {
            Json::Int(v)
        } else {
            Json::Float(t)
        }
    }
}

/// A number at `p`.
pub open spec fn spec_number(s: Seq<char>, p: int) -> Option<(Json, int)> {
    match number_end(s, p) {
        Some(e) => Some((number_value(s.subrange(p, e)), e)),
        None => None,
    }
}

/// The position after an optional trailing comma and the closing `close`
/// that end a bracketed list whose items end at `b`.
pub open spec fn list_close(s: Seq<char>, b: int, close: char) -> Option<int> {
    let c = skip_space(s, b);
    let d = if 0 <= c < s.len() && s[c] == ',' {
        c + 1
    } else {
        c
    };
    let e = skip_space(s, d);
    if 0 <= e < s.len() && s[e] == close {
        Some(e + 1)
    } else {
        None
    }
}

/// The text used as an object key for a parsed map key.
pub open spec fn key_text(k: Json) -> Seq<char> {
    match k {
        Json::Str(t) => t,
        Json::Int(n) => int_decimal(n),
        Json::Float(t) => t,
        Json::Bool(b) => if b {
            seq!['t', 'r', 'u', 'e']
        } else {
            seq!['f', 'a', 'l', 's', 'e']
        },
        _ => json_text(k),
    }
}

pub open spec fn type_key() -> Seq<char> {
    seq!['_', 't', 'y', 'p', 'e']
}

pub open spec fn values_key() -> Seq<char> {
    seq!['_', 'v', 'a', 'l', 'u', 'e', 's']
}

pub open spec fn tuple_key() -> Seq<char> {
    seq!['_', 't', 'u', 'p', 'l', 'e']
}

/// Any value at `p`, after leading space.
pub open spec fn spec_value(s: Seq<char>, p: int) -> Option<(Json, int)>
    decreases s.len() - p, 1int,
{
    let q = skip_space(s, p);
    if !(0 <= p <= q <= s.len()) {
        None
    } else if spec_string(s, q) is Some {
        spec_string(s, q)
    } else if spec_bool(s, q) is Some {
        spec_bool(s, q)
    } else if spec_number(s, q) is Some {
        spec_number(s, q)
    } else if spec_array(s, q) is Some {
        spec_array(s, q)
    } else if spec_tuple(s, q) is Some {
        spec_tuple(s, q)
    } else if spec_map(s, q) is Some {
        spec_map(s, q)
    } else if spec_named_struct(s, q) is Some {
        spec_named_struct(s, q)
    } else if spec_tuple_struct(s, q) is Some {
        spec_tuple_struct(s, q)
    } else {
        spec_unit(s, q)
    }
}

/// `[ item, .. ]` at `p`.
pub open spec fn spec_array(s: Seq<char>, p: int) -> Option<(Json, int)>
    decreases s.len() - p, 0int,
{
    if 0 <= p < s.len() && s[p] == '[' {
        proof {
            lemma_skip_space_bounds(s, p + 1);
        }
        let (items, b) = spec_value_list(s, skip_space(s, p + 1));
        match list_close(s, b, ']') {
            Some(e) => Some((Json::Array(items), e)),
            None => None,
        }
    } else {
        None
    }
}

/// `( item, .. )` at `p`.
pub open spec fn spec_tuple(s: Seq<char>, p: int) -> Option<(Json, int)>
    decreases s.len() - p, 0int,
{
    if 0 <= p < s.len() && s[p] == '(' {
        proof {
            lemma_skip_space_bounds(s, p + 1);
        }
        let (items, b) = spec_value_list(s, skip_space(s, p + 1));
        match list_close(s, b, ')') {
            Some(e) => Some((Json::Object(obj_from(seq![(tuple_key(), Json::Array(items))])), e)),
            None => None,
        }
    } else {
        None
    }
}

/// `{ key: value, .. }` at `p`.
pub open spec fn spec_map(s: Seq<char>, p: int) -> Option<(Json, int)>
    decreases s.len() - p, 0int,
{
    if 0 <= p < s.len() && s[p] == '{' {
        proof {
            lemma_skip_space_bounds(s, p + 1);
        }
        let (entries, b) = spec_entry_list(s, skip_space(s, p + 1));
        match list_close(s, b, '}') {
            Some(e) => Some((Json::Object(obj_from(entries)), e)),
            None => None,
        }
    } else {
        None
    }
}

/// `Name { field: value, .. }` at `p`.
pub open spec fn spec_named_struct(s: Seq<char>, p: int) -> Option<(Json, int)>
    decreases s.len() - p, 0int,
{
    let n = ident_end(s, p);
    let a = skip_space(s, n);
    if 0 <= p < n && n <= a < s.len() && s[a] == '{' {
        proof {
            lemma_skip_space_bounds(s, a + 1);
        }
        let (fields, b) = spec_field_list(s, skip_space(s, a + 1));
        match list_close(s, b, '}') {
            Some(e) => Some(
                (
                    Json::Object(
                        obj_from(seq![(type_key(), Json::Str(s.subrange(p, n)))] + fields),
                    ),
                    e,
                ),
            ),
            None => None,
        }
    } else {
        None
    }
}

/// `Name( item, .. )` at `p`.
pub open spec fn spec_tuple_struct(s: Seq<char>, p: int) -> Option<(Json, int)>
    decreases s.len() - p, 0int,
{
    let n = ident_end(s, p);
    let a = skip_space(s, n);
    if 0 <= p < n && n <= a < s.len() && s[a] == '(' {
        proof {
            lemma_skip_space_bounds(s, a + 1);
        }
        let (items, b) = spec_value_list(s, skip_space(s, a + 1));
        match list_close(s, b, ')') {
            Some(e) => Some(
                (
                    Json::Object(
                        obj_from(
                            seq![
                                (type_key(), Json::Str(s.subrange(p, n))),
                                (values_key(), Json::Array(items)),
                            ],
                        ),
                    ),
                    e,
                ),
            ),
            None => None,
        }
    } else {
        None
    }
}

/// A bare `Name` at `p`, not directly followed by `{` or `(`.
pub open spec fn spec_unit(s: Seq<char>, p: int) -> Option<(Json, int)> {
    let n = ident_end(s, p);
    if 0 <= p < n && !(n < s.len() && (s[n] == '{' || s[n] == '(')) {
        Some((Json::Object(obj_from(seq![(type_key(), Json::Str(s.subrange(p, n)))])), n))
    } else {
        None
    }
}

/// Comma-separated values starting at `p`; stops before a separator that is
/// not followed by a value.
pub open spec fn spec_value_list(s: Seq<char>, p: int) -> (Seq<Json>, int)
    decreases s.len() - p, 2int,
{
    match spec_value(s, p) {
        None => (Seq::empty(), p),
        Some((v, b)) => if p < b <= s.len() {
            let (rest, c) = spec_value_tail(s, b);
            (seq![v] + rest, c)
        } else {
            (seq![v], b)
        },
    }
}

/// The values that follow a value ending at `i`, each after a comma.
pub open spec fn spec_value_tail(s: Seq<char>, i: int) -> (Seq<Json>, int)
    decreases s.len() - i, 2int,
{
    let a = skip_space(s, i);
    if 0 <= i <= a < s.len() && s[a] == ',' {
        let b = skip_space(s, a + 1);
        if i < b <= s.len() {
            match spec_value(s, b) {
                None => (Seq::empty(), i),
                Some((v, c)) => if i < c <= s.len() {
                    let (rest, d) = spec_value_tail(s, c);
                    (seq![v] + rest, d)
                } else {
                    (seq![v], c)
                },
            }
        } else {
            (Seq::empty(), i)
        }
    } else {
        (Seq::empty(), i)
    }
}

/// `items` are the values of a comma-separated run in `s` that starts at
/// `start` and ends at `end`: the i-th value is read at `q[i]` and ends at
/// `c[i]`; after each but the last come space, a comma, space and the next
/// value; the run ends where its last value does (at `start` if it is
/// empty).
pub open spec fn values_at(s: Seq<char>, start: int, items: Seq<Json>, end: int, q: Seq<int>, c: Seq<int>) -> bool {
    &&& q.len() == items.len()
    &&& c.len() == items.len()
    &&& (items.len() == 0 ==> end == start)
    &&& (items.len() > 0 ==> q[0] == start && end == c[items.len() - 1])
    &&& forall|i: int| #![trigger q[i]] 0 <= i < items.len() ==> spec_value(s, q[i]) == Some((items[i], c[i]))
    &&& forall|i: int|
        #![trigger c[i]]
        0 <= i < items.len() - 1 ==> {
            let a = skip_space(s, c[i]);
            &&& 0 <= a < s.len()
            &&& s[a] == ','
            &&& q[i + 1] == skip_space(s, a + 1)
        }
}

/// `items` are, in order, every value of a comma-separated run in `s` from
/// `start` to `end`.
pub open spec fn comma_separated(s: Seq<char>, start: int, items: Seq<Json>, end: int) -> bool {
    exists|q: Seq<int>, c: Seq<int>| values_at(s, start, items, end, q, c)
}

proof fn lemma_tail_positions(s: Seq<char>, i: int) -> (r: (Seq<int>, Seq<int>))
    ensures
        r.0.len() == spec_value_tail(s, i).0.len(),
        r.1.len() == spec_value_tail(s, i).0.len(),
        ({
            let (rest, d) = spec_value_tail(s, i);
            &&& rest.len() == 0 ==> d == i
            &&& rest.len() > 0 ==> {
                let a = skip_space(s, i);
                &&& 0 <= a < s.len()
                &&& s[a] == ','
                &&& values_at(s, skip_space(s, a + 1), rest, d, r.0, r.1)
            }
        }),
    decreases s.len() - i,
{
    let a = skip_space(s, i);
    if 0 <= i <= a < s.len() && s[a] == ',' {
        let b = skip_space(s, a + 1);
        if i < b <= s.len() {
            match spec_value(s, b) {
                None => (Seq::empty(), Seq::empty()),
                Some((v, c)) => {
                    if i < c <= s.len() {
                        let (q1, c1) = lemma_tail_positions(s, c);
                        let (rest, d) = spec_value_tail(s, c);
                        let q = seq![b] + q1;
                        let cc = seq![c] + c1;
                        let items = seq![v] + rest;
                        assert(spec_value_tail(s, i) == (items, d));
                        if rest.len() == 0 {
                            assert(d == c);
                        } else {
                            assert(q1[0] == skip_space(s, skip_space(s, c) + 1));
                            assert(d == c1[rest.len() - 1]);
                        }
                        assert(q[0] == b);
                        assert(d == cc[items.len() - 1]);
                        assert forall|k: int| #![trigger q[k]] 0 <= k < items.len() implies spec_value(s, q[k])
                            == Some((items[k], cc[k])) by {
                            if k > 0 {
                                assert(q[k] == q1[k - 1] && items[k] == rest[k - 1] && cc[k] == c1[k - 1]);
                            }
                        }
                        assert forall|k: int| #![trigger cc[k]] 0 <= k < items.len() - 1 implies ({
                            let a2 = skip_space(s, cc[k]);
                            &&& 0 <= a2 < s.len()
                            &&& s[a2] == ','
                            &&& q[k + 1] == skip_space(s, a2 + 1)
                        }) by {
                            if k > 0 {
                                assert(cc[k] == c1[k - 1] && q[k + 1] == q1[k]);
                            } else {
                                assert(q[1] == q1[0]);
                            }
                        }
                        assert(values_at(s, b, items, d, q, cc));
                        (q, cc)
                    } else {
                        assert(spec_value_tail(s, i) == (seq![v], c));
                        assert(values_at(s, b, seq![v], c, seq![b], seq![c]));
                        (seq![b], seq![c])
                    }
                },
            }
        } else {
            (Seq::empty(), Seq::empty())
        }
    } else {
        (Seq::empty(), Seq::empty())
    }
}

proof fn lemma_list_positions(s: Seq<char>, p: int) -> (r: (Seq<int>, Seq<int>))
    ensures
        values_at(s, p, spec_value_list(s, p).0, spec_value_list(s, p).1, r.0, r.1),
{
    match spec_value(s, p) {
        None => (Seq::empty(), Seq::empty()),
        Some((v, b)) => {
            if p < b <= s.len() {
                let (q1, c1) = lemma_tail_positions(s, b);
                let (rest, d) = spec_value_tail(s, b);
                let q = seq![p] + q1;
                let cc = seq![b] + c1;
                let items = seq![v] + rest;
                assert(spec_value_list(s, p) == (items, d));
                if rest.len() == 0 {
                    assert(d == b);
                } else {
                    assert(q1[0] == skip_space(s, skip_space(s, b) + 1));
                    assert(d == c1[rest.len() - 1]);
                }
                assert(d == cc[items.len() - 1]);
                assert forall|k: int| #![trigger q[k]] 0 <= k < items.len() implies spec_value(s, q[k]) == Some(
                    (items[k], cc[k]),
                ) by {
                    if k > 0 {
                        assert(q[k] == q1[k - 1] && items[k] == rest[k - 1] && cc[k] == c1[k - 1]);
                    }
                }
                assert forall|k: int| #![trigger cc[k]] 0 <= k < items.len() - 1 implies ({
                    let a2 = skip_space(s, cc[k]);
                    &&& 0 <= a2 < s.len()
                    &&& s[a2] == ','
                    &&& q[k + 1] == skip_space(s, a2 + 1)
                }) by {
                    if k > 0 {
                        assert(cc[k] == c1[k - 1] && q[k + 1] == q1[k]);
                    } else {
                        assert(q[1] == q1[0]);
                    }
                }
                assert(values_at(s, p, items, d, q, cc));
                (q, cc)
            } else {
                assert(spec_value_list(s, p) == (seq![v], b));
                assert(values_at(s, p, seq![v], b, seq![p], seq![b]));
                (seq![p], seq![b])
            }
        },
    }
}

/// A tuple struct `Name(v1, .., vn)` reads as `{"_type": "Name",
/// "_values": [v1, .., vn]}`: its values are, in order, every value of the
/// comma-separated run inside the brackets, which is closed (after an
/// optional trailing comma) by the `)` where the reading ends.
pub proof fn lemma_tuple_struct_values(s: Seq<char>, p: int)
    requires
        spec_tuple_struct(s, p) is Some,
    ensures
        ({
            let n = ident_end(s, p);
            let a = skip_space(s, n);
            let (v, e) = spec_tuple_struct(s, p)->Some_0;
            exists|items: Seq<Json>, end: int|
                #![trigger comma_separated(s, skip_space(s, a + 1), items, end)]
                comma_separated(s, skip_space(s, a + 1), items, end) && list_close(s, end, ')') == Some(e)
                    && v == Json::Object(
                    obj_from(
                        seq![(type_key(), Json::Str(s.subrange(p, n))), (values_key(), Json::Array(items))],
                    ),
                )
        }),
{
    let n = ident_end(s, p);
    let a = skip_space(s, n);
    let start = skip_space(s, a + 1);
    let (items, end) = spec_value_list(s, start);
    let (q, c) = lemma_list_positions(s, start);
    assert(values_at(s, start, items, end, q, c));
    assert(comma_separated(s, start, items, end));
}

/// A struct field `name: value` at `p`, after leading space.
pub open spec fn spec_field(s: Seq<char>, p: int) -> Option<(Seq<char>, Json, int)>
    decreases s.len() - p, 1int,
{
    let x = skip_space(s, p);
    let n = ident_end(s, x);
    let y = skip_space(s, n);
    if 0 <= p <= x < n <= y < s.len() && s[y] == ':' {
        let z = skip_space(s, y + 1);
        if p < z <= s.len() {
            match spec_value(s, z) {
                Some((v, r)) => Some((s.subrange(x, n), v, r)),
                None => None,
            }
        } else {
            None
        }
    } else {
        None
    }
}

/// Comma-separated struct fields starting at `p`.
pub open spec fn spec_field_list(s: Seq<char>, p: int) -> (Seq<(Seq<char>, Json)>, int)
    decreases s.len() - p, 2int,
{
    match spec_field(s, p) {
        None => (Seq::empty(), p),
        Some((k, v, b)) => if p < b <= s.len() {
            let (rest, c) = spec_field_tail(s, b);
            (seq![(k, v)] + rest, c)
        } else {
            (seq![(k, v)], b)
        },
    }
}

/// The fields that follow a field ending at `i`, each after a comma.
pub open spec fn spec_field_tail(s: Seq<char>, i: int) -> (Seq<(Seq<char>, Json)>, int)
    decreases s.len() - i, 2int,
{
    let a = skip_space(s, i);
    if 0 <= i <= a < s.len() && s[a] == ',' {
        let b = skip_space(s, a + 1);
        if i < b <= s.len() {
            match spec_field(s, b) {
                None => (Seq::empty(), i),
                Some((k, v, c)) => if i < c <= s.len() {
                    let (rest, d) = spec_field_tail(s, c);
                    (seq![(k, v)] + rest, d)
                } else {
                    (seq![(k, v)], c)
                },
            }
        } else {
            (Seq::empty(), i)
        }
    } else {
        (Seq::empty(), i)
    }
}

/// A map entry `key: value` at `p`, after leading space; the key is itself
/// any value, turned into text.
pub open spec fn spec_entry(s: Seq<char>, p: int) -> Option<(Seq<char>, Json, int)>
    decreases s.len() - p, 2int,
{
    let x = skip_space(s, p);
    if 0 <= p <= x <= s.len() {
        match spec_value(s, x) {
            None => None,
            Some((k, r)) => {
                let y = skip_space(s, r);
                let z = skip_space(s, y + 1);
                if p < r <= y < s.len() && s[y] == ':' && y < z <= s.len() {
                    match spec_value(s, z) {
                        Some((v, e)) => Some((key_text(k), v, e)),
                        None => None,
                    }
                } else {
                    None
                }
            },
        }
    } else {
        None
    }
}

/// Comma-separated map entries starting at `p`.
pub open spec fn spec_entry_list(s: Seq<char>, p: int) -> (Seq<(Seq<char>, Json)>, int)
    decreases s.len() - p, 3int,
{
    match spec_entry(s, p) {
        None => (Seq::empty(), p),
        Some((k, v, b)) => if p < b <= s.len() {
            let (rest, c) = spec_entry_tail(s, b);
            (seq![(k, v)] + rest, c)
        } else {
            (seq![(k, v)], b)
        },
    }
}

/// The entries that follow an entry ending at `i`, each after a comma.
pub open spec fn spec_entry_tail(s: Seq<char>, i: int) -> (Seq<(Seq<char>, Json)>, int)
    decreases s.len() - i, 3int,
{
    let a = skip_space(s, i);
    if 0 <= i <= a < s.len() && s[a] == ',' {
        let b = skip_space(s, a + 1);
        if i < b <= s.len() {
            match spec_entry(s, b) {
                None => (Seq::empty(), i),
                Some((k, v, c)) => if i < c <= s.len() {
                    let (rest, d) = spec_entry_tail(s, c);
                    (seq![(k, v)] + rest, d)
                } else {
                    (seq![(k, v)], c)
                },
            }
        } else {
            (Seq::empty(), i)
        }
    } else {
        (Seq::empty(), i)
    }
}

/// The JSON for a whole debug text: the value that the trimmed text holds
/// when nothing but whitespace follows it, otherwise the text itself as a
/// JSON string.
pub open spec fn spec_parse_debug(input: Seq<char>) -> Json {
    let t = trim(input);
    match spec_value(t, 0) {
        Some((v, e)) => if e == t.len() || all_whitespace(t.subrange(e, t.len() as int)) {
            v
        } else {
            Json::Str(input)
        },
        None => Json::Str(input),
    }
}


// ---------------------------------------------------------------------------
// Implementation
// ---------------------------------------------------------------------------

/// The model of a parse result.
pub open spec fn parsed(r: Option<(JsonValue, usize)>) -> Option<(Json, int)> {
    match r {
        Some((v, e)) => Some((v.model(), e as int)),
        None => None,
    }
}

/// The models of parsed entries.
pub open spec fn parsed_entry(r: Option<(String, JsonValue, usize)>) -> Option<(Seq<char>, Json, int)> {
    match r {
        Some((k, v, e)) => Some((k@, v.model(), e as int)),
        None => None,
    }
}

fn skip_spaces(s: &Vec<char>, p: usize) -> (q: usize)
    requires
        p <= s.len(),
    ensures
        q == skip_space(s@, p as int),
        p <= q <= s.len(),
{
    let mut q = p;
    while q < s.len() && (s[q] == ' ' || s[q] == '\t' || s[q] == '\r' || s[q] == '\n')
        invariant
            p <= q <= s.len(),
            skip_space(s@, q as int) == skip_space(s@, p as int),
        decreases s.len() - q,
    {
        q = q + 1;
    }
    q
}

fn ident_end_at(s: &Vec<char>, p: usize) -> (q: usize)
    requires
        p <= s.len(),
    ensures
        q == ident_end(s@, p as int),
        p <= q <= s.len(),
{
    let mut q = p;
    while q < s.len() && (is_alphanumeric(s[q]) || s[q] == '_')
        invariant
            p <= q <= s.len(),
            ident_end(s@, q as int) == ident_end(s@, p as int),
        decreases s.len() - q,
    {
        q = q + 1;
    }
    q
}

proof fn lemma_digits(s: Seq<char>, p: int)
    requires
        0 <= p <= s.len(),
    ensures
        p <= digits_end(s, p) <= s.len(),
        forall|k: int| p <= k < digits_end(s, p) ==> is_digit(#[trigger] s[k]),
    decreases s.len() - p,
{
    if p < s.len() && is_digit(s[p]) {
        lemma_digits(s, p + 1);
    }
}

fn digits_end_at(s: &Vec<char>, p: usize) -> (q: usize)
    requires
        p <= s.len(),
    ensures
        q == digits_end(s@, p as int),
        p <= q <= s.len(),
{
    let mut q = p;
    while q < s.len() && '0' <= s[q] && s[q] <= '9'
        invariant
            p <= q <= s.len(),
            digits_end(s@, q as int) == digits_end(s@, p as int),
        decreases s.len() - q,
    {
        q = q + 1;
    }
    q
}

fn unescape_chars(body: &Vec<char>) -> (r: Vec<char>)
    ensures
        r@ == unescape(body@),
{
    let mut out: Vec<char> = Vec::new();
    let mut i: usize = 0;
    proof {
        assert(body@.skip(0) =~= body@);
        assert(out@ + unescape(body@) =~= unescape(body@));
    }
    while i < body.len()
        invariant
            i <= body.len(),
            out@ + unescape(body@.skip(i as int)) == unescape(body@),
        decreases body.len() - i,
    {
        let ghost rest = body@.skip(i as int);
        let c = body[i];
        if c == '\\' && i + 1 < body.len() && (body[i + 1] == 'n' || body[i + 1] == 'r'
            || body[i + 1] == 't' || body[i + 1] == '\\' || body[i + 1] == '"' || body[i + 1]
            == '\'') {
            let d = body[i + 1];
            let m = if d == 'n' {
                '\n'
            } else if d == 'r' {
                '\r'
            } else if d == 't' {
                '\t'
            } else {
                d
            };
            proof {
                assert(rest[1] == d);
                assert(rest.skip(2) =~= body@.skip(i + 2));
                assert(out@.push(m) + unescape(body@.skip(i + 2)) =~= out@ + (seq![m] + unescape(
                    rest.skip(2),
                )));
            }
            out.push(m);
            i = i + 2;
        } else {
            proof {
                assert(rest[0] == c);
                assert(rest.skip(1) =~= body@.skip(i + 1));
                assert(out@.push(c) + unescape(body@.skip(i + 1)) =~= out@ + (seq![c] + unescape(
                    rest.skip(1),
                )));
            }
            out.push(c);
            i = i + 1;
        }
    }
    proof {
        assert(unescape(body@.skip(i as int)) =~= Seq::<char>::empty());
        assert(out@ + Seq::<char>::empty() =~= out@);
    }
    out
}

fn parse_string(s: &Vec<char>, p: usize) -> (r: Option<(JsonValue, usize)>)
    requires
        p <= s.len(),
    ensures
        parsed(r) == spec_string(s@, p as int),
        r matches Some((_, e)) ==> p < e <= s.len(),
{
    if p < s.len() && s[p] == '"' {
        let st = p + 1;
        let mut j = st;
        let mut scan: Option<usize> = None;
        let mut done = false;
        while !done
            invariant
                st <= j <= s.len(),
                !done ==> escaped_scan(s@, st as int, j as int) == escaped_scan(
                    s@,
                    st as int,
                    st as int,
                ),
                done ==> match scan {
                    Some(e) => escaped_scan(s@, st as int, st as int) == Some(e as int) && st <= e
                        <= s.len(),
                    None => escaped_scan(s@, st as int, st as int) is None,
                },
            decreases s.len() - j + (if done { 0int } else { 1int }),
        {
            if j >= s.len() {
                scan = Some(s.len());
                done = true;
            } else if s[j] != '\\' && s[j] != '"' {
                j = j + 1;
            } else if s[j] == '\\' {
                if j + 1 < s.len() && (s[j + 1] == '\\' || s[j + 1] == '"' || s[j + 1] == 'n'
                    || s[j + 1] == 'r' || s[j + 1] == 't' || s[j + 1] == '0' || s[j + 1] == '\'') {
                    j = j + 2;
                } else {
                    scan = None;
                    done = true;
                }
            } else if j == st {
                scan = None;
                done = true;
            } else {
                scan = Some(j);
                done = true;
            }
        }
        let e = match scan {
            Some(e) => e,
            None => st,
        };
        if e < s.len() && s[e] == '"' {
            let body = chars_slice(s, st, e);
            let text = unescape_chars(&body);
            Some((JsonValue::Str(string_of(&text)), e + 1))
        } else {
            None
        }
    } else {
        None
    }
}

/// The characters `s[from..to]`.
fn chars_slice(s: &Vec<char>, from: usize, to: usize) -> (r: Vec<char>)
    requires
        from <= to <= s.len(),
    ensures
        r@ == s@.subrange(from as int, to as int),
{
    let mut r: Vec<char> = Vec::new();
    let mut i = from;
    while i < to
        invariant
            from <= i <= to <= s.len(),
            r@ == s@.subrange(from as int, i as int),
        decreases to - i,
    {
        r.push(s[i]);
        i = i + 1;
        assert(r@ =~= s@.subrange(from as int, i as int));
    }
    r
}

fn parse_bool(s: &Vec<char>, p: usize) -> (r: Option<(JsonValue, usize)>)
    requires
        p <= s.len(),
    ensures
        parsed(r) == spec_bool(s@, p as int),
        r matches Some((_, e)) ==> p < e <= s.len(),
{
    let t = vec!['t', 'r', 'u', 'e'];
    let f = vec!['f', 'a', 'l', 's', 'e'];
    assert(t@ =~= seq!['t', 'r', 'u', 'e']);
    assert(f@ =~= seq!['f', 'a', 'l', 's', 'e']);
    if chars_match_at(s, p, &t) {
        Some((JsonValue::Bool(true), p + 4))
    } else if chars_match_at(s, p, &f) {
        Some((JsonValue::Bool(false), p + 5))
    } else {
        None
    }
}

proof fn lemma_decimal_grows(digits: Seq<char>, k: int)
    requires
        0 <= k < digits.len(),
        is_digit(digits[k]),
    ensures
        decimal_value(digits.take(k + 1)) == decimal_value(digits.take(k)) * 10 + ((digits[k] as int)
            - ('0' as int)),
{
    assert(digits.take(k + 1).drop_last() =~= digits.take(k));
}

fn parse_number(s: &Vec<char>, p: usize) -> (r: Option<(JsonValue, usize)>)
    requires
        p <= s.len(),
    ensures
        parsed(r) == spec_number(s@, p as int),
        r matches Some((_, e)) ==> p < e <= s.len(),
{
    let q = if p < s.len() && s[p] == '-' {
        p + 1
    } else {
        p
    };
    let d = digits_end_at(s, q);
    if d == q {
        return None;
    }
    let mut e = d;
    let mut frac = false;
    if d < s.len() && s[d] == '.' {
        let f = digits_end_at(s, d + 1);
        if f > d + 1 {
            e = f;
            frac = true;
        }
    }
    let ghost t = s@.subrange(p as int, e as int);
    let ghost neg = t.len() > 0 && t[0] == '-';
    let ghost body = if neg {
        t.drop_first()
    } else {
        t
    };
    proof {
        lemma_digits(s@, q as int);
        assert(neg == (q == p + 1));
        assert(body =~= s@.subrange(q as int, e as int));
        if frac {
            assert(body[d - q] == '.');
            assert(body.contains('.'));
        } else {
            assert(e == d);
            assert forall|k: int| 0 <= k < body.len() implies body[k] != '.' by {
                assert(body[k] == s@[q + k]);
                assert(is_digit(s@[q + k]));
            }
        }
    }
    if frac {
        return Some((JsonValue::Float(string_of_range(s, p, e)), e));
    }
    // Accumulate the digits, noting when the value exceeds 2^63.
    let limit: u128 = 0x8000_0000_0000_0000;
    let mut acc: u128 = 0;
    let mut over = false;
    let mut k = q;
    while k < d
        invariant
            q <= k <= d == e <= s.len(),
            body == s@.subrange(q as int, d as int),
            forall|m: int| q <= m < d ==> is_digit(#[trigger] s@[m]),
            limit == 0x8000_0000_0000_0000u128,
            !over ==> acc == decimal_value(body.take(k - q)) && acc <= limit,
            over ==> decimal_value(body.take(k - q)) > limit,
        decreases d - k,
    {
        let dv = (s[k] as u32) - ('0' as u32);
        proof {
            assert(body[k - q] == s@[k as int]);
            lemma_decimal_grows(body, k - q);
        }
        if !over {
            let next = acc * 10 + dv as u128;
            if next > limit {
                over = true;
            } else {
                acc = next;
            }
        }
        k = k + 1;
    }
    proof {
        assert(body.take(d - q) =~= body);
    }
    let neg_exec = q == p + 1;
    if over || (!neg_exec && acc == limit) {
        Some((JsonValue::Float(string_of_range(s, p, e)), e))
    } else {
        let v: i64 = if neg_exec {
            (0i128 - (acc as i128)) as i64
        } else {
            acc as i64
        };
        Some((JsonValue::Int(v), e))
    }
}

/// The end of the optional trailing comma and the closing character.
fn list_close_at(s: &Vec<char>, b: usize, close: char) -> (r: Option<usize>)
    requires
        b <= s.len(),
    ensures
        r == (match list_close(s@, b as int, close) {
            Some(e) => Some(e as usize),
            None => None::<usize>,
        }),
        r matches Some(e) ==> b < e <= s.len(),
{
    let c = skip_spaces(s, b);
    let d = if c < s.len() && s[c] == ',' {
        c + 1
    } else {
        c
    };
    let e = skip_spaces(s, d);
    if e < s.len() && s[e] == close {
        Some(e + 1)
    } else {
        None
    }
}

/// Builds an object by inserting the entries in order.
fn object_from(entries: Vec<(String, JsonValue)>) -> (r: JsonValue)
    ensures
        r.model() == Json::Object(obj_from(entries_model(entries@))),
{
    let ghost all = entries_model(entries@);
    let mut out: Vec<(String, JsonValue)> = Vec::new();
    let mut rest = entries;
    let ghost n = all.len();
    let mut i: usize = 0;
    assert(all.len() == rest.len());
    assert(all.skip(0) =~= all);
    assert(all.take(0) =~= Seq::<(Seq<char>, Json)>::empty());
    while rest.len() > 0
        invariant
            i + rest.len() == n,
            n == all.len(),
            n <= usize::MAX,
            entries_model(rest@) == all.skip(i as int),
            entries_model(out@) == obj_from(all.take(i as int)),
        decreases rest.len(),
    {
        let ghost before_rest = entries_model(rest@);
        let (k, v) = rest.remove(0);
        proof {
            assert(before_rest[0] == all[i as int]);
            assert(all.take(i + 1).drop_last() =~= all.take(i as int));
            assert(entries_model(rest@) =~= before_rest.drop_first());
            assert(all.skip(i + 1) =~= all.skip(i as int).drop_first());
        }
        object_insert(&mut out, k, v);
        i = i + 1;
    }
    assert(all.take(n as int) =~= all);
    proof {
        lemma_object_model(out);
    }
    JsonValue::Object(out)
}

/// The text used as an object key for a parsed map key.
fn key_text_of(k: &JsonValue) -> (r: String)
    ensures
        r@ == key_text(k.model()),
{
    match k {
        JsonValue::Str(t) => t.clone(),
        JsonValue::Float(t) => t.clone(),
        JsonValue::Int(n) => {
            let mut out: Vec<char> = Vec::new();
            write_int(*n, &mut out);
            assert(out@ =~= int_decimal(*n as int));
            string_of(&out)
        },
        JsonValue::Bool(b) => {
            if *b {
                string_of(&vec!['t', 'r', 'u', 'e'])
            } else {
                string_of(&vec!['f', 'a', 'l', 's', 'e'])
            }
        },
        _ => {
            let mut out: Vec<char> = Vec::new();
            write_json(k, &mut out);
            assert(out@ =~= json_text(k.model()));
            string_of(&out)
        },
    }
}

fn type_key_string() -> (r: String)
    ensures
        r@ == type_key(),
{
    let v = vec!['_', 't', 'y', 'p', 'e'];
    assert(v@ =~= type_key());
    string_of(&v)
}

fn values_key_string() -> (r: String)
    ensures
        r@ == values_key(),
{
    let v = vec!['_', 'v', 'a', 'l', 'u', 'e', 's'];
    assert(v@ =~= values_key());
    string_of(&v)
}

fn tuple_key_string() -> (r: String)
    ensures
        r@ == tuple_key(),
{
    let v = vec!['_', 't', 'u', 'p', 'l', 'e'];
    assert(v@ =~= tuple_key());
    string_of(&v)
}

/// Parses any value at `p`, after leading space.
pub fn parse_value(s: &Vec<char>, p: usize) -> (r: Option<(JsonValue, usize)>)
    requires
        p <= s.len(),
    ensures
        parsed(r) == spec_value(s@, p as int),
        r matches Some((_, e)) ==> p < e <= s.len(),
    decreases s.len() - p, 1int,
{
    let q = skip_spaces(s, p);
    let r = parse_string(s, q);
    if r.is_some() {
        return r;
    }
    let r = parse_bool(s, q);
    if r.is_some() {
        return r;
    }
    let r = parse_number(s, q);
    if r.is_some() {
        return r;
    }
    let r = parse_array(s, q);
    if r.is_some() {
        return r;
    }
    let r = parse_tuple(s, q);
    if r.is_some() {
        return r;
    }
    let r = parse_map(s, q);
    if r.is_some() {
        return r;
    }
    let r = parse_named_struct(s, q);
    if r.is_some() {
        return r;
    }
    let r = parse_tuple_struct(s, q);
    if r.is_some() {
        return r;
    }
    parse_unit(s, q)
}

fn parse_array(s: &Vec<char>, p: usize) -> (r: Option<(JsonValue, usize)>)
    requires
        p <= s.len(),
    ensures
        parsed(r) == spec_array(s@, p as int),
        r matches Some((_, e)) ==> p < e <= s.len(),
    decreases s.len() - p, 0int,
{
    if p < s.len() && s[p] == '[' {
        let a = skip_spaces(s, p + 1);
        let (items, b) = parse_value_list(s, a);
        match list_close_at(s, b, ']') {
            Some(e) => {
                proof {
                    lemma_array_model(items);
                }
                Some((JsonValue::Array(items), e))
            },
            None => None,
        }
    } else {
        None
    }
}

fn parse_tuple(s: &Vec<char>, p: usize) -> (r: Option<(JsonValue, usize)>)
    requires
        p <= s.len(),
    ensures
        parsed(r) == spec_tuple(s@, p as int),
        r matches Some((_, e)) ==> p < e <= s.len(),
    decreases s.len() - p, 0int,
{
    if p < s.len() && s[p] == '(' {
        let a = skip_spaces(s, p + 1);
        let (items, b) = parse_value_list(s, a);
        match list_close_at(s, b, ')') {
            Some(e) => {
                proof {
                    lemma_array_model(items);
                }
                let arr = JsonValue::Array(items);
                let ghost arr_model = arr.model();
                let entries = vec![(tuple_key_string(), arr)];
                assert(entries_model(entries@) =~= seq![(tuple_key(), arr_model)]);
                Some((object_from(entries), e))
            },
            None => None,
        }
    } else {
        None
    }
}

fn parse_map(s: &Vec<char>, p: usize) -> (r: Option<(JsonValue, usize)>)
    requires
        p <= s.len(),
    ensures
        parsed(r) == spec_map(s@, p as int),
        r matches Some((_, e)) ==> p < e <= s.len(),
    decreases s.len() - p, 0int,
{
    if p < s.len() && s[p] == '{' {
        let a = skip_spaces(s, p + 1);
        let (entries, b) = parse_entry_list(s, a);
        match list_close_at(s, b, '}') {
            Some(e) => Some((object_from(entries), e)),
            None => None,
        }
    } else {
        None
    }
}

fn parse_named_struct(s: &Vec<char>, p: usize) -> (r: Option<(JsonValue, usize)>)
    requires
        p <= s.len(),
    ensures
        parsed(r) == spec_named_struct(s@, p as int),
        r matches Some((_, e)) ==> p < e <= s.len(),
    decreases s.len() - p, 0int,
{
    let n = ident_end_at(s, p);
    let a = skip_spaces(s, n);
    if p < n && a < s.len() && s[a] == '{' {
        let b = skip_spaces(s, a + 1);
        let (fields, c) = parse_field_list(s, b);
        match list_close_at(s, c, '}') {
            Some(e) => {
                let name = JsonValue::Str(string_of_range(s, p, n));
                let ghost name_model = name.model();
                let ghost fields_model = entries_model(fields@);
                let mut entries = vec![(type_key_string(), name)];
                let ghost first = entries_model(entries@);
                assert(first =~= seq![(type_key(), name_model)]);
                let mut fields = fields;
                entries.append(&mut fields);
                assert(entries_model(entries@) =~= first + fields_model);
                Some((object_from(entries), e))
            },
            None => None,
        }
    } else {
        None
    }
}

fn parse_tuple_struct(s: &Vec<char>, p: usize) -> (r: Option<(JsonValue, usize)>)
    requires
        p <= s.len(),
    ensures
        parsed(r) == spec_tuple_struct(s@, p as int),
        r matches Some((_, e)) ==> p < e <= s.len(),
    decreases s.len() - p, 0int,
{
    let n = ident_end_at(s, p);
    let a = skip_spaces(s, n);
    if p < n && a < s.len() && s[a] == '(' {
        let b = skip_spaces(s, a + 1);
        let (items, c) = parse_value_list(s, b);
        match list_close_at(s, c, ')') {
            Some(e) => {
                proof {
                    lemma_array_model(items);
                }
                let name = JsonValue::Str(string_of_range(s, p, n));
                let arr = JsonValue::Array(items);
                let ghost name_model = name.model();
                let ghost arr_model = arr.model();
                let entries = vec![(type_key_string(), name), (values_key_string(), arr)];
                assert(entries_model(entries@) =~= seq![
                    (type_key(), name_model),
                    (values_key(), arr_model),
                ]);
                Some((object_from(entries), e))
            },
            None => None,
        }
    } else {
        None
    }
}

fn parse_unit(s: &Vec<char>, p: usize) -> (r: Option<(JsonValue, usize)>)
    requires
        p <= s.len(),
    ensures
        parsed(r) == spec_unit(s@, p as int),
        r matches Some((_, e)) ==> p < e <= s.len(),
{
    let n = ident_end_at(s, p);
    if p < n && !(n < s.len() && (s[n] == '{' || s[n] == '(')) {
        let name = JsonValue::Str(string_of_range(s, p, n));
        let ghost name_model = name.model();
        let entries = vec![(type_key_string(), name)];
        assert(entries_model(entries@) =~= seq![(type_key(), name_model)]);
        Some((object_from(entries), n))
    } else {
        None
    }
}

fn parse_value_list(s: &Vec<char>, p: usize) -> (r: (Vec<JsonValue>, usize))
    requires
        p <= s.len(),
    ensures
        (values_model(r.0@), r.1 as int) == spec_value_list(s@, p as int),
        p <= r.1 <= s.len(),
    decreases s.len() - p, 2int,
{
    let mut items: Vec<JsonValue> = Vec::new();
    match parse_value(s, p) {
        None => {
            assert(values_model(items@) =~= Seq::<Json>::empty());
            (items, p)
        },
        Some((v, b)) => {
            let ghost first = v.model();
            items.push(v);
            let mut i = b;
            assert(values_model(items@) =~= seq![first]);
            loop
                invariant
                    p < i <= s.len(),
                    spec_value_list(s@, p as int) == (
                        values_model(items@) + spec_value_tail(s@, i as int).0,
                        spec_value_tail(s@, i as int).1,
                    ),
                ensures
                    p < i <= s.len(),
                    spec_value_list(s@, p as int) == (values_model(items@), i as int),
                decreases s.len() - i,
            {
                let a = skip_spaces(s, i);
                if !(a < s.len() && s[a] == ',') {
                    break;
                }
                let c = skip_spaces(s, a + 1);
                match parse_value(s, c) {
                    None => {
                        break;
                    },
                    Some((v, d)) => {
                        let ghost vm = v.model();
                        let ghost before = values_model(items@);
                        items.push(v);
                        assert(values_model(items@) =~= before + seq![vm]);
                        assert(before + spec_value_tail(s@, i as int).0 =~= values_model(items@)
                            + spec_value_tail(s@, d as int).0);
                        i = d;
                    },
                }
            }
            (items, i)
        },
    }
}

fn parse_field(s: &Vec<char>, p: usize) -> (r: Option<(String, JsonValue, usize)>)
    requires
        p <= s.len(),
    ensures
        parsed_entry(r) == spec_field(s@, p as int),
        r matches Some((_, _, e)) ==> p < e <= s.len(),
    decreases s.len() - p, 1int,
{
    let x = skip_spaces(s, p);
    let n = ident_end_at(s, x);
    let y = skip_spaces(s, n);
    if x < n && y < s.len() && s[y] == ':' {
        let z = skip_spaces(s, y + 1);
        match parse_value(s, z) {
            Some((v, r)) => Some((string_of_range(s, x, n), v, r)),
            None => None,
        }
    } else {
        None
    }
}

fn parse_field_list(s: &Vec<char>, p: usize) -> (r: (Vec<(String, JsonValue)>, usize))
    requires
        p <= s.len(),
    ensures
        (entries_model(r.0@), r.1 as int) == spec_field_list(s@, p as int),
        p <= r.1 <= s.len(),
    decreases s.len() - p, 2int,
{
    let mut items: Vec<(String, JsonValue)> = Vec::new();
    match parse_field(s, p) {
        None => {
            assert(entries_model(items@) =~= Seq::<(Seq<char>, Json)>::empty());
            (items, p)
        },
        Some((k, v, b)) => {
            let ghost first = (k@, v.model());
            items.push((k, v));
            let mut i = b;
            assert(entries_model(items@) =~= seq![first]);
            loop
                invariant
                    p < i <= s.len(),
                    spec_field_list(s@, p as int) == (
                        entries_model(items@) + spec_field_tail(s@, i as int).0,
                        spec_field_tail(s@, i as int).1,
                    ),
                ensures
                    p < i <= s.len(),
                    spec_field_list(s@, p as int) == (entries_model(items@), i as int),
                decreases s.len() - i,
            {
                let a = skip_spaces(s, i);
                if !(a < s.len() && s[a] == ',') {
                    break;
                }
                let c = skip_spaces(s, a + 1);
                match parse_field(s, c) {
                    None => {
                        break;
                    },
                    Some((k, v, d)) => {
                        let ghost em = (k@, v.model());
                        let ghost before = entries_model(items@);
                        items.push((k, v));
                        assert(entries_model(items@) =~= before + seq![em]);
                        assert(before + spec_field_tail(s@, i as int).0 =~= entries_model(items@)
                            + spec_field_tail(s@, d as int).0);
                        i = d;
                    },
                }
            }
            (items, i)
        },
    }
}

fn parse_entry(s: &Vec<char>, p: usize) -> (r: Option<(String, JsonValue, usize)>)
    requires
        p <= s.len(),
    ensures
        parsed_entry(r) == spec_entry(s@, p as int),
        r matches Some((_, _, e)) ==> p < e <= s.len(),
    decreases s.len() - p, 2int,
{
    let x = skip_spaces(s, p);
    match parse_value(s, x) {
        None => None,
        Some((k, r)) => {
            let y = skip_spaces(s, r);
            if y < s.len() && s[y] == ':' {
                let z = skip_spaces(s, y + 1);
                match parse_value(s, z) {
                    Some((v, e)) => Some((key_text_of(&k), v, e)),
                    None => None,
                }
            } else {
                None
            }
        },
    }
}

fn parse_entry_list(s: &Vec<char>, p: usize) -> (r: (Vec<(String, JsonValue)>, usize))
    requires
        p <= s.len(),
    ensures
        (entries_model(r.0@), r.1 as int) == spec_entry_list(s@, p as int),
        p <= r.1 <= s.len(),
    decreases s.len() - p, 3int,
{
    let mut items: Vec<(String, JsonValue)> = Vec::new();
    match parse_entry(s, p) {
        None => {
            assert(entries_model(items@) =~= Seq::<(Seq<char>, Json)>::empty());
            (items, p)
        },
        Some((k, v, b)) => {
            let ghost first = (k@, v.model());
            items.push((k, v));
            let mut i = b;
            assert(entries_model(items@) =~= seq![first]);
            loop
                invariant
                    p < i <= s.len(),
                    spec_entry_list(s@, p as int) == (
                        entries_model(items@) + spec_entry_tail(s@, i as int).0,
                        spec_entry_tail(s@, i as int).1,
                    ),
                ensures
                    p < i <= s.len(),
                    spec_entry_list(s@, p as int) == (entries_model(items@), i as int),
                decreases s.len() - i,
            {
                let a = skip_spaces(s, i);
                if !(a < s.len() && s[a] == ',') {
                    break;
                }
                let c = skip_spaces(s, a + 1);
                match parse_entry(s, c) {
                    None => {
                        break;
                    },
                    Some((k, v, d)) => {
                        let ghost em = (k@, v.model());
                        let ghost before = entries_model(items@);
                        items.push((k, v));
                        assert(entries_model(items@) =~= before + seq![em]);
                        assert(before + spec_entry_tail(s@, i as int).0 =~= entries_model(items@)
                            + spec_entry_tail(s@, d as int).0);
                        i = d;
                    },
                }
            }
            (items, i)
        },
    }
}

/// Parses Rust `Debug` output into a JSON value; input that is not one
/// complete value becomes a JSON string holding the input.
pub fn parse_debug_to_json(input: &str) -> (r: JsonValue)
    ensures
        r.model() == spec_parse_debug(input@),
{
    let all = chars_of(input);
    let t = trim_chars(&all);
    match parse_value(&t, 0) {
        Some((v, e)) => {
            if e == t.len() {
                return v;
            }
            let mut k = e;
            while k < t.len()
                invariant
                    e <= k <= t.len(),
                    e < t.len(),
                    t@ == trim(input@),
                    spec_value(t@, 0) == Some((v.model(), e as int)),
                    forall|m: int| e <= m < k ==> spec_is_whitespace(#[trigger] t@[m]),
                decreases t.len() - k,
            {
                if !is_whitespace(t[k]) {
                    proof {
                        let rest = t@.subrange(e as int, t.len() as int);
                        assert(rest[k - e] == t@[k as int]);
                        assert(!all_whitespace(rest));
                        assert(e != t.len());
                    }
                    return JsonValue::Str(input.to_owned());
                }
                k = k + 1;
            }
            proof {
                let rest = t@.subrange(e as int, t.len() as int);
                assert forall|m: int| 0 <= m < rest.len() implies spec_is_whitespace(
                    #[trigger] rest[m],
                ) by {
                    assert(rest[m] == t@[e + m]);
                }
            }
            v
        },
        None => JsonValue::Str(input.to_owned()),
    }
}

} // verus!
