//! JSON values produced by the debug-output parser, their ordered-object
//! insertion and their compact text form.

use vstd::prelude::*;
use crate::text::{chars_lt, chars_eq, chars_of, seq_lt};

verus! {

broadcast use vstd::std_specs::vec::group_vec_axioms;

/// Mathematical model of a JSON value. The entries of an object are kept
/// ordered by key, as in a map ordered by its keys.
pub enum Json {
    Null,
    Bool(bool),
    Int(int),
    /// A decimal number that is not a 64-bit integer, kept as its literal text.
    Float(Seq<char>),
    Str(Seq<char>),
    Array(Seq<Json>),
    Object(Seq<(Seq<char>, Json)>),
}

/// A JSON value.
#[derive(Debug, PartialEq)]
pub enum JsonValue {
    Null,
    Bool(bool),
    Int(i64),
    /// A decimal number that is not a 64-bit integer, kept as its literal text.
    Float(String),
    Str(String),
    Array(Vec<JsonValue>),
    /// Entries ordered by key, each key at most once.
    Object(Vec<(String, JsonValue)>),
}

impl JsonValue {
    pub open spec fn model(&self) -> Json
        decreases self,
    {
        match self {
            JsonValue::Null => Json::Null,
            JsonValue::Bool(b) => Json::Bool(*b),
            JsonValue::Int(n) => Json::Int(*n as int),
            JsonValue::Float(s) => Json::Float(s@),
            JsonValue::Str(s) => Json::Str(s@),
            JsonValue::Array(items) => Json::Array(
                Seq::new(
                    items.len() as nat,
                    |i: int|
                        if 0 <= i < items.len() {
                            items[i].model()
                        } else {
                            Json::Null
                        },
                ),
            ),
            JsonValue::Object(entries) => Json::Object(
                Seq::new(
                    entries.len() as nat,
                    |i: int|
                        if 0 <= i < entries.len() {
                            (entries[i].0@, entries[i].1.model())
                        } else {
                            (Seq::empty(), Json::Null)
                        },
                ),
            ),
        }
    }
}

/// The models of a sequence of values.
pub open spec fn values_model(v: Seq<JsonValue>) -> Seq<Json> {
    Seq::new(v.len(), |i: int| v[i].model())
}

/// The models of a sequence of object entries.
pub open spec fn entries_model(v: Seq<(String, JsonValue)>) -> Seq<(Seq<char>, Json)> {
    Seq::new(v.len(), |i: int| (v[i].0@, v[i].1.model()))
}

pub proof fn lemma_array_model(v: Vec<JsonValue>)
    ensures
        JsonValue::Array(v).model() == Json::Array(values_model(v@)),
{
    match JsonValue::Array(v).model() {
        Json::Array(s) => {
            assert(s =~= values_model(v@));
        },
        _ => {},
    }
}

pub proof fn lemma_object_model(v: Vec<(String, JsonValue)>)
    ensures
        JsonValue::Object(v).model() == Json::Object(entries_model(v@)),
{
    match JsonValue::Object(v).model() {
        Json::Object(s) => {
            assert(s =~= entries_model(v@));
        },
        _ => {},
    }
}

/// Inserts `key` into an ordered object: an entry with an equal key has its
/// value replaced, otherwise the entry goes before the first greater key.
pub open spec fn obj_insert(m: Seq<(Seq<char>, Json)>, key: Seq<char>, value: Json) -> Seq<
    (Seq<char>, Json),
>
    decreases m.len(),
{
    if m.len() == 0 {
        seq![(key, value)]
    } else if m[0].0 == key {
        seq![(key, value)] + m.drop_first()
    } else if seq_lt(key, m[0].0) {
        seq![(key, value)] + m
    } else {
        seq![m[0]] + obj_insert(m.drop_first(), key, value)
    }
}

/// The object built by inserting `entries` in order into an empty object.
pub open spec fn obj_from(entries: Seq<(Seq<char>, Json)>) -> Seq<(Seq<char>, Json)>
    decreases entries.len(),
{
    if entries.len() == 0 {
        Seq::empty()
    } else {
        obj_insert(obj_from(entries.drop_last()), entries.last().0, entries.last().1)
    }
}

proof fn lemma_obj_insert_at(m: Seq<(Seq<char>, Json)>, key: Seq<char>, value: Json, i: int)
    requires
        0 <= i <= m.len(),
        forall|j: int| 0 <= j < i ==> m[j].0 != key && !seq_lt(key, m[j].0),
        i < m.len() ==> (m[i].0 == key || seq_lt(key, m[i].0)),
    ensures
        obj_insert(m, key, value) == (if i < m.len() && m[i].0 == key {
            m.take(i) + seq![(key, value)] + m.skip(i + 1)
        } else {
            m.take(i) + seq![(key, value)] + m.skip(i)
        }),
    decreases i,
{
    if i == 0 {
        assert(m.skip(0) =~= m);
        assert(m.skip(1) =~= m.drop_first());
        assert(m.take(0) =~= Seq::<(Seq<char>, Json)>::empty());
        if m.len() > 0 && m[0].0 == key {
            assert(seq![(key, value)] + m.drop_first() =~= m.take(0) + seq![(key, value)] + m.skip(1));
        } else {
            assert(seq![(key, value)] + m =~= m.take(0) + seq![(key, value)] + m.skip(0));
        }
    } else {
        let t = m.drop_first();
        assert forall|j: int| 0 <= j < i - 1 implies t[j].0 != key && !seq_lt(key, t[j].0) by {
            assert(t[j] == m[j + 1]);
        }
        lemma_obj_insert_at(t, key, value, i - 1);
        if i < m.len() && m[i].0 == key {
            assert(seq![m[0]] + (t.take(i - 1) + seq![(key, value)] + t.skip(i)) =~= m.take(i) + seq![
                (key, value)] + m.skip(i + 1));
        } else {
            assert(seq![m[0]] + (t.take(i - 1) + seq![(key, value)] + t.skip(i - 1)) =~= m.take(i)
                + seq![(key, value)] + m.skip(i));
        }
    }
}

/// Inserts an entry into an ordered object (replacing the value of an equal key).
pub fn object_insert(entries: &mut Vec<(String, JsonValue)>, key: String, value: JsonValue)
    ensures
        entries_model(final(entries)@) == obj_insert(entries_model(old(entries)@), key@, value.model()),
{
    let ghost m = entries_model(entries@);
    let kc = chars_of(key.as_str());
    let mut i: usize = 0;
    while i < entries.len()
        invariant
            i <= entries.len(),
            m == entries_model(entries@),
            kc@ == key@,
            forall|j: int| 0 <= j < i ==> m[j].0 != key@ && !seq_lt(key@, m[j].0),
        ensures
            i <= entries.len(),
            m == entries_model(entries@),
            forall|j: int| 0 <= j < i ==> m[j].0 != key@ && !seq_lt(key@, m[j].0),
            i < entries.len() ==> (m[i as int].0 == key@ || seq_lt(key@, m[i as int].0)),
        decreases entries.len() - i,
    {
        let ec = chars_of(entries[i].0.as_str());
        if chars_eq(&ec, &kc) || chars_lt(&kc, &ec) {
            break;
        }
        i = i + 1;
    }
    proof {
        lemma_obj_insert_at(m, key@, value.model(), i as int);
    }
    let ghost v_model = value.model();
    let ghost k_view = key@;
    if i < entries.len() {
        let ec = chars_of(entries[i].0.as_str());
        if chars_eq(&ec, &kc) {
            entries.set(i, (key, value));
            assert(entries_model(entries@) =~= m.take(i as int) + seq![(k_view, v_model)] + m.skip(
                i + 1,
            ));
            return;
        }
    }
    entries.insert(i, (key, value));
    assert(entries_model(entries@) =~= m.take(i as int) + seq![(k_view, v_model)] + m.skip(
        i as int,
    ));
}


/// The lowercase hexadecimal digit for `n < 16`.
pub open spec fn hex_digit(n: int) -> char {
    if n == 0 { '0' } else if n == 1 { '1' } else if n == 2 { '2' } else if n == 3 { '3' }
    else if n == 4 { '4' } else if n == 5 { '5' } else if n == 6 { '6' } else if n == 7 { '7' }
    else if n == 8 { '8' } else if n == 9 { '9' } else if n == 10 { 'a' } else if n == 11 { 'b' }
    else if n == 12 { 'c' } else if n == 13 { 'd' } else if n == 14 { 'e' } else { 'f' }
}

/// The digit character for `n < 16`.
pub fn digit_char(n: u32) -> (c: char)
    requires
        n < 16,
    ensures
        c == hex_digit(n as int),
{
    if n == 0 { '0' } else if n == 1 { '1' } else if n == 2 { '2' } else if n == 3 { '3' }
    else if n == 4 { '4' } else if n == 5 { '5' } else if n == 6 { '6' } else if n == 7 { '7' }
    else if n == 8 { '8' } else if n == 9 { '9' } else if n == 10 { 'a' } else if n == 11 { 'b' }
    else if n == 12 { 'c' } else if n == 13 { 'd' } else if n == 14 { 'e' } else { 'f' }
}

/// The JSON escape of one character inside a string literal.
pub open spec fn escape_char(c: char) -> Seq<char> {
    if c == '"' {
        seq!['\\', '"']
    } else if c == '\\' {
        seq!['\\', '\\']
    } else if c == '\u{8}' {
        seq!['\\', 'b']
    } else if c == '\u{c}' {
        seq!['\\', 'f']
    } else if c == '\n' {
        seq!['\\', 'n']
    } else if c == '\r' {
        seq!['\\', 'r']
    } else if c == '\t' {
        seq!['\\', 't']
    } else if (c as int) < 0x20 {
        seq!['\\', 'u', '0', '0', hex_digit((c as int) / 16), hex_digit((c as int) % 16)]
    } else {
        seq![c]
    }
}

/// The escaped body of a JSON string literal.
pub open spec fn escape_text(s: Seq<char>) -> Seq<char>
    decreases s.len(),
{
    if s.len() == 0 {
        Seq::empty()
    } else {
        escape_text(s.drop_last()) + escape_char(s.last())
    }
}

/// A JSON string literal.
pub open spec fn quoted(s: Seq<char>) -> Seq<char> {
    seq!['"'] + escape_text(s) + seq!['"']
}

/// The decimal digits of a natural number.
pub open spec fn nat_decimal(n: nat) -> Seq<char>
    decreases n,
{
    if n < 10 {
        seq![hex_digit(n as int)]
    } else {
        nat_decimal(n / 10) + seq![hex_digit((n % 10) as int)]
    }
}

/// The decimal text of an integer.
pub open spec fn int_decimal(n: int) -> Seq<char> {
    if n < 0 {
        seq!['-'] + nat_decimal((-n) as nat)
    } else {
        nat_decimal(n as nat)
    }
}

/// The compact JSON text of a value, with object entries in their order.
pub open spec fn json_text(j: Json) -> Seq<char>
    decreases j,
{
    match j {
        Json::Null => seq!['n', 'u', 'l', 'l'],
        Json::Bool(b) => if b {
            seq!['t', 'r', 'u', 'e']
        } else {
            seq!['f', 'a', 'l', 's', 'e']
        },
        Json::Int(n) => int_decimal(n),
        Json::Float(t) => t,
        Json::Str(s) => quoted(s),
        Json::Array(items) => seq!['['] + items_text(items) + seq![']'],
        Json::Object(entries) => seq!['{'] + entries_text(entries) + seq!['}'],
    }
}

/// The texts of `items` separated by commas.
pub open spec fn items_text(items: Seq<Json>) -> Seq<char>
    decreases items,
{
    if items.len() == 0 {
        Seq::empty()
    } else {
        items_text(items.drop_last()) + (if items.len() > 1 {
            seq![',']
        } else {
            Seq::empty()
        }) + json_text(items.last())
    }
}

/// The texts of `"key":value` entries separated by commas.
pub open spec fn entries_text(entries: Seq<(Seq<char>, Json)>) -> Seq<char>
    decreases entries,
{
    if entries.len() == 0 {
        Seq::empty()
    } else {
        entries_text(entries.drop_last()) + (if entries.len() > 1 {
            seq![',']
        } else {
            Seq::empty()
        }) + quoted(entries.last().0) + seq![':'] + json_text(entries.last().1)
    }
}


/// Appends all characters of `s`.
pub fn push_all(out: &mut Vec<char>, s: &Vec<char>)
    ensures
        final(out)@ == old(out)@ + s@,
{
    let ghost before = out@;
    let mut i: usize = 0;
    while i < s.len()
        invariant
            i <= s.len(),
            out@ == before + s@.take(i as int),
        decreases s.len() - i,
    {
        out.push(s[i]);
        i = i + 1;
        assert(out@ =~= before + s@.take(i as int));
    }
    assert(s@.take(s@.len() as int) =~= s@);
}

/// Appends the decimal digits of `n`.
pub fn write_nat(n: u64, out: &mut Vec<char>)
    ensures
        final(out)@ == old(out)@ + nat_decimal(n as nat),
    decreases n,
{
    if n >= 10 {
        write_nat(n / 10, out);
    }
    let d = digit_char((n % 10) as u32);
    out.push(d);
    proof {
        if n >= 10 {
            assert(final_nat_step(n as nat));
        }
    }
}

spec fn final_nat_step(n: nat) -> bool {
    nat_decimal(n) == nat_decimal(n / 10) + seq![hex_digit((n % 10) as int)]
}

/// Appends the decimal text of `n`.
pub fn write_int(n: i64, out: &mut Vec<char>)
    ensures
        final(out)@ == old(out)@ + int_decimal(n as int),
{
    if n < 0 {
        let m: u64 = (0i128 - (n as i128)) as u64;
        let ghost before = out@;
        out.push('-');
        write_nat(m, out);
        assert(out@ =~= before + (seq!['-'] + nat_decimal(m as nat)));
    } else {
        write_nat(n as u64, out);
    }
}

/// Appends the JSON escape of `c`.
pub fn write_escaped_char(c: char, out: &mut Vec<char>)
    ensures
        final(out)@ == old(out)@ + escape_char(c),
{
    let ghost before = out@;
    if c == '"' {
        out.push('\\');
        out.push('"');
    } else if c == '\\' {
        out.push('\\');
        out.push('\\');
    } else if c == '\u{8}' {
        out.push('\\');
        out.push('b');
    } else if c == '\u{c}' {
        out.push('\\');
        out.push('f');
    } else if c == '\n' {
        out.push('\\');
        out.push('n');
    } else if c == '\r' {
        out.push('\\');
        out.push('r');
    } else if c == '\t' {
        out.push('\\');
        out.push('t');
    } else if (c as u32) < 0x20 {
        out.push('\\');
        out.push('u');
        out.push('0');
        out.push('0');
        let hi = digit_char((c as u32) / 16);
        out.push(hi);
        let lo = digit_char((c as u32) % 16);
        out.push(lo);
    } else {
        out.push(c);
    }
    assert(out@ =~= before + escape_char(c));
}

/// Appends the JSON string literal of `s`.
pub fn write_quoted(s: &Vec<char>, out: &mut Vec<char>)
    ensures
        final(out)@ == old(out)@ + quoted(s@),
{
    let ghost before = out@;
    out.push('"');
    let mut i: usize = 0;
    while i < s.len()
        invariant
            i <= s.len(),
            out@ == before + seq!['"'] + escape_text(s@.take(i as int)),
        decreases s.len() - i,
    {
        write_escaped_char(s[i], out);
        assert(s@.take(i + 1).drop_last() =~= s@.take(i as int));
        i = i + 1;
        assert(out@ =~= before + seq!['"'] + escape_text(s@.take(i as int)));
    }
    out.push('"');
    assert(s@.take(s@.len() as int) =~= s@);
    assert(out@ =~= before + quoted(s@));
}

/// Appends the compact JSON text of `v`.
pub fn write_json(v: &JsonValue, out: &mut Vec<char>)
    ensures
        final(out)@ == old(out)@ + json_text(v.model()),
    decreases v,
{
    let ghost before = out@;
    match v {
        JsonValue::Null => {
            out.push('n');
            out.push('u');
            out.push('l');
            out.push('l');
        },
        JsonValue::Bool(b) => {
            if *b {
                out.push('t');
                out.push('r');
                out.push('u');
                out.push('e');
            } else {
                out.push('f');
                out.push('a');
                out.push('l');
                out.push('s');
                out.push('e');
            }
        },
        JsonValue::Int(n) => {
            write_int(*n, out);
        },
        JsonValue::Float(t) => {
            let tc = chars_of(t.as_str());
            push_all(out, &tc);
        },
        JsonValue::Str(t) => {
            let tc = chars_of(t.as_str());
            write_quoted(&tc, out);
        },
        JsonValue::Array(items) => {
            let ghost m = values_model(items@);
            out.push('[');
            let mut i: usize = 0;
            while i < items.len()
                invariant
                    i <= items.len(),
                    m == values_model(items@),
                    *v == JsonValue::Array(*items),
                    out@ == before + seq!['['] + items_text(m.take(i as int)),
                decreases items.len() - i,
            {
                let ghost mid = out@;
                if i > 0 {
                    out.push(',');
                }
                proof {
                    vstd::std_specs::vec::axiom_vec_index_decreases(*items, i as int);
                    assert(decreases_to!(*v => v->Array_0));
                    assert(decreases_to!(*v => items[i as int]));
                }
                write_json(&items[i], out);
                assert(m.take(i + 1).drop_last() =~= m.take(i as int));
                assert(m.take(i + 1).last() == items[i as int].model());
                i = i + 1;
                assert(out@ =~= before + seq!['['] + items_text(m.take(i as int)));
            }
            out.push(']');
            assert(m.take(items.len() as int) =~= m);
            proof {
                lemma_array_model(*items);
            }
        },
        JsonValue::Object(entries) => {
            let ghost m = entries_model(entries@);
            out.push('{');
            let mut i: usize = 0;
            while i < entries.len()
                invariant
                    i <= entries.len(),
                    m == entries_model(entries@),
                    *v == JsonValue::Object(*entries),
                    out@ == before + seq!['{'] + entries_text(m.take(i as int)),
                decreases entries.len() - i,
            {
                if i > 0 {
                    out.push(',');
                }
                let kc = chars_of(entries[i].0.as_str());
                write_quoted(&kc, out);
                out.push(':');
                proof {
                    vstd::std_specs::vec::axiom_vec_index_decreases(*entries, i as int);
                    assert(decreases_to!(*v => v->Object_0));
                    assert(decreases_to!(*v => entries[i as int]));
                    assert(decreases_to!(*v => entries[i as int].1));
                }
                write_json(&entries[i].1, out);
                assert(m.take(i + 1).drop_last() =~= m.take(i as int));
                assert(m.take(i + 1).last() == (entries[i as int].0@, entries[i as int].1.model()));
                i = i + 1;
                assert(out@ =~= before + seq!['{'] + entries_text(m.take(i as int)));
            }
            out.push('}');
            assert(m.take(entries.len() as int) =~= m);
            proof {
                lemma_object_model(*entries);
            }
        },
    }
    assert(out@ =~= before + json_text(v.model()));
}

} // verus!
