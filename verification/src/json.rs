//! A JSON document model: the replies of the lyric services, read field by
//! field. Numbers are kept as the text that the JSON printer gives them.

use vstd::prelude::*;
use crate::model::{compare_chars, Order};
use crate::text::{all_digits, chars_of, digits_value, is_digit};

verus! {

/// A JSON value.
pub enum JsonValue {
    Null,
    Bool(bool),
    Number(String),
    Str(String),
    Array(Vec<JsonValue>),
    Object(Vec<(String, JsonValue)>),
}

/// The value stored under `key` among `fields` (the first such field).
pub open spec fn obj_lookup(fields: Seq<(String, JsonValue)>, key: Seq<char>) -> Option<JsonValue>
    decreases fields.len(),
{
    if fields.len() == 0 {
        None
    } else if fields[0].0@ == key {
        Some(fields[0].1)
    } else {
        obj_lookup(fields.drop_first(), key)
    }
}

/// `value.get(key)`: the field of an object, if present.
pub open spec fn json_get(v: JsonValue, key: Seq<char>) -> Option<JsonValue> {
    match v {
        JsonValue::Object(fields) => obj_lookup(fields@, key),
        _ => None,
    }
}

/// `value[i]`: the element of an array, if present.
pub open spec fn json_at(v: JsonValue, i: int) -> Option<JsonValue> {
    match v {
        JsonValue::Array(items) => if 0 <= i < items@.len() {
            Some(items@[i])
        } else {
            None
        },
        _ => None,
    }
}

/// `value.as_str()`.
pub open spec fn json_str(v: JsonValue) -> Option<Seq<char>> {
    match v {
        JsonValue::Str(s) => Some(s@),
        _ => None,
    }
}

/// `value.as_i64()` of a number printed as `text`: an integer literal whose
/// value fits in `i64`.
pub open spec fn int_literal_spec(text: Seq<char>) -> Option<i64> {
    let neg = text.len() > 0 && text[0] == '-';
    let body = if neg {
        text.drop_first()
    } else {
        text
    };
    if body.len() > 0 && all_digits(body) {
        let v = if neg {
            -digits_value(body)
        } else {
            digits_value(body)
        };
        if i64::MIN <= v <= i64::MAX {
            Some(v as i64)
        } else {
            None
        }
    } else {
        None
    }
}

/// `value.as_i64()`.
pub open spec fn json_i64(v: JsonValue) -> Option<i64> {
    match v {
        JsonValue::Number(t) => int_literal_spec(t@),
        _ => None,
    }
}

/// `s` and `t` hold the same characters.
pub fn str_eq(s: &str, t: &str) -> (r: bool)
    ensures
        r == (s@ == t@),
{
    let a = chars_of(s);
    let b = chars_of(t);
    compare_chars(a.as_slice(), b.as_slice()) == Order::Equal
}

/// Reads an integer literal (see `int_literal_spec`).
pub fn int_literal(text: &str) -> (r: Option<i64>)
    ensures
        r == int_literal_spec(text@),
{
    let s = chars_of(text);
    let n = s.len();
    let neg = n > 0 && s[0] == '-';
    let start: usize = if neg {
        1
    } else {
        0
    };
    let ghost body = if neg {
        s@.drop_first()
    } else {
        s@
    };
    assert(body =~= s@.skip(start as int));
    if start >= n {
        return None;
    }
    let limit: i128 = 0x8000_0000_0000_0000;
    let mut acc: i128 = 0;
    let mut i: usize = start;
    assert(s@.subrange(start as int, start as int) =~= Seq::<char>::empty());
    while i < n
        invariant
            start <= i <= n,
            n == s@.len(),
            s@ == text@,
            body == s@.skip(start as int),
            body == (if s@.len() > 0 && s@[0] == '-' {
                s@.drop_first()
            } else {
                s@
            }),
            neg == (s@.len() > 0 && s@[0] == '-'),
            all_digits(s@.subrange(start as int, i as int)),
            acc == digits_value(s@.subrange(start as int, i as int)),
            0 <= acc <= limit,
            limit == 0x8000_0000_0000_0000i128,
        decreases n - i,
    {
        let c = s[i];
        if !(c >= '0' && c <= '9') {
            proof {
                assert(body[i - start] == c);
                assert(!is_digit(body[i - start]));
            }
            return None;
        }
        let d: i128 = (c as u32 - '0' as u32) as i128;
        let ghost prev = s@.subrange(start as int, i as int);
        assert(s@.subrange(start as int, i + 1).drop_last() =~= prev);
        acc = acc * 10 + d;
        i = i + 1;
        if acc > limit {
            proof {
                lemma_digits_value_grows(body, i - start);
                assert(s@.subrange(start as int, i as int) =~= body.take(i - start));
            }
            return None;
        }
    }
    assert(s@.subrange(start as int, n as int) =~= body);
    if neg {
        Some((-acc) as i64)
    } else if acc > 0x7fff_ffff_ffff_ffff {
        None
    } else {
        Some(acc as i64)
    }
}

/// The value of a digit string is at least that of any of its prefixes.
pub proof fn lemma_digits_value_grows(s: Seq<char>, k: int)
    requires
        0 <= k <= s.len(),
        all_digits(s.take(k)),
    ensures
        all_digits(s) ==> digits_value(s) >= digits_value(s.take(k)),
    decreases s.len() - k,
{
    if all_digits(s) {
        if k < s.len() {
            assert(all_digits(s.take(k + 1)));
            lemma_digits_value_grows(s, k + 1);
            assert(s.take(k + 1).drop_last() =~= s.take(k));
            crate::text::lemma_digits_value_nonneg(s.take(k));
        } else {
            assert(s.take(k) =~= s);
        }
    }
}

impl JsonValue {
    /// `value.get(key)`.
    pub fn get(&self, key: &str) -> (r: Option<&JsonValue>)
        ensures
            match json_get(*self, key@) {
                Some(x) => r matches Some(y) && *y == x,
                None => r is None,
            },
    {
        match self {
            JsonValue::Object(fields) => {
                let mut i: usize = 0;
                assert(fields@.skip(0) =~= fields@);
                while i < fields.len()
                    invariant
                        i <= fields@.len(),
                        json_get(*self, key@) == obj_lookup(fields@, key@),
                        obj_lookup(fields@, key@) == obj_lookup(fields@.skip(i as int), key@),
                    decreases fields@.len() - i,
                {
                    proof {
                        assert(fields@.skip(i as int).drop_first() =~= fields@.skip(i + 1));
                        assert(fields@.skip(i as int)[0] == fields@[i as int]);
                    }
                    if str_eq(fields[i].0.as_str(), key) {
                        assert(obj_lookup(fields@.skip(i as int), key@) == Some(fields@[i as int].1));
                        let entry = &fields[i];
                        assert(*entry == fields@[i as int]);
                        assert(json_get(*self, key@) == obj_lookup(fields@, key@));
                        return Some(&entry.1);
                    }
                    i = i + 1;
                }
                None
            },
            _ => None,
        }
    }

    /// `value[i]` for an array.
    pub fn at(&self, i: usize) -> (r: Option<&JsonValue>)
        ensures
            match json_at(*self, i as int) {
                Some(x) => r matches Some(y) && *y == x,
                None => r is None,
            },
    {
        match self {
            JsonValue::Array(items) => if i < items.len() {
                Some(&items[i])
            } else {
                None
            },
            _ => None,
        }
    }

    /// `value.as_str()`.
    pub fn as_str(&self) -> (r: Option<&String>)
        ensures
            match json_str(*self) {
                Some(s) => r matches Some(t) && t@ == s,
                None => r is None,
            },
    {
        match self {
            JsonValue::Str(s) => Some(s),
            _ => None,
        }
    }

    /// `value.as_i64()`.
    pub fn as_i64(&self) -> (r: Option<i64>)
        ensures
            r == json_i64(*self),
    {
        match self {
            JsonValue::Number(t) => int_literal(t.as_str()),
            _ => None,
        }
    }

    /// `value.is_null()`.
    pub fn is_null(&self) -> (r: bool)
        ensures
            r == (*self is Null),
    {
        match self {
            JsonValue::Null => true,
            _ => false,
        }
    }
}


/// The field `key` is absent or a string.
pub open spec fn str_or_absent(v: JsonValue, key: Seq<char>) -> bool {
    match json_get(v, key) {
        Some(x) => json_str(x) is Some,
        None => true,
    }
}

/// The string under `key`, or the empty string when the field is absent.
pub open spec fn opt_str(v: JsonValue, key: Seq<char>) -> Seq<char> {
    match json_get(v, key) {
        Some(x) => match json_str(x) {
            Some(s) => s,
            None => Seq::empty(),
        },
        None => Seq::empty(),
    }
}

/// The string under `key` (`v[key].as_str()`).
pub open spec fn str_field(v: JsonValue, key: Seq<char>) -> Option<Seq<char>> {
    match json_get(v, key) {
        Some(x) => json_str(x),
        None => None,
    }
}

/// The string under `key` of the first element of the array under `list`
/// (`v[list][0][key].as_str()`).
pub open spec fn first_str_field(v: JsonValue, list: Seq<char>, key: Seq<char>) -> Option<Seq<char>> {
    match json_get(v, list) {
        Some(a) => match json_at(a, 0) {
            Some(x) => str_field(x, key),
            None => None,
        },
        None => None,
    }
}

/// The string under `key` of the object under `obj` (`v[obj][key].as_str()`).
pub open spec fn nested_str_field(v: JsonValue, obj: Seq<char>, key: Seq<char>) -> Option<Seq<char>> {
    match json_get(v, obj) {
        Some(x) => str_field(x, key),
        None => None,
    }
}

/// The integer under `key` (`v[key].as_i64()`).
pub open spec fn i64_field(v: JsonValue, key: Seq<char>) -> Option<i64> {
    match json_get(v, key) {
        Some(x) => json_i64(x),
        None => None,
    }
}

impl JsonValue {
    /// The string under `key`, or the empty string when the field is absent.
    pub fn opt_str_field(&self, key: &str) -> (r: String)
        requires
            str_or_absent(*self, key@),
        ensures
            r@ == opt_str(*self, key@),
    {
        match self.get(key) {
            Some(x) => match x.as_str() {
                Some(s) => s.clone(),
                None => String::new(),
            },
            None => String::new(),
        }
    }

    /// `self[key].as_str()`.
    pub fn str_field(&self, key: &str) -> (r: Option<String>)
        ensures
            match str_field(*self, key@) {
                Some(s) => r matches Some(t) && t@ == s,
                None => r is None,
            },
    {
        match self.get(key) {
            Some(x) => match x.as_str() {
                Some(s) => Some(s.clone()),
                None => None,
            },
            None => None,
        }
    }

    /// `self[list][0][key].as_str()`.
    pub fn first_str_field(&self, list: &str, key: &str) -> (r: Option<String>)
        ensures
            match first_str_field(*self, list@, key@) {
                Some(s) => r matches Some(t) && t@ == s,
                None => r is None,
            },
    {
        match self.get(list) {
            Some(a) => match a.at(0) {
                Some(x) => x.str_field(key),
                None => None,
            },
            None => None,
        }
    }

    /// `self[obj][key].as_str()`.
    pub fn nested_str_field(&self, obj: &str, key: &str) -> (r: Option<String>)
        ensures
            match nested_str_field(*self, obj@, key@) {
                Some(s) => r matches Some(t) && t@ == s,
                None => r is None,
            },
    {
        match self.get(obj) {
            Some(x) => x.str_field(key),
            None => None,
        }
    }

    /// `self[key].as_i64()`.
    pub fn i64_field(&self, key: &str) -> (r: Option<i64>)
        ensures
            r == i64_field(*self, key@),
    {
        match self.get(key) {
            Some(x) => x.as_i64(),
            None => None,
        }
    }
}


/// The hexadecimal digit of `d` (`0`-`9`, `a`-`f`).
pub open spec fn hex_digit(d: int) -> char {
    if d < 10 {
        (('0' as int) + d) as char
    } else {
        (('a' as int) + d - 10) as char
    }
}

/// How a character stands inside a JSON string: `"` and `\` after a
/// backslash, the short escapes `\b \f \n \r \t`, other control characters
/// as `\u00` and two lowercase hex digits, every other character as itself.
pub open spec fn json_escape(c: char) -> Seq<char> {
    let u = c as u32;
    if c == '"' {
        seq!['\\', '"']
    } else if c == '\\' {
        seq!['\\', '\\']
    } else if u == 8 {
        seq!['\\', 'b']
    } else if u == 12 {
        seq!['\\', 'f']
    } else if c == '\n' {
        seq!['\\', 'n']
    } else if c == '\r' {
        seq!['\\', 'r']
    } else if c == '\t' {
        seq!['\\', 't']
    } else if u < 0x20 {
        seq!['\\', 'u', '0', '0', hex_digit((u / 16) as int), hex_digit((u % 16) as int)]
    } else {
        seq![c]
    }
}

/// The characters of `s`, each escaped.
pub open spec fn json_escaped(s: Seq<char>) -> Seq<char>
    decreases s.len(),
{
    if s.len() == 0 {
        Seq::empty()
    } else {
        json_escaped(s.drop_last()) + json_escape(s.last())
    }
}

/// The JSON text of a string value: quoted and escaped.
pub open spec fn json_quoted(s: Seq<char>) -> Seq<char> {
    seq!['"'] + json_escaped(s) + seq!['"']
}

/// `serde_json::to_string(s)` for a string: claimed to quote and escape
/// it as `json_quoted` says, which is what the crate's string formatter
/// writes; it cannot fail on a string.
#[verifier::external_body]
pub(crate) fn quote_json(s: &str) -> (r: String)
    ensures
        r@ == json_quoted(s@),
{
    serde_json::to_string(s).unwrap_or_default()
}

/// The compact JSON text of a value, as it prints: `null`, `true`,
/// `false`, a number's text, a quoted string, and arrays and objects with
/// their elements separated by `,` and no spaces.
pub open spec fn json_text(v: JsonValue) -> Seq<char>
    decreases v, 1int,
{
    match v {
        JsonValue::Null => seq!['n', 'u', 'l', 'l'],
        JsonValue::Bool(b) => if b {
            seq!['t', 'r', 'u', 'e']
        } else {
            seq!['f', 'a', 'l', 's', 'e']
        },
        JsonValue::Number(t) => t@,
        JsonValue::Str(t) => json_quoted(t@),
        JsonValue::Array(items) => seq!['['] + json_items(items@) + seq![']'],
        JsonValue::Object(fields) => seq!['{'] + json_fields(fields@) + seq!['}'],
    }
}

/// The texts of array elements, separated by `,`.
pub open spec fn json_items(items: Seq<JsonValue>) -> Seq<char>
    decreases items, 0int,
{
    if items.len() == 0 {
        Seq::empty()
    } else if items.len() == 1 {
        json_text(items[0])
    } else {
        json_items(items.subrange(0, items.len() - 1)) + seq![','] + json_text(items[items.len() - 1])
    }
}

/// The texts of object fields, `"key":value`, separated by `,`.
pub open spec fn json_fields(fields: Seq<(String, JsonValue)>) -> Seq<char>
    decreases fields, 0int,
{
    if fields.len() == 0 {
        Seq::empty()
    } else {
        let last = fields[fields.len() - 1];
        let entry = json_quoted(last.0@) + seq![':'] + json_text(last.1);
        if fields.len() == 1 {
            entry
        } else {
            json_fields(fields.subrange(0, fields.len() - 1)) + seq![','] + entry
        }
    }
}


/// Appends the JSON text of `v` (see `json_text`).
fn write_json(v: &JsonValue, out: &mut Vec<char>)
    ensures
        final(out)@ == old(out)@ + json_text(*v),
    decreases v,
{
    match v {
        JsonValue::Null => {
            proof {
                reveal_strlit("null");
            }
            crate::text::push_str(out, "null");
        },
        JsonValue::Bool(b) => {
            if *b {
                proof {
                    reveal_strlit("true");
                }
                crate::text::push_str(out, "true");
            } else {
                proof {
                    reveal_strlit("false");
                }
                crate::text::push_str(out, "false");
            }
        },
        JsonValue::Number(t) => {
            crate::text::push_str(out, t.as_str());
        },
        JsonValue::Str(t) => {
            let q = quote_json(t.as_str());
            crate::text::push_str(out, q.as_str());
        },
        JsonValue::Array(items) => {
            let ghost start = out@;
            out.push('[');
            let mut i: usize = 0;
            assert(items@.subrange(0, 0) =~= Seq::<JsonValue>::empty());
            while i < items.len()
                invariant
                    i <= items@.len(),
                    *v == JsonValue::Array(*items),
                    out@ == start + seq!['['] + json_items(items@.subrange(0, i as int)),
                decreases items@.len() - i,
            {
                let ghost before = out@;
                if i > 0 {
                    out.push(',');
                }
                proof {
                    assert(decreases_to!(*v => (*v)->Array_0));
                    assert((*v)->Array_0 == *items);
                    assert(decreases_to!(*items => items@));
                    assert(decreases_to!(items@ => items@[i as int]));
                    assert(decreases_to!(*v => items@[i as int]));
                }
                write_json(&items[i], out);
                proof {
                    let s = items@.subrange(0, i + 1);
                    assert(s.subrange(0, i as int) =~= items@.subrange(0, i as int));
                    assert(s[i as int] == items@[i as int]);
                    if i == 0 {
                        assert(out@ =~= start + seq!['['] + json_items(s));
                    } else {
                        assert(out@ =~= start + seq!['['] + json_items(s));
                    }
                }
                i = i + 1;
            }
            assert(items@.subrange(0, i as int) =~= items@);
            out.push(']');
            assert(out@ =~= start + json_text(*v));
        },
        JsonValue::Object(fields) => {
            let ghost start = out@;
            out.push('{');
            let mut i: usize = 0;
            assert(fields@.subrange(0, 0) =~= Seq::<(String, JsonValue)>::empty());
            while i < fields.len()
                invariant
                    i <= fields@.len(),
                    *v == JsonValue::Object(*fields),
                    out@ == start + seq!['{'] + json_fields(fields@.subrange(0, i as int)),
                decreases fields@.len() - i,
            {
                if i > 0 {
                    out.push(',');
                }
                let q = quote_json(fields[i].0.as_str());
                crate::text::push_str(out, q.as_str());
                out.push(':');
                proof {
                    assert(decreases_to!(*v => (*v)->Object_0));
                    assert((*v)->Object_0 == *fields);
                    assert(decreases_to!(*fields => fields@));
                    assert(decreases_to!(fields@ => fields@[i as int]));
                    assert(decreases_to!(fields@[i as int] => fields@[i as int].1));
                    assert(decreases_to!(*v => fields@[i as int].1));
                }
                write_json(&fields[i].1, out);
                proof {
                    let s = fields@.subrange(0, i + 1);
                    assert(s.subrange(0, i as int) =~= fields@.subrange(0, i as int));
                    assert(s[i as int] == fields@[i as int]);
                    assert(out@ =~= start + seq!['{'] + json_fields(s));
                }
                i = i + 1;
            }
            assert(fields@.subrange(0, i as int) =~= fields@);
            out.push('}');
            assert(out@ =~= start + json_text(*v));
        },
    }
}

/// The compact JSON text of `v` (see `json_text`).
pub fn json_text_of(v: &JsonValue) -> (r: String)
    ensures
        r@ == json_text(*v),
{
    let mut out: Vec<char> = Vec::new();
    write_json(v, &mut out);
    assert(out@ =~= json_text(*v));
    crate::text::string_of(out.as_slice())
}


impl JsonValue {
    /// The field `key` is absent or a string (see `str_or_absent`).
    pub fn is_str_or_absent(&self, key: &str) -> (r: bool)
        ensures
            r == str_or_absent(*self, key@),
    {
        match self.get(key) {
            Some(x) => x.as_str().is_some(),
            None => true,
        }
    }
}

} // verus!
