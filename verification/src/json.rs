//! A JSON value model: what hook input, hook configuration files and Bark
//! payloads are made of. Objects are lists of entries kept in key order by
//! `object_insert`, as `serde_json`'s default map keeps them; `to_text`
//! produces the compact text that `serde_json::to_string` writes.

use vstd::prelude::*;
use crate::text::{chars_of, push_char, same_text};

verus! {

/// A JSON number: its text and, where it is an integer that fits, its value.
#[derive(Debug)]
pub struct JsonNumber {
    pub text: String,
    pub int: Option<i64>,
    pub uint: Option<u64>,
}

#[derive(Debug)]
pub enum Json {
    Null,
    Bool(bool),
    Number(JsonNumber),
    Str(String),
    Array(Vec<Json>),
    Object(Vec<(String, Json)>),
}

/// The mathematical value of a `Json`.
pub enum JsonV {
    Null,
    Bool(bool),
    Number(Seq<char>, Option<i64>, Option<u64>),
    Str(Seq<char>),
    Array(Seq<JsonV>),
    Object(Seq<(Seq<char>, JsonV)>),
}

pub open spec fn jv(j: Json) -> JsonV
    decreases j,
{
    match j {
        Json::Null => JsonV::Null,
        Json::Bool(b) => JsonV::Bool(b),
        Json::Number(n) => JsonV::Number(n.text@, n.int, n.uint),
        Json::Str(s) => JsonV::Str(s@),
        Json::Array(v) => JsonV::Array(
            Seq::new(v@.len(), |i: int| if 0 <= i < v@.len() { jv(v@[i]) } else { JsonV::Null }),
        ),
        Json::Object(v) => JsonV::Object(
            Seq::new(
                v@.len(),
                |i: int|
                    if 0 <= i < v@.len() {
                        (v@[i].0@, jv(v@[i].1))
                    } else {
                        (Seq::<char>::empty(), JsonV::Null)
                    },
            ),
        ),
    }
}

pub open spec fn entries_v(v: Seq<(String, Json)>) -> Seq<(Seq<char>, JsonV)> {
    Seq::new(v.len(), |i: int| (v[i].0@, jv(v[i].1)))
}

pub open spec fn items_v(v: Seq<Json>) -> Seq<JsonV> {
    Seq::new(v.len(), |i: int| jv(v[i]))
}

impl View for Json {
    type V = JsonV;

    open spec fn view(&self) -> JsonV {
        jv(*self)
    }
}

pub proof fn lemma_jv_object(v: Vec<(String, Json)>)
    ensures
        jv(Json::Object(v)) == JsonV::Object(entries_v(v@)),
{
    let s = jv(Json::Object(v))->Object_0;
    assert(s =~= entries_v(v@));
}

pub proof fn lemma_jv_array(v: Vec<Json>)
    ensures
        jv(Json::Array(v)) == JsonV::Array(items_v(v@)),
{
    let s = jv(Json::Array(v))->Array_0;
    assert(s =~= items_v(v@));
}

/// The value of the first entry whose key is `k`.
pub open spec fn lookup(e: Seq<(Seq<char>, JsonV)>, k: Seq<char>) -> Option<JsonV>
    decreases e.len(),
{
    if e.len() == 0 {
        None
    } else if e[0].0 == k {
        Some(e[0].1)
    } else {
        lookup(e.drop_first(), k)
    }
}

/// What `Value::get` with a string key returns.
pub open spec fn get_v(j: JsonV, k: Seq<char>) -> Option<JsonV> {
    match j {
        JsonV::Object(e) => lookup(e, k),
        _ => None,
    }
}

/// What `Option<&Value>::and_then(Value::as_str)` returns.
pub open spec fn str_of(o: Option<JsonV>) -> Option<Seq<char>> {
    match o {
        Some(JsonV::Str(s)) => Some(s),
        _ => None,
    }
}

/// What `Option<&Value>::and_then(Value::as_array)` returns.
pub open spec fn array_of(o: Option<JsonV>) -> Option<Seq<JsonV>> {
    match o {
        Some(JsonV::Array(a)) => Some(a),
        _ => None,
    }
}

/// What `Option<&Value>::and_then(Value::as_u64)` returns.
pub open spec fn u64_of(o: Option<JsonV>) -> Option<u64> {
    match o {
        Some(JsonV::Number(_, _, u)) => u,
        _ => None,
    }
}

/// What `Option<&Value>::and_then(Value::as_i64)` returns.
pub open spec fn i64_of(o: Option<JsonV>) -> Option<i64> {
    match o {
        Some(JsonV::Number(_, i, _)) => i,
        _ => None,
    }
}

/// What `Option<&Value>::and_then(Value::as_bool)` returns.
pub open spec fn bool_of(o: Option<JsonV>) -> Option<bool> {
    match o {
        Some(JsonV::Bool(b)) => Some(b),
        _ => None,
    }
}

/// Strict order of keys: lexicographic by code point, which is the byte order
/// of their UTF-8 encodings and so the order of `String`'s `Ord`.
pub open spec fn key_lt(a: Seq<char>, b: Seq<char>) -> bool
    decreases a.len(),
{
    if a.len() == 0 {
        b.len() > 0
    } else if b.len() == 0 {
        false
    } else if (a[0] as u32) < (b[0] as u32) {
        true
    } else if a[0] == b[0] {
        key_lt(a.drop_first(), b.drop_first())
    } else {
        false
    }
}

/// Inserting into a map kept in key order: the entry for `k` gets `v`, or a
/// new entry goes before the first larger key.
pub open spec fn insert_spec(e: Seq<(Seq<char>, JsonV)>, k: Seq<char>, v: JsonV) -> Seq<
    (Seq<char>, JsonV),
>
    decreases e.len(),
{
    if e.len() == 0 {
        seq![(k, v)]
    } else if e[0].0 == k {
        seq![(k, v)] + e.drop_first()
    } else if key_lt(k, e[0].0) {
        seq![(k, v)] + e
    } else {
        seq![e[0]] + insert_spec(e.drop_first(), k, v)
    }
}

/// Removing the entry for `k`.
pub open spec fn remove_spec(e: Seq<(Seq<char>, JsonV)>, k: Seq<char>) -> Seq<
    (Seq<char>, JsonV),
>
    decreases e.len(),
{
    if e.len() == 0 {
        e
    } else if e[0].0 == k {
        e.drop_first()
    } else {
        seq![e[0]] + remove_spec(e.drop_first(), k)
    }
}

pub open spec fn hex_digit(d: int) -> char {
    if d < 10 {
        (('0' as int) + d) as char
    } else {
        (('a' as int) + d - 10) as char
    }
}

/// How `serde_json` writes one character inside a string.
pub open spec fn escape_char(c: char) -> Seq<char> {
    let u = c as u32;
    if c == '"' {
        seq!['\\', '"']
    } else if c == '\\' {
        seq!['\\', '\\']
    } else if u == 8 {
        seq!['\\', 'b']
    } else if u == 9 {
        seq!['\\', 't']
    } else if u == 10 {
        seq!['\\', 'n']
    } else if u == 12 {
        seq!['\\', 'f']
    } else if u == 13 {
        seq!['\\', 'r']
    } else if u < 0x20 {
        seq!['\\', 'u', '0', '0', hex_digit((u / 16) as int), hex_digit((u % 16) as int)]
    } else {
        seq![c]
    }
}

pub open spec fn escape_spec(s: Seq<char>) -> Seq<char>
    decreases s.len(),
{
    if s.len() == 0 {
        Seq::empty()
    } else {
        escape_spec(s.drop_last()) + escape_char(s.last())
    }
}

/// A JSON string literal for `s`.
pub open spec fn quoted(s: Seq<char>) -> Seq<char> {
    seq!['"'] + escape_spec(s) + seq!['"']
}

/// The compact JSON text of a value, as `serde_json::to_string` writes it.
pub open spec fn json_text(j: JsonV) -> Seq<char>
    decreases j, 1nat,
{
    match j {
        JsonV::Null => seq!['n', 'u', 'l', 'l'],
        JsonV::Bool(b) => if b {
            seq!['t', 'r', 'u', 'e']
        } else {
            seq!['f', 'a', 'l', 's', 'e']
        },
        JsonV::Number(t, _, _) => t,
        JsonV::Str(s) => quoted(s),
        JsonV::Array(items) => seq!['['] + items_text(items) + seq![']'],
        JsonV::Object(e) => seq!['{'] + entries_text(e) + seq!['}'],
    }
}

/// The elements of an array, separated by commas.
pub open spec fn items_text(items: Seq<JsonV>) -> Seq<char>
    decreases items, 0nat,
{
    if items.len() == 0 {
        Seq::empty()
    } else if items.len() == 1 {
        json_text(items[0])
    } else {
        items_text(items.drop_last()) + seq![','] + json_text(items.last())
    }
}

/// The entries of an object, `"key":value`, separated by commas.
pub open spec fn entries_text(e: Seq<(Seq<char>, JsonV)>) -> Seq<char>
    decreases e, 0nat,
{
    if e.len() == 0 {
        Seq::empty()
    } else if e.len() == 1 {
        quoted(e[0].0) + seq![':'] + json_text(e[0].1)
    } else {
        entries_text(e.drop_last()) + seq![','] + quoted(e.last().0) + seq![':'] + json_text(
            e.last().1,
        )
    }
}

impl Json {
    /// What `Value::get` with a string key returns.
    pub fn get(&self, key: &str) -> (r: Option<&Json>)
        ensures
            match r {
                Some(x) => get_v(self@, key@) == Some(x@),
                None => get_v(self@, key@) is None,
            },
    {
        match self {
            Json::Object(e) => {
                proof {
                    lemma_jv_object(*e);
                }
                entries_get(e, key)
            },
            _ => None,
        }
    }

    pub fn as_str(&self) -> (r: Option<&str>)
        ensures
            match r {
                Some(s) => str_of(Some(self@)) == Some(s@),
                None => str_of(Some(self@)) is None,
            },
    {
        match self {
            Json::Str(s) => Some(s.as_str()),
            _ => None,
        }
    }

    pub fn as_array(&self) -> (r: Option<&Vec<Json>>)
        ensures
            match r {
                Some(a) => array_of(Some(self@)) == Some(items_v(a@)),
                None => array_of(Some(self@)) is None,
            },
    {
        match self {
            Json::Array(a) => {
                proof {
                    lemma_jv_array(*a);
                }
                Some(a)
            },
            _ => None,
        }
    }

    pub fn as_u64(&self) -> (r: Option<u64>)
        ensures
            r == u64_of(Some(self@)),
    {
        match self {
            Json::Number(n) => n.uint,
            _ => None,
        }
    }

    pub fn as_i64(&self) -> (r: Option<i64>)
        ensures
            r == i64_of(Some(self@)),
    {
        match self {
            Json::Number(n) => n.int,
            _ => None,
        }
    }

    pub fn as_bool(&self) -> (r: Option<bool>)
        ensures
            r == bool_of(Some(self@)),
    {
        match self {
            Json::Bool(b) => Some(*b),
            _ => None,
        }
    }

    pub fn is_object(&self) -> (r: bool)
        ensures
            r == (self@ is Object),
    {
        match self {
            Json::Object(_) => true,
            _ => false,
        }
    }

    /// A JSON string value.
    pub fn string(s: &str) -> (r: Json)
        ensures
            r@ == JsonV::Str(s@),
    {
        Json::Str(s.to_owned())
    }

    /// The compact JSON text of this value.
    pub fn to_text(&self) -> (r: String)
        ensures
            r@ == json_text(self@),
    {
        let mut out = String::new();
        write_json(self, &mut out);
        out
    }
}

/// Whether `a` sorts before `b`.
pub fn key_less(a: &str, b: &str) -> (r: bool)
    ensures
        r == key_lt(a@, b@),
{
    let x = chars_of(a);
    let y = chars_of(b);
    let mut i: usize = 0;
    assert(a@.skip(0) =~= a@);
    assert(b@.skip(0) =~= b@);
    while i < x.len() && i < y.len() && x[i] == y[i]
        invariant
            x@ == a@,
            y@ == b@,
            i <= x.len(),
            i <= y.len(),
            key_lt(a@, b@) == key_lt(a@.skip(i as int), b@.skip(i as int)),
        decreases x.len() - i,
    {
        assert(a@.skip(i as int).drop_first() =~= a@.skip(i + 1));
        assert(b@.skip(i as int).drop_first() =~= b@.skip(i + 1));
        i = i + 1;
    }
    if i == x.len() {
        i < y.len()
    } else if i == y.len() {
        false
    } else {
        (x[i] as u32) < (y[i] as u32)
    }
}

proof fn lemma_entries_v_push(v: Seq<(String, Json)>, x: (String, Json))
    ensures
        entries_v(v.push(x)) == entries_v(v).push((x.0@, jv(x.1))),
{
    assert(entries_v(v.push(x)) =~= entries_v(v).push((x.0@, jv(x.1))));
}

/// Sets the entry for `key` as `serde_json::Map::insert` does.
pub fn object_insert(entries: &mut Vec<(String, Json)>, key: String, value: Json)
    ensures
        entries_v(final(entries)@) == insert_spec(entries_v(old(entries)@), key@, value@),
{
    let ghost e0 = entries_v(entries@);
    let mut out: Vec<(String, Json)> = Vec::new();
    let mut rest: Vec<(String, Json)> = Vec::new();
    // Take the old entries out, in order.
    std::mem::swap(entries, &mut rest);
    let ghost r0 = rest@;
    assert(r0.len() == rest.len());
    assert(entries_v(r0) == e0);
    let mut i: usize = 0;
    let mut placed = false;
    let mut key_opt = Some(key);
    let mut value_opt = Some(value);
    let ghost k = key@;
    let ghost v = value@;
    assert(rest@ =~= r0.subrange(0, r0.len() as int));
    while rest.len() > 0
        invariant
            i + rest@.len() == r0.len(),
            r0.len() <= usize::MAX,
            rest@ =~= r0.subrange(i as int, r0.len() as int),
            !placed ==> key_opt is Some && value_opt is Some && key_opt->0@ == k && jv(
                value_opt->0,
            ) == v,
            !placed ==> insert_spec(entries_v(r0), k, v) == entries_v(out@) + insert_spec(
                entries_v(r0.subrange(i as int, r0.len() as int)),
                k,
                v,
            ),
            placed ==> insert_spec(entries_v(r0), k, v) == entries_v(out@) + entries_v(
                r0.subrange(i as int, r0.len() as int),
            ),
        decreases rest.len(),
    {
        let ghost tail = r0.subrange(i as int, r0.len() as int);
        let item = rest.remove(0);
        assert(item == tail[0]);
        assert(tail.drop_first() =~= r0.subrange(i + 1, r0.len() as int));
        assert(entries_v(tail).drop_first() =~= entries_v(tail.drop_first()));
        assert(rest@ =~= r0.subrange(i + 1, r0.len() as int));
        if placed {
            proof {
                lemma_entries_v_push(out@, item);
                assert(entries_v(tail) =~= seq![(item.0@, jv(item.1))] + entries_v(
                    tail.drop_first(),
                ));
            }
            out.push(item);
        } else {
            let same = same_text(item.0.as_str(), key_opt.as_ref().unwrap().as_str());
            if same {
                let kk = key_opt.take().unwrap();
                let vv = value_opt.take().unwrap();
                proof {
                    lemma_entries_v_push(out@, (kk, vv));
                }
                out.push((kk, vv));
                placed = true;
            } else {
                let lt = key_less(key_opt.as_ref().unwrap().as_str(), item.0.as_str());
                if lt {
                    let kk = key_opt.take().unwrap();
                    let vv = value_opt.take().unwrap();
                    proof {
                        lemma_entries_v_push(out@, (kk, vv));
                        lemma_entries_v_push(out@.push((kk, vv)), item);
                        assert(entries_v(tail) =~= seq![(item.0@, jv(item.1))] + entries_v(
                            tail.drop_first(),
                        ));
                    }
                    out.push((kk, vv));
                    out.push(item);
                    placed = true;
                } else {
                    proof {
                        lemma_entries_v_push(out@, item);
                    }
                    out.push(item);
                }
            }
        }
        i = i + 1;
        proof {
            assert(entries_v(r0.subrange(i as int, r0.len() as int)) =~= entries_v(
                tail.drop_first(),
            ));
        }
    }
    if !placed {
        let kk = key_opt.take().unwrap();
        let vv = value_opt.take().unwrap();
        proof {
            lemma_entries_v_push(out@, (kk, vv));
            assert(entries_v(r0.subrange(i as int, r0.len() as int)) =~= Seq::<
                (Seq<char>, JsonV),
            >::empty());
        }
        out.push((kk, vv));
    } else {
        assert(entries_v(r0.subrange(i as int, r0.len() as int)) =~= Seq::<
            (Seq<char>, JsonV),
        >::empty());
    }
    assert(entries_v(out@) =~= insert_spec(e0, k, v));
    *entries = out;
}

/// Removes the entry for `key`, as `serde_json::Map::remove` does.
pub fn object_remove(entries: &mut Vec<(String, Json)>, key: &str)
    ensures
        entries_v(final(entries)@) == remove_spec(entries_v(old(entries)@), key@),
{
    let ghost e0 = entries_v(entries@);
    let mut rest: Vec<(String, Json)> = Vec::new();
    std::mem::swap(entries, &mut rest);
    let ghost r0 = rest@;
    assert(r0.len() == rest.len());
    let mut out: Vec<(String, Json)> = Vec::new();
    let mut removed = false;
    let mut i: usize = 0;
    assert(rest@ =~= r0.subrange(0, r0.len() as int));
    while rest.len() > 0
        invariant
            i + rest@.len() == r0.len(),
            r0.len() <= usize::MAX,
            rest@ =~= r0.subrange(i as int, r0.len() as int),
            !removed ==> remove_spec(entries_v(r0), key@) == entries_v(out@) + remove_spec(
                entries_v(r0.subrange(i as int, r0.len() as int)),
                key@,
            ),
            removed ==> remove_spec(entries_v(r0), key@) == entries_v(out@) + entries_v(
                r0.subrange(i as int, r0.len() as int),
            ),
        decreases rest.len(),
    {
        let ghost tail = r0.subrange(i as int, r0.len() as int);
        let item = rest.remove(0);
        assert(item == tail[0]);
        assert(tail.drop_first() =~= r0.subrange(i + 1, r0.len() as int));
        assert(entries_v(tail).drop_first() =~= entries_v(tail.drop_first()));
        assert(rest@ =~= r0.subrange(i + 1, r0.len() as int));
        if !removed && same_text(item.0.as_str(), key) {
            removed = true;
        } else {
            proof {
                lemma_entries_v_push(out@, item);
                assert(entries_v(tail) =~= seq![(item.0@, jv(item.1))] + entries_v(
                    tail.drop_first(),
                ));
            }
            out.push(item);
        }
        i = i + 1;
    }
    assert(entries_v(r0.subrange(i as int, r0.len() as int)) =~= Seq::<
        (Seq<char>, JsonV),
    >::empty());
    assert(entries_v(out@) =~= remove_spec(e0, key@));
    *entries = out;
}

fn hex_char(d: u32) -> (r: char)
    requires
        d < 16,
    ensures
        r == hex_digit(d as int),
{
    if d < 10 {
        ((d as u8) + 48) as char
    } else {
        ((d as u8) + 87) as char
    }
}

/// Appends `s` to `out`.
pub fn push_str(out: &mut String, s: &str)
    ensures
        final(out)@ == old(out)@ + s@,
{
    out.append(s);
}

proof fn lemma_escape_push(s: Seq<char>, c: char)
    ensures
        escape_spec(s.push(c)) == escape_spec(s) + escape_char(c),
{
    assert(s.push(c).drop_last() =~= s);
}

/// Appends `s` as a JSON string literal.
fn write_quoted(s: &str, out: &mut String)
    ensures
        final(out)@ == old(out)@ + quoted(s@),
{
    let ghost start = out@;
    let v = chars_of(s);
    push_char(out, '"');
    let mut i: usize = 0;
    while i < v.len()
        invariant
            v@ == s@,
            i <= v.len(),
            out@ == start + seq!['"'] + escape_spec(s@.take(i as int)),
        decreases v.len() - i,
    {
        let c = v[i];
        let u = c as u32;
        proof {
            lemma_escape_push(s@.take(i as int), c);
            assert(s@.take(i + 1) =~= s@.take(i as int).push(c));
        }
        if c == '"' {
            push_char(out, '\\');
            push_char(out, '"');
        } else if c == '\\' {
            push_char(out, '\\');
            push_char(out, '\\');
        } else if u == 8 {
            push_char(out, '\\');
            push_char(out, 'b');
        } else if u == 9 {
            push_char(out, '\\');
            push_char(out, 't');
        } else if u == 10 {
            push_char(out, '\\');
            push_char(out, 'n');
        } else if u == 12 {
            push_char(out, '\\');
            push_char(out, 'f');
        } else if u == 13 {
            push_char(out, '\\');
            push_char(out, 'r');
        } else if u < 0x20 {
            push_char(out, '\\');
            push_char(out, 'u');
            push_char(out, '0');
            push_char(out, '0');
            push_char(out, hex_char(u / 16));
            push_char(out, hex_char(u % 16));
        } else {
            push_char(out, c);
        }
        i = i + 1;
        assert(out@ =~= start + seq!['"'] + escape_spec(s@.take(i as int)));
    }
    assert(s@.take(v.len() as int) =~= s@);
    push_char(out, '"');
    assert(out@ =~= start + quoted(s@));
}

/// Appends the compact JSON text of `j`.
fn write_json(j: &Json, out: &mut String)
    ensures
        final(out)@ == old(out)@ + json_text(j@),
    decreases j,
{
    let ghost start = out@;
    match j {
        Json::Null => {
            push_char(out, 'n');
            push_char(out, 'u');
            push_char(out, 'l');
            push_char(out, 'l');
            assert(out@ =~= start + json_text(j@));
        },
        Json::Bool(b) => {
            if *b {
                push_char(out, 't');
                push_char(out, 'r');
                push_char(out, 'u');
                push_char(out, 'e');
            } else {
                push_char(out, 'f');
                push_char(out, 'a');
                push_char(out, 'l');
                push_char(out, 's');
                push_char(out, 'e');
            }
            assert(out@ =~= start + json_text(j@));
        },
        Json::Number(n) => {
            push_str(out, n.text.as_str());
        },
        Json::Str(s) => {
            write_quoted(s.as_str(), out);
        },
        Json::Array(items) => {
            proof {
                lemma_jv_array(*items);
            }
            let ghost iv = items_v(items@);
            push_char(out, '[');
            let mut i: usize = 0;
            while i < items.len()
                invariant
                    i <= items.len(),
                    *j == Json::Array(*items),
                    iv == items_v(items@),
                    out@ == start + seq!['['] + items_text(iv.take(i as int)),
                decreases items.len() - i,
            {
                if i > 0 {
                    push_char(out, ',');
                }
                proof {
                    assert(decreases_to!(*j => (*j)->Array_0));
                    assert(decreases_to!(*items => items@));
                    assert(decreases_to!(items@ => items@[i as int]));
                    assert(decreases_to!(*j => items@[i as int]));
                }
                write_json(&items[i], out);
                proof {
                    let t = iv.take(i + 1);
                    assert(t.drop_last() =~= iv.take(i as int));
                    assert(t.last() == jv(items@[i as int]));
                    if i == 0 {
                        assert(items_text(iv.take(0)) =~= Seq::<char>::empty());
                    }
                }
                i = i + 1;
                assert(out@ =~= start + seq!['['] + items_text(iv.take(i as int)));
            }
            assert(iv.take(items.len() as int) =~= iv);
            push_char(out, ']');
            assert(out@ =~= start + json_text(j@));
        },
        Json::Object(e) => {
            proof {
                lemma_jv_object(*e);
            }
            let ghost ev = entries_v(e@);
            push_char(out, '{');
            let mut i: usize = 0;
            while i < e.len()
                invariant
                    i <= e.len(),
                    *j == Json::Object(*e),
                    ev == entries_v(e@),
                    out@ == start + seq!['{'] + entries_text(ev.take(i as int)),
                decreases e.len() - i,
            {
                if i > 0 {
                    push_char(out, ',');
                }
                write_quoted(e[i].0.as_str(), out);
                push_char(out, ':');
                proof {
                    assert(decreases_to!(*j => (*j)->Object_0));
                    assert(decreases_to!(*e => e@));
                    assert(decreases_to!(e@ => e@[i as int]));
                    assert(decreases_to!(e@[i as int] => e@[i as int].1));
                    assert(decreases_to!(*j => e@[i as int].1));
                }
                write_json(&e[i].1, out);
                proof {
                    let t = ev.take(i + 1);
                    assert(t.drop_last() =~= ev.take(i as int));
                    assert(t.last() == (e@[i as int].0@, jv(e@[i as int].1)));
                    if i == 0 {
                        assert(entries_text(ev.take(0)) =~= Seq::<char>::empty());
                    }
                }
                i = i + 1;
                assert(out@ =~= start + seq!['{'] + entries_text(ev.take(i as int)));
            }
            assert(ev.take(e.len() as int) =~= ev);
            push_char(out, '}');
            assert(out@ =~= start + json_text(j@));
        },
    }
}

/// The decimal text of `n`, as `Display` writes an unsigned integer.
pub open spec fn decimal_spec(n: nat) -> Seq<char>
    decreases n,
{
    if n < 10 {
        seq![(('0' as int) + n) as char]
    } else {
        decimal_spec(n / 10).push((('0' as int) + n % 10) as char)
    }
}

/// The decimal text of `n`.
pub fn decimal(n: u64) -> (r: String)
    ensures
        r@ == decimal_spec(n as nat),
    decreases n,
{
    if n < 10 {
        let mut out = String::new();
        push_char(&mut out, ((n as u8) + 48) as char);
        assert(out@ =~= decimal_spec(n as nat));
        out
    } else {
        let mut out = decimal(n / 10);
        push_char(&mut out, (((n % 10) as u8) + 48) as char);
        out
    }
}

/// A JSON number holding the unsigned integer `n`, as `Value::from(n)` makes it.
pub open spec fn uint_v(n: u64) -> JsonV {
    JsonV::Number(decimal_spec(n as nat), if n <= i64::MAX { Some(n as i64) } else { None }, Some(n))
}

/// The JSON number `n`.
pub fn number_from(n: u64) -> (r: Json)
    ensures
        r@ == uint_v(n),
{
    Json::Number(JsonNumber { text: decimal(n), int: if n <= i64::MAX as u64 { Some(n as i64) } else { None }, uint: Some(n) })
}

/// A copy of a JSON value.
pub fn copy_json(j: &Json) -> (r: Json)
    ensures
        r@ == j@,
    decreases j,
{
    match j {
        Json::Null => Json::Null,
        Json::Bool(b) => Json::Bool(*b),
        Json::Number(n) => Json::Number(JsonNumber { text: n.text.clone(), int: n.int, uint: n.uint }),
        Json::Str(s) => Json::Str(s.clone()),
        Json::Array(items) => {
            proof {
                lemma_jv_array(*items);
            }
            let mut out: Vec<Json> = Vec::new();
            let mut i: usize = 0;
            while i < items.len()
                invariant
                    i <= items.len(),
                    *j == Json::Array(*items),
                    out@.len() == i,
                    forall|k: int| 0 <= k < i ==> jv(#[trigger] out@[k]) == jv(items@[k]),
                decreases items.len() - i,
            {
                proof {
                    assert(decreases_to!(*j => (*j)->Array_0));
                    assert(decreases_to!(*items => items@));
                    assert(decreases_to!(items@ => items@[i as int]));
                    assert(decreases_to!(*j => items@[i as int]));
                }
                let c = copy_json(&items[i]);
                out.push(c);
                i = i + 1;
            }
            assert(items_v(out@) =~= items_v(items@));
            proof {
                lemma_jv_array(out);
            }
            Json::Array(out)
        },
        Json::Object(e) => {
            proof {
                lemma_jv_object(*e);
            }
            let mut out: Vec<(String, Json)> = Vec::new();
            let mut i: usize = 0;
            while i < e.len()
                invariant
                    i <= e.len(),
                    *j == Json::Object(*e),
                    out@.len() == i,
                    forall|k: int| 0 <= k < i ==> (#[trigger] out@[k]).0@ == e@[k].0@ && jv(out@[k].1) == jv(e@[k].1),
                decreases e.len() - i,
            {
                proof {
                    assert(decreases_to!(*j => (*j)->Object_0));
                    assert(decreases_to!(*e => e@));
                    assert(decreases_to!(e@ => e@[i as int]));
                    assert(decreases_to!(e@[i as int] => e@[i as int].1));
                    assert(decreases_to!(*j => e@[i as int].1));
                }
                let c = copy_json(&e[i].1);
                let k = e[i].0.clone();
                out.push((k, c));
                i = i + 1;
            }
            assert(entries_v(out@) =~= entries_v(e@));
            proof {
                lemma_jv_object(out);
            }
            Json::Object(out)
        },
    }
}

/// A value with every object's entries in key order, as collecting them into
/// a `BTreeMap` leaves them (a later entry for the same key wins).
pub open spec fn canon(j: JsonV) -> JsonV
    decreases j, 2nat,
{
    match j {
        JsonV::Array(items) => JsonV::Array(canon_items(items)),
        JsonV::Object(e) => JsonV::Object(canon_entries(e)),
        _ => j,
    }
}

pub open spec fn canon_items(items: Seq<JsonV>) -> Seq<JsonV>
    decreases items, 1nat,
{
    if items.len() == 0 {
        Seq::empty()
    } else {
        canon_items(items.drop_last()).push(canon(items.last()))
    }
}

pub open spec fn canon_entries(e: Seq<(Seq<char>, JsonV)>) -> Seq<(Seq<char>, JsonV)>
    decreases e, 1nat,
{
    if e.len() == 0 {
        Seq::empty()
    } else {
        insert_spec(canon_entries(e.drop_last()), e.last().0, canon(e.last().1))
    }
}

/// The value with its objects' entries sorted by key, at every depth.
pub fn canonical(j: &Json) -> (r: Json)
    ensures
        r@ == canon(j@),
    decreases j,
{
    match j {
        Json::Array(items) => {
            proof {
                lemma_jv_array(*items);
            }
            let ghost iv = items_v(items@);
            let mut out: Vec<Json> = Vec::new();
            let mut i: usize = 0;
            while i < items.len()
                invariant
                    i <= items.len(),
                    *j == Json::Array(*items),
                    iv == items_v(items@),
                    items_v(out@) == canon_items(iv.take(i as int)),
                decreases items.len() - i,
            {
                proof {
                    assert(decreases_to!(*j => (*j)->Array_0));
                    assert(decreases_to!(*items => items@));
                    assert(decreases_to!(items@ => items@[i as int]));
                    assert(decreases_to!(*j => items@[i as int]));
                }
                let c = canonical(&items[i]);
                out.push(c);
                proof {
                    let t = iv.take(i + 1);
                    assert(t.drop_last() =~= iv.take(i as int));
                    assert(t.last() == jv(items@[i as int]));
                }
                i = i + 1;
                assert(items_v(out@) =~= canon_items(iv.take(i as int)));
            }
            assert(iv.take(items.len() as int) =~= iv);
            proof {
                lemma_jv_array(out);
            }
            Json::Array(out)
        },
        Json::Object(e) => {
            proof {
                lemma_jv_object(*e);
            }
            let ghost ev = entries_v(e@);
            let mut out: Vec<(String, Json)> = Vec::new();
            let mut i: usize = 0;
            assert(entries_v(out@) =~= canon_entries(ev.take(0)));
            while i < e.len()
                invariant
                    i <= e.len(),
                    *j == Json::Object(*e),
                    ev == entries_v(e@),
                    entries_v(out@) == canon_entries(ev.take(i as int)),
                decreases e.len() - i,
            {
                proof {
                    assert(decreases_to!(*j => (*j)->Object_0));
                    assert(decreases_to!(*e => e@));
                    assert(decreases_to!(e@ => e@[i as int]));
                    assert(decreases_to!(e@[i as int] => e@[i as int].1));
                    assert(decreases_to!(*j => e@[i as int].1));
                }
                let c = canonical(&e[i].1);
                let k = e[i].0.clone();
                proof {
                    let t = ev.take(i + 1);
                    assert(t.drop_last() =~= ev.take(i as int));
                    assert(t.last() == (e@[i as int].0@, jv(e@[i as int].1)));
                }
                object_insert(&mut out, k, c);
                i = i + 1;
            }
            assert(ev.take(e.len() as int) =~= ev);
            proof {
                lemma_jv_object(out);
            }
            Json::Object(out)
        },
        Json::Null => Json::Null,
        Json::Bool(b) => Json::Bool(*b),
        Json::Number(n) => Json::Number(JsonNumber { text: n.text.clone(), int: n.int, uint: n.uint }),
        Json::Str(s) => Json::Str(s.clone()),
    }
}

/// The value of the first entry of `e` whose key is `key`.
pub fn entries_get<'a>(e: &'a Vec<(String, Json)>, key: &str) -> (r: Option<&'a Json>)
    ensures
        match r {
            Some(x) => lookup(entries_v(e@), key@) == Some(x@),
            None => lookup(entries_v(e@), key@) is None,
        },
{
    let mut i: usize = 0;
    assert(entries_v(e@).subrange(0, e@.len() as int) =~= entries_v(e@));
    while i < e.len()
        invariant
            i <= e.len(),
            lookup(entries_v(e@), key@) == lookup(entries_v(e@).subrange(i as int, e@.len() as int), key@),
        decreases e.len() - i,
    {
        let ghost rest = entries_v(e@).subrange(i as int, e@.len() as int);
        assert(rest.drop_first() =~= entries_v(e@).subrange(i + 1, e@.len() as int));
        if same_text(e[i].0.as_str(), key) {
            return Some(&e[i].1);
        }
        i = i + 1;
    }
    None
}

/// `key_lt` never holds of a key and itself.
pub proof fn lemma_key_lt_irreflexive(a: Seq<char>)
    ensures
        !key_lt(a, a),
    decreases a.len(),
{
    if a.len() > 0 {
        lemma_key_lt_irreflexive(a.drop_first());
    }
}

/// Of two different keys, one sorts before the other.
pub proof fn lemma_key_lt_total(a: Seq<char>, b: Seq<char>)
    requires
        a != b,
    ensures
        key_lt(a, b) || key_lt(b, a),
    decreases a.len(),
{
    if a.len() > 0 && b.len() > 0 && a[0] == b[0] {
        if a.drop_first() == b.drop_first() {
            assert(a =~= seq![a[0]] + a.drop_first());
            assert(b =~= seq![b[0]] + b.drop_first());
        }
        lemma_key_lt_total(a.drop_first(), b.drop_first());
    } else if a.len() > 0 && b.len() > 0 {
        vstd::utf8::char_u32_cast(a[0], a[0] as u32);
        vstd::utf8::char_u32_cast(b[0], b[0] as u32);
    } else if a.len() == 0 && b.len() == 0 {
        assert(a =~= b);
    }
}

/// Sorting before is transitive.
pub proof fn lemma_key_lt_transitive(a: Seq<char>, b: Seq<char>, c: Seq<char>)
    requires
        key_lt(a, b),
        key_lt(b, c),
    ensures
        key_lt(a, c),
    decreases a.len(),
{
    if a.len() > 0 && b.len() > 0 && c.len() > 0 && a[0] == b[0] && b[0] == c[0] {
        lemma_key_lt_transitive(a.drop_first(), b.drop_first(), c.drop_first());
    }
}

/// Sorting before is asymmetric.
pub proof fn lemma_key_lt_asymmetric(a: Seq<char>, b: Seq<char>)
    requires
        key_lt(a, b),
    ensures
        !key_lt(b, a),
{
    if key_lt(b, a) {
        lemma_key_lt_transitive(a, b, a);
        lemma_key_lt_irreflexive(a);
    }
}

/// The decimal text of a signed integer.
pub open spec fn signed_decimal_spec(n: int) -> Seq<char> {
    if n < 0 {
        seq!['-'] + decimal_spec((-n) as nat)
    } else {
        decimal_spec(n as nat)
    }
}

/// A JSON number holding the integer `n`, as `Value::from(n)` makes it.
pub open spec fn int_v(n: i64) -> JsonV {
    JsonV::Number(signed_decimal_spec(n as int), Some(n), if n >= 0 { Some(n as u64) } else { None })
}

/// The JSON number `n`.
pub fn number_from_i64(n: i64) -> (r: Json)
    ensures
        r@ == int_v(n),
{
    if n >= 0 {
        let text = decimal(n as u64);
        Json::Number(JsonNumber { text, int: Some(n), uint: Some(n as u64) })
    } else {
        let magnitude: u64 = ((-(n + 1)) as u64) + 1;
        let digits = decimal(magnitude);
        let mut text = String::new();
        push_char(&mut text, '-');
        push_str(&mut text, digits.as_str());
        Json::Number(JsonNumber { text, int: Some(n), uint: None })
    }
}

} // verus!