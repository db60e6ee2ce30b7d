//! JSON as values for v8.

use vstd::prelude::*;

use crate::denobridge::primitives::{integer_of, ProxiedV8Primitive};
use crate::denobridge::psuedoprimitive::ProxiedV8PsuedoPrimitive;
use crate::denobridge::value::{v8_pairs, v8_views, ProxiedV8Value, V8View};
use crate::luau::value::Number;
use crate::text::join;
use crate::MAX_PROXY_DEPTH;

verus! {

/// A JSON number: the 64-bit integer that it is, where it is one, and the bits of the
/// double-precision number nearest to it, where there is one.
#[derive(Clone, Copy, Debug, PartialEq, Eq, Structural)]
pub struct JsonNumber {
    pub int: Option<i64>,
    pub float: Option<u64>,
}

/// A JSON value.
#[derive(Debug, PartialEq, Eq)]
pub enum JsonValue {
    Null,
    Bool(bool),
    Number(JsonNumber),
    String(String),
    Array(Vec<JsonValue>),
    Object(Vec<(String, JsonValue)>),
}

/// A JSON value.
#[verifier::ext_equal]
pub enum JsonView {
    Null,
    Bool(bool),
    Number(JsonNumber),
    String(Seq<char>),
    Array(Seq<JsonView>),
    Object(Seq<(Seq<char>, JsonView)>),
}

impl JsonValue {
    /// What the value is.
    pub open spec fn view(self) -> JsonView
        decreases self,
    {
        match self {
            JsonValue::Null => JsonView::Null,
            JsonValue::Bool(b) => JsonView::Bool(b),
            JsonValue::Number(n) => JsonView::Number(n),
            JsonValue::String(s) => JsonView::String(s@),
            JsonValue::Array(items) => JsonView::Array(
                Seq::new(
                    items@.len(),
                    |i: int|
                        if 0 <= i < items@.len() {
                            items@[i].view()
                        } else {
                            arbitrary()
                        },
                ),
            ),
            JsonValue::Object(entries) => JsonView::Object(
                Seq::new(
                    entries@.len(),
                    |i: int|
                        if 0 <= i < entries@.len() {
                            (entries@[i].0@, entries@[i].1.view())
                        } else {
                            arbitrary()
                        },
                ),
            ),
        }
    }
}

/// Several values.
pub open spec fn json_views(s: Seq<JsonValue>) -> Seq<JsonView> {
    s.map_values(|v: JsonValue| v.view())
}

/// Several names with their values.
pub open spec fn json_pairs(s: Seq<(String, JsonValue)>) -> Seq<(Seq<char>, JsonView)> {
    s.map_values(|e: (String, JsonValue)| (e.0@, e.1.view()))
}

/// The text of the refusal of what is nested too deeply.
pub open spec fn json_too_deep() -> Seq<char> {
    "Maximum proxy depth exceeded when converting JSON to ProxiedV8Value"@
}

/// The place of a name among some entries from the `k`th on, and the length where it is not there.
pub open spec fn place_of(s: Seq<(V8View, V8View)>, name: Seq<char>, k: int) -> int
    decreases s.len() - k,
{
    if k < 0 || k >= s.len() {
        s.len() as int
    } else if s[k].0 == V8View::String(name) {
        k
    } else {
        place_of(s, name, k + 1)
    }
}

/// Some entries with one more: a name that is there gets the new value.
pub open spec fn with_entry(s: Seq<(V8View, V8View)>, name: Seq<char>, p: V8View) -> Seq<
    (V8View, V8View),
> {
    let at = place_of(s, name, 0);
    if 0 <= at < s.len() {
        s.update(at, (V8View::String(name), p))
    } else {
        s.push((V8View::String(name), p))
    }
}

/// What a JSON value is for v8.
pub open spec fn json_to_v8(j: JsonView, depth: nat) -> Result<V8View, Seq<char>>
    decreases j, 1nat,
{
    if depth >= MAX_PROXY_DEPTH {
        Err(json_too_deep())
    } else {
        match j {
            JsonView::Null => Ok(V8View::Nil),
            JsonView::Bool(b) => Ok(V8View::Boolean(b)),
            JsonView::Number(n) => match (n.int, n.float) {
                (Some(i), _) => Ok(integer_of(i)),
                (None, Some(bits)) => Ok(V8View::Number(Number::Bits(bits))),
                (None, None) => Err("JSON number is neither integer nor float"@),
            },
            JsonView::String(s) => Ok(V8View::String(s)),
            JsonView::Array(items) => match json_items(items, 0, Seq::empty(), depth + 1) {
                Err(e) => Err(e),
                Ok(vs) => Ok(V8View::List(vs)),
            },
            JsonView::Object(entries) => match json_entries(entries, 0, Seq::empty(), depth + 1) {
                Err(e) => Err(e),
                Ok(vs) => Ok(V8View::Dict(vs)),
            },
        }
    }
}

/// The items of an array from the `i`th on, behind those that are there.
pub open spec fn json_items(s: Seq<JsonView>, i: int, done: Seq<V8View>, depth: nat) -> Result<
    Seq<V8View>,
    Seq<char>,
>
    decreases s, s.len() - i,
{
    if i < 0 || i >= s.len() {
        Ok(done)
    } else {
        match json_to_v8(s[i], depth) {
            Err(e) => Err(e),
            Ok(p) => json_items(s, i + 1, done.push(p), depth),
        }
    }
}

/// The entries of an object from the `i`th on, with those that are there.
pub open spec fn json_entries(
    s: Seq<(Seq<char>, JsonView)>,
    i: int,
    done: Seq<(V8View, V8View)>,
    depth: nat,
) -> Result<Seq<(V8View, V8View)>, Seq<char>>
    decreases s, s.len() - i,
{
    if i < 0 || i >= s.len() {
        Ok(done)
    } else {
        match json_to_v8(s[i].1, depth) {
            Err(e) => Err(e),
            Ok(p) => json_entries(s, i + 1, with_entry(done, s[i].0, p), depth),
        }
    }
}

/// The items of an array.
fn json_list(items: Vec<JsonValue>, depth: usize) -> (r: Result<Vec<ProxiedV8Value>, String>)
    requires
        depth <= MAX_PROXY_DEPTH,
    ensures
        match (r, json_items(json_views(items@), 0, Seq::empty(), depth as nat)) {
            (Ok(p), Ok(v)) => v8_views(p@) == v,
            (Err(e), Err(t)) => e@ == t,
            _ => false,
        },
    decreases MAX_PROXY_DEPTH - depth, 1nat,
{
    let ghost all = json_views(items@);
    let ghost want = json_items(all, 0, Seq::empty(), depth as nat);
    let mut list: Vec<ProxiedV8Value> = Vec::new();
    assert(v8_views(list@) =~= Seq::empty());
    let ghost mut i: int = 0;
    for item in iter: items
        invariant
            depth <= MAX_PROXY_DEPTH,
            iter.seq() == items@,
            i == iter.index(),
            all == json_views(items@),
            want == json_items(all, 0, Seq::empty(), depth as nat),
            want == json_items(all, i, v8_views(list@), depth as nat),
    {
        let ghost before = list@;
        let ghost view = item@;
        assert(all[i] == view);
        match json_to_proxied_v8(item, depth) {
            Err(e) => return Err(e),
            Ok(v) => {
                list.push(v);
                assert(v8_views(list@) =~= v8_views(before).push(v@));
            },
        }
        proof {
            i = i + 1;
        }
    }
    Ok(list)
}

/// The entries of an object.
fn json_dict(entries: Vec<(String, JsonValue)>, depth: usize) -> (r: Result<
    Vec<(ProxiedV8Value, ProxiedV8Value)>,
    String,
>)
    requires
        depth <= MAX_PROXY_DEPTH,
    ensures
        match (r, json_entries(json_pairs(entries@), 0, Seq::empty(), depth as nat)) {
            (Ok(p), Ok(v)) => v8_pairs(p@) == v,
            (Err(e), Err(t)) => e@ == t,
            _ => false,
        },
    decreases MAX_PROXY_DEPTH - depth, 1nat,
{
    let ghost all = json_pairs(entries@);
    let ghost want = json_entries(all, 0, Seq::empty(), depth as nat);
    let mut list: Vec<(ProxiedV8Value, ProxiedV8Value)> = Vec::new();
    assert(v8_pairs(list@) =~= Seq::empty());
    let ghost mut i: int = 0;
    for entry in iter: entries
        invariant
            depth <= MAX_PROXY_DEPTH,
            iter.seq() == entries@,
            i == iter.index(),
            all == json_pairs(entries@),
            want == json_entries(all, 0, Seq::empty(), depth as nat),
            want == json_entries(all, i, v8_pairs(list@), depth as nat),
    {
        assert(all[i] == (entry.0@, entry.1@));
        match json_to_proxied_v8(entry.1, depth) {
            Err(e) => return Err(e),
            Ok(v) => put_entry(&mut list, entry.0, v),
        }
        proof {
            i = i + 1;
        }
    }
    Ok(list)
}

/// Puts an entry among some entries: a name that is there gets the new value.
fn put_entry(list: &mut Vec<(ProxiedV8Value, ProxiedV8Value)>, name: String, value: ProxiedV8Value)
    ensures
        v8_pairs(final(list)@) == with_entry(v8_pairs(old(list)@), name@, value@),
{
    let ghost before = list@;
    let ghost s = v8_pairs(before);
    let mut k: usize = 0;
    while k < list.len()
        invariant
            k <= list@.len(),
            list@ == before,
            before == old(list)@,
            s == v8_pairs(before),
            place_of(s, name@, 0) == place_of(s, name@, k as int),
        decreases list@.len() - k,
    {
        let found = match &list[k].0 {
            ProxiedV8Value::Primitive(p) => match p {
                ProxiedV8Primitive::String(text) => *text == name,
                _ => false,
            },
            _ => false,
        };
        proof {
            lemma_key_is_string(list@[k as int].0);
        }
        if found {
            assert(s[k as int].0 == V8View::String(name@));
            assert(place_of(s, name@, 0) == k);
            let entry = (ProxiedV8Value::Primitive(ProxiedV8Primitive::String(name)), value);
            list.set(k, entry);
            assert(v8_pairs(list@) =~= s.update(k as int, (entry.0@, entry.1@)));
            return;
        }
        k += 1;
    }
    let entry = (ProxiedV8Value::Primitive(ProxiedV8Primitive::String(name)), value);
    list.push(entry);
    assert(v8_pairs(list@) =~= s.push((entry.0@, entry.1@)));
}

/// Nothing but a string primitive is a string.
proof fn lemma_key_is_string(p: ProxiedV8Value)
    ensures
        p@ is String ==> p is Primitive && p->Primitive_0 is String,
{
}

/// Converts a JSON value to a ProxiedV8Value directly
pub fn json_to_proxied_v8(value: JsonValue, depth: usize) -> (r: Result<ProxiedV8Value, String>)
    ensures
        match (r, json_to_v8(value@, depth as nat)) {
            (Ok(p), Ok(v)) => p@ == v,
            (Err(e), Err(t)) => e@ == t,
            _ => false,
        },
    decreases MAX_PROXY_DEPTH - depth, 0nat,
{
    if depth >= MAX_PROXY_DEPTH {
        return Err(
            "Maximum proxy depth exceeded when converting JSON to ProxiedV8Value".to_owned(),
        );
    }
    let ghost view = value@;
    match value {
        JsonValue::Null => Ok(ProxiedV8Value::Primitive(ProxiedV8Primitive::Nil)),
        JsonValue::Bool(b) => Ok(ProxiedV8Value::Primitive(ProxiedV8Primitive::Boolean(b))),
        JsonValue::Number(n) => match n.int {
            Some(i) => {
                if i >= -2147483648 && i <= 2147483647 {
                    Ok(ProxiedV8Value::Primitive(ProxiedV8Primitive::Integer(i as i32)))
                } else {
                    Ok(ProxiedV8Value::Primitive(ProxiedV8Primitive::BigInt(i)))
                }
            },
            None => match n.float {
                Some(bits) => Ok(
                    ProxiedV8Value::Psuedoprimitive(
                        ProxiedV8PsuedoPrimitive::Number(Number::Bits(bits)),
                    ),
                ),
                None => Err("JSON number is neither integer nor float".to_owned()),
            },
        },
        JsonValue::String(s) => Ok(ProxiedV8Value::Primitive(ProxiedV8Primitive::String(s))),
        JsonValue::Array(items) => {
            assert(view->Array_0 =~= json_views(items@));
            match json_list(items, depth + 1) {
                Err(e) => Err(e),
                Ok(list) => {
                    let p = ProxiedV8PsuedoPrimitive::StaticList(list);
                    assert(p@->List_0 =~= v8_views(list@));
                    Ok(ProxiedV8Value::Psuedoprimitive(p))
                },
            }
        },
        JsonValue::Object(entries) => {
            assert(view->Object_0 =~= json_pairs(entries@));
            match json_dict(entries, depth + 1) {
                Err(e) => Err(e),
                Ok(list) => {
                    let p = ProxiedV8PsuedoPrimitive::StaticMap(list);
                    assert(p@->Dict_0 =~= v8_pairs(list@));
                    Ok(ProxiedV8Value::Psuedoprimitive(p))
                },
            }
        },
    }
}

/// A JSON value of serde_json.
#[verifier::external_type_specification]
#[verifier::external_body]
pub struct ExJsonValue(serde_json::Value);

/// What a JSON value of serde_json holds.
pub uninterp spec fn json_held(v: serde_json::Value) -> JsonView;

/// What a text is as JSON, or the text of the error.
pub uninterp spec fn json_parsed(text: Seq<char>) -> Result<JsonView, Seq<char>>;

/// Calls `serde_json::from_str`. Believed of it: whether there is a value, what it holds, and the
/// text of the error depend on the text alone.
#[verifier::external_body]
fn parse_json(text: &str) -> (r: Result<serde_json::Value, String>)
    ensures
        match (r, json_parsed(text@)) {
            (Ok(v), Ok(j)) => json_held(v) == j,
            (Err(e), Err(t)) => e@ == t,
            _ => false,
        },
{
    match serde_json::from_str(text) {
        Ok(v) => Ok(v),
        Err(e) => Err(e.to_string()),
    }
}

/// Takes a `serde_json::Value` apart. Believed of it: the result holds what the value holds, with
/// `Number::as_i64` and the bits of `Number::as_f64` for a number, and the entries of an object in
/// the order of its iteration.
#[verifier::external_body]
fn json_of(v: serde_json::Value) -> (r: JsonValue)
    ensures
        r@ == json_held(v),
{
    match v {
        serde_json::Value::Null => JsonValue::Null,
        serde_json::Value::Bool(b) => JsonValue::Bool(b),
        serde_json::Value::Number(n) => JsonValue::Number(
            JsonNumber { int: n.as_i64(), float: n.as_f64().map(|x| x.to_bits()) },
        ),
        serde_json::Value::String(s) => JsonValue::String(s),
        serde_json::Value::Array(a) => JsonValue::Array(a.into_iter().map(json_of).collect()),
        serde_json::Value::Object(o) => JsonValue::Object(
            o.into_iter().map(|e| (e.0, json_of(e.1))).collect(),
        ),
    }
}

/// Converts a JSON text to a ProxiedV8Value directly
pub fn json_raw_to_proxied_v8(value: &str, depth: usize) -> (r: Result<ProxiedV8Value, String>)
    ensures
        if depth >= MAX_PROXY_DEPTH {
            r matches Err(e) && e@ == json_too_deep()
        } else {
            match json_parsed(value@) {
                Err(t) => r matches Err(e) && e@ == "Failed to parse JsonRawValue: "@ + t,
                Ok(j) => match (r, json_to_v8(j, depth as nat)) {
                    (Ok(p), Ok(v)) => p@ == v,
                    (Err(e), Err(t)) => e@ == t,
                    _ => false,
                },
            }
        },
{
    if depth >= MAX_PROXY_DEPTH {
        return Err(
            "Maximum proxy depth exceeded when converting JSON to ProxiedV8Value".to_owned(),
        );
    }
    match parse_json(value) {
        Err(e) => Err(join("Failed to parse JsonRawValue: ", &e)),
        Ok(v) => json_to_proxied_v8(json_of(v), depth),
    }
}

} // verus!
