//! A JSON value held as plain data, its mathematical view, and the reads and
//! constructions that the helpers make of it.
use vstd::prelude::*;
use crate::text::same_text;

verus! {

/// A JSON number, held as `serde_json` holds it: a non-negative integer, a
/// negative integer, or a floating-point number kept as its decimal text.
#[derive(Debug)]
pub enum JsonNumber {
    PosInt(u64),
    NegInt(i64),
    Float(String),
}

/// A JSON value. Objects keep their entries in order; an object read from
/// text has no two entries with the same key.
#[derive(Debug)]
pub enum JsonValue {
    Null,
    Bool(bool),
    Number(JsonNumber),
    Str(String),
    Array(Vec<JsonValue>),
    Object(Vec<(String, JsonValue)>),
}

/// The mathematical value of a `JsonValue`.
pub enum Json {
    Null,
    Bool(bool),
    PosInt(u64),
    NegInt(i64),
    Float(Seq<char>),
    Str(Seq<char>),
    Array(Seq<Json>),
    Object(Seq<(Seq<char>, Json)>),
}

/// The view of a JSON value: strings by their characters, containers by the
/// views of their elements.
pub open spec fn json_view(v: JsonValue) -> Json
    decreases v,
{
    match v {
        JsonValue::Null => Json::Null,
        JsonValue::Bool(b) => Json::Bool(b),
        JsonValue::Number(JsonNumber::PosInt(u)) => Json::PosInt(u),
        JsonValue::Number(JsonNumber::NegInt(i)) => Json::NegInt(i),
        JsonValue::Number(JsonNumber::Float(s)) => Json::Float(s@),
        JsonValue::Str(s) => Json::Str(s@),
        JsonValue::Array(a) => Json::Array(
            Seq::new(
                a.len() as nat,
                |i: int|
                    if 0 <= i < a.len() {
                        json_view(a@[i])
                    } else {
                        Json::Null
                    },
            ),
        ),
        JsonValue::Object(m) => Json::Object(
            Seq::new(
                m.len() as nat,
                |i: int|
                    if 0 <= i < m.len() {
                        (m@[i].0@, json_view(m@[i].1))
                    } else {
                        (Seq::empty(), Json::Null)
                    },
            ),
        ),
    }
}

impl View for JsonValue {
    type V = Json;

    open spec fn view(&self) -> Json {
        json_view(*self)
    }
}

/// The views of a sequence of values.
pub open spec fn views(s: Seq<JsonValue>) -> Seq<Json> {
    Seq::new(s.len(), |i: int| s[i]@)
}

/// The views of a sequence of object entries.
pub open spec fn entry_views(s: Seq<(String, JsonValue)>) -> Seq<(Seq<char>, Json)> {
    Seq::new(s.len(), |i: int| (s[i].0@, s[i].1@))
}

/// The view of an array is the array of its elements' views.
pub proof fn lemma_array_view(a: Vec<JsonValue>)
    ensures
        JsonValue::Array(a)@ == Json::Array(views(a@)),
{
    assert(JsonValue::Array(a)@->Array_0 =~= views(a@));
}

/// The view of an object is the object of its entries' views.
pub proof fn lemma_object_view(m: Vec<(String, JsonValue)>)
    ensures
        JsonValue::Object(m)@ == Json::Object(entry_views(m@)),
{
    assert(JsonValue::Object(m)@->Object_0 =~= entry_views(m@));
}

/// `r` is the value that the spec `s` describes, an error being an `Other`
/// error with the message that `s` gives.
pub open spec fn json_outcome(r: Result<JsonValue, crate::error::GwsError>, s: Result<Json, Seq<char>>) -> bool {
    match (r, s) {
        (Ok(v), Ok(j)) => v@ == j,
        (Err(crate::error::GwsError::Other(m)), Err(t)) => m@ == t,
        _ => false,
    }
}

/// The value of the first entry of `entries` whose key is `key`.
pub open spec fn obj_lookup(entries: Seq<(Seq<char>, Json)>, key: Seq<char>) -> Option<Json>
    decreases entries.len(),
{
    if entries.len() == 0 {
        None
    } else if entries[0].0 == key {
        Some(entries[0].1)
    } else {
        obj_lookup(entries.drop_first(), key)
    }
}

/// The JSON number that `serde_json` makes of an `i64`.
pub open spec fn json_int(i: i64) -> Json {
    if i >= 0 {
        Json::PosInt(i as u64)
    } else {
        Json::NegInt(i)
    }
}

impl Json {
    /// `Value::get(key)`: the entry of an object, `None` for a missing key or
    /// a value that is not an object.
    pub open spec fn get(self, key: Seq<char>) -> Option<Json> {
        match self {
            Json::Object(m) => obj_lookup(m, key),
            _ => None,
        }
    }

    /// `value[key]`: the entry of an object, `Null` when there is none.
    pub open spec fn at(self, key: Seq<char>) -> Json {
        match self.get(key) {
            Some(v) => v,
            None => Json::Null,
        }
    }

    /// `value[i]`: the element of an array, `Null` when there is none.
    pub open spec fn at_index(self, i: int) -> Json {
        match self {
            Json::Array(v) => if 0 <= i < v.len() {
                v[i]
            } else {
                Json::Null
            },
            _ => Json::Null,
        }
    }

    /// `Value::as_array`.
    pub open spec fn as_array(self) -> Option<Seq<Json>> {
        match self {
            Json::Array(v) => Some(v),
            _ => None,
        }
    }

    /// The elements of an array, none for any other value.
    pub open spec fn elems(self) -> Seq<Json> {
        match self {
            Json::Array(v) => v,
            _ => Seq::empty(),
        }
    }

    /// `Value::as_str`.
    pub open spec fn as_str(self) -> Option<Seq<char>> {
        match self {
            Json::Str(s) => Some(s),
            _ => None,
        }
    }

    /// `Value::as_str().unwrap_or_default()`.
    pub open spec fn text_or_empty(self) -> Seq<char> {
        match self {
            Json::Str(s) => s,
            _ => Seq::empty(),
        }
    }

    /// `Value::as_i64`: an integer that fits in an `i64`.
    pub open spec fn as_i64(self) -> Option<i64> {
        match self {
            Json::PosInt(u) => if u <= i64::MAX {
                Some(u as i64)
            } else {
                None
            },
            Json::NegInt(i) => Some(i),
            _ => None,
        }
    }

    /// `Value::as_i64().unwrap_or(d)`.
    pub open spec fn i64_or(self, d: i64) -> i64 {
        match self.as_i64() {
            Some(i) => i,
            None => d,
        }
    }
}

impl JsonValue {
    /// `Value::get(key)`.
    pub fn get(&self, key: &str) -> (r: Option<&JsonValue>)
        ensures
            match r {
                Some(v) => self@.get(key@) == Some(v@),
                None => self@.get(key@) is None,
            },
    {
        match self {
            JsonValue::Object(m) => {
                proof {
                    lemma_object_view(*m);
                }
                let ghost ev = entry_views(m@);
                let mut i: usize = 0;
                assert(ev.skip(0) =~= ev);
                while i < m.len()
                    invariant
                        i <= m.len(),
                        ev == entry_views(m@),
                        self@.get(key@) == obj_lookup(ev.skip(i as int), key@),
                    decreases m.len() - i,
                {
                    assert(ev.skip(i as int).drop_first() =~= ev.skip(i + 1));
                    assert(ev.skip(i as int)[0] == ev[i as int]);
                    if same_text(m[i].0.as_str(), key) {
                        return Some(&m[i].1);
                    }
                    i = i + 1;
                }
                assert(ev.skip(i as int).len() == 0);
                None
            },
            _ => None,
        }
    }

    /// `value[key]`.
    pub fn at_key(&self, key: &str) -> (r: &JsonValue)
        ensures
            r@ == self@.at(key@),
    {
        match self.get(key) {
            Some(v) => v,
            None => &JsonValue::Null,
        }
    }

    /// `value[i]`.
    pub fn at_idx(&self, i: usize) -> (r: &JsonValue)
        ensures
            r@ == self@.at_index(i as int),
    {
        match self {
            JsonValue::Array(v) => {
                proof {
                    lemma_array_view(*v);
                }
                if i < v.len() {
                    &v[i]
                } else {
                    &JsonValue::Null
                }
            },
            _ => &JsonValue::Null,
        }
    }

    /// `Value::as_array`.
    pub fn as_array(&self) -> (r: Option<&Vec<JsonValue>>)
        ensures
            match r {
                Some(v) => self@.as_array() == Some(views(v@)),
                None => self@.as_array() is None,
            },
    {
        match self {
            JsonValue::Array(v) => {
                proof {
                    lemma_array_view(*v);
                }
                Some(v)
            },
            _ => None,
        }
    }

    /// `Value::as_str`.
    pub fn as_str(&self) -> (r: Option<&str>)
        ensures
            match r {
                Some(s) => self@.as_str() == Some(s@),
                None => self@.as_str() is None,
            },
    {
        match self {
            JsonValue::Str(s) => Some(s.as_str()),
            _ => None,
        }
    }

    /// `Value::as_i64`.
    pub fn as_i64(&self) -> (r: Option<i64>)
        ensures
            r == self@.as_i64(),
    {
        match self {
            JsonValue::Number(JsonNumber::PosInt(u)) => if *u <= 9223372036854775807u64 {
                Some(*u as i64)
            } else {
                None
            },
            JsonValue::Number(JsonNumber::NegInt(i)) => Some(*i),
            _ => None,
        }
    }

    /// A JSON string.
    pub fn text(s: &str) -> (r: JsonValue)
        ensures
            r@ == Json::Str(s@),
    {
        JsonValue::Str(String::from_str(s))
    }

    /// The JSON number of an `i64`.
    pub fn from_i64(i: i64) -> (r: JsonValue)
        ensures
            r@ == json_int(i),
    {
        if i >= 0 {
            JsonValue::Number(JsonNumber::PosInt(i as u64))
        } else {
            JsonValue::Number(JsonNumber::NegInt(i))
        }
    }

    /// The JSON number of a `usize`.
    pub fn from_usize(u: usize) -> (r: JsonValue)
        ensures
            r@ == Json::PosInt(u as u64),
    {
        JsonValue::Number(JsonNumber::PosInt(u as u64))
    }

    /// A JSON array of the given values.
    pub fn array(v: Vec<JsonValue>) -> (r: JsonValue)
        ensures
            r@ == Json::Array(views(v@)),
    {
        proof {
            lemma_array_view(v);
        }
        JsonValue::Array(v)
    }

    /// A JSON object of the given entries, in order.
    pub fn object(m: Vec<(String, JsonValue)>) -> (r: JsonValue)
        ensures
            r@ == Json::Object(entry_views(m@)),
    {
        proof {
            lemma_object_view(m);
        }
        JsonValue::Object(m)
    }
}

/// An object with one entry (spec shorthand).
pub open spec fn jo1(k1: Seq<char>, v1: Json) -> Json {
    Json::Object(seq![(k1, v1)])
}

/// An object with two entries (spec shorthand).
pub open spec fn jo2(k1: Seq<char>, v1: Json, k2: Seq<char>, v2: Json) -> Json {
    Json::Object(seq![(k1, v1), (k2, v2)])
}

/// An object with three entries (spec shorthand).
pub open spec fn jo3(k1: Seq<char>, v1: Json, k2: Seq<char>, v2: Json, k3: Seq<char>, v3: Json) -> Json {
    Json::Object(seq![(k1, v1), (k2, v2), (k3, v3)])
}

/// An entry whose key no earlier entry has is what looking up its key finds.
pub proof fn lemma_obj_lookup_at(entries: Seq<(Seq<char>, Json)>, i: int)
    requires
        0 <= i < entries.len(),
        forall|j: int| 0 <= j < i ==> (#[trigger] entries[j]).0 != entries[i].0,
    ensures
        obj_lookup(entries, entries[i].0) == Some(entries[i].1),
    decreases i,
{
    if i > 0 {
        let rest = entries.drop_first();
        assert(entries[0].0 != entries[i].0);
        assert(rest[i - 1] == entries[i]);
        assert forall|j: int| 0 <= j < i - 1 implies (#[trigger] rest[j]).0 != rest[i - 1].0 by {
            assert(rest[j] == entries[j + 1]);
        }
        lemma_obj_lookup_at(rest, i - 1);
    }
}

/// The entry of a one-entry object is found under its key.
pub proof fn lemma_jo1_at(k1: Seq<char>, v1: Json)
    ensures
        jo1(k1, v1).at(k1) == v1,
{
}

/// Each entry of a two-entry object with distinct keys is found under its key.
pub proof fn lemma_jo2_at(k1: Seq<char>, v1: Json, k2: Seq<char>, v2: Json)
    requires
        k1 != k2,
    ensures
        jo2(k1, v1, k2, v2).at(k1) == v1,
        jo2(k1, v1, k2, v2).at(k2) == v2,
{
    let e = seq![(k1, v1), (k2, v2)];
    assert(e.drop_first() =~= seq![(k2, v2)]);
    assert(obj_lookup(seq![(k2, v2)], k2) == Some(v2));
    assert(obj_lookup(e, k2) == obj_lookup(e.drop_first(), k2));
}

/// Each entry of a three-entry object with distinct keys is found under its
/// key.
pub proof fn lemma_jo3_at(k1: Seq<char>, v1: Json, k2: Seq<char>, v2: Json, k3: Seq<char>, v3: Json)
    requires
        k1 != k2,
        k1 != k3,
        k2 != k3,
    ensures
        jo3(k1, v1, k2, v2, k3, v3).at(k1) == v1,
        jo3(k1, v1, k2, v2, k3, v3).at(k2) == v2,
        jo3(k1, v1, k2, v2, k3, v3).at(k3) == v3,
{
    let e = seq![(k1, v1), (k2, v2), (k3, v3)];
    assert(e.drop_first() =~= seq![(k2, v2), (k3, v3)]);
    assert(e.drop_first().drop_first() =~= seq![(k3, v3)]);
    assert(obj_lookup(seq![(k3, v3)], k3) == Some(v3));
    assert(obj_lookup(seq![(k2, v2), (k3, v3)], k2) == Some(v2));
    assert(obj_lookup(e.drop_first(), k3) == obj_lookup(e.drop_first().drop_first(), k3));
    assert(obj_lookup(e, k3) == obj_lookup(e.drop_first(), k3));
    assert(obj_lookup(e, k2) == obj_lookup(e.drop_first(), k2));
}

/// A JSON boolean.
pub fn json_bool(b: bool) -> (r: JsonValue)
    ensures
        r@ == Json::Bool(b),
{
    JsonValue::Bool(b)
}

/// An object with one entry.
pub fn obj1(k1: &str, v1: JsonValue) -> (r: JsonValue)
    ensures
        r@ == Json::Object(seq![(k1@, v1@)]),
{
    let m = vec![entry(k1, v1)];
    let r = JsonValue::object(m);
    assert(entry_views(m@) =~= seq![(k1@, v1@)]);
    r
}

/// An object with two entries, in order.
pub fn obj2(k1: &str, v1: JsonValue, k2: &str, v2: JsonValue) -> (r: JsonValue)
    ensures
        r@ == Json::Object(seq![(k1@, v1@), (k2@, v2@)]),
{
    let m = vec![entry(k1, v1), entry(k2, v2)];
    let r = JsonValue::object(m);
    assert(entry_views(m@) =~= seq![(k1@, v1@), (k2@, v2@)]);
    r
}

/// An object with three entries, in order.
pub fn obj3(k1: &str, v1: JsonValue, k2: &str, v2: JsonValue, k3: &str, v3: JsonValue) -> (r: JsonValue)
    ensures
        r@ == Json::Object(seq![(k1@, v1@), (k2@, v2@), (k3@, v3@)]),
{
    let m = vec![entry(k1, v1), entry(k2, v2), entry(k3, v3)];
    let r = JsonValue::object(m);
    assert(entry_views(m@) =~= seq![(k1@, v1@), (k2@, v2@), (k3@, v3@)]);
    r
}

/// An array with one element.
pub fn arr1(v1: JsonValue) -> (r: JsonValue)
    ensures
        r@ == Json::Array(seq![v1@]),
{
    let a = vec![v1];
    let r = JsonValue::array(a);
    assert(views(a@) =~= seq![v1@]);
    r
}

/// An object entry whose key is a string literal.
pub fn entry(key: &str, v: JsonValue) -> (r: (String, JsonValue))
    ensures
        r.0@ == key@,
        r.1 == v,
{
    (String::from_str(key), v)
}

} // verus!
