//! A JSON document as plain values, for the logic that reads decoded JSON
//! (API responses, configuration), and the decoding of JSON text into it,
//! which `serde_json` does.
use vstd::prelude::*;

verus! {

/// A decoded JSON value.  A number keeps its value as an `i64` when it has
/// one (an integer in range), and nothing otherwise.  An object keeps its
/// members in order.
#[derive(Debug)]
pub enum JsonValue {
    Null,
    Bool(bool),
    Number(Option<i64>),
    Str(String),
    Array(Vec<JsonValue>),
    Object(Vec<(String, JsonValue)>),
}

/// The index of the first member of `fields` named `key`, or their number.
pub open spec fn member_index(fields: Seq<(String, JsonValue)>, key: Seq<char>) -> int
    decreases fields.len(),
{
    if fields.len() == 0 {
        0
    } else if fields[0].0@ == key {
        0
    } else {
        1 + member_index(fields.drop_first(), key)
    }
}

/// The member `key` of an object (the first one with that name); nothing
/// for a missing member or a value that is not an object.
pub open spec fn get_spec(v: JsonValue, key: Seq<char>) -> Option<JsonValue> {
    match v {
        JsonValue::Object(fields) => {
            let i = member_index(fields@, key);
            if 0 <= i < fields@.len() {
                Some(fields@[i].1)
            } else {
                None
            }
        },
        _ => None,
    }
}

/// The text of a string value.
pub open spec fn as_str_spec(v: JsonValue) -> Option<Seq<char>> {
    match v {
        JsonValue::Str(s) => Some(s@),
        _ => None,
    }
}

/// The `i64` value of a number.
pub open spec fn as_i64_spec(v: JsonValue) -> Option<i64> {
    match v {
        JsonValue::Number(n) => n,
        _ => None,
    }
}

/// The value of a boolean.
pub open spec fn as_bool_spec(v: JsonValue) -> Option<bool> {
    match v {
        JsonValue::Bool(b) => Some(b),
        _ => None,
    }
}

/// The text of member `key` when it is a string.
pub open spec fn str_member(v: JsonValue, key: Seq<char>) -> Option<Seq<char>> {
    match get_spec(v, key) {
        Some(m) => as_str_spec(m),
        None => None,
    }
}

/// The `i64` value of member `key` when it is such a number.
pub open spec fn i64_member(v: JsonValue, key: Seq<char>) -> Option<i64> {
    match get_spec(v, key) {
        Some(m) => as_i64_spec(m),
        None => None,
    }
}

/// `o`'s text, or `d` when there is none.
pub open spec fn text_or(o: Option<Seq<char>>, d: Seq<char>) -> Seq<char> {
    match o {
        Some(s) => s,
        None => d,
    }
}

proof fn lemma_member_index_at(fields: Seq<(String, JsonValue)>, key: Seq<char>, k: int)
    requires
        0 <= k <= fields.len(),
        forall|j: int| 0 <= j < k ==> fields[j].0@ != key,
        k == fields.len() || fields[k].0@ == key,
    ensures
        member_index(fields, key) == k,
    decreases k,
{
    if k > 0 {
        lemma_member_index_at(fields.drop_first(), key, k - 1);
    }
}

fn same_text(a: &String, b: &str) -> (r: bool)
    ensures
        r == (a@ == b@),
{
    let s = crate::text::string_of(b);
    *a == s
}

impl JsonValue {
    /// The member `key` of an object (see [`get_spec`]).
    pub fn get(&self, key: &str) -> (r: Option<&JsonValue>)
        ensures
            match r {
                Some(m) => get_spec(*self, key@) == Some(*m),
                None => get_spec(*self, key@) is None,
            },
    {
        match self {
            JsonValue::Object(fields) => {
                let mut i: usize = 0;
                while i < fields.len()
                    invariant
                        i <= fields@.len(),
                        *self == JsonValue::Object(*fields),
                        forall|j: int| 0 <= j < i ==> fields@[j].0@ != key@,
                    decreases fields@.len() - i,
                {
                    if same_text(&fields[i].0, key) {
                        proof {
                            lemma_member_index_at(fields@, key@, i as int);
                        }
                        let found = &fields[i].1;
                        assert(*found == fields@[i as int].1);
                        return Some(found);
                    }
                    i += 1;
                }
                proof {
                    lemma_member_index_at(fields@, key@, fields@.len() as int);
                }
                None
            },
            _ => None,
        }
    }

    /// The text of a string value.
    pub fn as_str(&self) -> (r: Option<&str>)
        ensures
            match r {
                Some(s) => as_str_spec(*self) == Some(s@),
                None => as_str_spec(*self) is None,
            },
    {
        match self {
            JsonValue::Str(s) => Some(s.as_str()),
            _ => None,
        }
    }

    /// The `i64` value of a number.
    pub fn as_i64(&self) -> (r: Option<i64>)
        ensures
            r == as_i64_spec(*self),
    {
        match self {
            JsonValue::Number(n) => *n,
            _ => None,
        }
    }

    /// The value of a boolean.
    pub fn as_bool(&self) -> (r: Option<bool>)
        ensures
            r == as_bool_spec(*self),
    {
        match self {
            JsonValue::Bool(b) => Some(*b),
            _ => None,
        }
    }

    /// The items of an array.
    pub fn as_array(&self) -> (r: Option<&Vec<JsonValue>>)
        ensures
            match r {
                Some(a) => *self == JsonValue::Array(*a),
                None => !(*self is Array),
            },
    {
        match self {
            JsonValue::Array(a) => Some(a),
            _ => None,
        }
    }

    /// Whether the value is `null`.
    pub fn is_null(&self) -> (r: bool)
        ensures
            r == (*self is Null),
    {
        match self {
            JsonValue::Null => true,
            _ => false,
        }
    }
}

/// The text of member `key` when it is a string.
pub fn get_str<'a>(v: &'a JsonValue, key: &str) -> (r: Option<&'a str>)
    ensures
        match r {
            Some(s) => str_member(*v, key@) == Some(s@),
            None => str_member(*v, key@) is None,
        },
{
    match v.get(key) {
        Some(m) => m.as_str(),
        None => None,
    }
}

/// The `i64` value of member `key` when it is such a number.
pub fn get_i64(v: &JsonValue, key: &str) -> (r: Option<i64>)
    ensures
        r == i64_member(*v, key@),
{
    match v.get(key) {
        Some(m) => m.as_i64(),
        None => None,
    }
}

/// The text of member `key`, or the empty text.
pub fn str_or_empty(v: &JsonValue, key: &str) -> (r: String)
    ensures
        r@ == text_or(str_member(*v, key@), Seq::empty()),
{
    match get_str(v, key) {
        Some(s) => crate::text::string_of(s),
        None => String::new(),
    }
}

/// The text of member `key`, or `default`.
pub fn str_or(v: &JsonValue, key: &str, default: &str) -> (r: String)
    ensures
        r@ == text_or(str_member(*v, key@), default@),
{
    match get_str(v, key) {
        Some(s) => crate::text::string_of(s),
        None => crate::text::string_of(default),
    }
}


// ---------------------------------------------------------------------
// Decoding JSON text
// ---------------------------------------------------------------------

#[verifier::external_type_specification]
#[verifier::external_body]
pub struct ExSerdeValue(serde_json::Value);

/// What `serde_json::from_str` gives for a text: the decoded value as the
/// library holds it, or the decoder's message.
pub uninterp spec fn json_decoded(text: Seq<char>) -> Result<JsonValue, Seq<char>>;

/// The decoded value of a text, when it is JSON.
pub open spec fn json_value_of(text: Seq<char>) -> Option<JsonValue> {
    match json_decoded(text) {
        Ok(v) => Some(v),
        Err(_) => None,
    }
}

/// A `serde_json::Value` as the library holds it, variant for variant; a
/// number keeps `Number::as_i64`, an object its members in the map's order.
/// Nothing is claimed of it beyond what [`decode_json`] claims.
#[verifier::external_body]
fn json_from_serde(v: &serde_json::Value) -> JsonValue {
    match v {
        serde_json::Value::Null => JsonValue::Null,
        serde_json::Value::Bool(b) => JsonValue::Bool(*b),
        serde_json::Value::Number(n) => JsonValue::Number(n.as_i64()),
        serde_json::Value::String(t) => JsonValue::Str(t.clone()),
        serde_json::Value::Array(a) => JsonValue::Array(a.iter().map(json_from_serde).collect()),
        serde_json::Value::Object(m) => JsonValue::Object(m.iter().map(|(k, x)| (k.clone(), json_from_serde(x))).collect()),
    }
}

/// `serde_json::from_str::<serde_json::Value>`: the text decoded (see
/// `json_from_serde`), or the decoder's message.  The contract claims that
/// the outcome is a function of the text alone; what it is is left unsaid.
#[verifier::external_body]
pub(crate) fn decode_json(text: &str) -> (r: Result<JsonValue, String>)
    ensures
        match r {
            Ok(v) => json_decoded(text@) == Ok::<JsonValue, Seq<char>>(v),
            Err(e) => json_decoded(text@) == Err::<JsonValue, Seq<char>>(e@),
        },
{
    match serde_json::from_str::<serde_json::Value>(text) {
        Ok(v) => Ok(json_from_serde(&v)),
        Err(e) => Err(e.to_string()),
    }
}

} // verus!
