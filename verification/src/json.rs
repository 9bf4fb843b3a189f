//! A JSON document model: the values the protocol logic reads and builds.

use vstd::prelude::*;
use serde_json::Value;

verus! {

/// A JSON number, kept as the representation the parser chose for it.
pub enum JsonNumber {
    /// A non-negative integer.
    PosInt(u64),
    /// A negative integer.
    NegInt(i64),
    /// Any other number, kept by its decimal text.
    Float(String),
}

/// A JSON value.
pub enum JsonValue {
    Null,
    Bool(bool),
    Number(JsonNumber),
    Str(String),
    Array(Vec<JsonValue>),
    /// Members in document order; a lookup finds the first with its key.
    Object(Vec<(String, JsonValue)>),
}

/// The mathematical view of a JSON number.
pub enum NumberView {
    PosInt(u64),
    NegInt(i64),
    Float(Seq<char>),
}

/// The mathematical view of a JSON value.
pub enum JsonView {
    Null,
    Bool(bool),
    Number(NumberView),
    Str(Seq<char>),
    Array(Seq<JsonView>),
    Object(Seq<(Seq<char>, JsonView)>),
}

pub open spec fn json_view(v: JsonValue) -> JsonView
    decreases v,
{
    match v {
        JsonValue::Null => JsonView::Null,
        JsonValue::Bool(b) => JsonView::Bool(b),
        JsonValue::Number(n) => JsonView::Number(
            match n {
                JsonNumber::PosInt(u) => NumberView::PosInt(u),
                JsonNumber::NegInt(i) => NumberView::NegInt(i),
                JsonNumber::Float(s) => NumberView::Float(s@),
            },
        ),
        JsonValue::Str(s) => JsonView::Str(s@),
        JsonValue::Array(a) => JsonView::Array(
            Seq::new(a@.len(), |i: int| if 0 <= i < a@.len() { json_view(a@[i]) } else { JsonView::Null }),
        ),
        JsonValue::Object(f) => JsonView::Object(
            Seq::new(f@.len(), |i: int|
                if 0 <= i < f@.len() { (f@[i].0@, json_view(f@[i].1)) } else { (Seq::empty(), JsonView::Null) }),
        ),
    }
}


impl View for JsonValue {
    type V = JsonView;

    open spec fn view(&self) -> JsonView {
        json_view(*self)
    }
}

/// The value of the first member named `key`, if any.
pub open spec fn lookup(fields: Seq<(Seq<char>, JsonView)>, key: Seq<char>) -> Option<JsonView>
    decreases fields.len(),
{
    if fields.len() == 0 {
        None
    } else if fields[0].0 == key {
        Some(fields[0].1)
    } else {
        lookup(fields.drop_first(), key)
    }
}

impl JsonView {
    /// The member `key` of an object; `None` for a missing member or a non-object.
    pub open spec fn get(self, key: Seq<char>) -> Option<JsonView> {
        match self {
            JsonView::Object(f) => lookup(f, key),
            _ => None,
        }
    }

    /// Indexing by key: the member `key`, or `Null` where there is none.
    pub open spec fn at(self, key: Seq<char>) -> JsonView {
        match self.get(key) {
            Some(v) => v,
            None => JsonView::Null,
        }
    }

    pub open spec fn as_str(self) -> Option<Seq<char>> {
        match self {
            JsonView::Str(s) => Some(s),
            _ => None,
        }
    }

    pub open spec fn as_array(self) -> Option<Seq<JsonView>> {
        match self {
            JsonView::Array(a) => Some(a),
            _ => None,
        }
    }

    /// Whether this value is the unsigned integer `n`.
    pub open spec fn is_u64(self, n: u64) -> bool {
        self == JsonView::Number(NumberView::PosInt(n))
    }

    /// A string member of an object, or the empty string.
    pub open spec fn str_or_empty(self, key: Seq<char>) -> Seq<char> {
        match self.at(key).as_str() {
            Some(s) => s,
            None => Seq::empty(),
        }
    }
}

/// The view of an array lists the views of its items.
pub proof fn lemma_array_view(v: JsonValue)
    requires
        v is Array,
    ensures
        v@ == JsonView::Array(v->Array_0@.map_values(|x: JsonValue| x@)),
{
    assert(v@->Array_0 =~= v->Array_0@.map_values(|x: JsonValue| x@));
}

/// The view of an object lists the views of its members.
pub proof fn lemma_object_view(v: JsonValue)
    requires
        v is Object,
    ensures
        v@ == JsonView::Object(v->Object_0@.map_values(|e: (String, JsonValue)| (e.0@, e.1@))),
{
    assert(v@->Object_0 =~= v->Object_0@.map_values(|e: (String, JsonValue)| (e.0@, e.1@)));
}

proof fn lemma_lookup_skip(fields: Seq<(Seq<char>, JsonView)>, key: Seq<char>, i: int)
    requires
        0 <= i < fields.len(),
        forall|j: int| 0 <= j < i ==> fields[j].0 != key,
    ensures
        lookup(fields, key) == lookup(fields.skip(i), key),
    decreases i,
{
    if i == 0 {
        assert(fields.skip(0) =~= fields);
    } else {
        assert(fields.drop_first().skip(i - 1) =~= fields.skip(i));
        lemma_lookup_skip(fields.drop_first(), key, i - 1);
    }
}

proof fn lemma_lookup_absent(fields: Seq<(Seq<char>, JsonView)>, key: Seq<char>)
    requires
        forall|j: int| 0 <= j < fields.len() ==> fields[j].0 != key,
    ensures
        lookup(fields, key) is None,
    decreases fields.len(),
{
    if fields.len() > 0 {
        lemma_lookup_absent(fields.drop_first(), key);
    }
}

impl JsonValue {
    /// The member `key` of an object (serde_json's `Value::get` with a string key).
    pub fn get(&self, key: &str) -> (r: Option<&JsonValue>)
        ensures
            match r {
                Some(v) => self@.get(key@) == Some(v@),
                None => self@.get(key@) is None,
            },
    {
        match self {
            JsonValue::Object(fields) => {
                let k = key.to_owned();
                let ghost fv = match self@ {
                    JsonView::Object(f) => f,
                    _ => Seq::empty(),
                };
                let mut i: usize = 0;
                while i < fields.len()
                    invariant
                        self@ == JsonView::Object(fv),
                        *self == JsonValue::Object(*fields),
                        fv.len() == fields@.len(),
                        forall|j: int| 0 <= j < fields@.len() ==> #[trigger] fv[j] == (fields@[j].0@, fields@[j].1@),
                        k@ == key@,
                        i <= fields.len(),
                        forall|j: int| 0 <= j < i ==> fv[j].0 != key@,
                    decreases fields.len() - i,
                {
                    if fields[i].0 == k {
                        proof {
                            lemma_lookup_skip(fv, key@, i as int);
                            assert(fv.skip(i as int)[0] == fv[i as int]);
                        }
                        return Some(&fields[i].1);
                    }
                    i = i + 1;
                }
                proof {
                    lemma_lookup_absent(fv, key@);
                }
                None
            },
            _ => None,
        }
    }

    pub fn as_str(&self) -> (r: Option<&String>)
        ensures
            match r {
                Some(s) => self@.as_str() == Some(s@),
                None => self@.as_str() is None,
            },
    {
        match self {
            JsonValue::Str(s) => Some(s),
            _ => None,
        }
    }

    pub fn as_array(&self) -> (r: Option<&Vec<JsonValue>>)
        ensures
            match r {
                Some(a) => self@.as_array() == Some(a@.map_values(|x: JsonValue| x@)),
                None => self@.as_array() is None,
            },
    {
        match self {
            JsonValue::Array(a) => {
                assert(self@.as_array()->0 =~= a@.map_values(|x: JsonValue| x@));
                Some(a)
            },
            _ => None,
        }
    }

    /// Whether this value is the unsigned integer `n` (serde_json's `value == n`).
    pub fn is_u64(&self, n: u64) -> (r: bool)
        ensures
            r == self@.is_u64(n),
    {
        match self {
            JsonValue::Number(JsonNumber::PosInt(m)) => *m == n,
            _ => false,
        }
    }

    /// A copy of this value.
    pub fn deep_copy(&self) -> (r: JsonValue)
        ensures
            r@ == self@,
        decreases self,
    {
        match self {
            JsonValue::Null => JsonValue::Null,
            JsonValue::Bool(b) => JsonValue::Bool(*b),
            JsonValue::Number(JsonNumber::PosInt(u)) => JsonValue::Number(JsonNumber::PosInt(*u)),
            JsonValue::Number(JsonNumber::NegInt(i)) => JsonValue::Number(JsonNumber::NegInt(*i)),
            JsonValue::Number(JsonNumber::Float(s)) => JsonValue::Number(JsonNumber::Float(s.clone())),
            JsonValue::Str(s) => JsonValue::Str(s.clone()),
            JsonValue::Array(a) => {
                let mut out: Vec<JsonValue> = Vec::new();
                let mut i: usize = 0;
                while i < a.len()
                    invariant
                        *self == JsonValue::Array(*a),
                        i <= a.len(),
                        out@.len() == i,
                        forall|j: int| 0 <= j < i ==> json_view(#[trigger] out@[j]) == json_view(a@[j]),
                    decreases a.len() - i,
                {
                    proof {
                        assert(decreases_to!(*self => (*self)->Array_0));
                        assert(decreases_to!(*a => a@));
                        assert(decreases_to!(a@ => a@[i as int]));
                    }
                    let c = a[i].deep_copy();
                    out.push(c);
                    i = i + 1;
                }
                let r = JsonValue::Array(out);
                assert(r@ == self@) by {
                    assert(r@->Array_0 =~= self@->Array_0);
                }
                r
            },
            JsonValue::Object(f) => {
                let mut out: Vec<(String, JsonValue)> = Vec::new();
                let mut i: usize = 0;
                while i < f.len()
                    invariant
                        *self == JsonValue::Object(*f),
                        i <= f.len(),
                        out@.len() == i,
                        forall|j: int|
                            0 <= j < i ==> (#[trigger] out@[j]).0@ == f@[j].0@ && json_view(out@[j].1) == json_view(f@[j].1),
                    decreases f.len() - i,
                {
                    proof {
                        assert(decreases_to!(*self => (*self)->Object_0));
                        assert(decreases_to!(*f => f@));
                        assert(decreases_to!(f@ => f@[i as int]));
                        assert(decreases_to!(f@[i as int] => f@[i as int].1));
                    }
                    let c = f[i].1.deep_copy();
                    out.push((f[i].0.clone(), c));
                    i = i + 1;
                }
                let r = JsonValue::Object(out);
                assert(r@ == self@) by {
                    assert(r@->Object_0 =~= self@->Object_0);
                }
                r
            },
        }
    }
}

/// The first member with a key is what a lookup finds.
pub proof fn lemma_lookup_at(fields: Seq<(Seq<char>, JsonView)>, i: int)
    requires
        0 <= i < fields.len(),
        forall|j: int| 0 <= j < i ==> (#[trigger] fields[j]).0 != fields[i].0,
    ensures
        lookup(fields, fields[i].0) == Some(fields[i].1),
    decreases i,
{
    if i > 0 {
        assert forall|j: int| 0 <= j < i - 1 implies (#[trigger] fields.drop_first()[j]).0 != fields.drop_first()[i - 1].0 by {
            assert(fields.drop_first()[j] == fields[j + 1]);
        }
        lemma_lookup_at(fields.drop_first(), i - 1);
        assert(fields[0].0 != fields[i].0);
    }
}

/// A key no member has is not found.
pub proof fn lemma_lookup_none(fields: Seq<(Seq<char>, JsonView)>, key: Seq<char>)
    requires
        forall|j: int| 0 <= j < fields.len() ==> (#[trigger] fields[j]).0 != key,
    ensures
        lookup(fields, key) is None,
    decreases fields.len(),
{
    if fields.len() > 0 {
        assert forall|j: int| 0 <= j < fields.drop_first().len() implies (#[trigger] fields.drop_first()[j]).0 != key by {
            assert(fields.drop_first()[j] == fields[j + 1]);
        }
        lemma_lookup_none(fields.drop_first(), key);
    }
}

// ── JSON text, read and written by serde_json ───────────────────────────

#[verifier::external_type_specification]
#[verifier::external_body]
pub struct ExSerdeValue(Value);

/// What serde_json reads from `text`: the document, or the text of its error.
pub uninterp spec fn parsed_json(text: Seq<char>) -> Result<JsonView, Seq<char>>;

/// The text serde_json writes for a value (one line, no extra white space).
pub uninterp spec fn json_text(v: JsonView) -> Seq<char>;

/// The library's value of a serde_json value, variant by variant; a number
/// keeps the representation serde_json chose for it.
#[verifier::external_body]
fn json_of_serde(v: &Value) -> JsonValue {
    match v {
        Value::Null => JsonValue::Null,
        Value::Bool(b) => JsonValue::Bool(*b),
        Value::Number(n) => JsonValue::Number(match (n.as_u64(), n.as_i64()) {
            (Some(u), _) => JsonNumber::PosInt(u),
            (None, Some(i)) => JsonNumber::NegInt(i),
            (None, None) => JsonNumber::Float(n.to_string()),
        }),
        Value::String(s) => JsonValue::Str(s.clone()),
        Value::Array(a) => JsonValue::Array(a.iter().map(json_of_serde).collect()),
        Value::Object(m) => JsonValue::Object(m.iter().map(|(k, x)| (k.clone(), json_of_serde(x))).collect()),
    }
}

/// The serde_json value of a library value, variant by variant; a number
/// kept as text is read back by serde_json (`null` where it cannot be).
#[verifier::external_body]
fn serde_of_json(v: &JsonValue) -> Value {
    match v {
        JsonValue::Null => Value::Null,
        JsonValue::Bool(b) => Value::Bool(*b),
        JsonValue::Number(JsonNumber::PosInt(u)) => Value::from(*u),
        JsonValue::Number(JsonNumber::NegInt(i)) => Value::from(*i),
        JsonValue::Number(JsonNumber::Float(t)) => serde_json::from_str(t).unwrap_or(Value::Null),
        JsonValue::Str(s) => Value::String(s.clone()),
        JsonValue::Array(a) => Value::Array(a.iter().map(serde_of_json).collect()),
        JsonValue::Object(f) => Value::Object(f.iter().map(|(k, x)| (k.clone(), serde_of_json(x))).collect()),
    }
}

/// Reads JSON text (`serde_json::from_str::<serde_json::Value>`): the
/// document, or the text of serde_json's error. The contract claims only
/// that the outcome is a function of the text; which texts serde_json
/// accepts, and its error messages, are left to its documentation.
#[verifier::external_body]
pub(crate) fn parse_json(text: &str) -> (r: Result<JsonValue, String>)
    ensures
        match r {
            Ok(v) => parsed_json(text@) == Ok::<JsonView, Seq<char>>(v@),
            Err(e) => parsed_json(text@) == Err::<JsonView, Seq<char>>(e@),
        },
{
    match serde_json::from_str::<Value>(text) {
        Ok(v) => Ok(json_of_serde(&v)),
        Err(e) => Err(e.to_string()),
    }
}

/// Writes a value as JSON text (`serde_json::to_string`); the contract
/// claims only that the text is a function of the value.
#[verifier::external_body]
pub(crate) fn to_json_text(v: &JsonValue) -> (r: String)
    ensures
        r@ == json_text(v@),
{
    match serde_json::to_string(&serde_of_json(v)) {
        Ok(t) => t,
        Err(_) => String::new(),
    }
}

} // verus!
