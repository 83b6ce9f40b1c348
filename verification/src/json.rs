//! JSON values as the library reads and builds them.
//!
//! Files, sockets and HTTP bodies are decoded where they are read; the library
//! works on this tree. Object members keep their order; lookups take the first
//! member with the key, as a decoded JSON object holds each key once.
use vstd::prelude::*;

verus! {

/// A JSON value.
#[derive(Debug, PartialEq)]
pub enum Json {
    Null,
    Bool(bool),
    /// A number: `Some(n)` when it is an integer that fits in `i64`,
    /// `None` for any other number.
    Num(Option<i64>),
    Str(String),
    Arr(Vec<Json>),
    Obj(Vec<(String, Json)>),
}

/// The mathematical value of a [`Json`].
#[verifier::ext_equal]
pub enum JsonV {
    Null,
    Bool(bool),
    Num(Option<i64>),
    Str(Seq<char>),
    Arr(Seq<JsonV>),
    Obj(Seq<(Seq<char>, JsonV)>),
}

pub open spec fn items_view(items: Seq<Json>) -> Seq<JsonV>
    decreases items,
{
    if items.len() == 0 {
        Seq::empty()
    } else {
        seq![json_view(items[0])] + items_view(items.drop_first())
    }
}

pub open spec fn fields_view(fields: Seq<(String, Json)>) -> Seq<(Seq<char>, JsonV)>
    decreases fields,
{
    if fields.len() == 0 {
        Seq::empty()
    } else {
        seq![(fields[0].0@, json_view(fields[0].1))] + fields_view(fields.drop_first())
    }
}

pub open spec fn json_view(j: Json) -> JsonV
    decreases j,
{
    match j {
        Json::Null => JsonV::Null,
        Json::Bool(b) => JsonV::Bool(b),
        Json::Num(n) => JsonV::Num(n),
        Json::Str(s) => JsonV::Str(s@),
        Json::Arr(items) => JsonV::Arr(items_view(items@)),
        Json::Obj(fields) => JsonV::Obj(fields_view(fields@)),
    }
}

impl View for Json {
    type V = JsonV;

    open spec fn view(&self) -> JsonV {
        json_view(*self)
    }
}

/// The view of an array holds the view of each element.
pub proof fn lemma_items_view(items: Seq<Json>)
    ensures
        items_view(items).len() == items.len(),
        forall|i: int| 0 <= i < items.len() ==> #[trigger] items_view(items)[i] == json_view(items[i]),
    decreases items.len(),
{
    if items.len() > 0 {
        lemma_items_view(items.drop_first());
        assert forall|i: int| 0 <= i < items.len() implies #[trigger] items_view(items)[i]
            == json_view(items[i]) by {
            if i > 0 {
                assert(items_view(items)[i] == items_view(items.drop_first())[i - 1]);
            }
        }
    }
}

/// The view of an object holds each member's name and the view of its value.
pub proof fn lemma_fields_view(fields: Seq<(String, Json)>)
    ensures
        fields_view(fields).len() == fields.len(),
        forall|i: int|
            0 <= i < fields.len() ==> #[trigger] fields_view(fields)[i] == (
                fields[i].0@,
                json_view(fields[i].1),
            ),
    decreases fields.len(),
{
    if fields.len() > 0 {
        lemma_fields_view(fields.drop_first());
        assert forall|i: int| 0 <= i < fields.len() implies #[trigger] fields_view(fields)[i] == (
            fields[i].0@,
            json_view(fields[i].1),
        ) by {
            if i > 0 {
                assert(fields_view(fields)[i] == fields_view(fields.drop_first())[i - 1]);
            }
        }
    }
}

/// First member of `fields` named `key`.
pub open spec fn lookup(fields: Seq<(Seq<char>, JsonV)>, key: Seq<char>) -> Option<JsonV>
    decreases fields.len(),
{
    if fields.len() == 0 {
        None
    } else if fields[0].0 == key {
        Some(fields[0].1)
    } else {
        lookup(fields.drop_first(), key)
    }
}

impl JsonV {
    /// `v.get(key)`: the member named `key` of an object.
    pub open spec fn get(self, key: Seq<char>) -> Option<JsonV> {
        match self {
            JsonV::Obj(fields) => lookup(fields, key),
            _ => None,
        }
    }

    /// `v[key]`: the member named `key`, or `null`.
    pub open spec fn field(self, key: Seq<char>) -> JsonV {
        match self.get(key) {
            Some(v) => v,
            None => JsonV::Null,
        }
    }

    /// `v[i]`: the `i`-th element of an array, or `null`.
    pub open spec fn item(self, i: int) -> JsonV {
        match self {
            JsonV::Arr(items) => if 0 <= i < items.len() {
                items[i]
            } else {
                JsonV::Null
            },
            _ => JsonV::Null,
        }
    }

    /// `v.as_str()`.
    pub open spec fn as_str(self) -> Option<Seq<char>> {
        match self {
            JsonV::Str(s) => Some(s),
            _ => None,
        }
    }

    /// `v.as_i64()`.
    pub open spec fn as_i64(self) -> Option<i64> {
        match self {
            JsonV::Num(n) => n,
            _ => None,
        }
    }

    /// `v.as_bool()`.
    pub open spec fn as_bool(self) -> Option<bool> {
        match self {
            JsonV::Bool(b) => Some(b),
            _ => None,
        }
    }

    /// `v.as_array()`.
    pub open spec fn as_array(self) -> Option<Seq<JsonV>> {
        match self {
            JsonV::Arr(items) => Some(items),
            _ => None,
        }
    }
}

impl Json {
    /// `v.get(key)`.
    pub fn get(&self, key: &str) -> (r: Option<&Json>)
        ensures
            match r {
                Some(v) => self@.get(key@) == Some(v@),
                None => self@.get(key@) is None,
            },
    {
        match self {
            Json::Obj(fields) => {
                let k = crate::text::owned(key);
                let ghost fv = fields_view(fields@);
                proof {
                    lemma_fields_view(fields@);
                    assert(fv.skip(0) =~= fv);
                }
                let mut i: usize = 0;
                while i < fields.len()
                    invariant
                        i <= fields.len(),
                        k@ == key@,
                        fv == fields_view(fields@),
                        fv.len() == fields@.len(),
                        forall|j: int|
                            0 <= j < fields@.len() ==> #[trigger] fv[j] == (
                                fields@[j].0@,
                                json_view(fields@[j].1),
                            ),
                        self@.get(key@) == lookup(fv, key@),
                        lookup(fv, key@) == lookup(fv.skip(i as int), key@),
                    decreases fields.len() - i,
                {
                    assert(fv.skip(i as int)[0] == fv[i as int]);
                    if fields[i].0 == k {
                        let r = &fields[i].1;
                        assert(lookup(fv.skip(i as int), key@) == Some(json_view(*r)));
                        return Some(r);
                    }
                    assert(fv.skip(i as int).drop_first() =~= fv.skip(i + 1));
                    i += 1;
                }
                None
            },
            _ => None,
        }
    }

    /// `v.as_str()`.
    pub fn as_str(&self) -> (r: Option<&str>)
        ensures
            match r {
                Some(s) => self@.as_str() == Some(s@),
                None => self@.as_str() is None,
            },
    {
        match self {
            Json::Str(s) => Some(s.as_str()),
            _ => None,
        }
    }

    /// `v.as_i64()`.
    pub fn as_i64(&self) -> (r: Option<i64>)
        ensures
            r == self@.as_i64(),
    {
        match self {
            Json::Num(n) => *n,
            _ => None,
        }
    }

    /// `v.as_bool()`.
    pub fn as_bool(&self) -> (r: Option<bool>)
        ensures
            r == self@.as_bool(),
    {
        match self {
            Json::Bool(b) => Some(*b),
            _ => None,
        }
    }

    /// `v.as_array()`.
    pub fn as_array(&self) -> (r: Option<&Vec<Json>>)
        ensures
            match r {
                Some(a) => self@.as_array() == Some(items_view(a@)),
                None => self@.as_array() is None,
            },
    {
        match self {
            Json::Arr(items) => Some(items),
            _ => None,
        }
    }

    /// `v.is_null()`.
    pub fn is_null(&self) -> (r: bool)
        ensures
            r == (self@ is Null),
    {
        match self {
            Json::Null => true,
            _ => false,
        }
    }

    /// `v[i]` for an array `v`, or `None`.
    pub fn at(&self, i: usize) -> (r: Option<&Json>)
        ensures
            match r {
                Some(x) => self@.item(i as int) == x@ && self@ is Arr,
                None => self@.item(i as int) is Null,
            },
    {
        match self {
            Json::Arr(items) => {
                proof {
                    lemma_items_view(items@);
                }
                if i < items.len() {
                    Some(&items[i])
                } else {
                    None
                }
            },
            _ => None,
        }
    }
}

/// A deep copy of `j`.
pub fn copy_json(j: &Json) -> (r: Json)
    ensures
        r@ == j@,
    decreases j,
{
    match j {
        Json::Null => Json::Null,
        Json::Bool(b) => Json::Bool(*b),
        Json::Num(n) => Json::Num(*n),
        Json::Str(s) => Json::Str(s.clone()),
        Json::Arr(items) => {
            let mut out: Vec<Json> = Vec::new();
            let mut i: usize = 0;
            while i < items.len()
                invariant
                    i <= items.len(),
                    *j == Json::Arr(*items),
                    items_view(out@) == items_view(items@.take(i as int)),
                decreases items.len() - i,
            {
                proof {
                    assert(j->Arr_0 == *items);
                    assert(decreases_to!(*j => j->Arr_0));
                    assert(decreases_to!(*items => items@));
                    assert(decreases_to!(items@ => items@[i as int]));
                    assert(decreases_to!(*j => items@[i as int]));
                }
                let x = copy_json(&items[i]);
                proof {
                    lemma_items_push(out@, x);
                    lemma_items_push(items@.take(i as int), items@[i as int]);
                    assert(items@.take(i + 1) =~= items@.take(i as int).push(items@[i as int]));
                }
                out.push(x);
                i += 1;
            }
            assert(items@.take(items.len() as int) =~= items@);
            Json::Arr(out)
        },
        Json::Obj(fields) => {
            let mut out: Vec<(String, Json)> = Vec::new();
            let mut i: usize = 0;
            while i < fields.len()
                invariant
                    i <= fields.len(),
                    *j == Json::Obj(*fields),
                    fields_view(out@) == fields_view(fields@.take(i as int)),
                decreases fields.len() - i,
            {
                let k = fields[i].0.clone();
                proof {
                    assert(j->Obj_0 == *fields);
                    assert(decreases_to!(*j => j->Obj_0));
                    assert(decreases_to!(*fields => fields@));
                    assert(decreases_to!(fields@ => fields@[i as int]));
                    assert(decreases_to!(fields@[i as int] => fields@[i as int].1));
                    assert(decreases_to!(*j => fields@[i as int].1));
                }
                let x = copy_json(&fields[i].1);
                proof {
                    lemma_fields_push(out@, (k, x));
                    lemma_fields_push(fields@.take(i as int), fields@[i as int]);
                    assert(fields@.take(i + 1) =~= fields@.take(i as int).push(fields@[i as int]));
                }
                out.push((k, x));
                i += 1;
            }
            assert(fields@.take(fields.len() as int) =~= fields@);
            Json::Obj(out)
        },
    }
}

/// Appending an element appends its view.
pub proof fn lemma_items_push(items: Seq<Json>, x: Json)
    ensures
        items_view(items.push(x)) == items_view(items).push(json_view(x)),
    decreases items.len(),
{
    let t = items.push(x);
    if items.len() == 0 {
        assert(t[0] == x);
        assert(t.drop_first() =~= items);
        assert(items_view(items) == Seq::<JsonV>::empty());
        assert(items_view(t) == seq![json_view(x)] + items_view(t.drop_first()));
        assert(items_view(t) =~= items_view(items).push(json_view(x)));
    } else {
        lemma_items_push(items.drop_first(), x);
        assert(items.push(x).drop_first() =~= items.drop_first().push(x));
        assert(items_view(items.push(x)) =~= items_view(items).push(json_view(x)));
    }
}

/// Appending a member appends its view.
pub proof fn lemma_fields_push(fields: Seq<(String, Json)>, x: (String, Json))
    ensures
        fields_view(fields.push(x)) == fields_view(fields).push((x.0@, json_view(x.1))),
    decreases fields.len(),
{
    let t = fields.push(x);
    if fields.len() == 0 {
        assert(t[0] == x);
        assert(t.drop_first() =~= fields);
        assert(fields_view(fields) == Seq::<(Seq<char>, JsonV)>::empty());
        assert(fields_view(t) == seq![(x.0@, json_view(x.1))] + fields_view(t.drop_first()));
        assert(fields_view(t) =~= fields_view(fields).push((x.0@, json_view(x.1))));
    } else {
        lemma_fields_push(fields.drop_first(), x);
        assert(fields.push(x).drop_first() =~= fields.drop_first().push(x));
        assert(fields_view(fields.push(x)) =~= fields_view(fields).push((x.0@, json_view(x.1))));
    }
}

/// `v[key].as_str()`: the string member named `key`.
pub open spec fn str_field(v: JsonV, key: Seq<char>) -> Option<Seq<char>> {
    v.field(key).as_str()
}

/// The string member named `key` of `v`, as an owned string.
pub fn get_str(v: &Json, key: &str) -> (r: Option<String>)
    ensures
        match r {
            Some(s) => str_field(v@, key@) == Some(s@),
            None => str_field(v@, key@) is None,
        },
{
    match v.get(key) {
        Some(x) => match x.as_str() {
            Some(s) => Some(crate::text::owned(s)),
            None => None,
        },
        None => None,
    }
}

/// The string member named `key` of `v`, or `""` (`as_str().unwrap_or_default()`).
pub fn get_str_or_empty(v: &Json, key: &str) -> (r: String)
    ensures
        r@ == match str_field(v@, key@) {
            Some(s) => s,
            None => Seq::<char>::empty(),
        },
{
    match get_str(v, key) {
        Some(s) => s,
        None => String::new(),
    }
}

/// A string value.
pub fn jstr(s: &str) -> (r: Json)
    ensures
        r@ == JsonV::Str(s@),
{
    Json::Str(crate::text::owned(s))
}

/// An object from its members, in order.
pub fn jobj(fields: Vec<(String, Json)>) -> (r: Json)
    ensures
        r@ == JsonV::Obj(fields_view(fields@)),
{
    Json::Obj(fields)
}

/// Append the member `key: value`.
pub fn push_member(fields: &mut Vec<(String, Json)>, key: &str, value: Json)
    ensures
        fields_view(final(fields)@) == fields_view(old(fields)@).push((key@, value@)),
{
    let m = (crate::text::owned(key), value);
    proof {
        lemma_fields_push(fields@, m);
    }
    fields.push(m);
}

/// No members.
pub fn no_members() -> (r: Vec<(String, Json)>)
    ensures
        fields_view(r@) == Seq::<(Seq<char>, JsonV)>::empty(),
{
    let r: Vec<(String, Json)> = Vec::new();
    assert(r@ =~= Seq::<(String, Json)>::empty());
    r
}

/// Append an element.
pub fn push_item(items: &mut Vec<Json>, value: Json)
    ensures
        items_view(final(items)@) == items_view(old(items)@).push(value@),
{
    proof {
        lemma_items_push(items@, value);
    }
    items.push(value);
}

/// No elements.
pub fn no_items() -> (r: Vec<Json>)
    ensures
        items_view(r@) == Seq::<JsonV>::empty(),
{
    let r: Vec<Json> = Vec::new();
    assert(r@ =~= Seq::<Json>::empty());
    r
}

/// A member `key: value`.
pub fn member(key: &str, value: Json) -> (r: (String, Json))
    ensures
        r.0@ == key@,
        r.1 == value,
{
    (crate::text::owned(key), value)
}

// --- decoding text ------------------------------------------------------------

#[verifier::external_type_specification]
#[verifier::external_body]
pub struct ExJsonValue(serde_json::Value);

/// What `serde_json` decodes `text` to, as the library's tree (`None`:
/// not JSON).
pub uninterp spec fn json_text(text: Seq<char>) -> Option<JsonV>;

/// `serde_json`'s message for text it cannot decode.
pub uninterp spec fn json_error(text: Seq<char>) -> Seq<char>;

/// What `serde_json` decodes the bytes `b` to (`None`: not JSON).
pub uninterp spec fn json_bytes(b: Seq<u8>) -> Option<JsonV>;

/// A decoded `serde_json::Value` as the library's tree, one variant for
/// one variant (numbers by `Number::as_i64`); the conversion step of
/// `parse_json` and `parse_json_bytes`, which state what it yields.
#[verifier::external_body]
fn tree_of(v: &serde_json::Value) -> Json {
    match v {
        serde_json::Value::Null => Json::Null,
        serde_json::Value::Bool(b) => Json::Bool(*b),
        serde_json::Value::Number(n) => Json::Num(n.as_i64()),
        serde_json::Value::String(s) => Json::Str(s.clone()),
        serde_json::Value::Array(a) => Json::Arr(a.iter().map(tree_of).collect()),
        serde_json::Value::Object(m) => Json::Obj(m.iter().map(|(k, x)| (k.clone(), tree_of(x))).collect()),
    }
}

/// `serde_json::from_str::<serde_json::Value>(text)`, converted to the
/// library's tree. Its contract names the result: the decoding depends on
/// nothing but the text; on failure, the error's message.
#[verifier::external_body]
pub fn parse_json(text: &str) -> (r: Result<Json, String>)
    ensures
        match r {
            Ok(j) => json_text(text@) == Some(j@),
            Err(e) => json_text(text@) is None && e@ == json_error(text@),
        },
{
    match serde_json::from_str::<serde_json::Value>(text) {
        Ok(v) => Ok(tree_of(&v)),
        Err(e) => Err(e.to_string()),
    }
}

/// `serde_json::from_slice::<serde_json::Value>(b)`, converted to the
/// library's tree. Its contract names the result, which depends on nothing
/// but the bytes.
#[verifier::external_body]
pub fn parse_json_bytes(b: &[u8]) -> (r: Option<Json>)
    ensures
        match r {
            Some(j) => json_bytes(b@) == Some(j@),
            None => json_bytes(b@) is None,
        },
{
    match serde_json::from_slice::<serde_json::Value>(b) {
        Ok(v) => Some(tree_of(&v)),
        Err(_) => None,
    }
}

} // verus!
