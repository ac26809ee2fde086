//! JSON values.

use vstd::prelude::*;
#[allow(unused_imports)]
use vstd::utf8::encode_utf8;

#[allow(unused_imports)]
use crate::order::text_le;
use crate::text::text_eq;

verus! {

/// A JSON number that is not an integer, as `serde_json::Number` keeps it. It
/// is carried along unread.
#[verifier::external_type_specification]
#[verifier::external_body]
pub struct ExNumber(serde_json::Number);

/// `serde_json::Number::clone`: a copy of the number.
pub assume_specification[ <serde_json::Number as Clone>::clone ](
    n: &serde_json::Number,
) -> (r: serde_json::Number)
    ensures
        r == *n,
;

/// A JSON document as `serde_json::Value` holds it.
#[verifier::external_type_specification]
#[verifier::external_body]
pub struct ExValue(serde_json::Value);

/// A JSON value. The fields of an object stand in the order in which they are
/// walked.
#[derive(Debug, PartialEq)]
pub enum Json {
    Null,
    Bool(bool),
    /// An integer from zero up.
    Unsigned(u64),
    /// An integer below zero.
    Negative(i64),
    /// Any other number.
    Fraction(serde_json::Number),
    Text(String),
    Array(Vec<Json>),
    Object(Vec<(String, Json)>),
}

// ---------------------------------------------------------------------------
// Models
// ---------------------------------------------------------------------------

/// The mathematical content of a JSON value.
pub enum JsonView {
    Null,
    Bool(bool),
    Unsigned(u64),
    Negative(i64),
    Fraction(serde_json::Number),
    Text(Seq<char>),
    Array(Seq<JsonView>),
    Object(Seq<(Seq<char>, JsonView)>),
}

/// The value of the first field named `key`.
pub open spec fn lookup(fields: Seq<(Seq<char>, JsonView)>, key: Seq<char>) -> Option<JsonView>
    decreases fields.len(),
{
    if fields.len() == 0 {
        None
    } else if fields[0].0 == key {
        Some(fields[0].1)
    } else {
        lookup(fields.drop_first(), key)
    }
}

/// The fields with the first one named `key` set to `value`, or with such a
/// field added at the end.
pub open spec fn with_field(
    fields: Seq<(Seq<char>, JsonView)>,
    key: Seq<char>,
    value: JsonView,
) -> Seq<(Seq<char>, JsonView)>
    decreases fields.len(),
{
    if fields.len() == 0 {
        seq![(key, value)]
    } else if fields[0].0 == key {
        seq![(key, value)] + fields.drop_first()
    } else {
        seq![fields[0]] + with_field(fields.drop_first(), key, value)
    }
}

impl JsonView {
    /// The field `key` of an object.
    pub open spec fn get(self, key: Seq<char>) -> Option<JsonView> {
        match self {
            JsonView::Object(fields) => lookup(fields, key),
            _ => None,
        }
    }

    /// The value that results from setting the field `key`; null is taken for
    /// an object without fields.
    pub open spec fn set(self, key: Seq<char>, value: JsonView) -> JsonView {
        match self {
            JsonView::Object(fields) => JsonView::Object(with_field(fields, key, value)),
            _ => JsonView::Object(seq![(key, value)]),
        }
    }

    /// Fields can be set: the value is an object or null.
    pub open spec fn settable(self) -> bool {
        self is Object || self is Null
    }

    pub open spec fn text(self) -> Option<Seq<char>> {
        match self {
            JsonView::Text(s) => Some(s),
            _ => None,
        }
    }

    pub open spec fn boolean(self) -> Option<bool> {
        match self {
            JsonView::Bool(b) => Some(b),
            _ => None,
        }
    }

    pub open spec fn unsigned(self) -> Option<u64> {
        match self {
            JsonView::Unsigned(n) => Some(n),
            _ => None,
        }
    }

    /// The integer, where it lies in the range of `i64`.
    pub open spec fn signed(self) -> Option<i64> {
        match self {
            JsonView::Unsigned(n) => if n <= i64::MAX {
                Some(n as i64)
            } else {
                None
            },
            JsonView::Negative(n) => Some(n),
            _ => None,
        }
    }

    /// The value is a number.
    pub open spec fn is_number(self) -> bool {
        self is Unsigned || self is Negative || self is Fraction
    }

    /// The value itself, where it is a number.
    pub open spec fn number(self) -> Option<JsonView> {
        if self.is_number() {
            Some(self)
        } else {
            None
        }
    }

    pub open spec fn items(self) -> Option<Seq<JsonView>> {
        match self {
            JsonView::Array(s) => Some(s),
            _ => None,
        }
    }

    pub open spec fn fields(self) -> Option<Seq<(Seq<char>, JsonView)>> {
        match self {
            JsonView::Object(s) => Some(s),
            _ => None,
        }
    }

    /// The text of the field `key`.
    pub open spec fn text_field(self, key: Seq<char>) -> Option<Seq<char>> {
        match self.get(key) {
            Some(v) => v.text(),
            None => None,
        }
    }

    /// The number in the field `key`.
    pub open spec fn number_field(self, key: Seq<char>) -> Option<JsonView> {
        match self.get(key) {
            Some(v) => v.number(),
            None => None,
        }
    }

    /// The `i64` in the field `key`.
    pub open spec fn signed_field(self, key: Seq<char>) -> Option<i64> {
        match self.get(key) {
            Some(v) => v.signed(),
            None => None,
        }
    }

    /// The field `inner` of the object in the field `outer`.
    pub open spec fn nested(self, outer: Seq<char>, inner: Seq<char>) -> Option<JsonView> {
        match self.get(outer) {
            Some(v) => v.get(inner),
            None => None,
        }
    }
}

impl Json {
    pub open spec fn view(&self) -> JsonView
        decreases self,
    {
        match *self {
            Json::Null => JsonView::Null,
            Json::Bool(b) => JsonView::Bool(b),
            Json::Unsigned(n) => JsonView::Unsigned(n),
            Json::Negative(n) => JsonView::Negative(n),
            Json::Fraction(n) => JsonView::Fraction(n),
            Json::Text(s) => JsonView::Text(s@),
            Json::Array(v) => JsonView::Array(
                Seq::new(
                    v@.len(),
                    |i: int|
                        if 0 <= i < v@.len() {
                            v@[i].view()
                        } else {
                            JsonView::Null
                        },
                ),
            ),
            Json::Object(v) => JsonView::Object(
                Seq::new(
                    v@.len(),
                    |i: int|
                        if 0 <= i < v@.len() {
                            (v@[i].0@, v@[i].1.view())
                        } else {
                            (Seq::empty(), JsonView::Null)
                        },
                ),
            ),
        }
    }
}

/// The view of an optional value.
pub open spec fn opt_json(v: Option<Json>) -> Option<JsonView> {
    match v {
        Some(j) => Some(j@),
        None => None,
    }
}

/// The view of an optional borrowed value.
pub open spec fn opt_json_ref(v: Option<&Json>) -> Option<JsonView> {
    match v {
        Some(j) => Some(j@),
        None => None,
    }
}

/// The views of the values of an array.
pub open spec fn json_views(v: Seq<Json>) -> Seq<JsonView> {
    Seq::new(v.len(), |i: int| v[i]@)
}

/// The views of the fields of an object.
pub open spec fn field_views(v: Seq<(String, Json)>) -> Seq<(Seq<char>, JsonView)> {
    Seq::new(v.len(), |i: int| (v[i].0@, v[i].1@))
}

// ---------------------------------------------------------------------------
// Lemmas
// ---------------------------------------------------------------------------

pub proof fn lemma_array_view(v: Vec<Json>)
    ensures
        Json::Array(v)@ == JsonView::Array(json_views(v@)),
{
    assert(Json::Array(v)@->Array_0 =~= json_views(v@));
}

pub proof fn lemma_object_view(v: Vec<(String, Json)>)
    ensures
        Json::Object(v)@ == JsonView::Object(field_views(v@)),
{
    assert(Json::Object(v)@->Object_0 =~= field_views(v@));
}

/// Reading a field after setting one gives what was set, and every other field
/// is as before.
pub proof fn get_after_set(v: JsonView, key: Seq<char>, value: JsonView, other: Seq<char>)
    requires
        v.settable(),
    ensures
        v.set(key, value).get(key) == Some(value),
        other != key ==> v.set(key, value).get(other) == v.get(other),
{
    match v {
        JsonView::Object(fields) => {
            lemma_lookup_with_field(fields, key, value, other);
        },
        _ => {
            let one = seq![(key, value)];
            assert(one.drop_first() =~= Seq::empty());
            assert(lookup(one.drop_first(), other) is None);
        },
    }
}

proof fn lemma_lookup_with_field(
    fields: Seq<(Seq<char>, JsonView)>,
    key: Seq<char>,
    value: JsonView,
    other: Seq<char>,
)
    ensures
        lookup(with_field(fields, key, value), key) == Some(value),
        other != key ==> lookup(with_field(fields, key, value), other) == lookup(fields, other),
    decreases fields.len(),
{
    let next = with_field(fields, key, value);
    if fields.len() == 0 {
        assert(next.drop_first() =~= Seq::empty());
        assert(lookup(next.drop_first(), other) is None);
    } else if fields[0].0 == key {
        assert(next.drop_first() =~= fields.drop_first());
    } else {
        assert(next.drop_first() =~= with_field(fields.drop_first(), key, value));
        lemma_lookup_with_field(fields.drop_first(), key, value, other);
    }
}

proof fn lemma_lookup_at(fields: Seq<(Seq<char>, JsonView)>, key: Seq<char>, i: int)
    requires
        0 <= i <= fields.len(),
        forall|j: int| 0 <= j < i ==> (#[trigger] fields[j]).0 != key,
    ensures
        lookup(fields, key) == lookup(fields.skip(i), key),
        i < fields.len() && fields[i].0 == key ==> lookup(fields, key) == Some(fields[i].1),
        i == fields.len() ==> lookup(fields, key) is None,
    decreases i,
{
    if i == 0 {
        assert(fields.skip(0) =~= fields);
    } else {
        lemma_lookup_at(fields.drop_first(), key, i - 1);
        assert(fields.drop_first().skip(i - 1) =~= fields.skip(i));
    }
}

proof fn lemma_with_field_at(
    fields: Seq<(Seq<char>, JsonView)>,
    key: Seq<char>,
    value: JsonView,
    i: int,
)
    requires
        0 <= i <= fields.len(),
        forall|j: int| 0 <= j < i ==> (#[trigger] fields[j]).0 != key,
        i < fields.len() ==> fields[i].0 == key,
    ensures
        with_field(fields, key, value) == if i < fields.len() {
            fields.update(i, (key, value))
        } else {
            fields.push((key, value))
        },
    decreases i,
{
    let next = with_field(fields, key, value);
    if fields.len() == 0 {
        assert(next =~= fields.push((key, value)));
    } else if i == 0 {
        assert(next =~= fields.update(0, (key, value)));
    } else {
        lemma_with_field_at(fields.drop_first(), key, value, i - 1);
        if i < fields.len() {
            assert(next =~= fields.update(i, (key, value)));
        } else {
            assert(next =~= fields.push((key, value)));
        }
    }
}

// ---------------------------------------------------------------------------
// Operations
// ---------------------------------------------------------------------------

impl Json {
    /// The field `key` of an object.
    pub fn get(&self, key: &str) -> (r: Option<&Json>)
        ensures
            opt_json_ref(r) == self@.get(key@),
    {
        match self {
            Json::Object(fields) => {
                let mut i: usize = 0;
                proof {
                    lemma_object_view(*fields);
                }
                while i < fields.len()
                    invariant
                        i <= fields@.len(),
                        self@ == JsonView::Object(field_views(fields@)),
                        forall|j: int|
                            0 <= j < i ==> (#[trigger] field_views(fields@)[j]).0 != key@,
                    decreases fields@.len() - i,
                {
                    if text_eq(fields[i].0.as_str(), key) {
                        proof {
                            lemma_lookup_at(field_views(fields@), key@, i as int);
                        }
                        return Some(&fields[i].1);
                    }
                    i = i + 1;
                }
                proof {
                    lemma_lookup_at(field_views(fields@), key@, i as int);
                }
                None
            },
            _ => None,
        }
    }

    /// Sets the field `key`; null becomes an object with that field alone.
    pub fn set(&mut self, key: &str, value: Json)
        requires
            old(self)@.settable(),
        ensures
            final(self)@ == old(self)@.set(key@, value@),
    {
        let ghost before = self@;
        let mut fields: Vec<(String, Json)> = Vec::new();
        let mut me = Json::Null;
        std::mem::swap(self, &mut me);
        match me {
            Json::Object(f) => {
                proof {
                    lemma_object_view(f);
                }
                fields = f;
            },
            _ => {
                assert(with_field(field_views(fields@), key@, value@) =~= seq![(key@, value@)]);
            },
        }
        let ghost start = field_views(fields@);
        assert(before.set(key@, value@) == JsonView::Object(with_field(start, key@, value@)));
        let n: usize = fields.len();
        let mut i: usize = 0;
        while i < n && !text_eq(fields[i].0.as_str(), key)
            invariant
                i <= n,
                n == fields@.len(),
                start == field_views(fields@),
                forall|j: int| 0 <= j < i ==> (#[trigger] start[j]).0 != key@,
            decreases n - i,
        {
            i = i + 1;
        }
        proof {
            lemma_with_field_at(start, key@, value@, i as int);
        }
        let name = key.to_owned();
        if i < n {
            fields.set(i, (name, value));
            assert(field_views(fields@) =~= start.update(i as int, (key@, value@)));
        } else {
            fields.push((name, value));
            assert(field_views(fields@) =~= start.push((key@, value@)));
        }
        proof {
            lemma_object_view(fields);
        }
        *self = Json::Object(fields);
    }

    /// The value is an object or null.
    pub fn is_settable(&self) -> (r: bool)
        ensures
            r == self@.settable(),
    {
        match self {
            Json::Object(_) => true,
            Json::Null => true,
            _ => false,
        }
    }

    pub fn as_text(&self) -> (r: Option<&String>)
        ensures
            r matches Some(s) ==> self@.text() == Some(s@),
            r is None ==> self@.text() is None,
    {
        match self {
            Json::Text(s) => Some(s),
            _ => None,
        }
    }

    pub fn as_bool(&self) -> (r: Option<bool>)
        ensures
            r == self@.boolean(),
    {
        match self {
            Json::Bool(b) => Some(*b),
            _ => None,
        }
    }

    pub fn as_u64(&self) -> (r: Option<u64>)
        ensures
            r == self@.unsigned(),
    {
        match self {
            Json::Unsigned(n) => Some(*n),
            _ => None,
        }
    }

    /// The integer, where it lies in the range of `i64`.
    pub fn as_i64(&self) -> (r: Option<i64>)
        ensures
            r == self@.signed(),
    {
        match self {
            Json::Unsigned(n) => if *n <= 0x7fff_ffff_ffff_ffff {
                Some(*n as i64)
            } else {
                None
            },
            Json::Negative(n) => Some(*n),
            _ => None,
        }
    }

    /// A copy of the value, where it is a number.
    pub fn as_number(&self) -> (r: Option<Json>)
        ensures
            opt_json(r) == self@.number(),
    {
        match self {
            Json::Unsigned(n) => Some(Json::Unsigned(*n)),
            Json::Negative(n) => Some(Json::Negative(*n)),
            Json::Fraction(n) => Some(Json::Fraction(n.clone())),
            _ => None,
        }
    }

    pub fn as_array(&self) -> (r: Option<&Vec<Json>>)
        ensures
            r matches Some(v) ==> self@ == JsonView::Array(json_views(v@)),
            r is None ==> self@.items() is None,
    {
        match self {
            Json::Array(v) => {
                proof {
                    lemma_array_view(*v);
                }
                Some(v)
            },
            _ => None,
        }
    }

    pub fn as_object(&self) -> (r: Option<&Vec<(String, Json)>>)
        ensures
            r matches Some(v) ==> self@ == JsonView::Object(field_views(v@)),
            r is None ==> self@.fields() is None,
    {
        match self {
            Json::Object(v) => {
                proof {
                    lemma_object_view(*v);
                }
                Some(v)
            },
            _ => None,
        }
    }

    /// A copy of the text of the field `key`.
    pub fn text_field(&self, key: &str) -> (r: Option<String>)
        ensures
            crate::text::opt_view(r) == self@.text_field(key@),
    {
        match self.get(key) {
            Some(v) => match v.as_text() {
                Some(s) => Some(s.clone()),
                None => None,
            },
            None => None,
        }
    }

    /// A copy of the number in the field `key`.
    pub fn number_field(&self, key: &str) -> (r: Option<Json>)
        ensures
            opt_json(r) == self@.number_field(key@),
    {
        match self.get(key) {
            Some(v) => v.as_number(),
            None => None,
        }
    }

    /// The `i64` in the field `key`.
    pub fn signed_field(&self, key: &str) -> (r: Option<i64>)
        ensures
            r == self@.signed_field(key@),
    {
        match self.get(key) {
            Some(v) => v.as_i64(),
            None => None,
        }
    }

    /// The field `inner` of the object in the field `outer`.
    pub fn nested(&self, outer: &str, inner: &str) -> (r: Option<&Json>)
        ensures
            opt_json_ref(r) == self@.nested(outer@, inner@),
    {
        match self.get(outer) {
            Some(v) => v.get(inner),
            None => None,
        }
    }

    /// A copy of the value.
    pub fn copy(&self) -> (r: Json)
        ensures
            r@ == self@,
        decreases self,
    {
        match self {
            Json::Null => Json::Null,
            Json::Bool(b) => Json::Bool(*b),
            Json::Unsigned(n) => Json::Unsigned(*n),
            Json::Negative(n) => Json::Negative(*n),
            Json::Fraction(n) => Json::Fraction(n.clone()),
            Json::Text(s) => Json::Text(s.clone()),
            Json::Array(v) => {
                let mut out: Vec<Json> = Vec::new();
                let mut i: usize = 0;
                while i < v.len()
                    invariant
                        i <= v@.len(),
                        *self == Json::Array(*v),
                        out@.len() == i,
                        forall|j: int| 0 <= j < i ==> (#[trigger] out@[j])@ == v@[j]@,
                    decreases v@.len() - i,
                {
                    let item = &v[i];
                    assert(decreases_to!(*v => v[i as int]));
                    assert(decreases_to!(*self => self->Array_0));
                    out.push(item.copy());
                    i = i + 1;
                }
                proof {
                    lemma_array_view(*v);
                    lemma_array_view(out);
                    assert(json_views(out@) =~= json_views(v@));
                }
                Json::Array(out)
            },
            Json::Object(v) => {
                let mut out: Vec<(String, Json)> = Vec::new();
                let mut i: usize = 0;
                while i < v.len()
                    invariant
                        i <= v@.len(),
                        *self == Json::Object(*v),
                        out@.len() == i,
                        forall|j: int|
                            0 <= j < i ==> (#[trigger] out@[j]).0@ == v@[j].0@ && out@[j].1@
                                == v@[j].1@,
                    decreases v@.len() - i,
                {
                    let item = &v[i].1;
                    assert(decreases_to!(v[i as int] => v[i as int].1));
                    assert(decreases_to!(*v => v[i as int]));
                    assert(decreases_to!(*self => self->Object_0));
                    out.push((v[i].0.clone(), item.copy()));
                    i = i + 1;
                }
                proof {
                    lemma_object_view(*v);
                    lemma_object_view(out);
                    assert(field_views(out@) =~= field_views(v@));
                }
                Json::Object(out)
            },
        }
    }
}

// ---------------------------------------------------------------------------
// Reading and writing
// ---------------------------------------------------------------------------

/// What `serde_json::from_slice` makes of bytes as a `serde_json::Value`: the
/// document, or the text of the error.
pub uninterp spec fn json_parsed(bytes: Seq<u8>) -> Result<JsonView, Seq<char>>;

/// The bytes that `serde_json::to_vec` writes for a document.
pub uninterp spec fn json_encoded(v: JsonView) -> Seq<u8>;

/// The text that `serde_json::to_string_pretty` writes for a document.
pub uninterp spec fn json_pretty(v: JsonView) -> Seq<char>;

/// The text is read as the document.
pub open spec fn spells(text: Seq<char>, v: JsonView) -> bool {
    json_parsed(encode_utf8(text)) == Ok::<JsonView, Seq<char>>(v)
}

/// The document is an object of texts, each name but once and the names in
/// ascending order. No name begins with a dollar sign: `serde_json` has names
/// of its own that do, and takes an object with one of them for another value.
pub open spec fn flat_texts(v: JsonView) -> bool {
    match v {
        JsonView::Object(fields) => {
            &&& forall|i: int| 0 <= i < fields.len() ==> (#[trigger] fields[i]).1 is Text
            &&& forall|i: int|
                0 <= i < fields.len() && (#[trigger] fields[i]).0.len() > 0 ==> fields[i].0[0]
                    != '$'
            &&& forall|i: int, j: int|
                #![trigger fields[i], fields[j]]
                0 <= i < j < fields.len() ==> text_le(fields[i].0, fields[j].0) && fields[i].0
                    != fields[j].0
        },
        _ => false,
    }
}

/// The document that a `serde_json::Value` holds, variant by variant. A number
/// is unsigned where `as_u64` gives it, negative where `as_i64` does, and kept
/// as it is otherwise.
#[verifier::external_body]
fn from_value(v: serde_json::Value) -> Json {
    match v {
        serde_json::Value::Null => Json::Null,
        serde_json::Value::Bool(b) => Json::Bool(b),
        serde_json::Value::Number(n) => match (n.as_u64(), n.as_i64()) {
            (Some(u), _) => Json::Unsigned(u),
            (None, Some(i)) => Json::Negative(i),
            (None, None) => Json::Fraction(n),
        },
        serde_json::Value::String(s) => Json::Text(s),
        serde_json::Value::Array(a) => Json::Array(a.into_iter().map(from_value).collect()),
        serde_json::Value::Object(m) => Json::Object(
            m.into_iter().map(|(k, v)| (k, from_value(v))).collect(),
        ),
    }
}

/// The `serde_json::Value` that holds the document, variant by variant.
#[verifier::external_body]
fn to_value(v: &Json) -> serde_json::Value {
    match v {
        Json::Null => serde_json::Value::Null,
        Json::Bool(b) => serde_json::Value::Bool(*b),
        Json::Unsigned(n) => serde_json::Value::from(*n),
        Json::Negative(n) => serde_json::Value::from(*n),
        Json::Fraction(n) => serde_json::Value::Number(n.clone()),
        Json::Text(s) => serde_json::Value::String(s.clone()),
        Json::Array(a) => serde_json::Value::Array(a.iter().map(to_value).collect()),
        Json::Object(m) => serde_json::Value::Object(
            m.iter().map(|(k, v)| (k.clone(), to_value(v))).collect(),
        ),
    }
}

/// `serde_json::from_slice` into a `serde_json::Value`: the document that the
/// bytes spell, or the text of the error. It depends on the bytes alone, and
/// is given a name.
#[verifier::external_body]
pub(crate) fn parse_bytes(bytes: &[u8]) -> (r: Result<Json, String>)
    ensures
        match r {
            Ok(v) => json_parsed(bytes@) == Ok::<JsonView, Seq<char>>(v@),
            Err(e) => json_parsed(bytes@) == Err::<JsonView, Seq<char>>(e@),
        },
{
    match serde_json::from_slice::<serde_json::Value>(bytes) {
        Ok(v) => Ok(from_value(v)),
        Err(e) => Err(e.to_string()),
    }
}

/// `serde_json::to_vec` of the document: its compact spelling, or nothing
/// where that fails. It depends on the document alone, and is given a name.
#[verifier::external_body]
pub(crate) fn encode(v: &Json) -> (r: Vec<u8>)
    ensures
        r@ == json_encoded(v@),
{
    serde_json::to_vec(&to_value(v)).unwrap_or_default()
}

/// `serde_json::to_string_pretty` of the document: its spelling over indented
/// lines, or nothing where that fails. It depends on the document alone, and
/// is given a name. An object of texts in the order in which objects are kept,
/// under names that mean nothing to `serde_json`, is what
/// `serde_json::from_slice` reads from that spelling.
#[verifier::external_body]
pub(crate) fn encode_pretty(v: &Json) -> (r: String)
    ensures
        r@ == json_pretty(v@),
        flat_texts(v@) ==> spells(r@, v@),
{
    serde_json::to_string_pretty(&to_value(v)).unwrap_or_default()
}

// ---------------------------------------------------------------------------
// Laws
// ---------------------------------------------------------------------------

/// A field of an object is the first of that name; nothing but an object has
/// fields.
pub proof fn fields_are_found_by_name(
    fields: Seq<(Seq<char>, JsonView)>,
    i: int,
    key: Seq<char>,
    v: JsonView,
)
    ensures
        0 <= i < fields.len() && fields[i].0 == key && (forall|k: int|
            0 <= k < i ==> (#[trigger] fields[k]).0 != key) ==> JsonView::Object(fields).get(key)
            == Some(fields[i].1),
        (forall|k: int| 0 <= k < fields.len() ==> (#[trigger] fields[k]).0 != key)
            ==> JsonView::Object(fields).get(key) is None,
        !(v is Object) ==> v.get(key) is None,
{
    if 0 <= i < fields.len() && forall|k: int| 0 <= k < i ==> (#[trigger] fields[k]).0 != key {
        lemma_lookup_at(fields, key, i);
    }
    if forall|k: int| 0 <= k < fields.len() ==> (#[trigger] fields[k]).0 != key {
        lemma_lookup_at(fields, key, fields.len() as int);
    }
}

/// What a value is read as depends on its kind alone, and what is read is what
/// it holds.
pub proof fn values_are_read_by_kind(v: JsonView)
    ensures
        v.text() is Some <==> v is Text,
        v.boolean() is Some <==> v is Bool,
        v.unsigned() is Some <==> v is Unsigned,
        v.items() is Some <==> v is Array,
        v.fields() is Some <==> v is Object,
        v.number() is Some <==> v is Unsigned || v is Negative || v is Fraction,
        v matches JsonView::Text(t) ==> v.text() == Some(t),
        v matches JsonView::Bool(b) ==> v.boolean() == Some(b),
        v matches JsonView::Unsigned(n) ==> v.unsigned() == Some(n),
        v matches JsonView::Unsigned(n) ==> (v.signed() is Some <==> n <= 0x7fff_ffff_ffff_ffff),
        v matches JsonView::Unsigned(n) ==> (v.signed() is Some ==> v.signed()->0 == n),
        v matches JsonView::Negative(n) ==> v.signed() == Some(n),
        v matches JsonView::Array(a) ==> v.items() == Some(a),
        v matches JsonView::Object(f) ==> v.fields() == Some(f),
        v.number() matches Some(n) ==> n == v,
        v.settable() <==> v is Object || v is Null,
        !(v is Unsigned) && !(v is Negative) ==> v.signed() is None,
{
}

/// A field of a field is looked up one after the other.
pub proof fn nested_fields_are_found(v: JsonView, inner: JsonView, a: Seq<char>, b: Seq<char>)
    ensures
        v.get(a) == Some(inner) ==> v.nested(a, b) == inner.get(b) && v.text_field(a)
            == inner.text() && v.number_field(a) == inner.number() && v.signed_field(a)
            == inner.signed(),
        v.get(a) is None ==> v.nested(a, b) is None && v.text_field(a) is None && v.number_field(
            a,
        ) is None && v.signed_field(a) is None,
{
}

/// Setting a field puts the value in the place of the first field of that name,
/// or behind all others where there is none; every other field stays where it
/// is. Null becomes an object of that one field.
pub proof fn fields_are_set_in_place(
    fields: Seq<(Seq<char>, JsonView)>,
    i: int,
    key: Seq<char>,
    value: JsonView,
)
    ensures
        0 <= i < fields.len() && fields[i].0 == key && (forall|k: int|
            0 <= k < i ==> (#[trigger] fields[k]).0 != key) ==> JsonView::Object(fields).set(
            key,
            value,
        ) == JsonView::Object(fields.update(i, (key, value))),
        (forall|k: int| 0 <= k < fields.len() ==> (#[trigger] fields[k]).0 != key)
            ==> JsonView::Object(fields).set(key, value) == JsonView::Object(
            fields.push((key, value)),
        ),
        JsonView::Null.set(key, value) == JsonView::Object(seq![(key, value)]),
    decreases fields.len(),
{
    if fields.len() > 0 {
        let rest = fields.drop_first();
        fields_are_set_in_place(rest, i - 1, key, value);
        if fields[0].0 == key {
            assert(seq![(key, value)] + rest =~= fields.update(0, (key, value)));
        } else {
            if 0 < i < fields.len() {
                assert(rest[i - 1] == fields[i]);
                assert(seq![fields[0]] + rest.update(i - 1, (key, value)) =~= fields.update(
                    i,
                    (key, value),
                ));
                if forall|k: int| 0 <= k < i ==> (#[trigger] fields[k]).0 != key {
                    assert forall|k: int| 0 <= k < i - 1 implies (#[trigger] rest[k]).0 != key by {
                        assert(rest[k] == fields[k + 1]);
                    }
                }
            }
            assert(seq![fields[0]] + rest.push((key, value)) =~= fields.push((key, value)));
            if forall|k: int| 0 <= k < fields.len() ==> (#[trigger] fields[k]).0 != key {
                assert forall|k: int| 0 <= k < rest.len() implies (#[trigger] rest[k]).0
                    != key by {
                    assert(rest[k] == fields[k + 1]);
                }
            }
        }
    } else {
        assert(fields.push((key, value)) =~= seq![(key, value)]);
    }
}

} // verus!
