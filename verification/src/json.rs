//! JSON values as the library holds them.

use vstd::prelude::*;

use crate::text::{
    all_digits, chars_of, copy, dec, decimal, digit_char, digits_value, is_digit,
    parse_number, same, texts,
};

verus! {

/// A JSON value. Numbers are kept as their text; object entries are in the
/// order in which the object lists them.
#[derive(Debug)]
pub enum Json {
    Null,
    Bool(bool),
    Number(String),
    Text(String),
    Array(Vec<Json>),
    Object(Vec<(String, Json)>),
}

/// The mathematical JSON value.
pub enum JsonView {
    Null,
    Bool(bool),
    Number(Seq<char>),
    Text(Seq<char>),
    Array(Seq<JsonView>),
    Object(Seq<(Seq<char>, JsonView)>),
}

impl Json {
    pub open spec fn jview(&self) -> JsonView
        decreases self,
    {
        match self {
            Json::Null => JsonView::Null,
            Json::Bool(b) => JsonView::Bool(*b),
            Json::Number(n) => JsonView::Number(n@),
            Json::Text(t) => JsonView::Text(t@),
            Json::Array(items) => JsonView::Array(
                Seq::new(
                    items@.len(),
                    |i: int|
                        if 0 <= i < items@.len() {
                            items@[i].jview()
                        } else {
                            JsonView::Null
                        },
                ),
            ),
            Json::Object(entries) => JsonView::Object(
                Seq::new(
                    entries@.len(),
                    |i: int|
                        if 0 <= i < entries@.len() {
                            (entries@[i].0@, entries@[i].1.jview())
                        } else {
                            (Seq::empty(), JsonView::Null)
                        },
                ),
            ),
        }
    }
}

impl View for Json {
    type V = JsonView;

    open spec fn view(&self) -> JsonView {
        self.jview()
    }
}

/// The entries of an object.
pub open spec fn entries_view(entries: Seq<(String, Json)>) -> Seq<(Seq<char>, JsonView)> {
    Seq::new(entries.len(), |i: int| (entries[i].0@, entries[i].1@))
}

/// The value of the first entry with the given key, from position `i` on.
pub open spec fn entry_from(
    entries: Seq<(Seq<char>, JsonView)>,
    key: Seq<char>,
    i: int,
) -> Option<JsonView>
    decreases entries.len() - i,
{
    if i < 0 || i >= entries.len() {
        None
    } else if entries[i].0 == key {
        Some(entries[i].1)
    } else {
        entry_from(entries, key, i + 1)
    }
}

impl JsonView {
    /// What an object holds under a key; nothing for any other value.
    pub open spec fn field(self, key: Seq<char>) -> Option<JsonView> {
        match self {
            JsonView::Object(entries) => entry_from(entries, key, 0),
            _ => None,
        }
    }

    pub open spec fn text(self) -> Option<Seq<char>> {
        match self {
            JsonView::Text(t) => Some(t),
            _ => None,
        }
    }

    /// The text that an object holds under a key.
    pub open spec fn text_field(self, key: Seq<char>) -> Option<Seq<char>> {
        match self.field(key) {
            Some(value) => value.text(),
            None => None,
        }
    }

    /// Whether an object holds `true` under a key.
    pub open spec fn true_field(self, key: Seq<char>) -> bool {
        self.field(key) == Some(JsonView::Bool(true))
    }

    /// A number that is a `u64`.
    pub open spec fn uint(self) -> Option<nat> {
        match self {
            JsonView::Number(t) => if t.len() > 0 && all_digits(t) && digits_value(t) <= u64::MAX {
                Some(digits_value(t))
            } else {
                None
            },
            _ => None,
        }
    }

    pub open spec fn uint_field(self, key: Seq<char>) -> Option<nat> {
        match self.field(key) {
            Some(value) => value.uint(),
            None => None,
        }
    }
}

pub open spec fn json_opt(o: Option<&Json>) -> Option<JsonView> {
    match o {
        Some(value) => Some(value@),
        None => None,
    }
}

pub open spec fn str_opt(o: Option<&str>) -> Option<Seq<char>> {
    match o {
        Some(text) => Some(text@),
        None => None,
    }
}

impl Json {
    /// What an object holds under a key.
    pub fn get(&self, key: &str) -> (r: Option<&Json>)
        ensures
            json_opt(r) == self@.field(key@),
    {
        match self {
            Json::Object(entries) => {
                let ghost views = entries_view(entries@);
                assert(self@->Object_0 =~= views);
                let mut i: usize = 0;
                while i < entries.len()
                    invariant
                        i <= entries@.len(),
                        views == entries_view(entries@),
                        self@ == JsonView::Object(views),
                        entry_from(views, key@, i as int) == entry_from(views, key@, 0),
                    decreases entries@.len() - i,
                {
                    if same(entries[i].0.as_str(), key) {
                        return Some(&entries[i].1);
                    }
                    i += 1;
                }
                None
            },
            _ => None,
        }
    }

    pub fn as_str(&self) -> (r: Option<&str>)
        ensures
            str_opt(r) == self@.text(),
    {
        match self {
            Json::Text(t) => Some(t.as_str()),
            _ => None,
        }
    }

    /// Whether an object holds `true` under a key.
    pub fn is_true(&self, key: &str) -> (r: bool)
        ensures
            r == self@.true_field(key@),
    {
        match self.get(key) {
            Some(Json::Bool(b)) => *b,
            _ => false,
        }
    }

    /// The text that an object holds under a key.
    pub fn text_at(&self, key: &str) -> (r: Option<&str>)
        ensures
            str_opt(r) == self@.text_field(key@),
    {
        match self.get(key) {
            Some(value) => value.as_str(),
            None => None,
        }
    }

    /// The number as a `u64`, where it is one.
    pub fn as_u64(&self) -> (r: Option<u64>)
        ensures
            crate::text::as_nat(r) == self@.uint(),
    {
        match self {
            Json::Number(t) => {
                if !digits_only(t.as_str()) {
                    return None;
                }
                assert(t@[0] != '+' && is_digit(t@[0]));
                parse_number(t.as_str(), u64::MAX)
            },
            _ => None,
        }
    }

    /// The `u64` that an object holds under a key.
    pub fn uint_at(&self, key: &str) -> (r: Option<u64>)
        ensures
            crate::text::as_nat(r) == self@.uint_field(key@),
    {
        match self.get(key) {
            Some(value) => value.as_u64(),
            None => None,
        }
    }

    /// A copy of the value.
    pub fn copy(&self) -> (r: Json)
        ensures
            r@ == self@,
        decreases self,
    {
        match self {
            Json::Null => Json::Null,
            Json::Bool(b) => Json::Bool(*b),
            Json::Number(n) => Json::Number(copy(n.as_str())),
            Json::Text(t) => Json::Text(copy(t.as_str())),
            Json::Array(items) => {
                let mut out: Vec<Json> = Vec::new();
                let mut i: usize = 0;
                while i < items.len()
                    invariant
                        i <= items@.len(),
                        out@.len() == i,
                        decreases_to!(self => items@),
                        forall|k: int| 0 <= k < i ==> (#[trigger] out@[k])@ == items@[k]@,
                    decreases items@.len() - i,
                {
                    out.push(items[i].copy());
                    i += 1;
                }
                let r = Json::Array(out);
                assert(r@->Array_0 =~= self@->Array_0);
                r
            },
            Json::Object(entries) => {
                let out = copy_entries(entries);
                let r = Json::Object(out);
                assert(entries_view(out@) == entries_view(entries@));
                assert(r@->Object_0 =~= entries_view(out@));
                assert(self@->Object_0 =~= entries_view(entries@));
                r
            },
        }
    }
}

/// A copy of an object's entries.
pub fn copy_entries(entries: &Vec<(String, Json)>) -> (out: Vec<(String, Json)>)
    ensures
        entries_view(out@) == entries_view(entries@),
    decreases entries,
{
    let mut out: Vec<(String, Json)> = Vec::new();
    let mut i: usize = 0;
    while i < entries.len()
        invariant
            i <= entries@.len(),
            out@.len() == i,
            forall|k: int|
                0 <= k < i ==> (#[trigger] out@[k]).0@ == entries@[k].0@ && out@[k].1@
                    == entries@[k].1@,
        decreases entries@.len() - i,
    {
        out.push((copy(entries[i].0.as_str()), entries[i].1.copy()));
        i += 1;
    }
    assert(entries_view(out@) =~= entries_view(entries@));
    out
}

/// Whether two values are the same.
pub fn same_json(a: &Json, b: &Json) -> (r: bool)
    ensures
        r == (a@ == b@),
    decreases a,
{
    match (a, b) {
        (Json::Null, Json::Null) => true,
        (Json::Bool(x), Json::Bool(y)) => *x == *y,
        (Json::Number(x), Json::Number(y)) => same(x.as_str(), y.as_str()),
        (Json::Text(x), Json::Text(y)) => same(x.as_str(), y.as_str()),
        (Json::Array(x), Json::Array(y)) => {
            if x.len() != y.len() {
                assert(a@->Array_0.len() != b@->Array_0.len());
                return false;
            }
            let mut i: usize = 0;
            while i < x.len()
                invariant
                    i <= x@.len(),
                    x@.len() == y@.len(),
                    decreases_to!(a => x@),
                    *a == Json::Array(*x),
                    *b == Json::Array(*y),
                    forall|k: int| 0 <= k < i ==> (#[trigger] x@[k])@ == y@[k]@,
                decreases x@.len() - i,
            {
                if !same_json(&x[i], &y[i]) {
                    assert(a@->Array_0[i as int] != b@->Array_0[i as int]);
                    return false;
                }
                i += 1;
            }
            assert(a@->Array_0 =~= b@->Array_0);
            true
        },
        (Json::Object(x), Json::Object(y)) => {
            if x.len() != y.len() {
                assert(a@->Object_0.len() != b@->Object_0.len());
                return false;
            }
            let mut i: usize = 0;
            while i < x.len()
                invariant
                    i <= x@.len(),
                    x@.len() == y@.len(),
                    decreases_to!(a => x@),
                    *a == Json::Object(*x),
                    *b == Json::Object(*y),
                    forall|k: int|
                        0 <= k < i ==> (#[trigger] x@[k]).0@ == y@[k].0@ && x@[k].1@ == y@[k].1@,
                decreases x@.len() - i,
            {
                if !same(x[i].0.as_str(), y[i].0.as_str()) || !same_json(&x[i].1, &y[i].1) {
                    assert(a@->Object_0[i as int] != b@->Object_0[i as int]);
                    return false;
                }
                i += 1;
            }
            assert(a@->Object_0 =~= b@->Object_0);
            true
        },
        _ => false,
    }
}

/// Whether a text is one or more decimal digits and nothing else.
pub fn digits_only(text: &str) -> (r: bool)
    ensures
        r == (text@.len() > 0 && all_digits(text@)),
{
    let chars = chars_of(text);
    let mut i: usize = 0;
    while i < chars.len()
        invariant
            i <= chars@.len(),
            chars@ == text@,
            forall|k: int| 0 <= k < i ==> is_digit(#[trigger] text@[k]),
        decreases chars@.len() - i,
    {
        if !digit_char(chars[i]) {
            return false;
        }
        i += 1;
    }
    chars.len() > 0
}

// ------------------------------------------------------------------- building

/// A text.
pub fn text_json(text: &str) -> (r: Json)
    ensures
        r@ == JsonView::Text(text@),
{
    Json::Text(copy(text))
}

/// A whole number.
pub open spec fn uint_view(n: nat) -> JsonView {
    JsonView::Number(dec(n))
}

/// A whole number.
pub fn uint_json(n: u64) -> (r: Json)
    ensures
        r@ == uint_view(n as nat),
{
    Json::Number(decimal(n))
}

/// An object with the given entries.
pub fn object(entries: Vec<(String, Json)>) -> (r: Json)
    ensures
        r@ == JsonView::Object(entries_view(entries@)),
{
    let r = Json::Object(entries);
    assert(r@->Object_0 =~= entries_view(entries@));
    r
}

/// One entry of an object.
pub fn entry(key: &str, value: Json) -> (r: (String, Json))
    ensures
        r.0@ == key@,
        r.1@ == value@,
{
    (copy(key), value)
}

/// An object with one entry.
pub open spec fn object1(key: Seq<char>, value: JsonView) -> JsonView {
    JsonView::Object(seq![(key, value)])
}

/// An object with one entry.
pub fn single(key: &str, value: Json) -> (r: Json)
    ensures
        r@ == object1(key@, value@),
{
    let mut entries: Vec<(String, Json)> = Vec::new();
    entries.push(entry(key, value));
    assert(entries_view(entries@) =~= seq![(key@, value@)]);
    object(entries)
}

/// The values of an array.
pub open spec fn items_view(items: Seq<Json>) -> Seq<JsonView> {
    Seq::new(items.len(), |i: int| items[i]@)
}

/// An array of the given values.
pub fn array(items: Vec<Json>) -> (r: Json)
    ensures
        r@ == JsonView::Array(items_view(items@)),
{
    let r = Json::Array(items);
    assert(r@->Array_0 =~= items_view(items@));
    r
}

/// An array of texts.
pub open spec fn texts_view(items: Seq<Seq<char>>) -> JsonView {
    JsonView::Array(Seq::new(items.len(), |i: int| JsonView::Text(items[i])))
}

/// An array of texts.
pub fn texts_json(items: &Vec<String>) -> (r: Json)
    ensures
        r@ == texts_view(texts(items@)),
{
    let mut out: Vec<Json> = Vec::new();
    let mut i: usize = 0;
    while i < items.len()
        invariant
            i <= items@.len(),
            out@.len() == i,
            forall|k: int| 0 <= k < i ==> (#[trigger] out@[k])@ == JsonView::Text(items@[k]@),
        decreases items@.len() - i,
    {
        out.push(text_json(items[i].as_str()));
        i += 1;
    }
    assert(items_view(out@) =~= texts_view(texts(items@))->Array_0);
    array(out)
}

// ------------------------------------------------------------------ documents

/// A JSON value of the `serde_json` crate.
#[verifier::external_type_specification]
#[verifier::external_body]
pub struct ExValue(serde_json::Value);

/// What a `serde_json` value holds: its variants one for one, numbers as the
/// text that `serde_json` prints for them, objects as their entries in the
/// map's own order.
pub uninterp spec fn json_content(value: serde_json::Value) -> JsonView;

/// What `serde_json::from_slice` makes of a document: the value, or the text
/// of its error.
pub uninterp spec fn json_document(bytes: Seq<u8>) -> Result<JsonView, Seq<char>>;

/// `serde_json::from_slice` into a `serde_json::Value`: reads one JSON
/// document. Its result is a function of the bytes; which documents it accepts
/// is not restated here.
#[verifier::external_body]
fn parse_value(bytes: &[u8]) -> (r: Result<serde_json::Value, String>)
    ensures
        match r {
            Ok(value) => json_document(bytes@) == Ok::<JsonView, Seq<char>>(json_content(value)),
            Err(message) => json_document(bytes@) == Err::<JsonView, Seq<char>>(message@),
        },
{
    serde_json::from_slice::<serde_json::Value>(bytes).map_err(|error| error.to_string())
}

/// Takes a `serde_json::Value` apart, variant by variant, into the library's
/// own value: the same tree, numbers by their `to_string`.
#[verifier::external_body]
fn json_of(value: serde_json::Value) -> (r: Json)
    ensures
        r@ == json_content(value),
{
    match value {
        serde_json::Value::Null => Json::Null,
        serde_json::Value::Bool(b) => Json::Bool(b),
        serde_json::Value::Number(n) => Json::Number(n.to_string()),
        serde_json::Value::String(s) => Json::Text(s),
        serde_json::Value::Array(items) => Json::Array(items.into_iter().map(json_of).collect()),
        serde_json::Value::Object(map) => {
            Json::Object(map.into_iter().map(|(key, held)| (key, json_of(held))).collect())
        },
    }
}

/// Reads one JSON document.
pub fn read_json(bytes: &[u8]) -> (r: Result<Json, String>)
    ensures
        match r {
            Ok(value) => json_document(bytes@) == Ok::<JsonView, Seq<char>>(value@),
            Err(message) => json_document(bytes@) == Err::<JsonView, Seq<char>>(message@),
        },
{
    match parse_value(bytes) {
        Ok(value) => Ok(json_of(value)),
        Err(message) => Err(message),
    }
}

// ----------------------------------------------------------------------- laws

/// What an object holds under a key is the value of the first entry with that
/// key; without such an entry it holds nothing, and nothing but an object holds
/// anything.
pub proof fn law_fields(v: JsonView, key: Seq<char>, i: int)
    requires
        v is Object ==> 0 <= i <= v->Object_0.len(),
        v is Object ==> forall|j: int| 0 <= j < i ==> (#[trigger] v->Object_0[j]).0 != key,
        v is Object && i < v->Object_0.len() ==> v->Object_0[i].0 == key,
    ensures
        v is Object && i < v->Object_0.len() ==> v.field(key) == Some(v->Object_0[i].1),
        v is Object && i == v->Object_0.len() ==> v.field(key) is None,
        !(v is Object) ==> v.field(key) is None,
{
    if v is Object {
        lemma_entry_from(v->Object_0, key, 0, i);
    }
}

proof fn lemma_entry_from(entries: Seq<(Seq<char>, JsonView)>, key: Seq<char>, from: int, i: int)
    requires
        0 <= from <= i <= entries.len(),
        forall|j: int| 0 <= j < i ==> (#[trigger] entries[j]).0 != key,
    ensures
        entry_from(entries, key, from) == entry_from(entries, key, i),
    decreases i - from,
{
    if from < i {
        lemma_entry_from(entries, key, from + 1, i);
    }
}

/// What a value reads as: a text as itself, a number as the `u64` that its
/// digits spell, `true` as true, and nothing as anything else.
pub proof fn law_what_a_value_reads_as(v: JsonView, key: Seq<char>, t: Seq<char>, n: nat)
    ensures
        JsonView::Text(t).text() == Some(t),
        !(v is Text) ==> v.text() is None,
        n <= u64::MAX ==> JsonView::Number(dec(n)).uint() == Some(n),
        n > u64::MAX ==> JsonView::Number(dec(n)).uint() is None,
        !(v is Number) ==> v.uint() is None,
        v.field(key) is None ==> v.text_field(key) is None && v.uint_field(key) is None
            && !v.true_field(key),
        v.field(key) is Some ==> v.text_field(key) == (v.field(key)->0).text() && v.uint_field(key)
            == (v.field(key)->0).uint(),
        v.true_field(key) <==> v.field(key) == Some(JsonView::Bool(true)),
{
    crate::text::lemma_dec(n);
}

/// What a JSON value stands for, part by part.
pub proof fn law_a_value_stands_for_its_parts(j: Json, i: int)
    ensures
        j is Null ==> j@ is Null,
        j matches Json::Bool(b) ==> j@ == JsonView::Bool(b),
        j matches Json::Number(t) ==> j@ == JsonView::Number(t@),
        j matches Json::Text(t) ==> j@ == JsonView::Text(t@),
        j matches Json::Array(items) ==> j@ is Array && j@->Array_0.len() == items@.len() && (0 <= i
            < items@.len() ==> j@->Array_0[i] == items@[i]@),
        j matches Json::Object(entries) ==> j@ is Object && j@->Object_0.len() == entries@.len()
            && (0 <= i < entries@.len() ==> j@->Object_0[i] == (entries@[i].0@, entries@[i].1@)),
{
}

} // verus!
