//! JSON values: reading them from text and rendering them compactly.
use crate::text::{dec, dec_text, join, joined, same, texts};
use vstd::prelude::*;

verus! {

// ---------------------------------------------------------------------------
// Outside calls that are believed.
// ---------------------------------------------------------------------------

/// A value of `serde_json`.
#[verifier::external_type_specification]
#[verifier::external_body]
pub struct ExValue(serde_json::Value);

/// What a `serde_json` value holds.
pub uninterp spec fn held(v: serde_json::Value) -> JsonView;

/// What `serde_json` reads from a text, if the text is JSON.
pub uninterp spec fn parsed_json(text: Seq<char>) -> Option<JsonView>;

/// The last two digits of an escaped control character.
pub open spec fn control_digits(n: int) -> Seq<char> {
    seq![
        if n < 16 {
            '0'
        } else {
            '1'
        },
        if n % 16 < 10 {
            ('0' as int + n % 16) as char
        } else {
            ('a' as int + n % 16 - 10) as char
        },
    ]
}

/// A character as it stands in a JSON string literal.
pub open spec fn escaped(c: char) -> Seq<char> {
    if c == '"' {
        "\\\""@
    } else if c == '\\' {
        "\\\\"@
    } else if c == '\u{8}' {
        "\\b"@
    } else if c == '\u{c}' {
        "\\f"@
    } else if c == '\n' {
        "\\n"@
    } else if c == '\r' {
        "\\r"@
    } else if c == '\t' {
        "\\t"@
    } else if (c as int) < 32 {
        "\\u00"@ + control_digits(c as int)
    } else {
        seq![c]
    }
}

/// Characters as they stand in a JSON string literal.
pub open spec fn escaped_all(text: Seq<char>) -> Seq<char>
    decreases text.len(),
{
    if text.len() == 0 {
        Seq::empty()
    } else {
        escaped_all(text.drop_last()) + escaped(text.last())
    }
}

/// A text as a JSON string literal: between double quotes, with double quotes, backslashes and
/// control characters escaped.
pub open spec fn json_quote(text: Seq<char>) -> Seq<char> {
    "\""@ + escaped_all(text) + "\""@
}

/// `serde_json::from_str` reads one JSON value, or finds that the text is none; which of the two,
/// and what value, depends on the text alone.
#[verifier::external_body]
fn value_from_str(text: &str) -> (r: Option<serde_json::Value>)
    ensures
        match r {
            Some(v) => parsed_json(text@) == Some(held(v)),
            None => parsed_json(text@) is None,
        },
{
    serde_json::from_str::<serde_json::Value>(text).ok()
}

/// Why `serde_json` reads no value from bytes, in words.
pub uninterp spec fn json_fault(bytes: Seq<u8>) -> Seq<char>;

/// The JSON value that bytes hold, if they are a text in UTF-8 that holds one.
pub open spec fn bytes_json(bytes: Seq<u8>) -> Option<JsonView> {
    if vstd::utf8::valid_utf8(bytes) {
        parsed_json(vstd::utf8::decode_utf8(bytes))
    } else {
        None
    }
}

/// `serde_json::from_slice` reads from bytes what `serde_json::from_str` reads from the text that
/// they are, and nothing from bytes that are no text; its error in words depends on the bytes alone.
#[verifier::external_body]
fn value_from_slice(bytes: &[u8]) -> (r: Result<serde_json::Value, String>)
    ensures
        match r {
            Ok(v) => bytes_json(bytes@) == Some(held(v)),
            Err(e) => bytes_json(bytes@) is None && e@ == json_fault(bytes@),
        },
{
    serde_json::from_slice::<serde_json::Value>(bytes).map_err(|e| e.to_string())
}

/// Hands out what a `serde_json` value holds, variant by variant: a number by its own rendering and
/// by what `Number::as_u64` gives, an object by its keys in the order of its map.
#[verifier::external_body]
fn contents(value: &serde_json::Value) -> (json: Json)
    ensures
        json@ == held(*value),
{
    match value {
        serde_json::Value::Null => Json::Null,
        serde_json::Value::Bool(b) => Json::Bool(*b),
        serde_json::Value::Number(n) => Json::Number { text: n.to_string(), whole: n.as_u64() },
        serde_json::Value::String(s) => Json::Text(s.clone()),
        serde_json::Value::Array(items) => Json::Array(items.iter().map(contents).collect()),
        serde_json::Value::Object(map) => {
            Json::Object(map.iter().map(|(k, v)| (k.clone(), contents(v))).collect())
        },
    }
}

/// `Value::to_string` renders a string value as a JSON string literal: double quotes, backslashes and
/// the control characters below 32 are escaped, five of them by a letter and the others by their
/// number, and every other character stands for itself.
#[verifier::external_body]
fn quoted(text: &str) -> (r: String)
    ensures
        r@ == json_quote(text@),
{
    serde_json::Value::String(text.to_owned()).to_string()
}

// ---------------------------------------------------------------------------
// Values.
// ---------------------------------------------------------------------------

/// A JSON value in specifications.
pub enum JsonView {
    /// `null`
    Null,
    /// `true` or `false`
    Bool(bool),
    /// A number: as it is written, and its value where that is an unsigned number of 64 bits.
    Number { text: Seq<char>, whole: Option<u64> },
    /// A string.
    Text(Seq<char>),
    /// An array.
    Array(Seq<JsonView>),
    /// An object.
    Object(Seq<(Seq<char>, JsonView)>),
}

/// The first position from `i` on whose key is the given one.
pub open spec fn key_at(fields: Seq<(Seq<char>, JsonView)>, key: Seq<char>, i: int) -> Option<int>
    decreases fields.len() - i,
{
    if i < 0 || i >= fields.len() {
        None
    } else if fields[i].0 == key {
        Some(i)
    } else {
        key_at(fields, key, i + 1)
    }
}

/// A position that is found holds the key.
pub proof fn lemma_key_at(fields: Seq<(Seq<char>, JsonView)>, key: Seq<char>, i: int)
    requires
        0 <= i,
    ensures
        match key_at(fields, key, i) {
            Some(k) => i <= k < fields.len() && fields[k].0 == key,
            None => true,
        },
    decreases fields.len() - i,
{
    if i < fields.len() && fields[i].0 != key {
        lemma_key_at(fields, key, i + 1);
    }
}

impl JsonView {
    /// The compact rendering: no white space, fields in the order they stand.
    pub open spec fn text(self) -> Seq<char>
        decreases self,
    {
        match self {
            JsonView::Null => "null"@,
            JsonView::Bool(b) => if b {
                "true"@
            } else {
                "false"@
            },
            JsonView::Number { text, .. } => text,
            JsonView::Text(s) => json_quote(s),
            JsonView::Array(items) => "["@ + joined(items_text(items), ","@) + "]"@,
            JsonView::Object(fields) => "{"@ + joined(fields_text(fields), ","@) + "}"@,
        }
    }

    /// An unsigned number.
    pub open spec fn number(n: u64) -> JsonView {
        JsonView::Number { text: dec(n as nat), whole: Some(n) }
    }

    /// The value under a key, if this is an object that has it.
    pub open spec fn get(self, key: Seq<char>) -> Option<JsonView> {
        match self {
            JsonView::Object(fields) => match key_at(fields, key, 0) {
                Some(i) => Some(fields[i].1),
                None => None,
            },
            _ => None,
        }
    }

    /// The value, if this is an unsigned number of 64 bits.
    pub open spec fn whole(self) -> Option<u64> {
        match self {
            JsonView::Number { whole, .. } => whole,
            _ => None,
        }
    }

    /// The string, if this is one.
    pub open spec fn string(self) -> Option<Seq<char>> {
        match self {
            JsonView::Text(s) => Some(s),
            _ => None,
        }
    }
}

/// The compact renderings of an array's items.
pub open spec fn items_text(items: Seq<JsonView>) -> Seq<Seq<char>>
    decreases items,
{
    if items.len() == 0 {
        Seq::empty()
    } else {
        items_text(items.drop_last()).push(items.last().text())
    }
}

/// The compact renderings of an object's fields: key, colon, value.
pub open spec fn fields_text(fields: Seq<(Seq<char>, JsonView)>) -> Seq<Seq<char>>
    decreases fields,
{
    if fields.len() == 0 {
        Seq::empty()
    } else {
        fields_text(fields.drop_last()).push(
            json_quote(fields.last().0) + ":"@ + fields.last().1.text(),
        )
    }
}

/// A JSON value.
#[derive(Debug)]
pub enum Json {
    /// `null`
    Null,
    /// `true` or `false`
    Bool(bool),
    /// A number: as it is written, and its value where that is an unsigned number of 64 bits.
    Number {
        /// The number as it is written.
        text: String,
        /// The value, where it is an unsigned number of 64 bits.
        whole: Option<u64>,
    },
    /// A string.
    Text(String),
    /// An array.
    Array(Vec<Json>),
    /// An object.
    Object(Vec<(String, Json)>),
}

/// What a value holds.
pub open spec fn json_view(j: Json) -> JsonView
    decreases j,
{
    match j {
        Json::Null => JsonView::Null,
        Json::Bool(b) => JsonView::Bool(b),
        Json::Number { text, whole } => JsonView::Number { text: text@, whole },
        Json::Text(s) => JsonView::Text(s@),
        Json::Array(v) => JsonView::Array(items_view(v@)),
        Json::Object(v) => JsonView::Object(fields_view(v@)),
    }
}

/// What the items of an array hold.
pub open spec fn items_view(v: Seq<Json>) -> Seq<JsonView>
    decreases v,
{
    if v.len() == 0 {
        Seq::empty()
    } else {
        items_view(v.drop_last()).push(json_view(v.last()))
    }
}

/// What the fields of an object hold.
pub open spec fn fields_view(v: Seq<(String, Json)>) -> Seq<(Seq<char>, JsonView)>
    decreases v,
{
    if v.len() == 0 {
        Seq::empty()
    } else {
        fields_view(v.drop_last()).push((v.last().0@, json_view(v.last().1)))
    }
}

impl View for Json {
    type V = JsonView;

    open spec fn view(&self) -> JsonView {
        json_view(*self)
    }
}

/// The items of an array, one by one.
pub proof fn lemma_items(v: Seq<Json>)
    ensures
        items_view(v).len() == v.len(),
        forall|i: int| 0 <= i < v.len() ==> #[trigger] items_view(v)[i] == v[i]@,
    decreases v.len(),
{
    if v.len() > 0 {
        lemma_items(v.drop_last());
    }
}

/// The fields of an object, one by one.
pub proof fn lemma_fields(v: Seq<(String, Json)>)
    ensures
        fields_view(v).len() == v.len(),
        forall|i: int| 0 <= i < v.len() ==> #[trigger] fields_view(v)[i] == (v[i].0@, v[i].1@),
    decreases v.len(),
{
    if v.len() > 0 {
        lemma_fields(v.drop_last());
    }
}

impl Clone for Json {
    fn clone(&self) -> (r: Json)
        ensures
            r@ == self@,
        decreases self,
    {
        match self {
            Json::Null => Json::Null,
            Json::Bool(b) => Json::Bool(*b),
            Json::Number { text, whole } => Json::Number { text: text.clone(), whole: *whole },
            Json::Text(s) => Json::Text(s.clone()),
            Json::Array(items) => {
                let mut copy: Vec<Json> = Vec::new();
                let mut i: usize = 0;
                assert(items@.take(0) =~= Seq::<Json>::empty());
                while i < items.len()
                    invariant
                        0 <= i <= items.len(),
                        items_view(copy@) == items_view(items@.take(i as int)),
                        decreases_to!(self => items@),
                    decreases items.len() - i,
                {
                    assert(decreases_to!(items@ => items@[i as int]));
                    let ghost before = copy@;
                    copy.push(items[i].clone());
                    assert(copy@.drop_last() =~= before);
                    assert(items@.take(i + 1).drop_last() =~= items@.take(i as int));
                    i = i + 1;
                }
                assert(items@.take(i as int) =~= items@);
                Json::Array(copy)
            },
            Json::Object(fields) => {
                let mut copy: Vec<(String, Json)> = Vec::new();
                let mut i: usize = 0;
                assert(fields@.take(0) =~= Seq::<(String, Json)>::empty());
                while i < fields.len()
                    invariant
                        0 <= i <= fields.len(),
                        fields_view(copy@) == fields_view(fields@.take(i as int)),
                        decreases_to!(self => fields@),
                    decreases fields.len() - i,
                {
                    assert(decreases_to!(fields@ => fields@[i as int]));
                    assert(decreases_to!(fields@[i as int] => fields@[i as int].1));
                    let ghost before = copy@;
                    copy.push((fields[i].0.clone(), fields[i].1.clone()));
                    assert(copy@.drop_last() =~= before);
                    assert(fields@.take(i + 1).drop_last() =~= fields@.take(i as int));
                    i = i + 1;
                }
                assert(fields@.take(i as int) =~= fields@);
                Json::Object(copy)
            },
        }
    }
}

impl Json {
    /// Reads one JSON value from bytes.
    pub fn read(bytes: &Vec<u8>) -> (r: Result<Json, String>)
        ensures
            match r {
                Ok(j) => bytes_json(bytes@) == Some(j@),
                Err(e) => bytes_json(bytes@) is None && e@ == json_fault(bytes@),
            },
    {
        match value_from_slice(bytes.as_slice()) {
            Ok(v) => Ok(contents(&v)),
            Err(e) => Err(e),
        }
    }

    /// Reads one JSON value from a text.
    pub fn parse(text: &str) -> (r: Option<Json>)
        ensures
            match r {
                Some(j) => parsed_json(text@) == Some(j@),
                None => parsed_json(text@) is None,
            },
    {
        match value_from_str(text) {
            Some(v) => Some(contents(&v)),
            None => None,
        }
    }

    /// An unsigned number.
    pub fn number(n: u64) -> (r: Json)
        ensures
            r@ == JsonView::number(n),
    {
        Json::Number { text: dec_text(n), whole: Some(n) }
    }

    /// A string.
    pub fn string(s: &str) -> (r: Json)
        ensures
            r@ == JsonView::Text(s@),
    {
        Json::Text(s.to_owned())
    }

    /// An array of the given items.
    pub fn array(items: Vec<Json>) -> (r: Json)
        ensures
            r@ == JsonView::Array(items_view(items@)),
    {
        Json::Array(items)
    }

    /// An object of the given fields.
    pub fn object(fields: Vec<(String, Json)>) -> (r: Json)
        ensures
            r@ == JsonView::Object(fields_view(fields@)),
    {
        Json::Object(fields)
    }

    /// The value under a key, if this is an object that has it.
    pub fn get(&self, key: &str) -> (r: Option<&Json>)
        ensures
            match r {
                Some(j) => self@.get(key@) == Some(j@),
                None => self@.get(key@) is None,
            },
    {
        match self {
            Json::Object(fields) => {
                proof {
                    lemma_fields(fields@);
                }
                match find_key(fields, key) {
                    Some(i) => Some(&fields[i].1),
                    None => None,
                }
            },
            _ => None,
        }
    }

    /// The value, if this is an unsigned number of 64 bits.
    pub fn as_u64(&self) -> (r: Option<u64>)
        ensures
            r == self@.whole(),
    {
        match self {
            Json::Number { whole, .. } => *whole,
            _ => None,
        }
    }

    /// The string, if this is one.
    pub fn as_str(&self) -> (r: Option<&str>)
        ensures
            match r {
                Some(s) => self@.string() == Some(s@),
                None => self@.string() is None,
            },
    {
        match self {
            Json::Text(s) => Some(s.as_str()),
            _ => None,
        }
    }

    /// Renders the value compactly.
    pub fn render(&self) -> (s: String)
        ensures
            s@ == self@.text(),
        decreases self,
    {
        match self {
            Json::Null => "null".to_owned(),
            Json::Bool(b) => if *b {
                "true".to_owned()
            } else {
                "false".to_owned()
            },
            Json::Number { text, .. } => text.clone(),
            Json::Text(s) => quoted(s.as_str()),
            Json::Array(items) => {
                let mut parts: Vec<String> = Vec::new();
                let mut i: usize = 0;
                assert(items@.take(0) =~= Seq::<Json>::empty());
                assert(texts(parts@) =~= Seq::<Seq<char>>::empty());
                while i < items.len()
                    invariant
                        0 <= i <= items.len(),
                        texts(parts@) == items_text(items_view(items@.take(i as int))),
                        decreases_to!(self => items@),
                    decreases items.len() - i,
                {
                    assert(decreases_to!(items@ => items@[i as int]));
                    let ghost before = parts@;
                    parts.push(items[i].render());
                    assert(texts(parts@) =~= texts(before).push(items@[i as int]@.text()));
                    assert(items@.take(i + 1).drop_last() =~= items@.take(i as int));
                    assert(items_view(items@.take(i + 1)).drop_last() =~= items_view(
                        items@.take(i as int),
                    ));
                    i = i + 1;
                }
                assert(items@.take(i as int) =~= items@);
                let mut s = "[".to_owned();
                s.push_str(join(&parts, ",").as_str());
                s.push_str("]");
                s
            },
            Json::Object(fields) => {
                let mut parts: Vec<String> = Vec::new();
                let mut i: usize = 0;
                assert(fields@.take(0) =~= Seq::<(String, Json)>::empty());
                assert(texts(parts@) =~= Seq::<Seq<char>>::empty());
                while i < fields.len()
                    invariant
                        0 <= i <= fields.len(),
                        texts(parts@) == fields_text(fields_view(fields@.take(i as int))),
                        decreases_to!(self => fields@),
                    decreases fields.len() - i,
                {
                    assert(decreases_to!(fields@ => fields@[i as int]));
                    assert(decreases_to!(fields@[i as int] => fields@[i as int].1));
                    let mut part = quoted(fields[i].0.as_str());
                    part.push_str(":");
                    part.push_str(fields[i].1.render().as_str());
                    let ghost before = parts@;
                    let ghost line = part@;
                    parts.push(part);
                    assert(texts(parts@) =~= texts(before).push(line));
                    assert(fields@.take(i + 1).drop_last() =~= fields@.take(i as int));
                    assert(fields_view(fields@.take(i + 1)).drop_last() =~= fields_view(
                        fields@.take(i as int),
                    ));
                    i = i + 1;
                }
                assert(fields@.take(i as int) =~= fields@);
                let mut s = "{".to_owned();
                s.push_str(join(&parts, ",").as_str());
                s.push_str("}");
                s
            },
        }
    }
}

/// The position of a key.
pub fn find_key(fields: &Vec<(String, Json)>, key: &str) -> (r: Option<usize>)
    ensures
        match r {
            Some(i) => key_at(fields_view(fields@), key@, 0) == Some(i as int) && i < fields.len(),
            None => key_at(fields_view(fields@), key@, 0) is None,
        },
{
    let mut i: usize = 0;
    proof {
        lemma_fields(fields@);
    }
    while i < fields.len()
        invariant
            0 <= i <= fields.len(),
            fields_view(fields@).len() == fields.len(),
            forall|k: int|
                0 <= k < fields.len() ==> #[trigger] fields_view(fields@)[k] == (
                    fields@[k].0@,
                    fields@[k].1@,
                ),
            key_at(fields_view(fields@), key@, 0) == key_at(fields_view(fields@), key@, i as int),
        decreases fields.len() - i,
    {
        if same(fields[i].0.as_str(), key) {
            return Some(i);
        }
        i = i + 1;
    }
    None
}

/// A text as a JSON string literal.
pub fn quote(text: &str) -> (r: String)
    ensures
        r@ == json_quote(text@),
{
    quoted(text)
}

/// A field of an object.
pub fn field(key: &str, value: Json) -> (f: (String, Json))
    ensures
        f.0@ == key@,
        f.1 == value,
{
    (key.to_owned(), value)
}

/// An object of one field.
pub fn object1(k1: &str, v1: Json) -> (r: Json)
    ensures
        r@ == JsonView::Object(seq![(k1@, v1@)]),
{
    let mut fields: Vec<(String, Json)> = Vec::new();
    fields.push(field(k1, v1));
    proof {
        lemma_fields(fields@);
        assert(fields_view(fields@) =~= seq![(k1@, v1@)]);
    }
    Json::object(fields)
}

/// An object of two fields.
pub fn object2(k1: &str, v1: Json, k2: &str, v2: Json) -> (r: Json)
    ensures
        r@ == JsonView::Object(seq![(k1@, v1@), (k2@, v2@)]),
{
    let mut fields: Vec<(String, Json)> = Vec::new();
    fields.push(field(k1, v1));
    fields.push(field(k2, v2));
    proof {
        lemma_fields(fields@);
        assert(fields_view(fields@) =~= seq![(k1@, v1@), (k2@, v2@)]);
    }
    Json::object(fields)
}

/// An object of three fields.
pub fn object3(k1: &str, v1: Json, k2: &str, v2: Json, k3: &str, v3: Json) -> (r: Json)
    ensures
        r@ == JsonView::Object(seq![(k1@, v1@), (k2@, v2@), (k3@, v3@)]),
{
    let mut fields: Vec<(String, Json)> = Vec::new();
    fields.push(field(k1, v1));
    fields.push(field(k2, v2));
    fields.push(field(k3, v3));
    proof {
        lemma_fields(fields@);
        assert(fields_view(fields@) =~= seq![(k1@, v1@), (k2@, v2@), (k3@, v3@)]);
    }
    Json::object(fields)
}

} // verus!
