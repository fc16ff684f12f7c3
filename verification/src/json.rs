//! JSON documents.
use vstd::prelude::*;
use crate::text::{lemma_texts_push, same, texts};
use crate::text_map::{lemma_text_values_insert, text_values, TextMap};

verus! {

/// `serde_json::Error`, carried as it is.
#[verifier::external_type_specification]
#[verifier::external_body]
pub struct ExJsonError(serde_json::Error);

/// `serde_json::Value`, the document as the parser gives it.
#[verifier::external_type_specification]
#[verifier::external_body]
pub struct ExJsonValue(serde_json::Value);

/// A JSON value. Of a number only that it is one is kept.
#[derive(Debug)]
pub enum Json {
    /// `null`
    Null,
    /// A truth value.
    Bool(bool),
    /// A number.
    Number,
    /// A string.
    Text(String),
    /// An array.
    Array(Vec<Json>),
    /// An object: its members, each key once.
    Object(Vec<(String, Json)>),
}

/// The model of a [`Json`].
pub enum JsonView {
    /// `null`
    Null,
    /// A truth value.
    Bool(bool),
    /// A number.
    Number,
    /// A string.
    Text(Seq<char>),
    /// An array.
    Array(Seq<JsonView>),
    /// An object.
    Object(Seq<(Seq<char>, JsonView)>),
}

impl View for Json {
    type V = JsonView;

    open spec fn view(&self) -> JsonView {
        json_view(*self)
    }
}

/// The model of a JSON value.
pub open spec fn json_view(j: Json) -> JsonView
    decreases j,
{
    match j {
        Json::Null => JsonView::Null,
        Json::Bool(b) => JsonView::Bool(b),
        Json::Number => JsonView::Number,
        Json::Text(s) => JsonView::Text(s@),
        Json::Array(a) => JsonView::Array(
            Seq::new(
                a@.len(),
                |i: int|
                    if 0 <= i < a@.len() {
                        json_view(a@[i])
                    } else {
                        JsonView::Null
                    },
            ),
        ),
        Json::Object(o) => JsonView::Object(
            Seq::new(
                o@.len(),
                |i: int|
                    if 0 <= i < o@.len() {
                        (o@[i].0@, json_view(o@[i].1))
                    } else {
                        (Seq::empty(), JsonView::Null)
                    },
            ),
        ),
    }
}

/// What a parsed document holds.
pub uninterp spec fn document(value: serde_json::Value) -> JsonView;

/// The document that the bytes are; nothing where they are no JSON.
pub uninterp spec fn parsed_json(bytes: Seq<u8>) -> Option<JsonView>;

/// `serde_json::from_slice` into a `serde_json::Value`: what comes out depends
/// on the bytes alone.
#[verifier::external_body]
fn parse_value(bytes: &[u8]) -> (r: Result<serde_json::Value, serde_json::Error>)
    ensures
        match r {
            Ok(v) => parsed_json(bytes@) == Some(document(v)),
            Err(_) => parsed_json(bytes@) is None,
        },
{
    serde_json::from_slice(bytes)
}

/// A `serde_json::Value` as a value of this library: each variant becomes its
/// counterpart, the members of an object keep their order.
#[verifier::external_body]
fn json_from(value: serde_json::Value) -> (r: Json)
    ensures
        r@ == document(value),
{
    match value {
        serde_json::Value::Null => Json::Null,
        serde_json::Value::Bool(b) => Json::Bool(b),
        serde_json::Value::Number(_) => Json::Number,
        serde_json::Value::String(s) => Json::Text(s),
        serde_json::Value::Array(a) => Json::Array(a.into_iter().map(json_from).collect()),
        serde_json::Value::Object(o) => {
            Json::Object(o.into_iter().map(|(k, v)| (k, json_from(v))).collect())
        },
    }
}

/// Reads a JSON document.
pub fn read_json(bytes: &[u8]) -> (r: Result<Json, serde_json::Error>)
    ensures
        match r {
            Ok(j) => parsed_json(bytes@) == Some(j@),
            Err(_) => parsed_json(bytes@) is None,
        },
{
    match parse_value(bytes) {
        Ok(v) => Ok(json_from(v)),
        Err(e) => Err(e),
    }
}

/// The position of the first member of `o` with that key.
pub open spec fn member_index(o: Seq<(Seq<char>, JsonView)>, key: Seq<char>) -> Option<int>
    decreases o.len(),
{
    if o.len() == 0 {
        None
    } else if o[0].0 == key {
        Some(0)
    } else {
        match member_index(o.skip(1), key) {
            Some(i) => Some(i + 1),
            None => None,
        }
    }
}

impl JsonView {
    /// The member `key` of an object.
    pub open spec fn member(self, key: Seq<char>) -> Option<JsonView> {
        match self {
            JsonView::Object(o) => match member_index(o, key) {
                Some(i) => Some(o[i].1),
                None => None,
            },
            _ => None,
        }
    }

    /// The member `key` of an object, where it is a string.
    pub open spec fn text_member(self, key: Seq<char>) -> Option<Seq<char>> {
        match self.member(key) {
            Some(JsonView::Text(s)) => Some(s),
            _ => None,
        }
    }

    /// The member `key` of an object, where it is an array: its items that are
    /// strings.
    pub open spec fn texts_member(self, key: Seq<char>) -> Option<Seq<Seq<char>>> {
        match self.member(key) {
            Some(JsonView::Array(a)) => Some(text_items(a)),
            _ => None,
        }
    }

    /// The member `key` of an object, where it is an object: its members that
    /// are strings.
    pub open spec fn text_map_member(self, key: Seq<char>) -> Option<Map<Seq<char>, Seq<char>>> {
        match self.member(key) {
            Some(JsonView::Object(o)) => Some(text_members(o)),
            _ => None,
        }
    }
}

/// The members that are strings, by key.
pub open spec fn text_members(o: Seq<(Seq<char>, JsonView)>) -> Map<Seq<char>, Seq<char>>
    decreases o.len(),
{
    if o.len() == 0 {
        Map::empty()
    } else {
        match o.last().1 {
            JsonView::Text(s) => text_members(o.drop_last()).insert(o.last().0, s),
            _ => text_members(o.drop_last()),
        }
    }
}

/// The items that are strings.
pub open spec fn text_items(a: Seq<JsonView>) -> Seq<Seq<char>>
    decreases a.len(),
{
    if a.len() == 0 {
        Seq::empty()
    } else {
        match a.last() {
            JsonView::Text(s) => text_items(a.drop_last()).push(s),
            _ => text_items(a.drop_last()),
        }
    }
}

proof fn lemma_member_index(o: Seq<(Seq<char>, JsonView)>, key: Seq<char>, i: int)
    requires
        0 <= i <= o.len(),
        forall|j: int| 0 <= j < i ==> (#[trigger] o[j]).0 != key,
    ensures
        i < o.len() && o[i].0 == key ==> member_index(o, key) == Some(i),
        i == o.len() ==> member_index(o, key) is None,
    decreases i,
{
    if i > 0 {
        assert(o[0].0 != key);
        let rest = o.skip(1);
        assert forall|j: int| 0 <= j < i - 1 implies (#[trigger] rest[j]).0 != key by {
            assert(rest[j] == o[j + 1]);
        }
        lemma_member_index(rest, key, i - 1);
    }
}

impl Json {
    /// The member `key` of an object.
    pub fn get(&self, key: &str) -> (r: Option<&Json>)
        ensures
            match r {
                Some(j) => self@.member(key@) == Some(j@),
                None => self@.member(key@) is None,
            },
    {
        match self {
            Json::Object(o) => {
                let ghost m = self@->Object_0;
                let mut i: usize = 0;
                while i < o.len()
                    invariant
                        i <= o@.len(),
                        *self == Json::Object(*o),
                        m == self@->Object_0,
                        forall|j: int| 0 <= j < i ==> (#[trigger] m[j]).0 != key@,
                    decreases o.len() - i,
                {
                    assert(m[i as int] == (o@[i as int].0@, json_view(o@[i as int].1)));
                    if same(o[i].0.as_str(), key) {
                        proof {
                            lemma_member_index(m, key@, i as int);
                        }
                        return Some(&o[i].1);
                    }
                    i += 1;
                }
                proof {
                    lemma_member_index(m, key@, i as int);
                }
                None
            },
            _ => None,
        }
    }

    /// The string that the value is.
    pub fn as_str(&self) -> (r: Option<&String>)
        ensures
            match r {
                Some(s) => self@ == JsonView::Text(s@),
                None => !(self@ is Text),
            },
    {
        match self {
            Json::Text(s) => Some(s),
            _ => None,
        }
    }

    /// The member `key` of an object, where it is a string.
    pub fn get_text(&self, key: &str) -> (r: Option<String>)
        ensures
            match r {
                Some(s) => self@.text_member(key@) == Some(s@),
                None => self@.text_member(key@) is None,
            },
    {
        match self.get(key) {
            Some(j) => match j.as_str() {
                Some(s) => Some(s.clone()),
                None => None,
            },
            None => None,
        }
    }

    /// The member `key` of an object, where it is an array: its items that are
    /// strings.
    pub fn get_texts(&self, key: &str) -> (r: Option<Vec<String>>)
        ensures
            match r {
                Some(v) => self@.texts_member(key@) == Some(texts(v@)),
                None => self@.texts_member(key@) is None,
            },
    {
        let j = match self.get(key) {
            Some(j) => j,
            None => return None,
        };
        match j {
            Json::Array(a) => {
                let ghost m = j@->Array_0;
                let mut out: Vec<String> = Vec::new();
                let mut i: usize = 0;
                assert(m.take(0) =~= Seq::empty());
                assert(texts(out@) =~= Seq::empty());
                while i < a.len()
                    invariant
                        i <= a@.len(),
                        *j == Json::Array(*a),
                        m == j@->Array_0,
                        texts(out@) == text_items(m.take(i as int)),
                    decreases a.len() - i,
                {
                    proof {
                        assert(m[i as int] == json_view(a@[i as int]));
                        assert(m.take(i as int + 1).drop_last() =~= m.take(i as int));
                        assert(m.take(i as int + 1).last() == m[i as int]);
                    }
                    if let Some(s) = a[i].as_str() {
                        proof {
                            lemma_texts_push(out@, *s);
                        }
                        out.push(s.clone());
                    }
                    i += 1;
                }
                assert(m.take(i as int) =~= m);
                Some(out)
            },
            _ => None,
        }
    }

    /// The member `key` of an object, where it is an object: its members that
    /// are strings.
    pub fn get_text_map(&self, key: &str) -> (r: Option<TextMap<String>>)
        ensures
            match r {
                Some(m) => self@.text_map_member(key@) == Some(text_values(m@)),
                None => self@.text_map_member(key@) is None,
            },
    {
        let j = match self.get(key) {
            Some(j) => j,
            None => return None,
        };
        match j {
            Json::Object(o) => {
                let ghost m = j@->Object_0;
                let mut out: TextMap<String> = TextMap::new();
                let mut i: usize = 0;
                proof {
                    assert(m.take(0) =~= Seq::empty());
                    assert(text_values(out@) =~= Map::empty());
                }
                while i < o.len()
                    invariant
                        i <= o@.len(),
                        *j == Json::Object(*o),
                        m == j@->Object_0,
                        text_values(out@) == text_members(m.take(i as int)),
                    decreases o.len() - i,
                {
                    proof {
                        assert(m[i as int] == (o@[i as int].0@, json_view(o@[i as int].1)));
                        assert(m.take(i as int + 1).drop_last() =~= m.take(i as int));
                        assert(m.take(i as int + 1).last() == m[i as int]);
                    }
                    if let Some(s) = o[i].1.as_str() {
                        proof {
                            lemma_text_values_insert(out@, o@[i as int].0@, *s);
                        }
                        out.insert(o[i].0.clone(), s.clone());
                    }
                    i += 1;
                }
                assert(m.take(i as int) =~= m);
                Some(out)
            },
            _ => None,
        }
    }
}

} // verus!
