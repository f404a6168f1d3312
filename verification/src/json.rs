//! JSON documents as plain values.

use std::collections::BTreeMap;

use serde::de::IgnoredAny;
use serde_json::value::RawValue;
use vstd::prelude::*;

use crate::text::same;

verus! {

/// A JSON value.
#[derive(Debug, PartialEq)]
pub enum Json {
    Null,
    Bool(bool),
    /// A number, as it is printed: an integer in decimal, anything else with a
    /// point or an exponent.
    Number(String),
    Text(String),
    List(Vec<Json>),
    /// In the order the parser hands the members out.
    Object(Vec<(String, Json)>),
}

/// The mathematical value of a [`Json`].
pub enum JsonModel {
    Null,
    Bool(bool),
    Number(Seq<char>),
    Text(Seq<char>),
    List(Seq<JsonModel>),
    Object(Seq<(Seq<char>, JsonModel)>),
}

/// What a JSON value stands for.
pub open spec fn json_model(j: Json) -> JsonModel
    decreases j,
{
    match j {
        Json::Null => JsonModel::Null,
        Json::Bool(b) => JsonModel::Bool(b),
        Json::Number(s) => JsonModel::Number(s@),
        Json::Text(s) => JsonModel::Text(s@),
        Json::List(items) => JsonModel::List(
            Seq::new(
                items@.len(),
                |i: int|
                    if 0 <= i < items@.len() {
                        json_model(items@[i])
                    } else {
                        arbitrary()
                    },
            ),
        ),
        Json::Object(members) => JsonModel::Object(
            Seq::new(
                members@.len(),
                |i: int|
                    if 0 <= i < members@.len() {
                        (members@[i].0@, json_model(members@[i].1))
                    } else {
                        arbitrary()
                    },
            ),
        ),
    }
}

/// The first value from the `i`-th member on with this name.
pub open spec fn member_value(
    members: Seq<(Seq<char>, JsonModel)>,
    key: Seq<char>,
    i: int,
) -> Option<JsonModel>
    decreases members.len() - i,
{
    if i < 0 || i >= members.len() {
        None
    } else if members[i].0 == key {
        Some(members[i].1)
    } else {
        member_value(members, key, i + 1)
    }
}

/// The value of a member, if this is an object that has it.
pub open spec fn member_of(j: JsonModel, key: Seq<char>) -> Option<JsonModel> {
    match j {
        JsonModel::Object(members) => member_value(members, key, 0),
        _ => None,
    }
}

/// The text of a member, if this is an object that has it and it is a text.
pub open spec fn text_member(j: JsonModel, key: Seq<char>) -> Option<Seq<char>> {
    match member_of(j, key) {
        Some(JsonModel::Text(s)) => Some(s),
        _ => None,
    }
}

/// What a text holds as a JSON document, or what the parser says is wrong.
pub uninterp spec fn json_of(text: Seq<char>) -> Result<JsonModel, Seq<char>>;

#[verifier::external_type_specification]
#[verifier::external_body]
pub struct ExJsonValue(serde_json::Value);

/// `serde_json::Value`, variant by variant. Nothing is claimed of it by itself.
#[verifier::external_body]
fn json_from(v: serde_json::Value) -> (r: Json) {
    match v {
        serde_json::Value::Null => Json::Null,
        serde_json::Value::Bool(b) => Json::Bool(b),
        serde_json::Value::Number(n) => Json::Number(n.to_string()),
        serde_json::Value::String(s) => Json::Text(s),
        serde_json::Value::Array(a) => Json::List(a.into_iter().map(json_from).collect()),
        serde_json::Value::Object(m) => {
            Json::Object(m.into_iter().map(|(k, v)| (k, json_from(v))).collect())
        },
    }
}

/// `serde_json::from_str`: the document, or the parser's message, is a function of
/// the text.
#[verifier::external_body]
pub(crate) fn parse_json(text: &str) -> (r: Result<Json, String>)
    ensures
        match (json_of(text@), r) {
            (Ok(m), Ok(j)) => json_model(j) == m,
            (Err(m), Err(e)) => e@ == m,
            _ => false,
        },
{
    match serde_json::from_str::<serde_json::Value>(text) {
        Ok(v) => Ok(json_from(v)),
        Err(e) => Err(e.to_string()),
    }
}

/// The text of the value that a text opens with, where one stands there and ends.
pub uninterp spec fn leading_text(text: Seq<char>) -> Option<Seq<char>>;

/// `serde_json::StreamDeserializer` over `serde_json::value::RawValue`: whether a text
/// opens with a value, and the text of that value, is a function of it. The value is
/// checked for syntax alone.
#[verifier::external_body]
pub(crate) fn leading_value(text: &str) -> (r: Option<String>)
    ensures
        match r {
            Some(v) => leading_text(text@) == Some(v@),
            None => leading_text(text@) is None,
        },
{
    match serde_json::Deserializer::from_str(text).into_iter::<Box<RawValue>>().next() {
        Some(Ok(v)) => Some(v.get().to_owned()),
        _ => None,
    }
}

/// What the parser says is wrong with a text that is no JSON object.
pub uninterp spec fn map_fault(text: Seq<char>) -> Option<Seq<char>>;

/// `serde_json::from_str` to a map whose values are ignored: whether a text is an object,
/// and the parser's message where it is not, is a function of it.
#[verifier::external_body]
pub(crate) fn check_map(text: &str) -> (r: Option<String>)
    ensures
        match r {
            Some(e) => map_fault(text@) == Some(e@),
            None => map_fault(text@) is None,
        },
{
    match serde_json::from_str::<BTreeMap<String, IgnoredAny>>(text) {
        Ok(_) => None,
        Err(e) => Some(e.to_string()),
    }
}

/// What the parser says is wrong with a text that is no JSON list of three values.
pub uninterp spec fn triple_fault(text: Seq<char>) -> Option<Seq<char>>;

/// `serde_json::from_str` to three values: whether a text is a list of three, and the
/// parser's message where it is not, is a function of it.
#[verifier::external_body]
pub(crate) fn check_triple(text: &str) -> (r: Option<String>)
    ensures
        match r {
            Some(e) => triple_fault(text@) == Some(e@),
            None => triple_fault(text@) is None,
        },
{
    match serde_json::from_str::<(serde_json::Value, serde_json::Value, serde_json::Value)>(text) {
        Ok(_) => None,
        Err(e) => Some(e.to_string()),
    }
}

/// What a value looks like when it is printed, one member or item to a line.
pub uninterp spec fn json_text(v: JsonModel) -> Seq<char>;

/// To `serde_json::Value`, variant by variant: a number by its digits, or as a text
/// where `serde_json` does not take them. Nothing is claimed of it by itself.
#[verifier::external_body]
fn json_into(v: &Json) -> (r: serde_json::Value) {
    match v {
        Json::Null => serde_json::Value::Null,
        Json::Bool(b) => serde_json::Value::Bool(*b),
        Json::Number(n) => match n.parse::<serde_json::Number>() {
            Ok(n) => serde_json::Value::Number(n),
            Err(_) => serde_json::Value::String(n.clone()),
        },
        Json::Text(s) => serde_json::Value::String(s.clone()),
        Json::List(items) => serde_json::Value::Array(items.iter().map(json_into).collect()),
        Json::Object(m) => {
            serde_json::Value::Object(m.iter().map(|(k, v)| (k.clone(), json_into(v))).collect())
        },
    }
}

/// `serde_json::to_string_pretty`: the text is a function of the value.
#[verifier::external_body]
pub(crate) fn print_json(v: &Json) -> (r: String)
    ensures
        r@ == json_text(json_model(*v)),
{
    match serde_json::to_string_pretty(&json_into(v)) {
        Ok(text) => text,
        Err(e) => e.to_string(),
    }
}

// --- Building values ------------------------------------------------------------

/// What the members of an object stand for.
pub open spec fn members_model(members: Seq<(String, Json)>) -> Seq<(Seq<char>, JsonModel)> {
    Seq::new(members.len(), |i: int| (members[i].0@, json_model(members[i].1)))
}

/// What the items of a list stand for.
pub open spec fn items_model(items: Seq<Json>) -> Seq<JsonModel> {
    Seq::new(items.len(), |i: int| json_model(items[i]))
}

/// Adds a member to those of an object.
pub fn add_member(members: &mut Vec<(String, Json)>, name: &str, v: Json)
    ensures
        members_model(final(members)@) == members_model(old(members)@).push(
            (name@, json_model(v)),
        ),
{
    members.push((name.to_owned(), v));
    assert(members_model(members@) =~= members_model(old(members)@).push((name@, json_model(v))));
}

/// Adds an item to those of a list.
pub fn add_item(items: &mut Vec<Json>, v: Json)
    ensures
        items_model(final(items)@) == items_model(old(items)@).push(json_model(v)),
{
    items.push(v);
    assert(items_model(items@) =~= items_model(old(items)@).push(json_model(v)));
}

/// An object with these members.
pub fn object(members: Vec<(String, Json)>) -> (r: Json)
    ensures
        json_model(r) == JsonModel::Object(members_model(members@)),
{
    let r = Json::Object(members);
    assert(json_model(r)->Object_0 =~= members_model(members@));
    r
}

/// A list of these items.
pub fn list(items: Vec<Json>) -> (r: Json)
    ensures
        json_model(r) == JsonModel::List(items_model(items@)),
{
    let r = Json::List(items);
    assert(json_model(r)->List_0 =~= items_model(items@));
    r
}

/// Texts as a list.
pub open spec fn texts_json(texts: Seq<Seq<char>>) -> JsonModel {
    JsonModel::List(texts.map_values(|t: Seq<char>| JsonModel::Text(t)))
}

/// Lists texts.
pub fn list_texts(texts: &Vec<String>) -> (r: Json)
    ensures
        json_model(r) == texts_json(texts.deep_view()),
{
    let ghost want = texts_json(texts.deep_view())->List_0;
    let mut items: Vec<Json> = Vec::new();
    let mut i: usize = 0;
    assert(items_model(items@) =~= want.take(0));
    while i < texts.len()
        invariant
            want == texts_json(texts.deep_view())->List_0,
            want.len() == texts.len(),
            i <= texts.len(),
            items_model(items@) == want.take(i as int),
        decreases texts.len() - i,
    {
        assert(texts.deep_view()[i as int] == texts@[i as int]@);
        add_item(&mut items, Json::Text(texts[i].clone()));
        i += 1;
        assert(items_model(items@) =~= want.take(i as int));
    }
    assert(want.take(i as int) =~= want);
    list(items)
}

/// A text or nothing.
pub open spec fn optional_text(t: Option<Seq<char>>) -> JsonModel {
    match t {
        Some(s) => JsonModel::Text(s),
        None => JsonModel::Null,
    }
}

/// Writes a text or nothing.
pub fn text_or_null(t: Option<&str>) -> (r: Json)
    ensures
        json_model(r) == optional_text(
            match t {
                Some(s) => Some(s@),
                None => None,
            },
        ),
{
    match t {
        Some(s) => Json::Text(s.to_owned()),
        None => Json::Null,
    }
}

impl Json {
    /// The value of a member, if this is an object that has it.
    pub fn get(&self, key: &str) -> (r: Option<&Json>)
        ensures
            match r {
                Some(v) => member_of(json_model(*self), key@) == Some(json_model(*v)),
                None => member_of(json_model(*self), key@) is None,
            },
    {
        let ghost m = json_model(*self);
        match self {
            Json::Object(members) => {
                let ghost ms = m->Object_0;
                let mut i: usize = 0;
                while i < members.len()
                    invariant
                        m == json_model(Json::Object(*members)),
                        m == json_model(*self),
                        m == JsonModel::Object(ms),
                        ms.len() == members.len(),
                        i <= members.len(),
                        member_value(ms, key@, 0) == member_value(ms, key@, i as int),
                    decreases members.len() - i,
                {
                    assert(ms[i as int] == (members@[i as int].0@, json_model(members@[i as int].1)));
                    if same(members[i].0.as_str(), key) {
                        return Some(&members[i].1);
                    }
                    i += 1;
                }
                None
            },
            _ => None,
        }
    }

    /// The text of a member, if this is an object that has it and it is a text.
    pub fn get_str(&self, key: &str) -> (r: Option<&String>)
        ensures
            match r {
                Some(s) => text_member(json_model(*self), key@) == Some(s@),
                None => text_member(json_model(*self), key@) is None,
            },
    {
        match self.get(key) {
            Some(v) => match v {
                Json::Text(s) => Some(s),
                _ => None,
            },
            None => None,
        }
    }
}

// --- Laws ---------------------------------------------------------------------------

/// A member is found under its name: the value is that of the first member with the name,
/// and there is none where no member has it.
pub proof fn a_member_is_found_under_its_name(members: Seq<(Seq<char>, JsonModel)>, i: int)
    requires
        0 <= i < members.len(),
        forall|j: int| 0 <= j < i ==> (#[trigger] members[j]).0 != members[i].0,
    ensures
        member_of(JsonModel::Object(members), members[i].0) == Some(members[i].1),
        forall|key: Seq<char>|
            #[trigger] member_of(JsonModel::Object(members), key) is Some ==> exists|j: int|
                0 <= j < members.len() && (#[trigger] members[j]).0 == key,
{
    first_member_is_found(members, 0, i);
    assert forall|key: Seq<char>| #[trigger] member_of(JsonModel::Object(members), key) is Some implies exists|j: int|
        0 <= j < members.len() && (#[trigger] members[j]).0 == key by {
        a_found_member_has_the_name(members, key, 0);
    }
}

proof fn first_member_is_found(members: Seq<(Seq<char>, JsonModel)>, from: int, i: int)
    requires
        0 <= from <= i < members.len(),
        forall|j: int| from <= j < i ==> (#[trigger] members[j]).0 != members[i].0,
    ensures
        member_value(members, members[i].0, from) == Some(members[i].1),
    decreases i - from,
{
    if from < i {
        assert(members[from].0 != members[i].0);
        first_member_is_found(members, from + 1, i);
    }
}

proof fn a_found_member_has_the_name(
    members: Seq<(Seq<char>, JsonModel)>,
    key: Seq<char>,
    from: int,
)
    requires
        0 <= from,
        member_value(members, key, from) is Some,
    ensures
        exists|j: int| from <= j < members.len() && (#[trigger] members[j]).0 == key,
    decreases members.len() - from,
{
    if from < members.len() && members[from].0 != key {
        a_found_member_has_the_name(members, key, from + 1);
    }
}

} // verus!
