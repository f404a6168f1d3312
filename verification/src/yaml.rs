//! YAML documents as plain values.

use vstd::prelude::*;

use crate::text::same;

verus! {

/// A YAML value.
#[derive(Debug, PartialEq)]
pub enum Yaml {
    Null,
    Bool(bool),
    /// A number. Nothing reads its value.
    Number,
    Text(String),
    List(Vec<Yaml>),
    /// In document order.
    Mapping(Vec<(Yaml, Yaml)>),
    /// A value behind a `!tag`.
    Tagged(Box<Yaml>),
}

/// The mathematical value of a [`Yaml`].
pub enum YamlModel {
    Null,
    Bool(bool),
    Number,
    Text(Seq<char>),
    List(Seq<YamlModel>),
    Mapping(Seq<(YamlModel, YamlModel)>),
    Tagged(Box<YamlModel>),
}

/// What a YAML value stands for.
pub open spec fn yaml_model(y: Yaml) -> YamlModel
    decreases y,
{
    match y {
        Yaml::Null => YamlModel::Null,
        Yaml::Bool(b) => YamlModel::Bool(b),
        Yaml::Number => YamlModel::Number,
        Yaml::Text(s) => YamlModel::Text(s@),
        Yaml::List(items) => YamlModel::List(
            Seq::new(
                items@.len(),
                |i: int|
                    if 0 <= i < items@.len() {
                        yaml_model(items@[i])
                    } else {
                        arbitrary()
                    },
            ),
        ),
        Yaml::Mapping(pairs) => YamlModel::Mapping(
            Seq::new(
                pairs@.len(),
                |i: int|
                    if 0 <= i < pairs@.len() {
                        (yaml_model(pairs@[i].0), yaml_model(pairs@[i].1))
                    } else {
                        arbitrary()
                    },
            ),
        ),
        Yaml::Tagged(inner) => YamlModel::Tagged(Box::new(yaml_model(*inner))),
    }
}

/// The value behind any tags.
pub open spec fn untagged(y: YamlModel) -> YamlModel
    decreases y,
{
    match y {
        YamlModel::Tagged(inner) => untagged(*inner),
        other => other,
    }
}

/// The text of a value that is a text.
pub open spec fn text_in(y: YamlModel) -> Option<Seq<char>> {
    match untagged(y) {
        YamlModel::Text(s) => Some(s),
        _ => None,
    }
}

/// The first value from the `i`-th pair on whose key is this text.
pub open spec fn pair_value(
    pairs: Seq<(YamlModel, YamlModel)>,
    key: Seq<char>,
    i: int,
) -> Option<YamlModel>
    decreases pairs.len() - i,
{
    if i < 0 || i >= pairs.len() {
        None
    } else if pairs[i].0 == YamlModel::Text(key) {
        Some(pairs[i].1)
    } else {
        pair_value(pairs, key, i + 1)
    }
}

/// The value under a key, if this is a mapping that has it.
pub open spec fn field_of(y: YamlModel, key: Seq<char>) -> Option<YamlModel> {
    match untagged(y) {
        YamlModel::Mapping(pairs) => pair_value(pairs, key, 0),
        _ => None,
    }
}

/// What a text holds as a YAML document, or what the parser says is wrong.
pub uninterp spec fn yaml_of(text: Seq<char>) -> Result<YamlModel, Seq<char>>;

#[verifier::external_type_specification]
#[verifier::external_body]
pub struct ExYamlValue(serde_norway::Value);

/// `serde_norway::Value`, variant by variant. Nothing is claimed of it by itself.
#[verifier::external_body]
fn yaml_from(v: serde_norway::Value) -> (r: Yaml) {
    match v {
        serde_norway::Value::Null => Yaml::Null,
        serde_norway::Value::Bool(b) => Yaml::Bool(b),
        serde_norway::Value::Number(_) => Yaml::Number,
        serde_norway::Value::String(s) => Yaml::Text(s),
        serde_norway::Value::Sequence(s) => Yaml::List(s.into_iter().map(yaml_from).collect()),
        serde_norway::Value::Mapping(m) => {
            Yaml::Mapping(m.into_iter().map(|(k, v)| (yaml_from(k), yaml_from(v))).collect())
        },
        serde_norway::Value::Tagged(t) => Yaml::Tagged(Box::new(yaml_from(t.value))),
    }
}

/// `serde_norway::from_str`: the document, or the parser's message, is a function
/// of the text.
#[verifier::external_body]
pub(crate) fn parse_yaml(text: &str) -> (r: Result<Yaml, String>)
    ensures
        match (yaml_of(text@), r) {
            (Ok(m), Ok(y)) => yaml_model(y) == m,
            (Err(m), Err(e)) => e@ == m,
            _ => false,
        },
{
    match serde_norway::from_str::<serde_norway::Value>(text) {
        Ok(v) => Ok(yaml_from(v)),
        Err(e) => Err(e.to_string()),
    }
}

impl Yaml {
    /// The value behind any tags.
    pub fn untag(&self) -> (r: &Yaml)
        ensures
            yaml_model(*r) == untagged(yaml_model(*self)),
            !(r is Tagged),
        decreases self,
    {
        match self {
            Yaml::Tagged(inner) => inner.untag(),
            _ => self,
        }
    }

    /// The text, if this is one.
    pub fn as_str(&self) -> (r: Option<&String>)
        ensures
            match r {
                Some(s) => text_in(yaml_model(*self)) == Some(s@),
                None => text_in(yaml_model(*self)) is None,
            },
    {
        match self.untag() {
            Yaml::Text(s) => Some(s),
            _ => None,
        }
    }

    /// The value under a key, if this is a mapping that has it.
    pub fn get(&self, key: &str) -> (r: Option<&Yaml>)
        ensures
            match r {
                Some(v) => field_of(yaml_model(*self), key@) == Some(yaml_model(*v)),
                None => field_of(yaml_model(*self), key@) is None,
            },
    {
        let ghost m = untagged(yaml_model(*self));
        match self.untag() {
            Yaml::Mapping(pairs) => {
                let ghost ps = m->Mapping_0;
                let mut i: usize = 0;
                while i < pairs.len()
                    invariant
                        m == yaml_model(Yaml::Mapping(*pairs)),
                        m == YamlModel::Mapping(ps),
                        i <= pairs.len(),
                        ps.len() == pairs.len(),
                        m == untagged(yaml_model(*self)),
                        pair_value(ps, key@, 0) == pair_value(ps, key@, i as int),
                    decreases pairs.len() - i,
                {
                    assert(ps[i as int] == (yaml_model(pairs@[i as int].0), yaml_model(pairs@[i as int].1)));
                    match &pairs[i].0 {
                        Yaml::Text(k) => {
                            if same(k.as_str(), key) {
                                return Some(&pairs[i].1);
                            }
                        },
                        _ => {},
                    }
                    i += 1;
                }
                None
            },
            _ => None,
        }
    }
}

// --- Laws ---------------------------------------------------------------------------

/// A value is found under its key, whatever tags the mapping has.
pub proof fn a_value_is_found_under_its_key(
    pairs: Seq<(YamlModel, YamlModel)>,
    i: int,
    key: Seq<char>,
)
    requires
        0 <= i < pairs.len(),
        pairs[i].0 == YamlModel::Text(key),
        forall|j: int| 0 <= j < i ==> (#[trigger] pairs[j]).0 != YamlModel::Text(key),
    ensures
        field_of(YamlModel::Mapping(pairs), key) == Some(pairs[i].1),
        field_of(YamlModel::Tagged(Box::new(YamlModel::Mapping(pairs))), key) == Some(pairs[i].1),
{
    reveal_with_fuel(untagged, 3);
    first_pair_is_found(pairs, 0, i, key);
}

proof fn first_pair_is_found(pairs: Seq<(YamlModel, YamlModel)>, from: int, i: int, key: Seq<char>)
    requires
        0 <= from <= i < pairs.len(),
        pairs[i].0 == YamlModel::Text(key),
        forall|j: int| from <= j < i ==> (#[trigger] pairs[j]).0 != YamlModel::Text(key),
    ensures
        pair_value(pairs, key, from) == Some(pairs[i].1),
    decreases i - from,
{
    if from < i {
        assert(pairs[from].0 != YamlModel::Text(key));
        first_pair_is_found(pairs, from + 1, i, key);
    }
}

} // verus!
