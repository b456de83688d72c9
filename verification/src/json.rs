//! JSON documents as plain values, and the reading of one from text.

use vstd::prelude::*;

verus! {

/// A member of an object: a name and a value.
pub struct MemberModel {
    /// The name of the member.
    pub name: Seq<char>,
    /// The value under that name.
    pub value: JsonModel,
}

/// The mathematical content of a [`JsonValue`].
pub enum JsonModel {
    /// `null`.
    Null,
    /// `true` or `false`.
    Bool(bool),
    /// A number, by its decimal text.
    Number(Seq<char>),
    /// A string.
    Text(Seq<char>),
    /// An array, in order.
    List(Seq<JsonModel>),
    /// An object, as its members in order, each a name and a value.
    Object(Seq<MemberModel>),
}

/// A JSON document. Of two members of an object with the same name the later
/// one counts.
#[derive(Debug)]
pub enum JsonValue {
    /// `null`.
    Null,
    /// `true` or `false`.
    Bool(bool),
    /// A number, by its decimal text.
    Number(String),
    /// A string.
    Text(String),
    /// An array, in order.
    List(Vec<JsonValue>),
    /// An object, as its members in order, each a name and a value.
    Object(Vec<(String, JsonValue)>),
}

impl View for JsonValue {
    type V = JsonModel;

    open spec fn view(&self) -> JsonModel
        decreases self,
    {
        match self {
            JsonValue::Null => JsonModel::Null,
            JsonValue::Bool(b) => JsonModel::Bool(*b),
            JsonValue::Number(digits) => JsonModel::Number(digits@),
            JsonValue::Text(text) => JsonModel::Text(text@),
            JsonValue::List(items) => JsonModel::List(
                Seq::new(
                    items@.len(),
                    |i: int|
                        if 0 <= i < items@.len() {
                            items@[i].view()
                        } else {
                            JsonModel::Null
                        },
                ),
            ),
            JsonValue::Object(members) => JsonModel::Object(
                Seq::new(
                    members@.len(),
                    |i: int|
                        if 0 <= i < members@.len() {
                            MemberModel { name: members@[i].0@, value: members@[i].1.view() }
                        } else {
                            MemberModel { name: Seq::empty(), value: JsonModel::Null }
                        },
                ),
            ),
        }
    }
}

/// The contents of a list of values.
pub open spec fn item_views(items: Seq<JsonValue>) -> Seq<JsonModel> {
    Seq::new(items.len(), |i: int| items[i]@)
}

/// The contents of a list of members.
pub open spec fn member_views(members: Seq<(String, JsonValue)>) -> Seq<MemberModel> {
    Seq::new(members.len(), |i: int| MemberModel { name: members[i].0@, value: members[i].1@ })
}

/// The value of the member called `name`: that of the last member with this
/// name, if there is one.
pub open spec fn member(members: Seq<MemberModel>, name: Seq<char>) -> Option<JsonModel>
    decreases members.len(),
{
    if members.len() == 0 {
        None
    } else if members.last().name == name {
        Some(members.last().value)
    } else {
        member(members.drop_last(), name)
    }
}

/// The document that a text holds, as `serde_json::from_str` reads it; `None`
/// for a text that is no JSON document.
pub uninterp spec fn parsed_json(text: Seq<char>) -> Option<JsonModel>;

/// `serde_json::Error`, as an opaque type: verified code hands it on and
/// knows nothing of what it holds.
#[verifier::external_type_specification]
#[verifier::external_body]
pub struct ExJsonError(serde_json::Error);

/// `serde_json::Value`, as an opaque type: verified code never looks into
/// one.
#[verifier::external_type_specification]
#[verifier::external_body]
pub struct ExJsonTree(serde_json::Value);

/// Turns a `serde_json::Value` into a [`JsonValue`], variant by variant: a
/// number becomes its decimal text, an object its members in the order in
/// which `serde_json::Map` hands them out. Trusted; nothing is claimed of the
/// result here.
#[verifier::external_body]
fn lift(tree: serde_json::Value) -> JsonValue {
    match tree {
        serde_json::Value::Null => JsonValue::Null,
        serde_json::Value::Bool(b) => JsonValue::Bool(b),
        serde_json::Value::Number(n) => JsonValue::Number(n.to_string()),
        serde_json::Value::String(text) => JsonValue::Text(text),
        serde_json::Value::Array(items) => JsonValue::List(items.into_iter().map(lift).collect()),
        serde_json::Value::Object(members) => JsonValue::Object(
            members.into_iter().map(|(name, value)| (name, lift(value))).collect(),
        ),
    }
}

/// Calls `serde_json::from_str` for a `serde_json::Value`. Trusted: the
/// outcome is a function of the text alone, the one that [`parsed_json`]
/// names; an error stands for a text that is no JSON document.
#[verifier::external_body]
fn read_document(text: &str) -> (outcome: Result<JsonValue, serde_json::Error>)
    ensures
        match outcome {
            Ok(document) => parsed_json(text@) == Some(document@),
            Err(_) => parsed_json(text@) is None,
        },
{
    serde_json::from_str::<serde_json::Value>(text).map(lift)
}

/// Reads a JSON document from text; `None` when the text is no JSON
/// document.
pub fn parse(text: &str) -> (document: Option<JsonValue>)
    ensures
        match document {
            Some(value) => parsed_json(text@) == Some(value@),
            None => parsed_json(text@) is None,
        },
{
    match read_document(text) {
        Ok(value) => Some(value),
        Err(_) => None,
    }
}

impl JsonValue {
    /// The string that the value is, if it is one.
    pub fn as_text(&self) -> (text: Option<&String>)
        ensures
            match text {
                Some(t) => self@ == JsonModel::Text(t@),
                None => !(self@ is Text),
            },
    {
        match self {
            JsonValue::Text(t) => Some(t),
            _ => None,
        }
    }

    /// The items of the array that the value is, if it is one.
    pub fn as_list(&self) -> (items: Option<&Vec<JsonValue>>)
        ensures
            match items {
                Some(list) => self@ == JsonModel::List(item_views(list@)),
                None => !(self@ is List),
            },
    {
        match self {
            JsonValue::List(list) => {
                assert(self@->List_0 =~= item_views(list@));
                Some(list)
            },
            _ => None,
        }
    }

    /// The members of the object that the value is, if it is one.
    pub fn as_object(&self) -> (members: Option<&Vec<(String, JsonValue)>>)
        ensures
            match members {
                Some(list) => self@ == JsonModel::Object(member_views(list@)),
                None => !(self@ is Object),
            },
    {
        match self {
            JsonValue::Object(list) => {
                assert(self@->Object_0 =~= member_views(list@));
                Some(list)
            },
            _ => None,
        }
    }

    /// Whether the value is `null`.
    pub fn is_null(&self) -> (null: bool)
        ensures
            null == (self@ is Null),
    {
        match self {
            JsonValue::Null => true,
            _ => false,
        }
    }
}

} // verus!
