use vstd::prelude::*;
use vstd::string::*;
use crate::error::Failure;
use crate::names::{distinct, lemma_position_at, lemma_position_none, position};
use crate::text::str_eq;

verus! {

/// A JSON value as a mathematical tree.
pub enum JsonView {
    Null,
    Bool(bool),
    /// A number, by its decimal text.
    Number(Seq<char>),
    String(Seq<char>),
    Array(Seq<JsonView>),
    /// An object: its members in document order.
    Object(Seq<MemberView>),
}

/// One member of a JSON object.
pub struct MemberView {
    pub key: Seq<char>,
    pub value: JsonView,
}

/// A JSON value.
#[derive(Debug)]
pub enum Json {
    Null,
    Bool(bool),
    /// A number, by its decimal text.
    Number(String),
    String(String),
    Array(Vec<Json>),
    /// An object: its members in document order.
    Object(Vec<Member>),
}

/// One member of a JSON object.
#[derive(Debug)]
pub struct Member {
    pub key: String,
    pub value: Json,
}

/// The keys of `members`, in order.
pub open spec fn member_keys(members: Seq<MemberView>) -> Seq<Seq<char>> {
    Seq::new(members.len(), |i: int| members[i].key)
}

/// The views of `items`, in order.
pub open spec fn items_view(items: Seq<Json>) -> Seq<JsonView> {
    Seq::new(items.len(), |i: int| items[i]@)
}

/// The views of `members`, in order.
pub open spec fn members_view(members: Seq<Member>) -> Seq<MemberView> {
    Seq::new(members.len(), |i: int| members[i]@)
}

impl JsonView {
    /// The value of the first member named `key`, where this is an object that
    /// has one.
    pub open spec fn get(self, key: Seq<char>) -> Option<JsonView> {
        match self {
            JsonView::Object(members) => match position(member_keys(members), key) {
                Some(i) => Some(members[i].value),
                None => None,
            },
            _ => None,
        }
    }

    /// The text, where this is a string.
    pub open spec fn as_str(self) -> Option<Seq<char>> {
        match self {
            JsonView::String(s) => Some(s),
            _ => None,
        }
    }

    /// The items, where this is an array.
    pub open spec fn as_array(self) -> Option<Seq<JsonView>> {
        match self {
            JsonView::Array(items) => Some(items),
            _ => None,
        }
    }

    /// The members, where this is an object.
    pub open spec fn as_object(self) -> Option<Seq<MemberView>> {
        match self {
            JsonView::Object(members) => Some(members),
            _ => None,
        }
    }
}

impl View for Member {
    type V = MemberView;

    open spec fn view(&self) -> MemberView
        decreases self,
    {
        MemberView { key: self.key@, value: self.value.view() }
    }
}

impl View for Json {
    type V = JsonView;

    open spec fn view(&self) -> JsonView
        decreases self,
    {
        match self {
            Json::Null => JsonView::Null,
            Json::Bool(b) => JsonView::Bool(*b),
            Json::Number(n) => JsonView::Number(n@),
            Json::String(s) => JsonView::String(s@),
            Json::Array(items) => JsonView::Array(
                Seq::new(
                    items@.len(),
                    |i: int|
                        if 0 <= i < items@.len() {
                            items@[i].view()
                        } else {
                            JsonView::Null
                        },
                ),
            ),
            Json::Object(members) => JsonView::Object(
                Seq::new(
                    members@.len(),
                    |i: int|
                        if 0 <= i < members@.len() {
                            members@[i].view()
                        } else {
                            MemberView { key: Seq::empty(), value: JsonView::Null }
                        },
                ),
            ),
        }
    }
}

/// Whether no object in `value`, at any depth, has two members of the same key.
pub open spec fn unique_keys(value: JsonView) -> bool
    decreases value,
{
    match value {
        JsonView::Array(items) => forall|i: int|
            0 <= i < items.len() ==> unique_keys(#[trigger] items[i]),
        JsonView::Object(members) => distinct(member_keys(members)) && forall|i: int|
            0 <= i < members.len() ==> unique_keys((#[trigger] members[i]).value),
        _ => true,
    }
}

/// The view of an array is the views of its items.
pub proof fn lemma_array_view(items: Vec<Json>)
    ensures
        Json::Array(items)@ == JsonView::Array(items_view(items@)),
{
    assert(Json::Array(items)@->Array_0 =~= items_view(items@));
}

/// The view of an object is the views of its members.
pub proof fn lemma_object_view(members: Vec<Member>)
    ensures
        Json::Object(members)@ == JsonView::Object(members_view(members@)),
{
    assert(Json::Object(members)@->Object_0 =~= members_view(members@));
}

/// A value decreases to what `get` finds in it.
pub proof fn lemma_get_decreases(node: JsonView, key: Seq<char>)
    ensures
        node.get(key) matches Some(v) ==> decreases_to!(node => v),
{
    if let JsonView::Object(members) = node {
        crate::names::lemma_position(member_keys(members), key);
        if let Some(i) = position(member_keys(members), key) {
            assert(decreases_to!(node => members));
            assert(decreases_to!(members => members[i]));
            assert(decreases_to!(members[i] => members[i].value));
        }
    }
}

/// Index of the first of `members` named `key`.
pub fn find_member(members: &Vec<Member>, key: &str) -> (r: Option<usize>)
    ensures
        match r {
            Some(i) => i < members.len() && position(
                member_keys(members_view(members@)),
                key@,
            ) == Some(i as int),
            None => position(member_keys(members_view(members@)), key@) is None,
        },
{
    let ghost keys = member_keys(members_view(members@));
    let mut i: usize = 0;
    while i < members.len()
        invariant
            i <= members.len(),
            keys == member_keys(members_view(members@)),
            forall|j: int| 0 <= j < i ==> keys[j] != key@,
        decreases members.len() - i,
    {
        if str_eq(members[i].key.as_str(), key) {
            proof {
                lemma_position_at(keys, key@, i as int);
            }
            return Some(i);
        }
        i = i + 1;
    }
    proof {
        lemma_position_none(keys, key@);
    }
    None
}

impl Json {
    /// The value of the first member named `key`, where this is an object that
    /// has one.
    pub fn get(&self, key: &str) -> (r: Option<&Json>)
        ensures
            match r {
                Some(v) => self@.get(key@) == Some(v@),
                None => self@.get(key@) is None,
            },
    {
        match self {
            Json::Object(members) => {
                proof {
                    lemma_object_view(*members);
                }
                match find_member(members, key) {
                    Some(i) => {
                        assert(members_view(members@)[i as int].value == members@[i as int].value@);
                        Some(&members[i].value)
                    },
                    None => None,
                }
            },
            _ => None,
        }
    }

    /// The text, where this is a string.
    pub fn as_str(&self) -> (r: Option<&str>)
        ensures
            match r {
                Some(s) => self@.as_str() == Some(s@),
                None => self@.as_str() is None,
            },
    {
        match self {
            Json::String(s) => Some(s.as_str()),
            _ => None,
        }
    }

    /// The items, where this is an array.
    pub fn as_array(&self) -> (r: Option<&Vec<Json>>)
        ensures
            match r {
                Some(items) => self@.as_array() == Some(items_view(items@)),
                None => self@.as_array() is None,
            },
    {
        match self {
            Json::Array(items) => {
                proof {
                    lemma_array_view(*items);
                }
                Some(items)
            },
            _ => None,
        }
    }

    /// The members, where this is an object.
    pub fn as_object(&self) -> (r: Option<&Vec<Member>>)
        ensures
            match r {
                Some(members) => self@.as_object() == Some(members_view(members@)),
                None => self@.as_object() is None,
            },
    {
        match self {
            Json::Object(members) => {
                proof {
                    lemma_object_view(*members);
                }
                Some(members)
            },
            _ => None,
        }
    }

    /// Reads a JSON document. The members of an object keep the order of the
    /// text.
    pub fn parse(text: &str) -> (r: Result<Json, Failure>)
        ensures
            match r {
                Ok(doc) => json_text(text@) == Some(doc@) && unique_keys(doc@),
                Err(e) => e == Failure::Syntax && json_text(text@) is None,
            },
    {
        match parse_value(text) {
            Ok(value) => Ok(json_from_value(&value)),
            Err(_) => Err(Failure::Syntax),
        }
    }
}

/// `serde_json::Value`, a JSON value as `serde_json` reads it. Nothing is
/// known of its inside but what `value_json` names.
#[verifier::external_type_specification]
#[verifier::external_body]
pub struct ExValue(serde_json::Value);

/// `serde_json::Error`, what `serde_json` reports of a text that it cannot
/// read. Nothing is known of its inside.
#[verifier::external_type_specification]
#[verifier::external_body]
pub struct ExSyntaxError(serde_json::Error);

/// The JSON value that the text `text` denotes, where it is a JSON document:
/// what `serde_json::from_str` reads from it.
pub uninterp spec fn json_text(text: Seq<char>) -> Option<JsonView>;

/// What a `serde_json::Value` holds.
pub uninterp spec fn value_json(value: serde_json::Value) -> JsonView;

/// `serde_json::from_str` reads `text` as one JSON value and fails where `text`
/// is no JSON document. What it returns depends on `text` alone.
#[verifier::external_body]
fn parse_value(text: &str) -> (r: Result<serde_json::Value, serde_json::Error>)
    ensures
        match r {
            Ok(value) => json_text(text@) == Some(value_json(value)),
            Err(_) => json_text(text@) is None,
        },
{
    serde_json::from_str::<serde_json::Value>(text)
}

/// Copies a `serde_json::Value` into a `Json`, variant by variant; a number
/// goes by the text that `serde_json` displays for it, and the members of an
/// object keep the order in which `serde_json::Map` yields them. A
/// `serde_json::Map` holds no key twice, so neither does the copy.
#[verifier::external_body]
fn json_from_value(value: &serde_json::Value) -> (json: Json)
    ensures
        json@ == value_json(*value),
        unique_keys(json@),
{
    match value {
        serde_json::Value::Null => Json::Null,
        serde_json::Value::Bool(b) => Json::Bool(*b),
        serde_json::Value::Number(n) => Json::Number(n.to_string()),
        serde_json::Value::String(s) => Json::String(s.clone()),
        serde_json::Value::Array(a) => Json::Array(a.iter().map(json_from_value).collect()),
        serde_json::Value::Object(m) => Json::Object(
            m.iter().map(|(k, v)| Member { key: k.clone(), value: json_from_value(v) }).collect(),
        ),
    }
}

} // verus!
