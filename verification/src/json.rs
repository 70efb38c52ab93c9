//! JSON values as plain data, and the reading of JSON text.

use crate::text::same_text;
use vstd::prelude::*;

verus! {

/// A JSON value. A number is kept as the text that stands for it.
#[derive(Debug)]
pub enum Json {
    Null,
    Bool(bool),
    Number(String),
    Text(String),
    Array(Vec<Json>),
    Object(Vec<Member>),
}

/// A member of a JSON object.
#[derive(Debug)]
pub struct Member {
    pub name: String,
    pub value: Json,
}

/// The mathematical value of a [`Json`].
pub enum JsonView {
    Null,
    Bool(bool),
    Number(Seq<char>),
    Text(Seq<char>),
    Array(Seq<JsonView>),
    Object(Seq<(Seq<char>, JsonView)>),
}

/// The mathematical value of `value`.
pub open spec fn json_view(value: Json) -> JsonView
    decreases value,
{
    match value {
        Json::Null => JsonView::Null,
        Json::Bool(b) => JsonView::Bool(b),
        Json::Number(n) => JsonView::Number(n@),
        Json::Text(s) => JsonView::Text(s@),
        Json::Array(items) => JsonView::Array(
            Seq::new(
                items@.len(),
                |i: int|
                    if 0 <= i < items@.len() {
                        json_view(items@[i])
                    } else {
                        JsonView::Null
                    },
            ),
        ),
        Json::Object(members) => JsonView::Object(
            Seq::new(
                members@.len(),
                |i: int|
                    if 0 <= i < members@.len() {
                        (members@[i].name@, json_view(members@[i].value))
                    } else {
                        (Seq::empty(), JsonView::Null)
                    },
            ),
        ),
    }
}

impl View for Json {
    type V = JsonView;

    open spec fn view(&self) -> JsonView {
        json_view(*self)
    }
}

/// `serde_json::Value`, of which nothing is known here: a value is taken
/// apart into a [`Json`] before it is looked at.
#[verifier::external_type_specification]
#[verifier::external_body]
pub struct ExJsonValue(serde_json::Value);

/// `serde_json::Error`, of which nothing is known here but its text.
#[verifier::external_type_specification]
#[verifier::external_body]
pub struct ExJsonError(serde_json::Error);

/// The value that `serde_json::from_str` reads from `text`; `None` where it
/// refuses the text.
pub uninterp spec fn parsed_json(text: Seq<char>) -> Option<JsonView>;

/// Takes a `serde_json::Value` apart, variant by variant: a number as
/// `Number::to_string` writes it, the items of an array and the members of
/// an object in the order in which serde_json walks them. It serves
/// `read_json` and its own items and members.
#[verifier::external_body]
fn json_from(value: &serde_json::Value) -> Json {
    match value {
        serde_json::Value::Null => Json::Null,
        serde_json::Value::Bool(b) => Json::Bool(*b),
        serde_json::Value::Number(n) => Json::Number(n.to_string()),
        serde_json::Value::String(s) => Json::Text(s.clone()),
        serde_json::Value::Array(items) => Json::Array(items.iter().map(json_from).collect()),
        serde_json::Value::Object(members) => Json::Object(
            members.iter().map(|(k, v)| Member { name: k.clone(), value: json_from(v) }).collect(),
        ),
    }
}

/// `serde_json::from_str` at the type `serde_json::Value`: reads `text` as
/// one JSON value, which is then taken apart into plain data. What comes
/// back depends on the text alone.
#[verifier::external_body]
fn read_json(text: &str) -> (out: Result<Json, serde_json::Error>)
    ensures
        out is Ok == parsed_json(text@) is Some,
        out matches Ok(value) ==> parsed_json(text@) == Some(value@),
{
    let value: serde_json::Value = serde_json::from_str(text)?;
    Ok(json_from(&value))
}

/// The `Display` text of a `serde_json::Error`.
#[verifier::external_body]
fn json_error_text(error: &serde_json::Error) -> String {
    error.to_string()
}

/// Reads `text` as one JSON value, or says why it is none.
pub fn parse_json(text: &str) -> (out: Result<Json, String>)
    ensures
        out is Ok == parsed_json(text@) is Some,
        out matches Ok(value) ==> parsed_json(text@) == Some(value@),
{
    match read_json(text) {
        Ok(value) => Ok(value),
        Err(error) => Err(json_error_text(&error)),
    }
}

/// The member at `at` is the first of the name `name`.
pub open spec fn is_first_member(
    members: Seq<(Seq<char>, JsonView)>,
    name: Seq<char>,
    at: int,
) -> bool {
    &&& 0 <= at < members.len()
    &&& members[at].0 == name
    &&& forall|j: int| 0 <= j < at ==> (#[trigger] members[j]).0 != name
}

/// The member `name` of an object: the first of that name. A value that is
/// no object has no members.
pub open spec fn member(value: JsonView, name: Seq<char>) -> Option<JsonView> {
    match value {
        JsonView::Object(members) => if exists|at: int| is_first_member(members, name, at) {
            Some(members[choose|at: int| is_first_member(members, name, at)].1)
        } else {
            None
        },
        _ => None,
    }
}

/// The items of an array. A value that is no array has none.
pub open spec fn items(value: JsonView) -> Option<Seq<JsonView>> {
    match value {
        JsonView::Array(items) => Some(items),
        _ => None,
    }
}

/// The text of a string. A value that is no string has none.
pub open spec fn text(value: JsonView) -> Option<Seq<char>> {
    match value {
        JsonView::Text(text) => Some(text),
        _ => None,
    }
}

impl Json {
    /// The member `name` of an object.
    pub fn get(&self, name: &str) -> (out: Option<&Json>)
        ensures
            out is Some == member(self@, name@) is Some,
            out matches Some(value) ==> member(self@, name@) == Some(value@),
    {
        match self {
            Json::Object(members) => {
                let ghost views = self@->Object_0;
                let mut i: usize = 0;

                while i < members.len()
                    invariant
                        i <= members.len(),
                        self@ == JsonView::Object(views),
                        views.len() == members@.len(),
                        forall|j: int|
                            0 <= j < members@.len() ==> (#[trigger] views[j]) == (
                                members@[j].name@,
                                members@[j].value@,
                            ),
                        forall|j: int| 0 <= j < i ==> (#[trigger] views[j]).0 != name@,
                    decreases members.len() - i,
                {
                    if same_text(members[i].name.as_str(), name) {
                        proof {
                            assert(is_first_member(views, name@, i as int));
                            let at = choose|at: int| is_first_member(views, name@, at);
                            assert(at == i);
                        }
                        return Some(&members[i].value);
                    }
                    i += 1;
                }
                proof {
                    assert forall|at: int| !is_first_member(views, name@, at) by {
                        if 0 <= at < views.len() {
                            assert(views[at].0 != name@);
                        }
                    }
                }
                None
            },
            _ => None,
        }
    }

    /// The items of an array.
    pub fn as_array(&self) -> (out: Option<&Vec<Json>>)
        ensures
            out is Some == items(self@) is Some,
            out matches Some(list) ==> items(self@) == Some(json_views(list@)),
    {
        match self {
            Json::Array(list) => {
                proof {
                    assert(self@->Array_0 =~= json_views(list@));
                }
                Some(list)
            },
            _ => None,
        }
    }

    /// The text of a string.
    pub fn as_str(&self) -> (out: Option<&str>)
        ensures
            out is Some == text(self@) is Some,
            out matches Some(s) ==> text(self@) == Some(s@),
    {
        match self {
            Json::Text(s) => Some(s.as_str()),
            _ => None,
        }
    }
}

/// The values of the items, in order.
pub open spec fn json_views(list: Seq<Json>) -> Seq<JsonView> {
    list.map_values(|item: Json| item@)
}

} // verus!
