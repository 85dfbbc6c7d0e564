//! JSON values, parsed by the `serde_json` crate.
use vstd::prelude::*;
use serde_json::Value;

verus! {

/// The value type `serde_json::Value`.
#[verifier::external_type_specification]
#[verifier::external_body]
pub struct ExValue(Value);

/// A JSON value. Numbers are kept as text, and an object as the list of its members.
#[derive(Debug)]
pub enum Json {
    Null,
    Bool(bool),
    Number(String),
    Text(String),
    Array(Vec<Json>),
    Object(Vec<(String, Json)>),
}

/// The mathematical value of a [`Json`].
pub enum JsonView {
    Null,
    Bool(bool),
    Number(Seq<char>),
    Text(Seq<char>),
    Array(Seq<JsonView>),
    Object(Seq<(Seq<char>, JsonView)>),
}

impl View for Json {
    type V = JsonView;

    open spec fn view(&self) -> JsonView {
        json_view(*self)
    }
}

/// The mathematical value of `json`.
pub open spec fn json_view(json: Json) -> JsonView
    decreases json,
{
    match json {
        Json::Null => JsonView::Null,
        Json::Bool(b) => JsonView::Bool(b),
        Json::Number(text) => JsonView::Number(text@),
        Json::Text(text) => JsonView::Text(text@),
        Json::Array(items) => JsonView::Array(
            Seq::new(
                items@.len(),
                |i: int|
                    if 0 <= i < items@.len() {
                        json_view(items@[i])
                    } else {
                        JsonView::Null
                    },
            ),
        ),
        Json::Object(members) => JsonView::Object(
            Seq::new(
                members@.len(),
                |i: int|
                    if 0 <= i < members@.len() {
                        (members@[i].0@, json_view(members@[i].1))
                    } else {
                        (Seq::empty(), JsonView::Null)
                    },
            ),
        ),
    }
}

/// The mathematical values of a list of values.
pub open spec fn jsons_view(items: Seq<Json>) -> Seq<JsonView> {
    Seq::new(items.len(), |i: int| items[i]@)
}

impl JsonView {
    /// The items, if this is an array.
    pub open spec fn items(self) -> Option<Seq<JsonView>> {
        match self {
            JsonView::Array(items) => Some(items),
            _ => None,
        }
    }

    /// The text, if this is a string.
    pub open spec fn text(self) -> Option<Seq<char>> {
        match self {
            JsonView::Text(text) => Some(text),
            _ => None,
        }
    }

    /// The member named `name`, if this is an object that has one.
    pub open spec fn member(self, name: Seq<char>) -> Option<JsonView> {
        match self {
            JsonView::Object(members) => member_from(members, name, 0),
            _ => None,
        }
    }
}

/// The first member named `name` from place `i` on.
pub open spec fn member_from(
    members: Seq<(Seq<char>, JsonView)>,
    name: Seq<char>,
    i: nat,
) -> Option<JsonView>
    decreases members.len() - i,
{
    if i >= members.len() {
        None
    } else if members[i as int].0 == name {
        Some(members[i as int].1)
    } else {
        member_from(members, name, i + 1)
    }
}

impl Json {
    /// The items, if this is an array.
    pub fn as_array(&self) -> (items: Option<&Vec<Json>>)
        ensures
            match items {
                Some(items) => self@.items() == Some(jsons_view(items@)),
                None => self@.items() is None,
            },
    {
        match self {
            Json::Array(items) => {
                assert(self@.items()->0 =~= jsons_view(items@));
                Some(items)
            },
            _ => None,
        }
    }

    /// The text, if this is a string.
    pub fn as_str(&self) -> (text: Option<&str>)
        ensures
            match text {
                Some(text) => self@.text() == Some(text@),
                None => self@.text() is None,
            },
    {
        match self {
            Json::Text(text) => Some(text.as_str()),
            _ => None,
        }
    }

    /// The member named `name`, if this is an object that has one.
    pub fn get(&self, name: &str) -> (member: Option<&Json>)
        ensures
            match member {
                Some(member) => self@.member(name@) == Some(member@),
                None => self@.member(name@) is None,
            },
    {
        match self {
            Json::Object(members) => {
                let wanted: String = name.to_string();
                let ghost views = self@->Object_0;
                let mut i: usize = 0;
                while i < members.len()
                    invariant
                        i <= members@.len(),
                        wanted@ == name@,
                        self@ == JsonView::Object(views),
                        views.len() == members@.len(),
                        forall|j: int|
                            0 <= j < members@.len() ==> #[trigger] views[j] == (
                                members@[j].0@,
                                members@[j].1@,
                            ),
                        self@.member(name@) == member_from(views, name@, i as nat),
                    decreases members@.len() - i,
                {
                    assert(views[i as int] == (members@[i as int].0@, members@[i as int].1@));
                    if members[i].0 == wanted {
                        return Some(&members[i].1);
                    }
                    i = i + 1;
                }
                None
            },
            _ => None,
        }
    }
}

/// What a parsed value holds.
pub uninterp spec fn value_view(value: Value) -> JsonView;

/// What parsing `text` gives: a value, or the description of what is wrong.
pub uninterp spec fn parsed_json(text: Seq<char>) -> Result<JsonView, Seq<char>>;

/// One layer of a parsed value.
enum Layer {
    Null,
    Bool(bool),
    Number(String),
    Text(String),
    Array(Vec<Value>),
    Object(Vec<(String, Value)>),
}

/// What one layer of a parsed value holds.
spec fn layer_view(layer: Layer) -> JsonView {
    match layer {
        Layer::Null => JsonView::Null,
        Layer::Bool(b) => JsonView::Bool(b),
        Layer::Number(text) => JsonView::Number(text@),
        Layer::Text(text) => JsonView::Text(text@),
        Layer::Array(items) => JsonView::Array(
            Seq::new(items@.len(), |i: int| value_view(items@[i])),
        ),
        Layer::Object(members) => JsonView::Object(
            Seq::new(members@.len(), |i: int| (members@[i].0@, value_view(members@[i].1))),
        ),
    }
}

/// Calls `serde_json::from_str` for a `Value`: what the value holds, or the description of the
/// error, is a function of the text.
#[verifier::external_body]
fn parse_value(text: &str) -> (result: Result<Value, String>)
    ensures
        parsed_json(text@) == (match result {
            Ok(value) => Ok::<JsonView, Seq<char>>(value_view(value)),
            Err(description) => Err(description@),
        }),
{
    match serde_json::from_str::<Value>(text) {
        Ok(value) => Ok(value),
        Err(error) => Err(error.to_string()),
    }
}

/// Matches on the variants of `serde_json::Value`: the layer holds what the value holds.
#[verifier::external_body]
fn open_value(value: Value) -> (layer: Layer)
    ensures
        layer_view(layer) == value_view(value),
{
    match value {
        Value::Null => Layer::Null,
        Value::Bool(b) => Layer::Bool(b),
        Value::Number(n) => Layer::Number(n.to_string()),
        Value::String(s) => Layer::Text(s),
        Value::Array(items) => Layer::Array(items),
        Value::Object(members) => Layer::Object(members.into_iter().collect()),
    }
}

/// Takes over a parsed value, layer by layer.
fn json_of(value: Value) -> (json: Json)
    ensures
        json@ == value_view(value),
    decreases value_view(value),
{
    match open_value(value) {
        Layer::Null => Json::Null,
        Layer::Bool(b) => Json::Bool(b),
        Layer::Number(text) => Json::Number(text),
        Layer::Text(text) => Json::Text(text),
        Layer::Array(values) => {
            let ghost views = Seq::new(values@.len(), |i: int| value_view(values@[i]));
            let mut items: Vec<Json> = Vec::new();
            for item in it: values.into_iter()
                invariant
                    value_view(value) == JsonView::Array(views),
                    it.seq() == values@,
                    views == Seq::new(values@.len(), |i: int| value_view(values@[i])),
                    items@.len() == it.index(),
                    forall|i: int| 0 <= i < items@.len() ==> (#[trigger] items@[i])@ == views[i],
            {
                assert(value_view(item) == views[it.index() as int]);
                assert(decreases_to!(value_view(value) => value_view(value)->Array_0));
                assert(decreases_to!(views => views[it.index() as int]));
                items.push(json_of(item));
            }
            let json: Json = Json::Array(items);
            assert(json@->Array_0 =~= views);
            json
        },
        Layer::Object(values) => {
            let ghost views = Seq::new(
                values@.len(),
                |i: int| (values@[i].0@, value_view(values@[i].1)),
            );
            let mut members: Vec<(String, Json)> = Vec::new();
            for member in it: values.into_iter()
                invariant
                    value_view(value) == JsonView::Object(views),
                    it.seq() == values@,
                    views == Seq::new(
                        values@.len(),
                        |i: int| (values@[i].0@, value_view(values@[i].1)),
                    ),
                    members@.len() == it.index(),
                    forall|i: int|
                        0 <= i < members@.len() ==> (
                            (#[trigger] members@[i]).0@,
                            members@[i].1@,
                        ) == views[i],
            {
                assert((member.0@, value_view(member.1)) == views[it.index() as int]);
                assert(decreases_to!(value_view(value) => value_view(value)->Object_0));
                assert(decreases_to!(views => views[it.index() as int]));
                assert(decreases_to!(views[it.index() as int] => views[it.index() as int].1));
                members.push((member.0, json_of(member.1)));
            }
            let json: Json = Json::Object(members);
            assert(json@->Object_0 =~= views);
            json
        },
    }
}

/// The outcome of [`parse_json`], by value.
pub open spec fn json_result(result: Result<Json, String>) -> Result<JsonView, Seq<char>> {
    match result {
        Ok(json) => Ok(json@),
        Err(description) => Err(description@),
    }
}

/// Parses JSON text. Where it is not valid, says what is wrong.
pub fn parse_json(text: &str) -> (result: Result<Json, String>)
    ensures
        json_result(result) == parsed_json(text@),
{
    match parse_value(text) {
        Ok(value) => Ok(json_of(value)),
        Err(description) => Err(description),
    }
}

/// Values are seen variant by variant.
pub proof fn law_values_are_seen_by_their_contents(
    flag: bool,
    text: String,
    items: Vec<Json>,
    members: Vec<(String, Json)>,
    i: int,
)
    ensures
        Json::Null@ == JsonView::Null,
        Json::Bool(flag)@ == JsonView::Bool(flag),
        Json::Number(text)@ == JsonView::Number(text@),
        Json::Text(text)@ == JsonView::Text(text@),
        Json::Array(items)@ is Array,
        Json::Array(items)@->Array_0.len() == items@.len(),
        0 <= i < items@.len() ==> Json::Array(items)@->Array_0[i] == items@[i]@,
        Json::Object(members)@ is Object,
        Json::Object(members)@->Object_0.len() == members@.len(),
        0 <= i < members@.len() ==> Json::Object(members)@->Object_0[i] == (
            members@[i].0@,
            members@[i].1@,
        ),
{
}

/// An array has items, a string has text, and nothing else has either.
pub proof fn law_only_arrays_have_items_and_only_strings_have_text(value: JsonView)
    ensures
        match value {
            JsonView::Array(items) => value.items() == Some(items) && value.text() is None,
            JsonView::Text(text) => value.text() == Some(text) && value.items() is None,
            _ => value.items() is None && value.text() is None,
        },
{
}

/// An object has the members that it lists, the first of each name, and nothing else has any.
pub proof fn law_members_are_those_listed(value: JsonView, name: Seq<char>, at: int)
    ensures
        !(value is Object) ==> value.member(name) is None,
        value matches JsonView::Object(members) ==> {
            &&& (forall|j: int| 0 <= j < members.len() ==> (#[trigger] members[j]).0 != name)
                ==> value.member(name) is None
            &&& 0 <= at < members.len() && members[at].0 == name && (forall|j: int|
                0 <= j < at ==> (#[trigger] members[j]).0 != name) ==> value.member(name) == Some(
                members[at].1,
            )
        },
{
    if let JsonView::Object(members) = value {
        if 0 <= at < members.len() && members[at].0 == name && (forall|j: int|
            0 <= j < at ==> (#[trigger] members[j]).0 != name) {
            lemma_member_found(members, name, 0, at as nat);
        }
        if forall|j: int| 0 <= j < members.len() ==> (#[trigger] members[j]).0 != name {
            lemma_member_missing(members, name, 0);
        }
    }
}

/// The walk finds the first member of a name.
proof fn lemma_member_found(
    members: Seq<(Seq<char>, JsonView)>,
    name: Seq<char>,
    i: nat,
    at: nat,
)
    requires
        i <= at < members.len(),
        members[at as int].0 == name,
        forall|j: int| i <= j < at ==> (#[trigger] members[j]).0 != name,
    ensures
        member_from(members, name, i) == Some(members[at as int].1),
    decreases at - i,
{
    if i < at {
        lemma_member_found(members, name, i + 1, at);
    }
}

/// The walk finds nothing where there is nothing.
proof fn lemma_member_missing(members: Seq<(Seq<char>, JsonView)>, name: Seq<char>, i: nat)
    requires
        forall|j: int| i <= j < members.len() ==> (#[trigger] members[j]).0 != name,
    ensures
        member_from(members, name, i) is None,
    decreases members.len() - i,
{
    if i < members.len() {
        lemma_member_missing(members, name, i + 1);
    }
}

} // verus!
