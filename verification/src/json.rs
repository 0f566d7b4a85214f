//! JSON documents as plain values.

use vstd::prelude::*;

verus! {

/// A JSON value. Of a number only what an `i64` can hold is kept; an object is a list of entries.
pub enum Json {
    Null,
    Bool(bool),
    Number(Option<i64>),
    Text(String),
    List(Vec<Json>),
    Object(Vec<(String, Json)>),
}

/// A JSON value as a mathematical one.
pub enum JsonView {
    Null,
    Bool(bool),
    Number(Option<i64>),
    Text(Seq<char>),
    List(Seq<JsonView>),
    Object(Seq<(Seq<char>, JsonView)>),
}

pub open spec fn json_view(json: Json) -> JsonView
    decreases json, 0nat,
{
    match json {
        Json::Null => JsonView::Null,
        Json::Bool(value) => JsonView::Bool(value),
        Json::Number(value) => JsonView::Number(value),
        Json::Text(text) => JsonView::Text(text@),
        Json::List(items) => JsonView::List(list_view(items@, items@.len())),
        Json::Object(entries) => JsonView::Object(object_view(entries@, entries@.len())),
    }
}

/// The first `count` items of a list.
pub open spec fn list_view(items: Seq<Json>, count: nat) -> Seq<JsonView>
    decreases items, count,
{
    if count == 0 || count > items.len() {
        seq![]
    } else {
        list_view(items, (count - 1) as nat).push(json_view(items[count - 1]))
    }
}

/// The first `count` entries of an object.
pub open spec fn object_view(entries: Seq<(String, Json)>, count: nat) -> Seq<
    (Seq<char>, JsonView),
>
    decreases entries, count,
{
    if count == 0 || count > entries.len() {
        seq![]
    } else {
        object_view(entries, (count - 1) as nat).push(
            (entries[count - 1].0@, json_view(entries[count - 1].1)),
        )
    }
}

impl View for Json {
    type V = JsonView;

    open spec fn view(&self) -> JsonView {
        json_view(*self)
    }
}

/// What serde_json's parser finds in a document; `None` where it reports an error.
pub uninterp spec fn json_contents(document: Seq<u8>) -> Option<JsonView>;

#[verifier::external_type_specification]
#[verifier::external_body]
pub struct ExJsonError(serde_json::Error);

#[verifier::external_type_specification]
#[verifier::external_body]
pub struct ExValue(serde_json::Value);

/// What a value of serde_json holds: the value itself, without the numbers that are no `i64`.
pub uninterp spec fn value_contents(value: serde_json::Value) -> JsonView;

/// `serde_json::from_slice`, into a value of serde_json. What is found is a function of the
/// document, which is all that is claimed.
#[verifier::external_body]
fn parse_value(document: &[u8]) -> (value: Result<serde_json::Value, serde_json::Error>)
    ensures
        match value {
            Ok(value) => json_contents(document@) == Some(value_contents(value)),
            Err(_) => json_contents(document@) is None,
        },
{
    serde_json::from_slice(document)
}

/// The variants of `serde_json::Value`, one for one; of a number, what `Number::as_i64` gives.
#[verifier::external_body]
fn plain_value(value: serde_json::Value) -> (json: Json)
    ensures
        json@ == value_contents(value),
{
    match value {
        serde_json::Value::Null => Json::Null,
        serde_json::Value::Bool(value) => Json::Bool(value),
        serde_json::Value::Number(number) => Json::Number(number.as_i64()),
        serde_json::Value::String(text) => Json::Text(text),
        serde_json::Value::Array(items) => Json::List(items.into_iter().map(plain_value).collect()),
        serde_json::Value::Object(entries) => Json::Object(
            entries.into_iter().map(|(name, value)| (name, plain_value(value))).collect(),
        ),
    }
}

/// The value in a JSON document, or `None` where it is malformed.
pub fn parse_json(document: &[u8]) -> (json: Option<Json>)
    ensures
        match json {
            Some(json) => json_contents(document@) == Some(json@),
            None => json_contents(document@) is None,
        },
{
    match parse_value(document) {
        Ok(value) => Some(plain_value(value)),
        Err(_) => None,
    }
}

/// The value of an entry. Of two entries with one name the later counts.
pub open spec fn field(entries: Seq<(Seq<char>, JsonView)>, name: Seq<char>) -> Option<JsonView>
    decreases entries.len(),
{
    if entries.len() == 0 {
        None
    } else if entries.last().0 == name {
        Some(entries.last().1)
    } else {
        field(entries.drop_last(), name)
    }
}

/// The value of an object's entry.
pub open spec fn member(json: JsonView, name: Seq<char>) -> Option<JsonView> {
    match json {
        JsonView::Object(entries) => field(entries, name),
        _ => None,
    }
}

/// The items of a list.
pub open spec fn list_items(json: JsonView) -> Option<Seq<JsonView>> {
    match json {
        JsonView::List(items) => Some(items),
        _ => None,
    }
}

/// The entries of an object.
pub open spec fn object_entries(json: JsonView) -> Option<Seq<(Seq<char>, JsonView)>> {
    match json {
        JsonView::Object(entries) => Some(entries),
        _ => None,
    }
}

pub open spec fn text_of(json: JsonView) -> Option<Seq<char>> {
    match json {
        JsonView::Text(text) => Some(text),
        _ => None,
    }
}

pub open spec fn integer_of(json: JsonView) -> Option<i64> {
    match json {
        JsonView::Number(number) => number,
        _ => None,
    }
}

proof fn lemma_list_view(items: Seq<Json>, count: nat)
    requires
        count <= items.len(),
    ensures
        list_view(items, count).len() == count,
        forall|i: int| 0 <= i < count ==> #[trigger] list_view(items, count)[i] == items[i]@,
    decreases count,
{
    if count > 0 {
        lemma_list_view(items, (count - 1) as nat);
    }
}

proof fn lemma_object_view(entries: Seq<(String, Json)>, count: nat)
    requires
        count <= entries.len(),
    ensures
        object_view(entries, count).len() == count,
        forall|i: int|
            0 <= i < count ==> #[trigger] object_view(entries, count)[i] == (
                entries[i].0@,
                entries[i].1@,
            ),
    decreases count,
{
    if count > 0 {
        lemma_object_view(entries, (count - 1) as nat);
    }
}

impl Json {
    /// The items of a list.
    pub fn items(&self) -> (items: Option<&Vec<Json>>)
        ensures
            match items {
                Some(items) => list_items(self@) matches Some(views) && views.len()
                    == items@.len() && forall|i: int|
                    0 <= i < items@.len() ==> #[trigger] views[i] == items@[i]@,
                None => list_items(self@) is None,
            },
    {
        match self {
            Json::List(items) => {
                proof {
                    lemma_list_view(items@, items@.len());
                }
                Some(items)
            },
            _ => None,
        }
    }

    /// The entries of an object.
    pub fn entries(&self) -> (entries: Option<&Vec<(String, Json)>>)
        ensures
            match entries {
                Some(entries) => object_entries(self@) matches Some(views) && views.len()
                    == entries@.len() && forall|i: int|
                    0 <= i < entries@.len() ==> #[trigger] views[i] == (
                        entries@[i].0@,
                        entries@[i].1@,
                    ),
                None => object_entries(self@) is None,
            },
    {
        match self {
            Json::Object(entries) => {
                proof {
                    lemma_object_view(entries@, entries@.len());
                }
                Some(entries)
            },
            _ => None,
        }
    }

    /// The value of an object's entry.
    pub fn get(&self, name: &str) -> (value: Option<&Json>)
        ensures
            match value {
                Some(value) => member(self@, name@) == Some(value@),
                None => member(self@, name@) is None,
            },
    {
        let entries = match self.entries() {
            Some(entries) => entries,
            None => {
                return None;
            },
        };
        let wanted = name.to_string();
        let ghost views = object_entries(self@)->0;
        let mut i: usize = entries.len();
        assert(views.take(i as int) =~= views);
        while i > 0
            invariant
                i <= entries@.len(),
                wanted@ == name@,
                object_entries(self@) == Some(views),
                views.len() == entries@.len(),
                forall|j: int|
                    0 <= j < entries@.len() ==> #[trigger] views[j] == (
                        entries@[j].0@,
                        entries@[j].1@,
                    ),
                field(views, name@) == field(views.take(i as int), name@),
            decreases i,
        {
            i = i - 1;
            assert(views.take(i + 1).drop_last() =~= views.take(i as int));
            assert(views.take(i + 1).last() == views[i as int]);
            if entries[i].0 == wanted {
                return Some(&entries[i].1);
            }
        }
        None
    }

    pub fn text(&self) -> (text: Option<&String>)
        ensures
            match text {
                Some(text) => text_of(self@) == Some(text@),
                None => text_of(self@) is None,
            },
    {
        match self {
            Json::Text(text) => Some(text),
            _ => None,
        }
    }

    pub fn integer(&self) -> (integer: Option<i64>)
        ensures
            integer == integer_of(self@),
    {
        match self {
            Json::Number(number) => *number,
            _ => None,
        }
    }
}

} // verus!
