//! JSON values, and the crossing between them and `serde_json`.
use vstd::prelude::*;
use vstd::string::*;
use vstd::utf8::*;

use crate::text;

verus! {

/// A number of `serde_json`, carried as it came.
#[verifier::external_type_specification]
#[verifier::external_body]
pub struct ExNumber(serde_json::Number);

/// A parsed document of `serde_json`.
#[verifier::external_type_specification]
#[verifier::external_body]
pub struct ExValue(serde_json::Value);

/// A JSON value as mathematics: an object is a map from its member names.
pub enum JsonView {
    Null,
    Bool(bool),
    Number(serde_json::Number),
    String(Seq<char>),
    Array(Seq<JsonView>),
    Object(Map<Seq<char>, JsonView>),
}

/// A JSON value. An object lists its members; of two members with one name the later counts.
#[derive(Debug, PartialEq)]
pub enum Json {
    Null,
    Bool(bool),
    Number(serde_json::Number),
    String(String),
    Array(Vec<Json>),
    Object(Vec<(String, Json)>),
}

/// The map that a list of members stands for.
pub open spec fn members(entries: Seq<(Seq<char>, JsonView)>) -> Map<Seq<char>, JsonView>
    decreases entries.len(),
{
    if entries.len() == 0 {
        Map::empty()
    } else {
        members(entries.drop_last()).insert(entries.last().0, entries.last().1)
    }
}

impl View for Json {
    type V = JsonView;

    open spec fn view(&self) -> JsonView {
        json_view(*self)
    }
}

/// What a value stands for.
pub open spec fn json_view(value: Json) -> JsonView
    decreases value,
{
    match value {
        Json::Null => JsonView::Null,
        Json::Bool(b) => JsonView::Bool(b),
        Json::Number(n) => JsonView::Number(n),
        Json::String(s) => JsonView::String(s@),
        Json::Array(items) => JsonView::Array(array_view(items@)),
        Json::Object(entries) => JsonView::Object(object_view(entries@)),
    }
}

/// What the values of an array stand for, one after another.
pub open spec fn array_view(items: Seq<Json>) -> Seq<JsonView>
    decreases items,
{
    if items.len() == 0 {
        Seq::empty()
    } else {
        array_view(items.drop_last()).push(json_view(items.last()))
    }
}

/// What the members of an object stand for, each in turn taking the place of its namesakes.
pub open spec fn object_view(entries: Seq<(String, Json)>) -> Map<Seq<char>, JsonView>
    decreases entries,
{
    if entries.len() == 0 {
        Map::empty()
    } else {
        object_view(entries.drop_last()).insert(entries.last().0@, json_view(entries.last().1))
    }
}

/// What the values of a list stand for.
pub open spec fn views(items: Seq<Json>) -> Seq<JsonView> {
    items.map_values(|item: Json| item@)
}

/// What the members of a list stand for.
pub open spec fn member_views(entries: Seq<(String, Json)>) -> Seq<(Seq<char>, JsonView)> {
    entries.map_values(|entry: (String, Json)| (entry.0@, entry.1@))
}

impl JsonView {
    /// The member `name` of an object.
    pub open spec fn field(self, name: Seq<char>) -> Option<JsonView> {
        match self {
            JsonView::Object(map) => if map.contains_key(name) {
                Some(map[name])
            } else {
                None
            },
            _ => None,
        }
    }

    /// The text of a string.
    pub open spec fn text(self) -> Option<Seq<char>> {
        match self {
            JsonView::String(s) => Some(s),
            _ => None,
        }
    }

    /// The member `name` of an object, where that is a string.
    pub open spec fn text_field(self, name: Seq<char>) -> Option<Seq<char>> {
        match self.field(name) {
            Some(value) => value.text(),
            None => None,
        }
    }
}

/// What an optional value stands for.
pub open spec fn option_view(value: Option<&Json>) -> Option<JsonView> {
    match value {
        Some(v) => Some(v@),
        None => None,
    }
}

/// What an optional text holds.
pub open spec fn text_option(text: Option<&str>) -> Option<Seq<char>> {
    match text {
        Some(t) => Some(t@),
        None => None,
    }
}

pub proof fn lemma_array_view(items: Vec<Json>)
    ensures
        Json::Array(items)@ == JsonView::Array(views(items@)),
{
    lemma_array_views(items@);
}

proof fn lemma_array_views(items: Seq<Json>)
    ensures
        array_view(items) == views(items),
    decreases items.len(),
{
    if items.len() > 0 {
        lemma_array_views(items.drop_last());
        assert(views(items) =~= views(items.drop_last()).push(items.last()@));
    }
}

pub proof fn lemma_object_view(entries: Vec<(String, Json)>)
    ensures
        Json::Object(entries)@ == JsonView::Object(members(member_views(entries@))),
{
    lemma_object_views(entries@);
}

proof fn lemma_object_views(entries: Seq<(String, Json)>)
    ensures
        object_view(entries) == members(member_views(entries)),
    decreases entries.len(),
{
    if entries.len() > 0 {
        lemma_object_views(entries.drop_last());
        assert(member_views(entries).drop_last() =~= member_views(entries.drop_last()));
    }
}

/// One more member at the end of a list is one more insertion into the map.
pub proof fn lemma_members_push(
    entries: Seq<(Seq<char>, JsonView)>,
    name: Seq<char>,
    value: JsonView,
)
    ensures
        members(entries.push((name, value))) == members(entries).insert(name, value),
{
    assert(entries.push((name, value)).drop_last() =~= entries);
}

proof fn lemma_members_finite(entries: Seq<(Seq<char>, JsonView)>)
    ensures
        members(entries).dom().finite(),
    decreases entries.len(),
{
    if entries.len() > 0 {
        lemma_members_finite(entries.drop_last());
    }
}

/// An object without members.
pub open spec fn no_fields() -> Map<Seq<char>, JsonView> {
    Map::empty()
}

/// A list of no members.
pub fn no_members() -> (entries: Vec<(String, Json)>)
    ensures
        members(member_views(entries@)) == no_fields(),
{
    let entries: Vec<(String, Json)> = Vec::new();
    assert(member_views(entries@) =~= Seq::empty());
    entries
}

/// A list with one more member.
pub fn with_member(entries: Vec<(String, Json)>, name: &str, value: Json) -> (more: Vec<
    (String, Json),
>)
    ensures
        members(member_views(more@)) == members(member_views(entries@)).insert(name@, value@),
{
    let mut more = entries;
    let ghost before = member_views(more@);
    more.push((name.to_owned(), value));
    proof {
        assert(member_views(more@) =~= before.push((name@, value@)));
        lemma_members_push(before, name@, value@);
    }
    more
}

impl Json {
    /// A string value.
    pub fn string(text: &str) -> (value: Json)
        ensures
            value@ == JsonView::String(text@),
    {
        Json::String(text.to_owned())
    }

    /// An array of values.
    pub fn array(items: Vec<Json>) -> (value: Json)
        ensures
            value@ == JsonView::Array(views(items@)),
    {
        proof {
            lemma_array_view(items);
        }
        Json::Array(items)
    }

    /// An object with the listed members.
    pub fn object(entries: Vec<(String, Json)>) -> (value: Json)
        ensures
            value@ == JsonView::Object(members(member_views(entries@))),
    {
        proof {
            lemma_object_view(entries);
        }
        Json::Object(entries)
    }

    /// The member `name` of an object.
    pub fn get(&self, name: &str) -> (found: Option<&Json>)
        ensures
            option_view(found) == self@.field(name@),
    {
        match self {
            Json::Object(entries) => {
                proof {
                    lemma_object_view(*entries);
                }
                let mut left: usize = entries.len();
                let ghost listed = member_views(entries@);
                assert(listed.take(left as int) =~= listed);
                while left > 0
                    invariant
                        left <= entries@.len(),
                        listed == member_views(entries@),
                        self@ == JsonView::Object(members(listed)),
                        members(listed).contains_key(name@) == members(
                            listed.take(left as int),
                        ).contains_key(name@),
                        members(listed).contains_key(name@) ==> members(listed)[name@] == members(
                            listed.take(left as int),
                        )[name@],
                    decreases left,
                {
                    let entry = &entries[left - 1];
                    assert(listed.take(left as int).drop_last() =~= listed.take(left - 1));
                    assert(listed.take(left as int).last() == (entry.0@, entry.1@));
                    if text::same_text(entry.0.as_str(), name) {
                        return Some(&entry.1);
                    }
                    left -= 1;
                }
                None
            },
            _ => None,
        }
    }

    /// The text of a string.
    pub fn as_str(&self) -> (text: Option<&str>)
        ensures
            text_option(text) == self@.text(),
    {
        match self {
            Json::String(s) => Some(s.as_str()),
            _ => None,
        }
    }

    /// The member `name` of an object, where that is a string.
    pub fn get_str(&self, name: &str) -> (text: Option<&str>)
        ensures
            text_option(text) == self@.text_field(name@),
    {
        match self.get(name) {
            Some(value) => value.as_str(),
            None => None,
        }
    }

    /// The values of an array.
    pub fn as_array(&self) -> (items: Option<&Vec<Json>>)
        ensures
            match items {
                Some(list) => self@ == JsonView::Array(views(list@)),
                None => !(self@ is Array),
            },
    {
        match self {
            Json::Array(items) => {
                proof {
                    lemma_array_view(*items);
                }
                Some(items)
            },
            _ => None,
        }
    }

    /// The members of an object.
    pub fn as_object(&self) -> (entries: Option<&Vec<(String, Json)>>)
        ensures
            match entries {
                Some(list) => self@ == JsonView::Object(members(member_views(list@))),
                None => !(self@ is Object),
            },
    {
        match self {
            Json::Object(entries) => {
                proof {
                    lemma_object_view(*entries);
                }
                Some(entries)
            },
            _ => None,
        }
    }

    /// A value of its own that stands for the same.
    pub fn copy(&self) -> (value: Json)
        ensures
            value@ == self@,
        decreases self,
    {
        match self {
            Json::Null => Json::Null,
            Json::Bool(b) => Json::Bool(*b),
            Json::Number(n) => Json::Number(n.clone()),
            Json::String(s) => Json::String(s.clone()),
            Json::Array(items) => {
                let copies = copy_items(items);
                proof {
                    lemma_array_view(copies);
                    lemma_array_view(*items);
                }
                Json::Array(copies)
            },
            Json::Object(entries) => {
                let copies = copy_members(entries);
                proof {
                    lemma_object_view(copies);
                    lemma_object_view(*entries);
                }
                Json::Object(copies)
            },
        }
    }
}

/// A list of values of its own that stands for the same.
pub fn copy_items(items: &Vec<Json>) -> (copies: Vec<Json>)
    ensures
        views(copies@) == views(items@),
    decreases items,
{
    let mut copies: Vec<Json> = Vec::new();
    let mut i: usize = 0;
    while i < items.len()
        invariant
            i <= items@.len(),
            views(copies@) == views(items@.take(i as int)),
        decreases items@.len() - i,
    {
        let item = &items[i];
        assert(decreases_to!(items => items@[i as int]));
        copies.push(item.copy());
        assert(views(copies@) =~= views(items@.take(i as int)).push(item@));
        assert(views(items@.take(i + 1)) =~= views(items@.take(i as int)).push(item@));
        i += 1;
    }
    assert(items@.take(i as int) =~= items@);
    copies
}

/// A list of members of its own that stands for the same.
pub fn copy_members(entries: &Vec<(String, Json)>) -> (copies: Vec<(String, Json)>)
    ensures
        member_views(copies@) == member_views(entries@),
    decreases entries,
{
    let mut copies: Vec<(String, Json)> = Vec::new();
    let mut i: usize = 0;
    while i < entries.len()
        invariant
            i <= entries@.len(),
            member_views(copies@) == member_views(entries@.take(i as int)),
        decreases entries@.len() - i,
    {
        let entry = &entries[i];
        assert(decreases_to!(entries => entries@[i as int]));
        assert(decreases_to!(entries@[i as int] => entries@[i as int].1));
        copies.push((entry.0.clone(), entry.1.copy()));
        assert(entries@.take(i + 1) =~= entries@.take(i as int).push(entries@[i as int]));
        assert(member_views(copies@) =~= member_views(entries@.take(i as int)).push(
            (entry.0@, entry.1@),
        ));
        assert(member_views(entries@.take(i + 1)) =~= member_views(entries@.take(i as int)).push(
            (entry.0@, entry.1@),
        ));
        i += 1;
    }
    assert(entries@.take(i as int) =~= entries@);
    copies
}

/// `Clone::clone` of `serde_json::Number`, which is derived: the clone is the same number.
pub assume_specification[ <serde_json::Number as Clone>::clone ](
    number: &serde_json::Number,
) -> (copy: serde_json::Number)
    ensures
        copy == *number,
;

/// What a `serde_json::Value` holds.
pub uninterp spec fn value_view(value: serde_json::Value) -> JsonView;

/// One level of a `serde_json::Value`: its variant, with the values below it still closed.
enum ValueNode {
    Null,
    Bool(bool),
    Number(serde_json::Number),
    String(String),
    Array(Vec<serde_json::Value>),
    Object(Vec<(String, serde_json::Value)>),
}

spec fn value_views(items: Seq<serde_json::Value>) -> Seq<JsonView> {
    items.map_values(|item: serde_json::Value| value_view(item))
}

spec fn value_member_views(entries: Seq<(String, serde_json::Value)>) -> Seq<
    (Seq<char>, JsonView),
> {
    entries.map_values(|entry: (String, serde_json::Value)| (entry.0@, value_view(entry.1)))
}

spec fn node_view(node: ValueNode) -> JsonView {
    match node {
        ValueNode::Null => JsonView::Null,
        ValueNode::Bool(b) => JsonView::Bool(b),
        ValueNode::Number(n) => JsonView::Number(n),
        ValueNode::String(s) => JsonView::String(s@),
        ValueNode::Array(items) => JsonView::Array(value_views(items@)),
        ValueNode::Object(entries) => JsonView::Object(members(value_member_views(entries@))),
    }
}

/// The variants of `serde_json::Value`: what a value holds is what its variant holds. The members
/// of an object come out of `serde_json::Map`, which has no two of one name.
#[verifier::external_body]
fn open_value(value: serde_json::Value) -> (node: ValueNode)
    ensures
        node_view(node) == value_view(value),
        node matches ValueNode::Object(entries) ==> forall|a: int, b: int|
            0 <= a < b < entries@.len() ==> entries@[a].0@ != entries@[b].0@,
{
    match value {
        serde_json::Value::Null => ValueNode::Null,
        serde_json::Value::Bool(b) => ValueNode::Bool(b),
        serde_json::Value::Number(n) => ValueNode::Number(n),
        serde_json::Value::String(s) => ValueNode::String(s),
        serde_json::Value::Array(items) => ValueNode::Array(items),
        serde_json::Value::Object(map) => ValueNode::Object(map.into_iter().collect()),
    }
}

/// The variants of `serde_json::Value`: a value that holds what the variant holds. The members of
/// an object are collected into a `serde_json::Map`, and no two of them have one name.
#[verifier::external_body]
fn close_value(node: ValueNode) -> (value: serde_json::Value)
    requires
        node matches ValueNode::Object(entries) ==> forall|a: int, b: int|
            0 <= a < b < entries@.len() ==> entries@[a].0@ != entries@[b].0@,
    ensures
        value_view(value) == node_view(node),
{
    match node {
        ValueNode::Null => serde_json::Value::Null,
        ValueNode::Bool(b) => serde_json::Value::Bool(b),
        ValueNode::Number(n) => serde_json::Value::Number(n),
        ValueNode::String(s) => serde_json::Value::String(s),
        ValueNode::Array(items) => serde_json::Value::Array(items),
        ValueNode::Object(entries) => serde_json::Value::Object(entries.into_iter().collect()),
    }
}

/// The document that a `serde_json::Value` holds.
fn json_from_value(value: serde_json::Value) -> (json: Json)
    ensures
        json@ == value_view(value),
    decreases value_view(value),
{
    match open_value(value) {
        ValueNode::Null => Json::Null,
        ValueNode::Bool(b) => Json::Bool(b),
        ValueNode::Number(n) => Json::Number(n),
        ValueNode::String(s) => Json::String(s),
        ValueNode::Array(items) => {
            let ghost all = items@;
            let mut list: Vec<Json> = Vec::new();
            for item in iter: items
                invariant
                    iter.seq() == all,
                    value_view(value) == JsonView::Array(value_views(all)),
                    views(list@) == value_views(all.take(iter.index() as int)),
            {
                let ghost i = iter.index() as int;
                let ghost before = views(list@);
                assert(value_views(all)[i] == value_view(item));
                assert(value_view(value)->Array_0 == value_views(all));
                assert(decreases_to!(value_view(value) => value_view(value)->Array_0));
                assert(decreases_to!(value_views(all) => value_views(all)[i]));
                list.push(json_from_value(item));
                assert(views(list@) =~= before.push(value_view(item)));
                assert(value_views(all.take(i + 1)) =~= value_views(all.take(i)).push(
                    value_view(item),
                ));
            }
            assert(all.take(all.len() as int) =~= all);
            Json::array(list)
        },
        ValueNode::Object(entries) => {
            let ghost all = entries@;
            let ghost listed = value_member_views(all);
            let mut list: Vec<(String, Json)> = Vec::new();
            proof {
                lemma_members_finite(listed);
            }
            for entry in iter: entries
                invariant
                    iter.seq() == all,
                    listed == value_member_views(all),
                    members(listed).dom().finite(),
                    forall|a: int, b: int| 0 <= a < b < all.len() ==> all[a].0@ != all[b].0@,
                    value_view(value) == JsonView::Object(members(listed)),
                    member_views(list@) == value_member_views(all.take(iter.index() as int)),
            {
                let ghost i = iter.index() as int;
                let ghost before = member_views(list@);
                let (name, member) = entry;
                proof {
                    lemma_member_counts(listed, i);
                    assert(listed[i] == (name@, value_view(member)));
                    assert(value_view(value)->Object_0 == members(listed));
                    assert(decreases_to!(value_view(value) => value_view(value)->Object_0));
                    assert(decreases_to!(members(listed) => members(listed)[name@]));
                }
                list.push((name, json_from_value(member)));
                assert(member_views(list@) =~= before.push((name@, value_view(member))));
                assert(value_member_views(all.take(i + 1)) =~= value_member_views(all.take(i)).push(
                    (name@, value_view(member)),
                ));
            }
            assert(all.take(all.len() as int) =~= all);
            Json::object(list)
        },
    }
}

/// A `serde_json::Value` that holds the document.
fn value_from_json(json: &Json) -> (value: serde_json::Value)
    ensures
        value_view(value) == json@,
    decreases json,
{
    match json {
        Json::Null => close_value(ValueNode::Null),
        Json::Bool(b) => close_value(ValueNode::Bool(*b)),
        Json::Number(n) => close_value(ValueNode::Number(n.clone())),
        Json::String(s) => close_value(ValueNode::String(s.clone())),
        Json::Array(items) => {
            proof {
                lemma_array_view(*items);
            }
            close_value(ValueNode::Array(values_from_items(items)))
        },
        Json::Object(entries) => {
            proof {
                lemma_object_view(*entries);
            }
            close_value(ValueNode::Object(values_from_members(entries)))
        },
    }
}

fn values_from_items(items: &Vec<Json>) -> (values: Vec<serde_json::Value>)
    ensures
        value_views(values@) == views(items@),
    decreases items,
{
    let mut values: Vec<serde_json::Value> = Vec::new();
    let mut i: usize = 0;
    while i < items.len()
        invariant
            i <= items@.len(),
            value_views(values@) == views(items@.take(i as int)),
        decreases items@.len() - i,
    {
        let item = &items[i];
        let ghost before = value_views(values@);
        assert(decreases_to!(items => items@[i as int]));
        values.push(value_from_json(item));
        assert(value_views(values@) =~= before.push(item@));
        assert(views(items@.take(i + 1)) =~= views(items@.take(i as int)).push(item@));
        i += 1;
    }
    assert(items@.take(i as int) =~= items@);
    values
}

/// The members that count, each under a name of its own: those that a later one replaces are left
/// out.
fn values_from_members(entries: &Vec<(String, Json)>) -> (values: Vec<(String, serde_json::Value)>)
    ensures
        members(value_member_views(values@)) == members(member_views(entries@)),
        forall|a: int, b: int|
            0 <= a < b < values@.len() ==> values@[a].0@ != values@[b].0@,
    decreases entries,
{
    let ghost listed = member_views(entries@);
    let mut values: Vec<(String, serde_json::Value)> = Vec::new();
    let mut i: usize = 0;
    while i < entries.len()
        invariant
            i <= entries@.len(),
            listed == member_views(entries@),
            picked(listed, i as int, value_member_views(values@)),
        decreases entries@.len() - i,
    {
        if !is_replaced(entries, i) {
            let entry = &entries[i];
            let ghost before = value_member_views(values@);
            assert(decreases_to!(entries => entries@[i as int]));
            assert(decreases_to!(entries@[i as int] => entries@[i as int].1));
            values.push((entry.0.clone(), value_from_json(&entry.1)));
            proof {
                assert(value_member_views(values@) =~= before.push(listed[i as int]));
                lemma_picked_one_more(listed, i as int, before);
            }
        }
        i += 1;
    }
    proof {
        let kept = value_member_views(values@);
        lemma_picked_members(listed, kept);
        assert forall|a: int, b: int| 0 <= a < b < values@.len() implies values@[a].0@
            != values@[b].0@ by {
            assert(kept[a].0 != kept[b].0);
        }
    }
    values
}

/// What `serde_json::from_slice` makes of bytes: the document, or the text of its complaint.
pub uninterp spec fn json_of_bytes(bytes: Seq<u8>) -> Result<JsonView, Seq<char>>;

/// `serde_json::from_slice` into a `serde_json::Value`: what comes back, a document or a
/// complaint, depends on the bytes alone.
#[verifier::external_body]
fn value_from_slice(bytes: &[u8]) -> (parsed: Result<serde_json::Value, String>)
    ensures
        match parsed {
            Ok(value) => json_of_bytes(bytes@) == Ok::<JsonView, Seq<char>>(value_view(value)),
            Err(complaint) => json_of_bytes(bytes@) == Err::<JsonView, Seq<char>>(complaint@),
        },
{
    serde_json::from_slice(bytes).map_err(|err: serde_json::Error| err.to_string())
}

/// Does `serde_json` keep a number as a floating point one?
pub uninterp spec fn float_number(number: serde_json::Number) -> bool;

/// `serde_json::Number::is_f64`: whether the number is kept as a floating point one.
pub assume_specification[ serde_json::Number::is_f64 ](number: &serde_json::Number) -> (yes: bool)
    ensures
        yes == float_number(*number),
;

/// Does the parser read a document back from its text? It does where no number is a floating point
/// one, where arrays and objects are nested no deeper than `depth`, and where no member has the
/// name that `serde_json` keeps for itself.
pub open spec fn reads_back(value: JsonView, depth: nat) -> bool
    decreases depth,
{
    match value {
        JsonView::Number(n) => !float_number(n),
        JsonView::Array(items) => depth > 0 && forall|i: int|
            0 <= i < items.len() ==> reads_back(#[trigger] items[i], (depth - 1) as nat),
        JsonView::Object(map) => depth > 0 && !map.contains_key("$serde_json::private::RawValue"@)
            && forall|name: Seq<char>| #[trigger]
            map.contains_key(name) ==> reads_back(map[name], (depth - 1) as nat),
        _ => true,
    }
}

/// Can the text of a document begin with this character?
pub open spec fn begins_json(c: char) -> bool {
    c == '{' || c == '[' || c == '"' || c == '-' || '0' <= c <= '9' || c == 't' || c == 'f' || c
        == 'n'
}

/// Can the text of a document end with this character?
pub open spec fn ends_json(c: char) -> bool {
    c == '}' || c == ']' || c == '"' || '0' <= c <= '9' || c == 'e' || c == 'l'
}

/// The shape of a document's text: control characters are written as escapes, and nothing stands
/// around the value. `[DONE]` is the text of none.
pub open spec fn is_json_text(text: Seq<char>) -> bool {
    &&& forall|i: int| 0 <= i < text.len() ==> text[i] >= ' '
    &&& text.len() > 0
    &&& begins_json(text[0])
    &&& ends_json(text.last())
    &&& text != "[DONE]"@
}

/// Does the parser read a document from the bytes of a text?
pub open spec fn reads_as(text: Seq<char>, value: JsonView) -> bool {
    json_of_bytes(encode_utf8(text)) == Ok::<JsonView, Seq<char>>(value)
}

/// What `serde_json::to_string` writes for a document.
pub uninterp spec fn json_text(json: JsonView) -> Seq<char>;

/// `serde_json::to_string` of a `serde_json::Value`, which does not fail: the text depends on
/// what the value holds alone, and has the shape of a document's text. `to_vec` writes the same
/// text in UTF-8, and so does formatting the value with `{}`. `serde_json::from_slice` reads the
/// value back from it where the value holds no floating point number, is nested no deeper than the
/// parser's limit, and has no member of the name that `serde_json` keeps for raw values; of other
/// values nothing is said.
#[verifier::external_body]
fn value_to_string(value: &serde_json::Value) -> (text: String)
    ensures
        text@ == json_text(value_view(*value)),
        is_json_text(text@),
        reads_back(value_view(*value), 127) ==> reads_as(text@, value_view(*value)),
{
    serde_json::to_string(value).expect("a document has a text")
}

/// The number that `serde_json` makes of an integer.
pub uninterp spec fn int_number(n: int) -> serde_json::Number;

/// `From<i64>` of `serde_json::Number`: the number depends on the integer alone, and is not kept as
/// a floating point one.
#[verifier::external_body]
fn number_from_i64(n: i64) -> (number: serde_json::Number)
    ensures
        number == int_number(n as int),
        !float_number(number),
{
    serde_json::Number::from(n)
}

/// What a parser makes of a text: a document or a complaint.
pub open spec fn parsed_view(parsed: Result<Json, String>) -> Result<JsonView, Seq<char>> {
    match parsed {
        Ok(json) => Ok(json@),
        Err(complaint) => Err(complaint@),
    }
}

impl Json {
    /// The document in a JSON text, or the parser's complaint.
    pub fn parse(bytes: &[u8]) -> (parsed: Result<Json, String>)
        ensures
            parsed_view(parsed) == json_of_bytes(bytes@),
    {
        match value_from_slice(bytes) {
            Ok(value) => Ok(json_from_value(value)),
            Err(complaint) => Err(complaint),
        }
    }

    /// The compact JSON text of the document. The parser reads the document back from it where
    /// `reads_back` says so.
    pub fn to_text(&self) -> (text: String)
        ensures
            text@ == json_text(self@),
            is_json_text(text@),
            reads_back(self@, 127) ==> reads_as(text@, self@),
    {
        value_to_string(&value_from_json(self))
    }

    /// An integer.
    pub fn integer(n: i64) -> (value: Json)
        ensures
            value@ == JsonView::Number(int_number(n as int)),
            reads_back(value@, 0),
    {
        Json::Number(number_from_i64(n))
    }
}

/// Does a later member have the name of the one at place `i`?
spec fn replaced(entries: Seq<(Seq<char>, JsonView)>, i: int) -> bool {
    exists|j: int| i < j < entries.len() && #[trigger] entries[j].0 == entries[i].0
}

/// A member that none replaces counts.
proof fn lemma_member_counts(entries: Seq<(Seq<char>, JsonView)>, i: int)
    requires
        0 <= i < entries.len(),
        !replaced(entries, i),
    ensures
        members(entries).contains_key(entries[i].0),
        members(entries)[entries[i].0] == entries[i].1,
    decreases entries.len(),
{
    let shorter = entries.drop_last();
    if i < shorter.len() {
        assert(entries[entries.len() - 1].0 != entries[i].0);
        assert forall|j: int| i < j < shorter.len() implies shorter[j].0 != shorter[i].0 by {
            assert(entries[j].0 != entries[i].0);
        }
        lemma_member_counts(shorter, i);
    }
}

/// Every name of the map is that of a member that none replaces.
proof fn lemma_member_place(entries: Seq<(Seq<char>, JsonView)>, name: Seq<char>) -> (i: int)
    requires
        members(entries).contains_key(name),
    ensures
        0 <= i < entries.len(),
        entries[i].0 == name,
        !replaced(entries, i),
    decreases entries.len(),
{
    let last = entries.len() - 1;
    if entries[last].0 == name {
        last
    } else {
        let shorter = entries.drop_last();
        let i = lemma_member_place(shorter, name);
        assert forall|j: int| i < j < entries.len() implies entries[j].0 != entries[i].0 by {
            if j < last {
                assert(shorter[j].0 != shorter[i].0);
            }
        }
        i
    }
}

/// Is this one of the first `upto` members, and does none replace it?
spec fn counts(
    entries: Seq<(Seq<char>, JsonView)>,
    upto: int,
    member: (Seq<char>, JsonView),
) -> bool {
    exists|i: int| 0 <= i < upto && !replaced(entries, i) && #[trigger] entries[i] == member
}

/// Are these, of the first `upto` members, the ones that none replaces?
spec fn picked(
    entries: Seq<(Seq<char>, JsonView)>,
    upto: int,
    kept: Seq<(Seq<char>, JsonView)>,
) -> bool {
    &&& forall|k: int| 0 <= k < kept.len() ==> counts(entries, upto, #[trigger] kept[k])
    &&& forall|i: int|
        0 <= i < upto && !replaced(entries, i) ==> kept.contains(#[trigger] entries[i])
    &&& forall|a: int, b: int| 0 <= a < b < kept.len() ==> kept[a].0 != kept[b].0
}

/// A member that none replaces is picked too.
proof fn lemma_picked_one_more(
    entries: Seq<(Seq<char>, JsonView)>,
    i: int,
    kept: Seq<(Seq<char>, JsonView)>,
)
    requires
        0 <= i < entries.len(),
        picked(entries, i, kept),
        !replaced(entries, i),
    ensures
        picked(entries, i + 1, kept.push(entries[i])),
{
    let more = kept.push(entries[i]);
    assert forall|k: int| 0 <= k < more.len() implies counts(
        entries,
        i + 1,
        #[trigger] more[k],
    ) by {
        if k < kept.len() {
            assert(counts(entries, i, kept[k]));
        }
    }
    assert forall|p: int| 0 <= p < i + 1 && !replaced(entries, p) implies more.contains(
        #[trigger] entries[p],
    ) by {
        if p < i {
            let k = choose|k: int| 0 <= k < kept.len() && kept[k] == entries[p];
            assert(more[k] == entries[p]);
        } else {
            assert(more[kept.len() as int] == entries[p]);
        }
    }
    assert forall|a: int, b: int| 0 <= a < b < more.len() implies more[a].0 != more[b].0 by {
        if b == kept.len() {
            assert(counts(entries, i, kept[a]));
        }
    }
}

/// The members that none replaces make the same object as all of them.
proof fn lemma_picked_members(
    entries: Seq<(Seq<char>, JsonView)>,
    kept: Seq<(Seq<char>, JsonView)>,
)
    requires
        picked(entries, entries.len() as int, kept),
    ensures
        members(kept) == members(entries),
{
    let all = members(entries);
    let few = members(kept);
    assert forall|name: Seq<char>| #[trigger] all.contains_key(name) implies few.contains_key(name)
        && few[name] == all[name] by {
        let i = lemma_member_place(entries, name);
        lemma_member_counts(entries, i);
        let k = choose|k: int| 0 <= k < kept.len() && kept[k] == entries[i];
        lemma_member_counts(kept, k);
    }
    assert forall|name: Seq<char>| #[trigger]
        few.contains_key(name) implies all.contains_key(name) by {
        let k = lemma_member_place(kept, name);
        assert(counts(entries, entries.len() as int, kept[k]));
        let i = choose|i: int|
            0 <= i < entries.len() && !replaced(entries, i) && #[trigger] entries[i] == kept[k];
        lemma_member_counts(entries, i);
    }
    assert(few.dom() =~= all.dom());
    assert(few =~= all);
}

fn is_replaced(entries: &Vec<(String, Json)>, i: usize) -> (yes: bool)
    requires
        i < entries@.len(),
    ensures
        yes == replaced(member_views(entries@), i as int),
{
    let ghost listed = member_views(entries@);
    let len: usize = entries.len();
    let mut j: usize = i + 1;
    while j < len
        invariant
            i < j <= len == entries@.len(),
            listed == member_views(entries@),
            forall|k: int| i < k < j ==> (#[trigger] listed[k]).0 != listed[i as int].0,
        decreases len - j,
    {
        if text::same_text(entries[j].0.as_str(), entries[i].0.as_str()) {
            assert(listed[j as int].0 == listed[i as int].0);
            return true;
        }
        j += 1;
    }
    false
}

impl Json {
    /// Does the parser read the document back from its text, as far as that can be said?
    pub fn reads_back(&self) -> (yes: bool)
        ensures
            yes == reads_back(self@, 127),
    {
        self.reads_back_within(127)
    }

    fn reads_back_within(&self, depth: u8) -> (yes: bool)
        ensures
            yes == reads_back(self@, depth as nat),
        decreases self,
    {
        match self {
            Json::Number(n) => !n.is_f64(),
            Json::Array(items) => {
                let yes = depth > 0 && items_read_back(items, depth - 1);
                proof {
                    lemma_array_view(*items);
                    if reads_back(self@, depth as nat) {
                        assert forall|i: int| 0 <= i < items@.len() implies reads_back(
                            #[trigger] views(items@)[i],
                            (depth - 1) as nat,
                        ) by {
                            assert(reads_back(self@->Array_0[i], (depth as nat - 1) as nat));
                        }
                    }
                }
                yes
            },
            Json::Object(entries) => {
                proof {
                    lemma_object_view(*entries);
                }
                depth > 0 && self.get("$serde_json::private::RawValue").is_none()
                    && members_read_back(entries, depth - 1)
            },
            _ => true,
        }
    }
}

fn items_read_back(items: &Vec<Json>, depth: u8) -> (yes: bool)
    ensures
        yes == forall|i: int|
            0 <= i < items@.len() ==> reads_back(#[trigger] views(items@)[i], depth as nat),
    decreases items,
{
    let ghost all = views(items@);
    let mut i: usize = 0;
    while i < items.len()
        invariant
            i <= items@.len(),
            all == views(items@),
            forall|k: int| 0 <= k < i ==> reads_back(#[trigger] all[k], depth as nat),
        decreases items@.len() - i,
    {
        assert(decreases_to!(items => items@[i as int]));
        assert(all[i as int] == items@[i as int]@);
        if !items[i].reads_back_within(depth) {
            return false;
        }
        i += 1;
    }
    true
}

fn members_read_back(entries: &Vec<(String, Json)>, depth: u8) -> (yes: bool)
    ensures
        yes == forall|name: Seq<char>| #[trigger]
            members(member_views(entries@)).contains_key(name) ==> reads_back(
                members(member_views(entries@))[name],
                depth as nat,
            ),
    decreases entries,
{
    let ghost listed = member_views(entries@);
    let ghost map = members(listed);
    let mut i: usize = 0;
    while i < entries.len()
        invariant
            i <= entries@.len(),
            listed == member_views(entries@),
            map == members(listed),
            forall|k: int|
                0 <= k < i && !replaced(listed, k) ==> reads_back(
                    (#[trigger] listed[k]).1,
                    depth as nat,
                ),
        decreases entries@.len() - i,
    {
        assert(decreases_to!(entries => entries@[i as int]));
        assert(decreases_to!(entries@[i as int] => entries@[i as int].1));
        if !is_replaced(entries, i) {
            proof {
                lemma_member_counts(listed, i as int);
                assert(listed[i as int].1 == entries@[i as int].1@);
            }
            if !entries[i].1.reads_back_within(depth) {
                assert(map.contains_key(listed[i as int].0));
                return false;
            }
        }
        i += 1;
    }
    proof {
        assert forall|name: Seq<char>| #[trigger] map.contains_key(name) implies reads_back(
            map[name],
            depth as nat,
        ) by {
            let k = lemma_member_place(listed, name);
            lemma_member_counts(listed, k);
        }
    }
    true
}

/// An object has the member that was put in last under its name, and keeps its other members. What
/// is no object has none.
pub proof fn law_members_of_objects(
    map: Map<Seq<char>, JsonView>,
    name: Seq<char>,
    other: Seq<char>,
    value: JsonView,
    words: Seq<char>,
)
    requires
        other != name,
    ensures
        JsonView::Object(map.insert(name, value)).field(name) == Some(value),
        JsonView::Object(map.insert(name, value)).field(other) == JsonView::Object(map).field(
            other,
        ),
        JsonView::Object(Map::empty()).field(name) is None,
        !(value is Object) ==> value.field(name) is None,
        JsonView::Object(map.insert(name, JsonView::String(words))).text_field(name) == Some(words),
        !(value is String) ==> JsonView::Object(map.insert(name, value)).text_field(name) is None,
{
}

/// Of members with one name the last counts, and every name that is listed is there.
pub proof fn law_last_member_of_a_name_counts(
    entries: Seq<(Seq<char>, JsonView)>,
    i: int,
    name: Seq<char>,
)
    requires
        0 <= i < entries.len(),
        forall|j: int| i < j < entries.len() ==> (#[trigger] entries[j]).0 != entries[i].0,
    ensures
        members(entries).contains_key(entries[i].0),
        members(entries)[entries[i].0] == entries[i].1,
        members(entries).contains_key(name) <==> exists|k: int|
            0 <= k < entries.len() && (#[trigger] entries[k]).0 == name,
{
    assert(!replaced(entries, i));
    lemma_member_counts(entries, i);
    lemma_listed_names(entries, name);
}

proof fn lemma_listed_names(entries: Seq<(Seq<char>, JsonView)>, name: Seq<char>)
    ensures
        members(entries).contains_key(name) <==> exists|k: int|
            0 <= k < entries.len() && (#[trigger] entries[k]).0 == name,
    decreases entries.len(),
{
    if entries.len() > 0 {
        let shorter = entries.drop_last();
        lemma_listed_names(shorter, name);
        if members(shorter).contains_key(name) {
            let k = choose|k: int| 0 <= k < shorter.len() && (#[trigger] shorter[k]).0 == name;
            assert(entries[k].0 == name);
        }
        if entries.last().0 == name {
            assert(entries[entries.len() - 1].0 == name);
        }
        if exists|k: int| 0 <= k < entries.len() && (#[trigger] entries[k]).0 == name {
            let k = choose|k: int| 0 <= k < entries.len() && (#[trigger] entries[k]).0 == name;
            if k < shorter.len() {
                assert(shorter[k].0 == name);
            }
        }
    }
}

/// A value stands for what it holds.
pub proof fn law_values_stand_for_what_they_hold(
    b: bool,
    number: serde_json::Number,
    words: String,
    items: Vec<Json>,
    entries: Vec<(String, Json)>,
    i: int,
)
    ensures
        Json::Null@ == JsonView::Null,
        Json::Bool(b)@ == JsonView::Bool(b),
        Json::Number(number)@ == JsonView::Number(number),
        Json::String(words)@ == JsonView::String(words@),
        Json::Array(items)@ matches JsonView::Array(list) && list.len() == items@.len() && (0 <= i
            < items@.len() ==> list[i] == items@[i]@),
        Json::Object(entries)@ == JsonView::Object(members(member_views(entries@))),
        member_views(entries@).len() == entries@.len(),
        0 <= i < entries@.len() ==> member_views(entries@)[i] == (entries@[i].0@, entries@[i].1@),
{
    lemma_array_view(items);
    lemma_object_view(entries);
}

} // verus!
