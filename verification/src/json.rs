//! JSON values, and their text as `serde_json` reads and writes it.

use crate::fields::{lemma_field_is_smaller, Fields};
use vstd::prelude::*;

verus! {

/// A JSON value of `serde_json`.
#[verifier::external_type_specification]
#[verifier::external_body]
pub struct ExValue(serde_json::Value);

/// A JSON number of `serde_json`.
#[verifier::external_type_specification]
#[verifier::external_body]
pub struct ExNumber(serde_json::Number);

/// An error of `serde_json`.
#[verifier::external_type_specification]
#[verifier::external_body]
pub struct ExError(serde_json::Error);

/// A JSON value.
#[derive(Debug, PartialEq)]
pub enum Json {
    Null,
    Bool(bool),
    Number(serde_json::Number),
    Text(String),
    Array(Vec<Json>),
    Object(Fields<Json>),
}

/// A JSON value as a mathematical tree. Its numbers are those of `serde_json`.
pub enum JsonTree {
    Null,
    Bool(bool),
    Number(serde_json::Number),
    Text(Seq<char>),
    Array(Seq<JsonTree>),
    Object(Map<Seq<char>, JsonTree>),
}

/// The tree that a value of `serde_json` holds.
pub uninterp spec fn value_tree(value: serde_json::Value) -> JsonTree;

/// The value of a number, where it is a whole number of 64 bits that is not negative.
pub uninterp spec fn number_value(number: serde_json::Number) -> Option<u64>;

/// The number with a value.
pub uninterp spec fn number_of(value: u64) -> serde_json::Number;

/// The value that a text stands for; a text that is not JSON stands for none.
pub uninterp spec fn parsed(text: Seq<char>) -> Option<JsonTree>;

/// The bytes in which a value is written without white space.
pub uninterp spec fn compact(tree: JsonTree) -> Seq<u8>;

/// The text in which a value is shown without white space.
pub uninterp spec fn displayed(tree: JsonTree) -> Seq<char>;

/// The text in which a value is written over several lines.
pub uninterp spec fn pretty(tree: JsonTree) -> Seq<char>;

/// `Clone` of `serde_json::Number` gives an equal number.
pub assume_specification[ <serde_json::Number as Clone>::clone ](
    number: &serde_json::Number,
) -> (r: serde_json::Number)
    ensures
        r == *number,
;

/// `Number::as_u64` gives the value of a whole number of 64 bits that is not negative, and none
/// for other numbers.
pub assume_specification[ serde_json::Number::as_u64 ](number: &serde_json::Number) -> (r: Option<
    u64,
>)
    ensures
        r == number_value(*number),
;

/// `Number::from` makes a number with a value, which `Number::as_u64` gives back.
#[verifier::external_body]
fn number_from(value: u64) -> (r: serde_json::Number)
    ensures
        r == number_of(value),
        number_value(r) == Some(value),
{
    serde_json::Number::from(value)
}

/// A value of `serde_json`, opened.
enum Node<'a> {
    Null,
    Bool(bool),
    Number(serde_json::Number),
    Text(&'a String),
    Array(&'a Vec<serde_json::Value>),
    Object(Vec<(&'a String, &'a serde_json::Value)>),
}

/// What a value of `serde_json` is made from.
enum Parts {
    Null,
    Bool(bool),
    Number(serde_json::Number),
    Text(String),
    Array(Vec<serde_json::Value>),
    Object(Vec<(String, serde_json::Value)>),
}

/// The trees of a list of values.
pub open spec fn values_tree(values: Seq<serde_json::Value>) -> Seq<JsonTree> {
    values.map_values(|value: serde_json::Value| value_tree(value))
}

/// The object with some entries, of which a later one takes the place of an earlier one under
/// the same name.
pub open spec fn entries_tree(entries: Seq<(Seq<char>, JsonTree)>) -> Map<Seq<char>, JsonTree>
    decreases entries.len(),
{
    if entries.len() == 0 {
        Map::empty()
    } else {
        entries_tree(entries.drop_last()).insert(entries.last().0, entries.last().1)
    }
}

impl Node<'_> {
    spec fn tree(self) -> JsonTree {
        match self {
            Node::Null => JsonTree::Null,
            Node::Bool(value) => JsonTree::Bool(value),
            Node::Number(number) => JsonTree::Number(number),
            Node::Text(text) => JsonTree::Text(text@),
            Node::Array(items) => JsonTree::Array(values_tree(items@)),
            Node::Object(entries) => JsonTree::Object(
                entries_tree(
                    entries@.map_values(
                        |entry: (&String, &serde_json::Value)| (entry.0@, value_tree(*entry.1)),
                    ),
                ),
            ),
        }
    }
}

impl Node<'_> {
    /// Whether no name of an object comes twice.
    spec fn distinct(self) -> bool {
        match self {
            Node::Object(entries) => forall|i: int, j: int|
                0 <= i < j < entries@.len() ==> (#[trigger] entries@[i]).0@ != (
                #[trigger] entries@[j]).0@,
            _ => true,
        }
    }
}

impl Parts {
    spec fn tree(self) -> JsonTree {
        match self {
            Parts::Null => JsonTree::Null,
            Parts::Bool(value) => JsonTree::Bool(value),
            Parts::Number(number) => JsonTree::Number(number),
            Parts::Text(text) => JsonTree::Text(text@),
            Parts::Array(items) => JsonTree::Array(values_tree(items@)),
            Parts::Object(entries) => JsonTree::Object(
                entries_tree(
                    entries@.map_values(
                        |entry: (String, serde_json::Value)| (entry.0@, value_tree(entry.1)),
                    ),
                ),
            ),
        }
    }
}

impl Parts {
    /// Whether no name of an object comes twice.
    spec fn distinct(self) -> bool {
        match self {
            Parts::Object(entries) => forall|i: int, j: int|
                0 <= i < j < entries@.len() ==> (#[trigger] entries@[i]).0@ != (
                #[trigger] entries@[j]).0@,
            _ => true,
        }
    }
}

/// The variants of `serde_json::Value`, told apart: what a value holds is what stands in its
/// variant. The entries of an object come with each name once.
#[verifier::external_body]
fn open(value: &serde_json::Value) -> (r: Node<'_>)
    ensures
        value_tree(*value) == r.tree(),
        r.distinct(),
{
    match value {
        serde_json::Value::Null => Node::Null,
        serde_json::Value::Bool(value) => Node::Bool(*value),
        serde_json::Value::Number(number) => Node::Number(number.clone()),
        serde_json::Value::String(text) => Node::Text(text),
        serde_json::Value::Array(items) => Node::Array(items),
        serde_json::Value::Object(map) => Node::Object(map.iter().collect()),
    }
}

/// The variants of `serde_json::Value`, made: the value holds what is put in. The entries of an
/// object are put in with each name once.
#[verifier::external_body]
fn make(parts: Parts) -> (r: serde_json::Value)
    requires
        parts.distinct(),
    ensures
        value_tree(r) == parts.tree(),
{
    match parts {
        Parts::Null => serde_json::Value::Null,
        Parts::Bool(value) => serde_json::Value::Bool(value),
        Parts::Number(number) => serde_json::Value::Number(number),
        Parts::Text(text) => serde_json::Value::String(text),
        Parts::Array(items) => serde_json::Value::Array(items),
        Parts::Object(entries) => serde_json::Value::Object(entries.into_iter().collect()),
    }
}

/// `serde_json::from_str` reads a text as one JSON value, and fails on every other text. The
/// value is only given a name.
#[verifier::external_body]
fn from_str(text: &str) -> (r: Result<serde_json::Value, serde_json::Error>)
    ensures
        match r {
            Ok(value) => parsed(text@) == Some(value_tree(value)),
            Err(_) => parsed(text@) is None,
        },
{
    serde_json::from_str(text)
}

/// `serde_json::to_vec` writes every value of `serde_json`, without white space; the bytes are
/// only given a name. None of them is a line feed: those in texts are escaped.
#[verifier::external_body]
fn to_vec(value: &serde_json::Value) -> (r: Result<Vec<u8>, serde_json::Error>)
    ensures
        r is Ok,
        r->Ok_0@ == compact(value_tree(*value)),
        !r->Ok_0@.contains(10u8),
{
    serde_json::to_vec(value)
}

/// `Display` of `serde_json::Value` shows a value without white space; the text is only given a
/// name.
#[verifier::external_body]
fn display(value: &serde_json::Value) -> (r: String)
    ensures
        r@ == displayed(value_tree(*value)),
{
    value.to_string()
}

/// `serde_json::to_string_pretty` writes every value of `serde_json`, over several lines; the
/// text is only given a name.
#[verifier::external_body]
fn to_string_pretty(value: &serde_json::Value) -> (r: Result<String, serde_json::Error>)
    ensures
        r is Ok,
        r->Ok_0@ == pretty(value_tree(*value)),
{
    serde_json::to_string_pretty(value)
}

/// The trees of the values in a map.
pub open spec fn fields_json(fields: Fields<Json>) -> Map<Seq<char>, JsonTree> {
    fields@.map_values(|value: Json| value.tree())
}

/// The trees of a list of values.
pub open spec fn items_json(items: Seq<Json>) -> Seq<JsonTree> {
    items.map_values(|value: Json| value.tree())
}

impl Json {
    /// The value as a tree.
    pub open spec fn tree(self) -> JsonTree
        decreases self,
    {
        match self {
            Json::Null => JsonTree::Null,
            Json::Bool(value) => JsonTree::Bool(value),
            Json::Number(number) => JsonTree::Number(number),
            Json::Text(text) => JsonTree::Text(text@),
            Json::Array(items) => JsonTree::Array(
                Seq::new(
                    items@.len(),
                    |i: int|
                        if 0 <= i < items@.len() {
                            items@[i].tree()
                        } else {
                            arbitrary()
                        },
                ),
            ),
            Json::Object(fields) => {
                proof {
                    lemma_field_is_smaller(fields);
                }
                JsonTree::Object(
                    Map::new(
                        |name: Seq<char>| fields@.contains_key(name),
                        |name: Seq<char>|
                            if fields@.contains_key(name) {
                                fields@[name].tree()
                            } else {
                                arbitrary()
                            },
                    ),
                )
            },
        }
    }
}

/// The tree of an object holds the trees of its fields.
pub broadcast proof fn lemma_object_tree(fields: Fields<Json>)
    ensures
        #[trigger] Json::Object(fields).tree() == JsonTree::Object(fields_json(fields)),
{
    let tree = Json::Object(fields).tree();
    assert(tree->Object_0 =~= fields_json(fields));
}

/// The tree of an array holds the trees of its items.
pub broadcast proof fn lemma_array_tree(items: Vec<Json>)
    ensures
        #[trigger] Json::Array(items).tree() == JsonTree::Array(items_json(items@)),
{
    let tree = Json::Array(items).tree();
    assert(tree->Array_0 =~= items_json(items@));
}

impl JsonTree {
    /// The text of a string.
    pub open spec fn as_str(self) -> Option<Seq<char>> {
        match self {
            JsonTree::Text(text) => Some(text),
            _ => None,
        }
    }

    /// The value of a whole number that is not negative.
    pub open spec fn as_u64(self) -> Option<u64> {
        match self {
            JsonTree::Number(number) => number_value(number),
            _ => None,
        }
    }

    /// The items of an array.
    pub open spec fn as_array(self) -> Option<Seq<JsonTree>> {
        match self {
            JsonTree::Array(items) => Some(items),
            _ => None,
        }
    }

    /// The value of a boolean.
    pub open spec fn as_bool(self) -> Option<bool> {
        match self {
            JsonTree::Bool(value) => Some(value),
            _ => None,
        }
    }

    /// The value under a name of an object.
    pub open spec fn get(self, name: Seq<char>) -> Option<JsonTree> {
        match self {
            JsonTree::Object(fields) => if fields.contains_key(name) {
                Some(fields[name])
            } else {
                None
            },
            _ => None,
        }
    }

    /// The value under a name of the object under a name.
    pub open spec fn get2(self, first: Seq<char>, second: Seq<char>) -> Option<JsonTree> {
        match self.get(first) {
            Some(inner) => inner.get(second),
            None => None,
        }
    }

    /// The value at the end of a path of three names.
    pub open spec fn get3(self, first: Seq<char>, second: Seq<char>, third: Seq<char>) -> Option<
        JsonTree,
    > {
        match self.get2(first, second) {
            Some(inner) => inner.get(third),
            None => None,
        }
    }

    /// The object without fields.
    pub open spec fn object() -> JsonTree {
        JsonTree::Object(Map::empty())
    }

    /// The object with one more field. A value of another kind stays as it is.
    pub open spec fn with(self, name: Seq<char>, value: JsonTree) -> JsonTree {
        match self {
            JsonTree::Object(fields) => JsonTree::Object(fields.insert(name, value)),
            other => other,
        }
    }
}

/// The text of an optional string.
pub open spec fn str_of(value: Option<JsonTree>) -> Option<Seq<char>> {
    match value {
        Some(value) => value.as_str(),
        None => None,
    }
}

proof fn lemma_entry(entries: Seq<(Seq<char>, JsonTree)>, i: int)
    requires
        0 <= i < entries.len(),
        forall|a: int, b: int|
            0 <= a < b < entries.len() ==> (#[trigger] entries[a]).0 != (#[trigger] entries[b]).0,
    ensures
        entries_tree(entries).contains_key(entries[i].0),
        entries_tree(entries)[entries[i].0] == entries[i].1,
    decreases entries.len(),
{
    if i < entries.len() - 1 {
        let front = entries.drop_last();
        assert forall|a: int, b: int| 0 <= a < b < front.len() implies (#[trigger] front[a]).0 != (
        #[trigger] front[b]).0 by {
            assert(front[a] == entries[a] && front[b] == entries[b]);
        }
        lemma_entry(front, i);
        assert(front[i] == entries[i]);
        assert(entries[i].0 != entries[entries.len() - 1].0);
    }
}

proof fn lemma_entries_finite(entries: Seq<(Seq<char>, JsonTree)>)
    ensures
        entries_tree(entries).dom().finite(),
    decreases entries.len(),
{
    if entries.len() > 0 {
        lemma_entries_finite(entries.drop_last());
    }
}

proof fn lemma_insert_json(fields: Fields<Json>, grown: Fields<Json>, name: Seq<char>, value: Json)
    requires
        grown@ == fields@.insert(name, value),
    ensures
        fields_json(grown) == fields_json(fields).insert(name, value.tree()),
{
    assert(fields_json(grown) =~= fields_json(fields).insert(name, value.tree()));
}

/// The entries of an object with some names.
spec fn named(names: Seq<Seq<char>>, trees: Map<Seq<char>, JsonTree>) -> Seq<
    (Seq<char>, JsonTree),
> {
    names.map_values(|name: Seq<char>| (name, trees[name]))
}

/// The entries of a list of names and values.
spec fn pairs_tree(entries: Seq<(String, serde_json::Value)>) -> Seq<(Seq<char>, JsonTree)> {
    entries.map_values(|entry: (String, serde_json::Value)| (entry.0@, value_tree(entry.1)))
}

proof fn lemma_named(names: Seq<Seq<char>>, trees: Map<Seq<char>, JsonTree>)
    requires
        names.no_duplicates(),
        forall|name: Seq<char>| #[trigger] trees.contains_key(name) <==> names.contains(name),
    ensures
        entries_tree(named(names, trees)) == trees,
{
    let entries = named(names, trees);
    lemma_entry_names(entries);
    assert forall|name: Seq<char>| #[trigger] trees.contains_key(name) implies entries_tree(
        entries,
    ).contains_key(name) && entries_tree(entries)[name] == trees[name] by {
        let i = choose|i: int| 0 <= i < names.len() && names[i] == name;
        assert(entries[i] == (name, trees[name]));
        lemma_entry(entries, i);
    }
    assert(entries_tree(entries) =~= trees);
}

/// The names of an object are those of its entries.
proof fn lemma_entry_names(entries: Seq<(Seq<char>, JsonTree)>)
    ensures
        forall|name: Seq<char>| #[trigger]
            entries_tree(entries).contains_key(name) ==> exists|i: int|
                0 <= i < entries.len() && (#[trigger] entries[i]).0 == name,
    decreases entries.len(),
{
    if entries.len() > 0 {
        let front = entries.drop_last();
        lemma_entry_names(front);
        assert forall|name: Seq<char>| #[trigger]
            entries_tree(entries).contains_key(name) implies exists|i: int|
            0 <= i < entries.len() && (#[trigger] entries[i]).0 == name by {
            if name == entries.last().0 {
                assert(entries[entries.len() - 1].0 == name);
            } else {
                assert(entries_tree(front).contains_key(name));
                let i = choose|i: int| 0 <= i < front.len() && (#[trigger] front[i]).0 == name;
                assert(entries[i].0 == name);
            }
        }
    }
}

impl Json {
    /// The value that a value of `serde_json` holds.
    pub fn from_value(value: &serde_json::Value) -> (r: Self)
        ensures
            r.tree() == value_tree(*value),
        decreases value_tree(*value),
    {
        broadcast use {lemma_object_tree, lemma_array_tree};

        match open(value) {
            Node::Null => Json::Null,
            Node::Bool(value) => Json::Bool(value),
            Node::Number(number) => Json::Number(number),
            Node::Text(text) => Json::Text(text.clone()),
            Node::Array(values) => {
                let mut items: Vec<Json> = Vec::new();
                let ghost trees = values_tree(values@);
                let mut i: usize = 0;
                while i < values.len()
                    invariant
                        i <= values@.len(),
                        trees == values_tree(values@),
                        value_tree(*value) == JsonTree::Array(trees),
                        items_json(items@) == trees.take(i as int),
                    decreases values@.len() - i,
                {
                    assert(trees[i as int] == value_tree(values@[i as int]));
                    let ghost tree = value_tree(*value);
                    assert(decreases_to!(tree => tree->Array_0));
                    assert(decreases_to!(tree->Array_0 => tree->Array_0[i as int]));
                    let ghost before = items@;
                    items.push(Json::from_value(&values[i]));
                    i += 1;
                    assert(items_json(items@) =~= items_json(before).push(trees[i - 1]));
                    assert(trees.take(i as int) =~= trees.take(i - 1).push(trees[i - 1]));
                }
                assert(trees.take(i as int) =~= trees);
                Json::Array(items)
            },
            Node::Object(entries) => {
                let mut fields: Fields<Json> = Fields::new();
                let ghost pairs = entries@.map_values(
                    |entry: (&String, &serde_json::Value)| (entry.0@, value_tree(*entry.1)),
                );
                assert(fields_json(fields) =~= entries_tree(pairs.take(0)));
                let mut i: usize = 0;
                while i < entries.len()
                    invariant
                        i <= entries@.len(),
                        forall|a: int, b: int|
                            0 <= a < b < entries@.len() ==> (#[trigger] entries@[a]).0@ != (
                            #[trigger] entries@[b]).0@,
                        pairs == entries@.map_values(
                            |entry: (&String, &serde_json::Value)| (entry.0@, value_tree(*entry.1)),
                        ),
                        value_tree(*value) == JsonTree::Object(entries_tree(pairs)),
                        fields_json(fields) == entries_tree(pairs.take(i as int)),
                    decreases entries@.len() - i,
                {
                    let (name, inner) = entries[i];
                    let ghost before = fields;
                    proof {
                        assert(pairs[i as int] == (name@, value_tree(*inner)));
                        assert forall|a: int, b: int| 0 <= a < b < pairs.len() implies (
                        #[trigger] pairs[a]).0 != (#[trigger] pairs[b]).0 by {
                            assert(entries@[a].0@ != entries@[b].0@);
                        }
                        lemma_entry(pairs, i as int);
                        lemma_entries_finite(pairs);
                        let tree = value_tree(*value);
                        assert(decreases_to!(tree => tree->Object_0));
                        assert(decreases_to!(tree->Object_0 => tree->Object_0[name@]));
                        assert(pairs.take(i + 1).drop_last() =~= pairs.take(i as int));
                    }
                    let json = Json::from_value(inner);
                    let ghost tree = json;
                    fields = fields.insert(name.clone(), json);
                    proof {
                        lemma_insert_json(before, fields, name@, tree);
                    }
                    i += 1;
                }
                assert(pairs.take(i as int) =~= pairs);
                Json::Object(fields)
            },
        }
    }

    /// The value of `serde_json` that holds this value.
    pub fn to_value(&self) -> (r: serde_json::Value)
        ensures
            value_tree(r) == self.tree(),
        decreases *self,
    {
        broadcast use {lemma_object_tree, lemma_array_tree};

        match self {
            Json::Null => make(Parts::Null),
            Json::Bool(value) => make(Parts::Bool(*value)),
            Json::Number(number) => make(Parts::Number(number.clone())),
            Json::Text(text) => make(Parts::Text(text.clone())),
            Json::Array(items) => {
                let mut values: Vec<serde_json::Value> = Vec::new();
                let ghost trees = items_json(items@);
                let mut i: usize = 0;
                while i < items.len()
                    invariant
                        i <= items@.len(),
                        *self == Json::Array(*items),
                        trees == items_json(items@),
                        values_tree(values@) == trees.take(i as int),
                    decreases items@.len() - i,
                {
                    let ghost before = values@;
                    assert(decreases_to!(*self => self->Array_0));
                    assert(decreases_to!(self->Array_0@ => self->Array_0@[i as int]));
                    values.push(items[i].to_value());
                    i += 1;
                    assert(values_tree(values@) =~= values_tree(before).push(trees[i - 1]));
                    assert(trees.take(i as int) =~= trees.take(i - 1).push(trees[i - 1]));
                }
                assert(trees.take(i as int) =~= trees);
                make(Parts::Array(values))
            },
            Json::Object(fields) => {
                let mut entries: Vec<(String, serde_json::Value)> = Vec::new();
                let ghost names = fields.names();
                let ghost trees = fields_json(*fields);
                let count = fields.len();
                let mut i: usize = 0;
                while i < count
                    invariant
                        i <= count,
                        count == names.len(),
                        names == fields.names(),
                        names.no_duplicates(),
                        *self == Json::Object(*fields),
                        trees == fields_json(*fields),
                        entries@.len() == i,
                        pairs_tree(entries@) == named(names, trees).take(i as int),
                    decreases count - i,
                {
                    proof {
                        lemma_field_is_smaller(*fields);
                        assert(decreases_to!(*self => self->Object_0));
                    }
                    let inner = fields.value(i);
                    let value = inner.to_value();
                    let ghost before = entries@;
                    entries.push((fields.name(i).clone(), value));
                    i += 1;
                    assert(pairs_tree(entries@) =~= pairs_tree(before).push(
                        named(names, trees)[i - 1],
                    ));
                    assert(named(names, trees).take(i as int) =~= named(names, trees).take(
                        i - 1,
                    ).push(named(names, trees)[i - 1]));
                }
                proof {
                    assert(named(names, trees).take(i as int) =~= named(names, trees));
                    lemma_named(names, trees);
                    assert forall|a: int, b: int| 0 <= a < b < entries@.len() implies (
                    #[trigger] entries@[a]).0@ != (#[trigger] entries@[b]).0@ by {
                        assert(pairs_tree(entries@)[a].0 == names[a]);
                        assert(pairs_tree(entries@)[b].0 == names[b]);
                    }
                }
                make(Parts::Object(entries))
            },
        }
    }
}

/// The tree of an optional value.
pub open spec fn tree_of(value: Option<&Json>) -> Option<JsonTree> {
    match value {
        Some(value) => Some(value.tree()),
        None => None,
    }
}

/// The view of an optional text.
pub open spec fn str_view(text: Option<&String>) -> Option<Seq<char>> {
    match text {
        Some(text) => Some(text@),
        None => None,
    }
}

impl Json {
    /// The text of a string.
    pub fn as_str(&self) -> (r: Option<&String>)
        ensures
            str_view(r) == self.tree().as_str(),
    {
        match self {
            Json::Text(text) => Some(text),
            _ => None,
        }
    }

    /// The value of a whole number that is not negative.
    pub fn as_u64(&self) -> (r: Option<u64>)
        ensures
            r == self.tree().as_u64(),
    {
        match self {
            Json::Number(number) => number.as_u64(),
            _ => None,
        }
    }

    /// The value of a boolean.
    pub fn as_bool(&self) -> (r: Option<bool>)
        ensures
            r == self.tree().as_bool(),
    {
        match self {
            Json::Bool(value) => Some(*value),
            _ => None,
        }
    }

    /// The items of an array.
    pub fn as_array(&self) -> (r: Option<&Vec<Json>>)
        ensures
            match r {
                Some(items) => self.tree().as_array() == Some(items_json(items@)),
                None => self.tree().as_array() is None,
            },
    {
        broadcast use lemma_array_tree;

        match self {
            Json::Array(items) => Some(items),
            _ => None,
        }
    }

    /// The value under a name of an object.
    pub fn get(&self, name: &str) -> (r: Option<&Json>)
        ensures
            tree_of(r) == self.tree().get(name@),
    {
        broadcast use lemma_object_tree;

        match self {
            Json::Object(fields) => fields.get(name),
            _ => None,
        }
    }

    /// The value under a name of the object under a name.
    pub fn get2(&self, first: &str, second: &str) -> (r: Option<&Json>)
        ensures
            tree_of(r) == self.tree().get2(first@, second@),
    {
        match self.get(first) {
            Some(inner) => inner.get(second),
            None => None,
        }
    }

    /// The value at the end of a path of three names.
    pub fn get3(&self, first: &str, second: &str, third: &str) -> (r: Option<&Json>)
        ensures
            tree_of(r) == self.tree().get3(first@, second@, third@),
    {
        match self.get2(first, second) {
            Some(inner) => inner.get(third),
            None => None,
        }
    }

    /// A string.
    pub fn text(text: &str) -> (r: Self)
        ensures
            r.tree() == JsonTree::Text(text@),
    {
        Json::Text(text.to_owned())
    }

    /// A number.
    pub fn number(value: u64) -> (r: Self)
        ensures
            r.tree() == JsonTree::Number(number_of(value)),
            r.tree().as_u64() == Some(value),
    {
        Json::Number(number_from(value))
    }

    /// The object without fields.
    pub fn object() -> (r: Self)
        ensures
            r.tree() == JsonTree::object(),
    {
        broadcast use lemma_object_tree;

        let fields: Fields<Json> = Fields::new();
        assert(fields_json(fields) =~= Map::empty());
        Json::Object(fields)
    }

    /// The object with one more field. A value of another kind stays as it is.
    pub fn with(self, name: &str, value: Json) -> (r: Self)
        ensures
            r.tree() == self.tree().with(name@, value.tree()),
    {
        broadcast use lemma_object_tree;

        match self {
            Json::Object(fields) => {
                let ghost before = fields;
                let ghost tree = value;
                let grown = fields.insert(name.to_owned(), value);
                proof {
                    lemma_insert_json(before, grown, name@, tree);
                }
                Json::Object(grown)
            },
            other => other,
        }
    }

    /// Reads a text as one JSON value; a text that is not JSON gives none.
    pub fn parse(text: &str) -> (r: Option<Self>)
        ensures
            match r {
                Some(value) => parsed(text@) == Some(value.tree()),
                None => parsed(text@) is None,
            },
    {
        match from_str(text) {
            Ok(value) => Some(Json::from_value(&value)),
            Err(_) => None,
        }
    }

    /// The value as text, without white space.
    pub fn show(&self) -> (r: String)
        ensures
            r@ == displayed(self.tree()),
    {
        display(&self.to_value())
    }

    /// The value as text over several lines.
    pub fn pretty(&self) -> (r: String)
        ensures
            r@ == pretty(self.tree()),
    {
        to_string_pretty(&self.to_value()).unwrap()
    }

    /// The value as one line: its bytes, without white space, and a line feed.
    pub fn line(&self) -> (r: Vec<u8>)
        ensures
            r@ == line_of(self.tree()),
            one_line(r@),
    {
        let mut bytes = to_vec(&self.to_value()).unwrap();
        let ghost written = bytes@;
        bytes.push(10);
        assert(forall|i: int| 0 <= i < bytes@.len() - 1 ==> bytes@[i] == #[trigger] written[i]);
        bytes
    }
}

/// The line in which a value is sent.
pub open spec fn line_of(tree: JsonTree) -> Seq<u8> {
    compact(tree).push(10)
}

/// Whether bytes are one line: a line feed stands at their end and nowhere else.
pub open spec fn one_line(bytes: Seq<u8>) -> bool {
    &&& bytes.len() > 0
    &&& bytes.last() == 10
    &&& forall|i: int| 0 <= i < bytes.len() - 1 ==> #[trigger] bytes[i] != 10
}

/// What is put into an object under a name is found there, and everything else stays where it was.
/// Nothing is found in the object without fields, nor in a value of another kind.
pub proof fn law_fields_are_found(
    tree: JsonTree,
    name: Seq<char>,
    other: Seq<char>,
    value: JsonTree,
    inner: Seq<char>,
    last: Seq<char>,
)
    ensures
        tree is Object ==> tree.with(name, value).get(name) == Some(value),
        tree is Object && other != name ==> tree.with(name, value).get(other) == tree.get(other),
        !(tree is Object) ==> tree.get(name) is None,
        JsonTree::object().get(name) is None,
        tree is Object ==> tree.with(name, value).get2(name, inner) == value.get(inner),
        tree is Object ==> tree.with(name, value).get3(name, inner, last) == value.get2(
            inner,
            last,
        ),
        tree.get(name) is None ==> tree.get2(name, inner) is None && tree.get3(
            name,
            inner,
            last,
        ) is None,
{
}

/// A value is read as what it is, and as nothing else.
pub proof fn law_values_are_read_as_what_they_are(tree: JsonTree, text: Seq<char>, flag: bool)
    ensures
        tree.as_str() == Some(text) <==> tree == JsonTree::Text(text),
        tree.as_bool() == Some(flag) <==> tree == JsonTree::Bool(flag),
        tree.as_array() is Some <==> tree is Array,
        tree matches JsonTree::Array(items) ==> tree.as_array() == Some(items),
        tree.as_u64() is Some ==> tree is Number,
        tree matches JsonTree::Number(number) ==> tree.as_u64() == number_value(number),
        str_of(Some(tree)) == tree.as_str(),
        str_of(None) is None,
{
}

/// A value is written as one line: its bytes, and a line feed behind them.
pub proof fn law_values_are_written_as_lines(tree: JsonTree)
    ensures
        line_of(tree) == compact(tree) + seq![10u8],
{
    assert(compact(tree).push(10u8) =~= compact(tree) + seq![10u8]);
}

} // verus!
