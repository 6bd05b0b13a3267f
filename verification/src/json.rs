//! JSON documents as plain values.

use vstd::prelude::*;

use crate::text::same_text;

verus! {

/// A JSON number as the readings it allows: as a signed integer, as an
/// unsigned one, and as a binary64 number (its bit pattern).
#[derive(Clone, Copy, Debug, PartialEq, Eq, Structural)]
pub struct Number {
    pub signed: Option<i64>,
    pub unsigned: Option<u64>,
    pub double: Option<u64>,
}

/// A JSON document as a mathematical value.
pub enum Tree {
    Null,
    Bool(bool),
    Number(Number),
    Text(Seq<char>),
    Array(Seq<Tree>),
    Object(Seq<(Seq<char>, Tree)>),
}

/// A JSON document.
#[derive(Debug)]
pub enum Json {
    Null,
    Bool(bool),
    Number(Number),
    Text(String),
    Array(Vec<Json>),
    /// The members in the order of the reader.
    Object(Vec<(String, Json)>),
}

impl Json {
    pub open spec fn view(&self) -> Tree
        decreases self,
    {
        match self {
            Json::Null => Tree::Null,
            Json::Bool(value) => Tree::Bool(*value),
            Json::Number(number) => Tree::Number(*number),
            Json::Text(text) => Tree::Text(text@),
            Json::Array(items) => Tree::Array(
                Seq::new(
                    items@.len(),
                    |i: int|
                        if 0 <= i < items@.len() {
                            items@[i].view()
                        } else {
                            Tree::Null
                        },
                ),
            ),
            Json::Object(members) => Tree::Object(
                Seq::new(
                    members@.len(),
                    |i: int|
                        if 0 <= i < members@.len() {
                            (members@[i].0@, members@[i].1.view())
                        } else {
                            (Seq::empty(), Tree::Null)
                        },
                ),
            ),
        }
    }
}

// ---------------------------------------------------------------------------
// Reading a document
// ---------------------------------------------------------------------------
/// `serde_json::Value`, the outside crate's own document type.
#[verifier::external_type_specification]
#[verifier::external_body]
pub struct ExValue(serde_json::Value);

/// What a `serde_json::Value` holds.
pub uninterp spec fn document(value: serde_json::Value) -> Tree;

/// What `serde_json::from_slice` makes of these bytes: a document, or what its
/// error says.
pub uninterp spec fn reading(bytes: Seq<u8>) -> Result<Tree, Seq<char>>;

/// Calls `serde_json::from_slice`, which reads the bytes as one JSON document
/// or fails with an error.
#[verifier::external_body]
fn read_value(bytes: &[u8]) -> (value: Result<serde_json::Value, String>)
    ensures
        match value {
            Ok(value) => reading(bytes@) == Ok::<Tree, Seq<char>>(document(value)),
            Err(why) => reading(bytes@) == Err::<Tree, Seq<char>>(why@),
        },
{
    match serde_json::from_slice(bytes) {
        Ok(value) => Ok(value),
        Err(error) => Err(error.to_string()),
    }
}

/// What `serde_json::from_slice` makes of these bytes as a list of documents.
pub uninterp spec fn list_reading(bytes: Seq<u8>) -> Result<Seq<Tree>, Seq<char>>;

/// Calls `serde_json::from_slice` for a list: it reads the bytes as one JSON
/// array or fails with an error.
#[verifier::external_body]
fn read_values(bytes: &[u8]) -> (values: Result<Vec<serde_json::Value>, String>)
    ensures
        match values {
            Ok(values) => list_reading(bytes@) == Ok::<Seq<Tree>, Seq<char>>(
                Seq::new(values@.len(), |i: int| document(values@[i])),
            ),
            Err(why) => list_reading(bytes@) == Err::<Seq<Tree>, Seq<char>>(why@),
        },
{
    match serde_json::from_slice(bytes) {
        Ok(values) => Ok(values),
        Err(error) => Err(error.to_string()),
    }
}

/// The outermost layer of a document.
enum Layer<'a> {
    Null,
    Bool(bool),
    Number(Number),
    Text(&'a String),
    Array(&'a Vec<serde_json::Value>),
    Object(Vec<(&'a String, &'a serde_json::Value)>),
}

impl<'a> Layer<'a> {
    spec fn tree(&self) -> Tree {
        match self {
            Layer::Null => Tree::Null,
            Layer::Bool(value) => Tree::Bool(*value),
            Layer::Number(number) => Tree::Number(*number),
            Layer::Text(text) => Tree::Text(text@),
            Layer::Array(items) => Tree::Array(
                Seq::new(items@.len(), |i: int| document(items@[i])),
            ),
            Layer::Object(members) => Tree::Object(
                Seq::new(members@.len(), |i: int| (members@[i].0@, document(*members@[i].1))),
            ),
        }
    }
}

/// Tells the variants of a `serde_json::Value` apart and hands out their
/// fields; a `serde_json::Number` is handed out as what its `as_i64`, `as_u64`
/// and `as_f64` return, a `serde_json::Map` as the members its `iter` yields.
#[verifier::external_body]
fn open<'a>(value: &'a serde_json::Value) -> (layer: Layer<'a>)
    ensures
        layer.tree() == document(*value),
{
    match value {
        serde_json::Value::Null => Layer::Null,
        serde_json::Value::Bool(value) => Layer::Bool(*value),
        serde_json::Value::Number(n) => Layer::Number(
            Number { signed: n.as_i64(), unsigned: n.as_u64(), double: n.as_f64().map(|x| x.to_bits()) },
        ),
        serde_json::Value::String(text) => Layer::Text(text),
        serde_json::Value::Array(items) => Layer::Array(items),
        serde_json::Value::Object(members) => Layer::Object(members.iter().collect()),
    }
}

/// The document a `serde_json::Value` holds.
fn build(value: &serde_json::Value) -> (json: Json)
    ensures
        json@ == document(*value),
    decreases document(*value),
{
    match open(value) {
        Layer::Null => Json::Null,
        Layer::Bool(value) => Json::Bool(value),
        Layer::Number(number) => Json::Number(number),
        Layer::Text(text) => Json::Text(text.clone()),
        Layer::Array(items) => {
            let mut list: Vec<Json> = Vec::new();
            let ghost trees = document(*value)->Array_0;
            while list.len() < items.len()
                invariant
                    document(*value) == Tree::Array(trees),
                    trees == Seq::new(items@.len(), |i: int| document(items@[i])),
                    list@.len() <= items@.len(),
                    forall|i: int| 0 <= i < list@.len() ==> (#[trigger] list@[i])@ == trees[i],
                decreases items.len() - list.len(),
            {
                let at: usize = list.len();
                proof {
                    assert(decreases_to!(document(*value) => document(*value)->Array_0));
                    assert(decreases_to!(trees => trees[at as int]));
                    assert(document(items@[at as int]) == trees[at as int]);
                }
                let item = build(&items[at]);
                list.push(item);
            }
            let json = Json::Array(list);
            assert(json@->Array_0 =~= trees);
            json
        },
        Layer::Object(members) => {
            let mut list: Vec<(String, Json)> = Vec::new();
            let ghost trees = document(*value)->Object_0;
            while list.len() < members.len()
                invariant
                    document(*value) == Tree::Object(trees),
                    trees == Seq::new(
                        members@.len(),
                        |i: int| (members@[i].0@, document(*members@[i].1)),
                    ),
                    list@.len() <= members@.len(),
                    forall|i: int|
                        0 <= i < list@.len() ==> (#[trigger] list@[i]).0@ == trees[i].0
                            && list@[i].1@ == trees[i].1,
                decreases members.len() - list.len(),
            {
                let at: usize = list.len();
                proof {
                    assert(decreases_to!(document(*value) => document(*value)->Object_0));
                    assert(decreases_to!(trees => trees[at as int]));
                    assert(decreases_to!(trees[at as int] => trees[at as int].1));
                    assert(document(*members@[at as int].1) == trees[at as int].1);
                }
                let (key, member) = members[at];
                let item = build(member);
                list.push((key.clone(), item));
            }
            let json = Json::Object(list);
            assert(json@->Object_0 =~= trees);
            json
        },
    }
}

/// Reads a JSON document; an error says what is wrong with the bytes.
pub fn parse(bytes: &[u8]) -> (json: Result<Json, String>)
    ensures
        match json {
            Ok(json) => reading(bytes@) == Ok::<Tree, Seq<char>>(json@),
            Err(why) => reading(bytes@) == Err::<Tree, Seq<char>>(why@),
        },
{
    match read_value(bytes) {
        Ok(value) => Ok(build(&value)),
        Err(why) => Err(why),
    }
}

/// Reads a JSON array; an error says what is wrong with the bytes.
pub fn parse_list(bytes: &[u8]) -> (list: Result<Vec<Json>, String>)
    ensures
        match list {
            Ok(list) => list_reading(bytes@) == Ok::<Seq<Tree>, Seq<char>>(trees(list@)),
            Err(why) => list_reading(bytes@) == Err::<Seq<Tree>, Seq<char>>(why@),
        },
{
    let values = match read_values(bytes) {
        Ok(values) => values,
        Err(why) => {
            return Err(why);
        },
    };
    let mut list: Vec<Json> = Vec::new();
    while list.len() < values.len()
        invariant
            list@.len() <= values@.len(),
            forall|i: int| 0 <= i < list@.len() ==> (#[trigger] list@[i])@ == document(values@[i]),
        decreases values.len() - list.len(),
    {
        let item = build(&values[list.len()]);
        list.push(item);
    }
    assert(trees(list@) =~= Seq::new(values@.len(), |i: int| document(values@[i])));
    Ok(list)
}

// ---------------------------------------------------------------------------
// Looking into a document
// ---------------------------------------------------------------------------
/// The first member, from `from` on, with this key.
pub open spec fn member_from(members: Seq<(Seq<char>, Tree)>, key: Seq<char>, from: int) -> Option<
    Tree,
>
    decreases members.len() - from,
{
    if from < 0 || from >= members.len() {
        None
    } else if members[from].0 == key {
        Some(members[from].1)
    } else {
        member_from(members, key, from + 1)
    }
}

impl Tree {
    /// The member of an object with this key.
    pub open spec fn field(self, key: Seq<char>) -> Option<Tree> {
        match self {
            Tree::Object(members) => member_from(members, key, 0),
            _ => None,
        }
    }

    pub open spec fn text(self) -> Option<Seq<char>> {
        match self {
            Tree::Text(text) => Some(text),
            _ => None,
        }
    }

    pub open spec fn flag(self) -> Option<bool> {
        match self {
            Tree::Bool(value) => Some(value),
            _ => None,
        }
    }

    pub open spec fn signed(self) -> Option<i64> {
        match self {
            Tree::Number(number) => number.signed,
            _ => None,
        }
    }

    pub open spec fn unsigned(self) -> Option<u64> {
        match self {
            Tree::Number(number) => number.unsigned,
            _ => None,
        }
    }

    pub open spec fn double(self) -> Option<u64> {
        match self {
            Tree::Number(number) => number.double,
            _ => None,
        }
    }

    pub open spec fn items(self) -> Option<Seq<Tree>> {
        match self {
            Tree::Array(items) => Some(items),
            _ => None,
        }
    }

    pub open spec fn members(self) -> Option<Seq<(Seq<char>, Tree)>> {
        match self {
            Tree::Object(members) => Some(members),
            _ => None,
        }
    }

    /// The text member with this key.
    pub open spec fn text_field(self, key: Seq<char>) -> Option<Seq<char>> {
        match self.field(key) {
            Some(value) => value.text(),
            None => None,
        }
    }

    pub open spec fn flag_field(self, key: Seq<char>) -> Option<bool> {
        match self.field(key) {
            Some(value) => value.flag(),
            None => None,
        }
    }

    pub open spec fn signed_field(self, key: Seq<char>) -> Option<i64> {
        match self.field(key) {
            Some(value) => value.signed(),
            None => None,
        }
    }

    pub open spec fn unsigned_field(self, key: Seq<char>) -> Option<u64> {
        match self.field(key) {
            Some(value) => value.unsigned(),
            None => None,
        }
    }

    pub open spec fn double_field(self, key: Seq<char>) -> Option<u64> {
        match self.field(key) {
            Some(value) => value.double(),
            None => None,
        }
    }

    pub open spec fn items_field(self, key: Seq<char>) -> Option<Seq<Tree>> {
        match self.field(key) {
            Some(value) => value.items(),
            None => None,
        }
    }
}

/// The trees behind a list of documents.
pub open spec fn trees(list: Seq<Json>) -> Seq<Tree> {
    Seq::new(list.len(), |i: int| list[i]@)
}

/// The trees behind the members of an object.
pub open spec fn member_trees(members: Seq<(String, Json)>) -> Seq<(Seq<char>, Tree)> {
    Seq::new(members.len(), |i: int| (members[i].0@, members[i].1@))
}

impl Json {
    /// The member of an object with this key.
    pub fn get(&self, key: &str) -> (member: Option<&Json>)
        ensures
            match member {
                Some(found) => self@.field(key@) == Some(found@),
                None => self@.field(key@) is None,
            },
            member matches Some(found) ==> decreases_to!(self => found),
    {
        match self {
            Json::Object(members) => {
                let ghost all = self@->Object_0;
                let mut i: usize = 0;
                while i < members.len()
                    invariant
                        *self == Json::Object(*members),
                        self@ == Tree::Object(all),
                        all.len() == members@.len(),
                        i <= members@.len(),
                        member_from(all, key@, 0) == member_from(all, key@, i as int),
                    decreases members.len() - i,
                {
                    assert(all[i as int] == (members@[i as int].0@, members@[i as int].1@));
                    if same_text(members[i].0.as_str(), key) {
                        proof {
                            assert(decreases_to!(self => members));
                            assert(decreases_to!(members => members@));
                            assert(decreases_to!(members@ => members@[i as int]));
                            assert(decreases_to!(members@[i as int] => members@[i as int].1));
                        }
                        return Some(&members[i].1);
                    }
                    i = i + 1;
                }
                None
            },
            _ => None,
        }
    }

    pub fn as_str(&self) -> (text: Option<&str>)
        ensures
            match text {
                Some(text) => self@.text() == Some(text@),
                None => self@.text() is None,
            },
    {
        match self {
            Json::Text(text) => Some(text.as_str()),
            _ => None,
        }
    }

    pub fn as_bool(&self) -> (flag: Option<bool>)
        ensures
            flag == self@.flag(),
    {
        match self {
            Json::Bool(value) => Some(*value),
            _ => None,
        }
    }

    pub fn as_i64(&self) -> (number: Option<i64>)
        ensures
            number == self@.signed(),
    {
        match self {
            Json::Number(number) => number.signed,
            _ => None,
        }
    }

    pub fn as_u64(&self) -> (number: Option<u64>)
        ensures
            number == self@.unsigned(),
    {
        match self {
            Json::Number(number) => number.unsigned,
            _ => None,
        }
    }

    /// The bit pattern of the number as a binary64 number.
    pub fn as_double(&self) -> (bits: Option<u64>)
        ensures
            bits == self@.double(),
    {
        match self {
            Json::Number(number) => number.double,
            _ => None,
        }
    }

    pub fn as_array(&self) -> (items: Option<&Vec<Json>>)
        ensures
            match items {
                Some(items) => self@.items() == Some(trees(items@)),
                None => self@.items() is None,
            },
            items matches Some(list) ==> decreases_to!(self => list),
    {
        match self {
            Json::Array(items) => {
                assert(self@->Array_0 =~= trees(items@));
                Some(items)
            },
            _ => None,
        }
    }

    pub fn as_object(&self) -> (members: Option<&Vec<(String, Json)>>)
        ensures
            match members {
                Some(members) => self@.members() == Some(member_trees(members@)),
                None => self@.members() is None,
            },
    {
        match self {
            Json::Object(members) => {
                assert(self@->Object_0 =~= member_trees(members@));
                Some(members)
            },
            _ => None,
        }
    }

    pub fn text_field(&self, key: &str) -> (text: Option<&str>)
        ensures
            match text {
                Some(text) => self@.text_field(key@) == Some(text@),
                None => self@.text_field(key@) is None,
            },
    {
        match self.get(key) {
            Some(value) => value.as_str(),
            None => None,
        }
    }

    pub fn flag_field(&self, key: &str) -> (flag: Option<bool>)
        ensures
            flag == self@.flag_field(key@),
    {
        match self.get(key) {
            Some(value) => value.as_bool(),
            None => None,
        }
    }

    pub fn signed_field(&self, key: &str) -> (number: Option<i64>)
        ensures
            number == self@.signed_field(key@),
    {
        match self.get(key) {
            Some(value) => value.as_i64(),
            None => None,
        }
    }

    pub fn unsigned_field(&self, key: &str) -> (number: Option<u64>)
        ensures
            number == self@.unsigned_field(key@),
    {
        match self.get(key) {
            Some(value) => value.as_u64(),
            None => None,
        }
    }

    pub fn double_field(&self, key: &str) -> (bits: Option<u64>)
        ensures
            bits == self@.double_field(key@),
    {
        match self.get(key) {
            Some(value) => value.as_double(),
            None => None,
        }
    }

    pub fn items_field(&self, key: &str) -> (items: Option<&Vec<Json>>)
        ensures
            match items {
                Some(items) => self@.items_field(key@) == Some(trees(items@)),
                None => self@.items_field(key@) is None,
            },
            items matches Some(list) ==> decreases_to!(self => list),
    {
        match self.get(key) {
            Some(value) => value.as_array(),
            None => None,
        }
    }
}

/// A key finds the first member that has it, with that member's own value.
pub proof fn law_a_key_finds_the_first_member_that_has_it(
    members: Seq<(Seq<char>, Tree)>,
    key: Seq<char>,
    at: int,
)
    requires
        0 <= at < members.len(),
        members[at].0 == key,
        forall|i: int| 0 <= i < at ==> (#[trigger] members[i]).0 != key,
    ensures
        Tree::Object(members).field(key) == Some(members[at].1),
{
    lemma_member_is(members, key, 0, at);
}

proof fn lemma_member_is(members: Seq<(Seq<char>, Tree)>, key: Seq<char>, from: int, at: int)
    requires
        0 <= from <= at < members.len(),
        members[at].0 == key,
        forall|i: int| from <= i < at ==> (#[trigger] members[i]).0 != key,
    ensures
        member_from(members, key, from) == Some(members[at].1),
    decreases at - from,
{
    if from < at {
        assert(members[from].0 != key);
        lemma_member_is(members, key, from + 1, at);
    }
}

/// A key that no member has finds nothing, and nothing but an object has
/// members.
pub proof fn law_a_key_that_is_not_there_finds_nothing(tree: Tree, key: Seq<char>)
    requires
        tree matches Tree::Object(members) ==> forall|i: int|
            0 <= i < members.len() ==> (#[trigger] members[i]).0 != key,
    ensures
        tree.field(key) is None,
        tree.text_field(key) is None,
        tree.flag_field(key) is None,
        tree.signed_field(key) is None,
        tree.unsigned_field(key) is None,
        tree.double_field(key) is None,
        tree.items_field(key) is None,
{
    if let Tree::Object(members) = tree {
        lemma_no_member(members, key, 0);
    }
}

proof fn lemma_no_member(members: Seq<(Seq<char>, Tree)>, key: Seq<char>, from: int)
    requires
        0 <= from,
        forall|i: int| from <= i < members.len() ==> (#[trigger] members[i]).0 != key,
    ensures
        member_from(members, key, from) is None,
    decreases members.len() - from,
{
    if from < members.len() {
        lemma_no_member(members, key, from + 1);
    }
}

/// A member is read as what it is: a text as its text, a flag as its value, a
/// number as each of its readings, a list as its items; and as nothing else.
pub proof fn law_a_member_is_read_as_what_it_is(tree: Tree, key: Seq<char>)
    ensures
        tree.field(key) matches Some(value) ==> match value {
            Tree::Null => {
                &&& tree.text_field(key) is None
                &&& tree.flag_field(key) is None
                &&& tree.signed_field(key) is None
                &&& tree.unsigned_field(key) is None
                &&& tree.double_field(key) is None
                &&& tree.items_field(key) is None
            },
            Tree::Bool(flag) => {
                &&& tree.flag_field(key) == Some(flag)
                &&& tree.text_field(key) is None
                &&& tree.signed_field(key) is None
                &&& tree.unsigned_field(key) is None
                &&& tree.double_field(key) is None
                &&& tree.items_field(key) is None
            },
            Tree::Number(number) => {
                &&& tree.signed_field(key) == number.signed
                &&& tree.unsigned_field(key) == number.unsigned
                &&& tree.double_field(key) == number.double
                &&& tree.text_field(key) is None
                &&& tree.flag_field(key) is None
                &&& tree.items_field(key) is None
            },
            Tree::Text(text) => {
                &&& tree.text_field(key) == Some(text)
                &&& tree.flag_field(key) is None
                &&& tree.signed_field(key) is None
                &&& tree.unsigned_field(key) is None
                &&& tree.double_field(key) is None
                &&& tree.items_field(key) is None
            },
            Tree::Array(items) => {
                &&& tree.items_field(key) == Some(items)
                &&& tree.text_field(key) is None
                &&& tree.flag_field(key) is None
                &&& tree.signed_field(key) is None
                &&& tree.unsigned_field(key) is None
                &&& tree.double_field(key) is None
            },
            Tree::Object(_) => {
                &&& tree.text_field(key) is None
                &&& tree.flag_field(key) is None
                &&& tree.signed_field(key) is None
                &&& tree.unsigned_field(key) is None
                &&& tree.double_field(key) is None
                &&& tree.items_field(key) is None
            },
        },
{
}

} // verus!
