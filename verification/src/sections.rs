//! Reading a JSON document by the fields it is expected to have.
//!
//! A field whose value cannot be read costs only itself, and a field that
//! nobody expects is not read at all.

use vstd::prelude::*;
use vstd::utf8::encode_utf8;

use crate::json::{member_from, member_trees, parse, reading, Json, Tree};
use crate::text::{chars_of, same_text, slice_text, texts};

verus! {

// ---------------------------------------------------------------------------
// Taking a document apart
// ---------------------------------------------------------------------------
/// What `serde_json`'s stream of raw values reads first from this text: the
/// text of one JSON value, and what comes after it. Nothing where the text does
/// not start with a value.
pub uninterp spec fn first_value(text: Seq<char>) -> Option<(Seq<char>, Seq<char>)>;

/// Takes the first item of `serde_json::Deserializer::from_str(..).into_iter()`
/// as a `serde_json::value::RawValue`, and the rest of the text from the
/// stream's `byte_offset` on. White space before the value is passed over. The
/// value is held to the grammar only and comes out as its own text, of which
/// there is at least one character.
#[verifier::external_body]
fn read_first(text: &str) -> (first: Option<(String, String)>)
    ensures
        match first {
            Some((value, rest)) => first_value(text@) == Some((value@, rest@)) && rest@.len()
                < text@.len(),
            None => first_value(text@) is None,
        },
{
    let mut stream = serde_json::Deserializer::from_str(text)
        .into_iter::<Box<serde_json::value::RawValue>>();
    match stream.next() {
        Some(Ok(value)) => Some(
            (value.get().to_owned(), text[stream.byte_offset()..].to_owned()),
        ),
        _ => None,
    }
}

/// White space as JSON knows it.
pub open spec fn is_blank(c: char) -> bool {
    c == ' ' || c == '\t' || c == '\n' || c == '\r'
}

/// What stands between the values of an array or an object.
pub open spec fn is_separator(c: char) -> bool {
    is_blank(c) || c == ',' || c == ':'
}

/// The first position from `from` on without a separator.
pub open spec fn past_separators(text: Seq<char>, from: int) -> int
    decreases text.len() - from,
{
    if 0 <= from < text.len() && is_separator(text[from]) {
        past_separators(text, from + 1)
    } else {
        from
    }
}

/// The text without the separators it starts with.
pub open spec fn unseparated(text: Seq<char>) -> Seq<char> {
    text.subrange(past_separators(text, 0), text.len() as int)
}

/// The values between the brackets of an array or an object, whose text starts
/// behind its opening bracket. A key is a value here.
pub open spec fn values_in(text: Seq<char>) -> Seq<Seq<char>>
    decreases text.len(),
{
    let next = unseparated(text);
    match first_value(next) {
        Some((value, rest)) => if next.len() <= text.len() && rest.len() < next.len() {
            seq![value] + values_in(rest)
        } else {
            Seq::empty()
        },
        None => Seq::empty(),
    }
}

fn skip_separators(text: &str) -> (rest: String)
    ensures
        rest@ == unseparated(text@),
        rest@.len() <= text@.len(),
{
    let chars = chars_of(text);
    let mut at: usize = 0;
    while at < chars.len() && (chars[at] == ' ' || chars[at] == '\t' || chars[at] == '\n'
        || chars[at] == '\r' || chars[at] == ',' || chars[at] == ':')
        invariant
            at <= chars@.len(),
            past_separators(chars@, 0) == past_separators(chars@, at as int),
        decreases chars.len() - at,
    {
        at = at + 1;
    }
    slice_text(&chars, at, chars.len())
}

fn split_values(text: &str) -> (values: Vec<String>)
    ensures
        texts(values@) == values_in(text@),
{
    let mut values: Vec<String> = Vec::new();
    let mut left: String = text.to_owned();
    loop
        invariant
            texts(values@) + values_in(left@) =~= values_in(text@),
        decreases left@.len(),
    {
        let next = skip_separators(left.as_str());
        match read_first(next.as_str()) {
            Some((value, rest)) => {
                let ghost before = texts(values@);
                proof {
                    assert(values_in(left@) == seq![value@] + values_in(rest@));
                }
                values.push(value);
                assert(texts(values@) =~= before + seq![value@]);
                left = rest;
            },
            None => {
                assert(values_in(left@) =~= Seq::empty());
                assert(texts(values@) =~= values_in(text@));
                return values;
            },
        }
    }
}

/// What a JSON value is from the outside.
#[derive(Debug)]
pub enum Outline {
    /// Its members in order: each key, and the text of its value.
    Object(Vec<(String, String)>),
    /// The texts of its items.
    Array(Vec<String>),
    /// Neither.
    Plain,
    /// An object with a key that is no text.
    Unreadable,
}

/// What an [`Outline`] says.
pub enum OutlineView {
    Object(Seq<(Seq<char>, Seq<char>)>),
    Array(Seq<Seq<char>>),
    Plain,
    Unreadable,
}

/// The texts behind the members of an object.
pub open spec fn member_texts(members: Seq<(String, String)>) -> Seq<(Seq<char>, Seq<char>)> {
    Seq::new(members.len(), |i: int| (members[i].0@, members[i].1@))
}

impl View for Outline {
    type V = OutlineView;

    open spec fn view(&self) -> OutlineView {
        match *self {
            Outline::Object(members) => OutlineView::Object(member_texts(members@)),
            Outline::Array(items) => OutlineView::Array(texts(items@)),
            Outline::Plain => OutlineView::Plain,
            Outline::Unreadable => OutlineView::Unreadable,
        }
    }
}

/// The text a JSON value is, when it is one.
pub open spec fn key_text(value: Seq<char>) -> Option<Seq<char>> {
    match reading(encode_utf8(value)) {
        Ok(tree) => tree.text(),
        Err(_) => None,
    }
}

/// The members of an object, from its keys and values in turn.
pub open spec fn paired(values: Seq<Seq<char>>) -> OutlineView {
    let count = values.len() / 2;
    if forall|i: int| 0 <= i < count ==> key_text(#[trigger] values[2 * i]) is Some {
        OutlineView::Object(
            Seq::new(count, |i: int| (key_text(values[2 * i])->Some_0, values[2 * i + 1])),
        )
    } else {
        OutlineView::Unreadable
    }
}

/// What a JSON value is from the outside.
pub open spec fn outlined(value: Seq<char>) -> OutlineView {
    if value.len() > 0 && value[0] == '{' {
        paired(values_in(value.skip(1)))
    } else if value.len() > 0 && value[0] == '[' {
        OutlineView::Array(values_in(value.skip(1)))
    } else {
        OutlineView::Plain
    }
}

fn pair_up(values: &Vec<String>) -> (outline: Outline)
    ensures
        outline@ == paired(texts(values@)),
{
    let ghost all = texts(values@);
    let count: usize = values.len() / 2;
    let mut members: Vec<(String, String)> = Vec::new();
    while members.len() < count
        invariant
            all == texts(values@),
            count == values@.len() / 2,
            values@.len() <= usize::MAX,
            members@.len() <= count,
            forall|i: int|
                0 <= i < members@.len() ==> key_text(all[2 * i]) == Some(
                    (#[trigger] members@[i]).0@,
                ) && members@[i].1@ == all[2 * i + 1],
        decreases count - members.len(),
    {
        let at: usize = members.len();
        assert(2 * at + 1 < values@.len());
        assert(all[2 * at] == values@[2 * at as int]@);
        assert(all[2 * at + 1] == values@[2 * at + 1]@);
        let key = match parse(values[2 * at].as_str().as_bytes()) {
            Ok(Json::Text(key)) => key,
            _ => {
                assert(key_text(all[2 * at]) is None);
                return Outline::Unreadable;
            },
        };
        members.push((key, values[2 * at + 1].clone()));
    }
    proof {
        assert forall|i: int| 0 <= i < count implies key_text(#[trigger] all[2 * i]) is Some by {
            assert(members@[i].1@ == all[2 * i + 1]);
        }
        assert(member_texts(members@) =~= Seq::new(
            count as nat,
            |i: int| (key_text(all[2 * i])->Some_0, all[2 * i + 1]),
        ));
    }
    Outline::Object(members)
}

/// What a JSON value is from the outside; what is inside stays unread.
pub fn outline(value: &str) -> (outline: Outline)
    ensures
        outline@ == outlined(value@),
{
    let chars = chars_of(value);
    if chars.len() > 0 && chars[0] == '{' {
        let inside = slice_text(&chars, 1, chars.len());
        assert(inside@ =~= value@.skip(1));
        let values = split_values(inside.as_str());
        pair_up(&values)
    } else if chars.len() > 0 && chars[0] == '[' {
        let inside = slice_text(&chars, 1, chars.len());
        assert(inside@ =~= value@.skip(1));
        Outline::Array(split_values(inside.as_str()))
    } else {
        Outline::Plain
    }
}

/// There is nothing but white space.
pub open spec fn all_blank(text: Seq<char>) -> bool {
    forall|i: int| 0 <= i < text.len() ==> is_blank(#[trigger] text[i])
}

/// The one JSON value a text is, with nothing but white space around it.
pub open spec fn only_value(text: Seq<char>) -> Option<Seq<char>> {
    match first_value(text) {
        Some((value, rest)) => if all_blank(rest) {
            Some(value)
        } else {
            None
        },
        None => None,
    }
}

/// The one JSON value a text is, with nothing but white space around it.
pub fn sole_value(text: &str) -> (value: Option<String>)
    ensures
        match value {
            Some(value) => only_value(text@) == Some(value@),
            None => only_value(text@) is None,
        },
{
    let (value, rest) = match read_first(text) {
        Some(first) => first,
        None => {
            return None;
        },
    };
    let chars = chars_of(rest.as_str());
    let mut i: usize = 0;
    while i < chars.len()
        invariant
            i <= chars@.len(),
            chars@ == rest@,
            first_value(text@) == Some((value@, rest@)),
            forall|j: int| 0 <= j < i ==> is_blank(#[trigger] rest@[j]),
        decreases chars.len() - i,
    {
        if chars[i] != ' ' && chars[i] != '\t' && chars[i] != '\n' && chars[i] != '\r' {
            assert(!is_blank(rest@[i as int]));
            return None;
        }
        i = i + 1;
    }
    Some(value)
}

// ---------------------------------------------------------------------------
// Which value belongs to which field
// ---------------------------------------------------------------------------
/// A key that is expected stands twice in an object.
pub open spec fn repeats(members: Seq<(Seq<char>, Seq<char>)>, keys: Seq<Seq<char>>) -> bool {
    exists|i: int, j: int, k: int|
        0 <= i < j < members.len() && 0 <= k < keys.len() && (#[trigger] members[i]).0
            == #[trigger] keys[k] && (#[trigger] members[j]).0 == keys[k]
}

/// The first text, from `from` on, under this key.
pub open spec fn text_under(
    members: Seq<(Seq<char>, Seq<char>)>,
    key: Seq<char>,
    from: int,
) -> Option<Seq<char>>
    decreases members.len() - from,
{
    if from < 0 || from >= members.len() {
        None
    } else if members[from].0 == key {
        Some(members[from].1)
    } else {
        text_under(members, key, from + 1)
    }
}

/// The text of each field's value: in an object by its key, in an array by its
/// place. Nothing at all of an object that repeats a key that is expected, and
/// of an array with more items than there are fields.
pub open spec fn assigned(outline: OutlineView, keys: Seq<Seq<char>>) -> Option<
    Seq<Option<Seq<char>>>,
> {
    match outline {
        OutlineView::Object(members) => if repeats(members, keys) {
            None
        } else {
            Some(Seq::new(keys.len(), |k: int| text_under(members, keys[k], 0)))
        },
        OutlineView::Array(items) => if items.len() > keys.len() {
            None
        } else {
            Some(
                Seq::new(
                    keys.len(),
                    |k: int|
                        if k < items.len() {
                            Some(items[k])
                        } else {
                            None
                        },
                ),
            )
        },
        OutlineView::Plain => Some(Seq::new(keys.len(), |k: int| None)),
        OutlineView::Unreadable => None,
    }
}

/// The texts behind a list that may have gaps.
pub open spec fn gapped(values: Seq<Option<String>>) -> Seq<Option<Seq<char>>> {
    Seq::new(
        values.len(),
        |k: int|
            match values[k] {
                Some(value) => Some(value@),
                None => None,
            },
    )
}

/// The one value under a key: `None` where the key stands twice.
fn look_up(members: &Vec<(String, String)>, key: &str) -> (value: Option<Option<String>>)
    ensures
        match value {
            Some(value) => {
                &&& !repeats(member_texts(members@), seq![key@])
                &&& text_under(member_texts(members@), key@, 0) == match value {
                    Some(value) => Some(value@),
                    None => None,
                }
            },
            None => repeats(member_texts(members@), seq![key@]),
        },
{
    let ghost all = member_texts(members@);
    let mut found: Option<String> = None;
    let ghost mut place: int = 0;
    let mut i: usize = 0;
    while i < members.len()
        invariant
            all == member_texts(members@),
            i <= members@.len(),
            match found {
                Some(value) => {
                    &&& 0 <= place < i
                    &&& all[place].0 == key@
                    &&& forall|j: int| 0 <= j < i && j != place ==> (#[trigger] all[j]).0 != key@
                    &&& text_under(all, key@, 0) == Some(value@)
                },
                None => {
                    &&& forall|j: int| 0 <= j < i ==> (#[trigger] all[j]).0 != key@
                    &&& text_under(all, key@, 0) == text_under(all, key@, i as int)
                },
            },
        decreases members.len() - i,
    {
        assert(all[i as int].0 == members@[i as int].0@);
        if same_text(members[i].0.as_str(), key) {
            if found.is_some() {
                assert(seq![key@][0] == key@);
                assert(all[place].0 == seq![key@][0] && all[i as int].0 == seq![key@][0]);
                return None;
            }
            found = Some(members[i].1.clone());
            proof {
                place = i as int;
            }
        }
        i = i + 1;
    }
    Some(found)
}

/// The text of each field's value: in an object by its key, in an array by its
/// place. `None` for an object that repeats a key that is expected, and for an
/// array with more items than there are fields.
pub fn assign(outline: &Outline, keys: &Vec<String>) -> (values: Option<Vec<Option<String>>>)
    ensures
        match values {
            Some(values) => assigned(outline@, texts(keys@)) == Some(gapped(values@)),
            None => assigned(outline@, texts(keys@)) is None,
        },
{
    let ghost wanted = texts(keys@);
    let mut values: Vec<Option<String>> = Vec::new();
    match outline {
        Outline::Object(members) => {
            let ghost all = member_texts(members@);
            while values.len() < keys.len()
                invariant
                    *outline == Outline::Object(*members),
                    all == member_texts(members@),
                    wanted == texts(keys@),
                    values@.len() <= keys@.len(),
                    forall|i: int, j: int, k: int|
                        0 <= i < j < all.len() && 0 <= k < values@.len() ==> !((
                        #[trigger] all[i]).0 == #[trigger] wanted[k] && (#[trigger] all[j]).0
                            == wanted[k]),
                    forall|k: int|
                        0 <= k < values@.len() ==> (#[trigger] gapped(values@)[k]) == text_under(
                            all,
                            wanted[k],
                            0,
                        ),
                decreases keys.len() - values.len(),
            {
                let at: usize = values.len();
                assert(wanted[at as int] == keys@[at as int]@);
                match look_up(members, keys[at].as_str()) {
                    Some(value) => {
                        let ghost before = gapped(values@);
                        proof {
                            let one = seq![wanted[at as int]];
                            assert forall|i: int, j: int|
                                0 <= i < j < all.len() implies !((#[trigger] all[i]).0
                                == wanted[at as int] && (#[trigger] all[j]).0
                                == wanted[at as int]) by {
                                if all[i].0 == wanted[at as int] && all[j].0 == wanted[at as int] {
                                    assert(all[i].0 == one[0] && all[j].0 == one[0]);
                                    assert(repeats(all, one));
                                }
                            }
                        }
                        values.push(value);
                        assert(gapped(values@).take(at as int) =~= before);
                        assert forall|k: int| 0 <= k < values@.len() implies (
                        #[trigger] gapped(values@)[k]) == text_under(all, wanted[k], 0) by {
                            if k < at {
                                assert(gapped(values@)[k] == before[k]);
                            }
                        }
                    },
                    None => {
                        proof {
                            let one = seq![wanted[at as int]];
                            let (i, j, k) = choose|i: int, j: int, k: int|
                                0 <= i < j < all.len() && 0 <= k < one.len() && (
                                #[trigger] all[i]).0 == #[trigger] one[k] && (#[trigger] all[j]).0
                                    == one[k];
                            assert(all[i].0 == wanted[at as int] && all[j].0 == wanted[at as int]);
                            assert(repeats(all, wanted));
                        }
                        return None;
                    },
                }
            }
            assert(!repeats(all, wanted));
            assert(gapped(values@) =~= Seq::new(
                wanted.len(),
                |k: int| text_under(all, wanted[k], 0),
            ));
            Some(values)
        },
        Outline::Array(items) => {
            if items.len() > keys.len() {
                return None;
            }
            while values.len() < keys.len()
                invariant
                    *outline == Outline::Array(*items),
                    wanted == texts(keys@),
                    items@.len() <= keys@.len(),
                    values@.len() <= keys@.len(),
                    forall|k: int|
                        0 <= k < values@.len() ==> (#[trigger] gapped(values@)[k]) == if k
                            < items@.len() {
                            Some(items@[k]@)
                        } else {
                            None
                        },
                decreases keys.len() - values.len(),
            {
                let at: usize = values.len();
                let ghost before = gapped(values@);
                values.push(
                    if at < items.len() {
                        Some(items[at].clone())
                    } else {
                        None
                    },
                );
                assert(gapped(values@).take(at as int) =~= before);
                assert forall|k: int| 0 <= k < values@.len() implies (
                #[trigger] gapped(values@)[k]) == if k < items@.len() {
                    Some(items@[k]@)
                } else {
                    None
                } by {
                    if k < at {
                        assert(gapped(values@)[k] == before[k]);
                    }
                }
            }
            assert(gapped(values@) =~= assigned(outline@, wanted)->Some_0);
            Some(values)
        },
        Outline::Plain => {
            while values.len() < keys.len()
                invariant
                    *outline == Outline::Plain,
                    wanted == texts(keys@),
                    values@.len() <= keys@.len(),
                    forall|k: int| 0 <= k < values@.len() ==> (#[trigger] values@[k]) is None,
                decreases keys.len() - values.len(),
            {
                values.push(None);
            }
            assert(gapped(values@) =~= assigned(outline@, wanted)->Some_0);
            Some(values)
        },
        Outline::Unreadable => None,
    }
}

// ---------------------------------------------------------------------------
// Reading by form
// ---------------------------------------------------------------------------
/// What is expected of a value.
#[derive(Debug)]
pub enum Form {
    /// Anything; it is read as a whole.
    Value,
    /// A section with these fields, in this order.
    Section(Vec<(String, Form)>),
}

/// What a [`Form`] says.
pub enum FormView {
    Value,
    Section(Seq<(Seq<char>, FormView)>),
}

impl Form {
    pub open spec fn view(&self) -> FormView
        decreases self,
    {
        match self {
            Form::Value => FormView::Value,
            Form::Section(fields) => FormView::Section(
                Seq::new(
                    fields@.len(),
                    |k: int|
                        if 0 <= k < fields@.len() {
                            (fields@[k].0@, fields@[k].1.view())
                        } else {
                            (Seq::empty(), FormView::Value)
                        },
                ),
            ),
        }
    }
}

/// The keys of some fields.
pub open spec fn keys_of(fields: Seq<(Seq<char>, FormView)>) -> Seq<Seq<char>> {
    Seq::new(fields.len(), |k: int| fields[k].0)
}

/// A section of values under these keys.
pub open spec fn plain_section(keys: Seq<Seq<char>>) -> FormView {
    FormView::Section(Seq::new(keys.len(), |k: int| (keys[k], FormView::Value)))
}

/// What can be read of a value; nothing of one that cannot be read.
pub open spec fn readable(value: Seq<char>) -> Tree {
    match reading(encode_utf8(value)) {
        Ok(tree) => tree,
        Err(_) => Tree::Null,
    }
}

/// A value read by its form: a section field by field, and one that is neither
/// an object nor an array as nothing. `None` where the fields of a section
/// cannot be told apart.
pub open spec fn read_as(value: Seq<char>, form: FormView) -> Option<Tree>
    decreases form, 0int,
{
    match form {
        FormView::Value => Some(readable(value)),
        FormView::Section(fields) => match outlined(value) {
            OutlineView::Plain => Some(Tree::Null),
            outline => match assigned(outline, keys_of(fields)) {
                None => None,
                Some(values) => match read_fields(values, fields, fields.len() as int) {
                    None => None,
                    Some(members) => Some(Tree::Object(members)),
                },
            },
        },
    }
}

/// The first `n` fields of a section with their values; a field without a value
/// holds nothing.
pub open spec fn read_fields(
    values: Seq<Option<Seq<char>>>,
    fields: Seq<(Seq<char>, FormView)>,
    n: int,
) -> Option<Seq<(Seq<char>, Tree)>>
    decreases fields, n,
{
    if n <= 0 || n > fields.len() {
        Some(Seq::empty())
    } else {
        proof {
            assert(decreases_to!(fields => fields[n - 1]));
            assert(decreases_to!(fields[n - 1] => fields[n - 1].1));
        }
        let own = match values[n - 1] {
            Some(value) => read_as(value, fields[n - 1].1),
            None => Some(Tree::Null),
        };
        match (read_fields(values, fields, n - 1), own) {
            (Some(before), Some(tree)) => Some(before.push((fields[n - 1].0, tree))),
            _ => None,
        }
    }
}

proof fn lemma_read_fields_fails(
    values: Seq<Option<Seq<char>>>,
    fields: Seq<(Seq<char>, FormView)>,
    n: int,
    m: int,
)
    requires
        0 <= n <= m <= fields.len(),
        read_fields(values, fields, n) is None,
    ensures
        read_fields(values, fields, m) is None,
    decreases m - n,
{
    if n < m {
        lemma_read_fields_fails(values, fields, n, m - 1);
    }
}

fn read_leaf(value: &str) -> (json: Json)
    ensures
        json@ == readable(value@),
{
    match parse(value.as_bytes()) {
        Ok(json) => json,
        Err(_) => Json::Null,
    }
}

fn keys_in(fields: &Vec<(String, Form)>) -> (keys: Vec<String>)
    ensures
        texts(keys@) == keys_of(Form::Section(*fields)@->Section_0),
{
    let mut keys: Vec<String> = Vec::new();
    while keys.len() < fields.len()
        invariant
            keys@.len() <= fields@.len(),
            forall|k: int| 0 <= k < keys@.len() ==> (#[trigger] keys@[k])@ == fields@[k].0@,
        decreases fields.len() - keys.len(),
    {
        keys.push(fields[keys.len()].0.clone());
    }
    assert(texts(keys@) =~= keys_of(Form::Section(*fields)@->Section_0));
    keys
}

/// A value read by its form; `None` where the fields of a section cannot be
/// told apart.
pub fn read_by(value: &str, form: &Form) -> (json: Option<Json>)
    ensures
        match json {
            Some(json) => read_as(value@, form@) == Some(json@),
            None => read_as(value@, form@) is None,
        },
    decreases form,
{
    let fields = match form {
        Form::Value => {
            return Some(read_leaf(value));
        },
        Form::Section(fields) => fields,
    };
    let outline = outline(value);
    if let Outline::Plain = outline {
        return Some(Json::Null);
    }
    let keys = keys_in(fields);
    let values = match assign(&outline, &keys) {
        Some(values) => values,
        None => {
            return None;
        },
    };
    let ghost expected = form@->Section_0;
    let ghost given = gapped(values@);
    assert(given.len() == expected.len());
    let mut members: Vec<(String, Json)> = Vec::new();
    assert(member_trees(members@) =~= Seq::empty());
    while members.len() < fields.len()
        invariant
            *form == Form::Section(*fields),
            form@ == FormView::Section(expected),
            given == gapped(values@),
            values@.len() == fields@.len(),
            expected.len() == fields@.len(),
            !(outlined(value@) is Plain),
            assigned(outlined(value@), keys_of(expected)) == Some(given),
            members@.len() <= fields@.len(),
            read_fields(given, expected, members@.len() as int) == Some(member_trees(members@)),
        decreases fields.len() - members.len(),
    {
        let at: usize = members.len();
        let ghost before = member_trees(members@);
        proof {
            assert(decreases_to!(form => fields));
            assert(decreases_to!(fields => fields@));
            assert(decreases_to!(fields@ => fields@[at as int]));
            assert(decreases_to!(fields@[at as int] => fields@[at as int].1));
            assert(expected[at as int] == (fields@[at as int].0@, fields@[at as int].1@));
            assert(given[at as int] == match values@[at as int] {
                Some(value) => Some(value@),
                None => None,
            });
        }
        let item = match &values[at] {
            Some(value) => read_by(value.as_str(), &fields[at].1),
            None => Some(Json::Null),
        };
        match item {
            Some(item) => {
                let ghost tree = item@;
                members.push((fields[at].0.clone(), item));
                assert(member_trees(members@) =~= before.push((expected[at as int].0, tree)));
            },
            None => {
                proof {
                    assert(read_fields(given, expected, at + 1) is None);
                    lemma_read_fields_fails(given, expected, at + 1, expected.len() as int);
                }
                return None;
            },
        }
    }
    let json = Json::Object(members);
    assert(json@->Object_0 =~= member_trees(members@));
    Some(json)
}

/// The texts behind a list of string slices.
pub open spec fn slices(list: Seq<&str>) -> Seq<Seq<char>> {
    Seq::new(list.len(), |k: int| list[k]@)
}

/// A section of values under these keys.
pub fn section_with(keys: &[&str]) -> (form: Form)
    ensures
        form@ == plain_section(slices(keys@)),
{
    let mut fields: Vec<(String, Form)> = Vec::new();
    while fields.len() < keys.len()
        invariant
            fields@.len() <= keys@.len(),
            forall|k: int|
                0 <= k < fields@.len() ==> (#[trigger] fields@[k]).0@ == keys@[k]@ && fields@[k].1
                    == Form::Value,
        decreases keys.len() - fields.len(),
    {
        fields.push((keys[fields.len()].to_owned(), Form::Value));
    }
    let form = Form::Section(fields);
    assert(form@->Section_0 =~= Seq::new(
        keys@.len(),
        |k: int| (slices(keys@)[k], FormView::Value),
    ));
    form
}

// ---------------------------------------------------------------------------
// Laws
// ---------------------------------------------------------------------------
/// The keys of some fields are all different.
pub open spec fn distinct_keys(fields: Seq<(Seq<char>, FormView)>) -> bool {
    forall|i: int, j: int|
        0 <= i < j < fields.len() ==> (#[trigger] fields[i]).0 != (#[trigger] fields[j]).0
}

/// A key that is expected and stands twice costs the whole section, and so does
/// an array with more items than there are fields.
pub proof fn law_what_cannot_be_told_apart_is_not_read(
    value: Seq<char>,
    fields: Seq<(Seq<char>, FormView)>,
)
    ensures
        outlined(value) matches OutlineView::Object(members) ==> repeats(members, keys_of(fields))
            ==> read_as(value, FormView::Section(fields)) is None,
        outlined(value) matches OutlineView::Array(items) ==> items.len() > fields.len()
            ==> read_as(value, FormView::Section(fields)) is None,
{
}

/// An array says of a section what an object says that holds the same values
/// under the keys of the first fields.
pub proof fn law_an_array_states_its_fields_by_place(
    array: Seq<char>,
    object: Seq<char>,
    items: Seq<Seq<char>>,
    fields: Seq<(Seq<char>, FormView)>,
)
    requires
        distinct_keys(fields),
        items.len() <= fields.len(),
        outlined(array) == OutlineView::Array(items),
        outlined(object) == OutlineView::Object(
            Seq::new(items.len(), |i: int| (fields[i].0, items[i])),
        ),
    ensures
        read_as(array, FormView::Section(fields)) == read_as(object, FormView::Section(fields)),
{
    let members = Seq::new(items.len(), |i: int| (fields[i].0, items[i]));
    let keys = keys_of(fields);
    assert(!repeats(members, keys)) by {
        if repeats(members, keys) {
            let (i, j, k) = choose|i: int, j: int, k: int|
                0 <= i < j < members.len() && 0 <= k < keys.len() && (#[trigger] members[i]).0
                    == #[trigger] keys[k] && (#[trigger] members[j]).0 == keys[k];
            assert(fields[i].0 == fields[j].0);
        }
    }
    assert forall|k: int| 0 <= k < keys.len() implies (#[trigger] text_under(members, keys[k], 0))
        == if k < items.len() {
        Some(items[k])
    } else {
        None
    } by {
        lemma_placed(members, fields, items, k, 0);
    }
    assert(assigned(OutlineView::Array(items), keys)->Some_0 =~= assigned(
        OutlineView::Object(members),
        keys,
    )->Some_0);
}

proof fn lemma_placed(
    members: Seq<(Seq<char>, Seq<char>)>,
    fields: Seq<(Seq<char>, FormView)>,
    items: Seq<Seq<char>>,
    k: int,
    from: int,
)
    requires
        distinct_keys(fields),
        items.len() <= fields.len(),
        members == Seq::new(items.len(), |i: int| (fields[i].0, items[i])),
        0 <= k < fields.len(),
        0 <= from <= members.len(),
    ensures
        text_under(members, fields[k].0, from) == if from <= k < items.len() {
            Some(items[k])
        } else {
            None
        },
    decreases members.len() - from,
{
    if from < members.len() {
        assert(members[from].0 == fields[from].0);
        if from != k {
            assert(fields[from].0 != fields[k].0);
        }
        lemma_placed(members, fields, items, k, from + 1);
    }
}

/// Only the expected keys count: two objects that hold the same under them, and
/// none of them twice, are read as the same.
pub proof fn law_only_expected_keys_count(
    a: Seq<char>,
    b: Seq<char>,
    left: Seq<(Seq<char>, Seq<char>)>,
    right: Seq<(Seq<char>, Seq<char>)>,
    fields: Seq<(Seq<char>, FormView)>,
)
    requires
        outlined(a) == OutlineView::Object(left),
        outlined(b) == OutlineView::Object(right),
        !repeats(left, keys_of(fields)),
        !repeats(right, keys_of(fields)),
        forall|k: int|
            0 <= k < fields.len() ==> text_under(left, (#[trigger] fields[k]).0, 0) == text_under(
                right,
                fields[k].0,
                0,
            ),
    ensures
        read_as(a, FormView::Section(fields)) == read_as(b, FormView::Section(fields)),
{
    let keys = keys_of(fields);
    assert forall|k: int| 0 <= k < keys.len() implies #[trigger] text_under(left, keys[k], 0)
        == text_under(right, keys[k], 0) by {
        assert(keys[k] == fields[k].0);
    }
    assert(assigned(OutlineView::Object(left), keys)->Some_0 =~= assigned(
        OutlineView::Object(right),
        keys,
    )->Some_0);
}

/// A bad value costs only itself: whatever is written for a field that is read
/// as a whole, or under a key that nobody expects, the section is read all the
/// same, and what stands under every other key stays.
pub proof fn law_a_bad_value_costs_only_itself(
    section: Seq<char>,
    spoiled: Seq<char>,
    members: Seq<(Seq<char>, Seq<char>)>,
    at: int,
    value: Seq<char>,
    fields: Seq<(Seq<char>, FormView)>,
    key: Seq<char>,
)
    requires
        0 <= at < members.len(),
        outlined(section) == OutlineView::Object(members),
        outlined(spoiled) == OutlineView::Object(members.update(at, (members[at].0, value))),
        forall|k: int|
            0 <= k < fields.len() && (#[trigger] fields[k]).0 == members[at].0 ==> fields[k].1
                is Value,
        key != members[at].0,
    ensures
        read_as(section, FormView::Section(fields)) is Some <==> read_as(
            spoiled,
            FormView::Section(fields),
        ) is Some,
        read_as(section, FormView::Section(fields)) matches Some(before) ==> read_as(
            spoiled,
            FormView::Section(fields),
        )->Some_0.field(key) == before.field(key),
{
    let keys = keys_of(fields);
    let changed = members.update(at, (members[at].0, value));
    assert forall|i: int| 0 <= i < members.len() implies (#[trigger] changed[i]).0
        == members[i].0 by {}
    assert(repeats(members, keys) == repeats(changed, keys)) by {
        if repeats(members, keys) {
            let (i, j, k) = choose|i: int, j: int, k: int|
                0 <= i < j < members.len() && 0 <= k < keys.len() && (#[trigger] members[i]).0
                    == #[trigger] keys[k] && (#[trigger] members[j]).0 == keys[k];
            assert(changed[i].0 == keys[k] && changed[j].0 == keys[k]);
        }
        if repeats(changed, keys) {
            let (i, j, k) = choose|i: int, j: int, k: int|
                0 <= i < j < changed.len() && 0 <= k < keys.len() && (#[trigger] changed[i]).0
                    == #[trigger] keys[k] && (#[trigger] changed[j]).0 == keys[k];
            assert(members[i].0 == keys[k] && members[j].0 == keys[k]);
        }
    }
    if !repeats(members, keys) {
        let a = assigned(OutlineView::Object(members), keys)->Some_0;
        let b = assigned(OutlineView::Object(changed), keys)->Some_0;
        assert forall|k: int| 0 <= k < fields.len() && fields[k].0 != members[at].0 implies (
        #[trigger] a[k]) == b[k] by {
            lemma_other_text(members, at, value, fields[k].0, 0);
        }
        lemma_other_fields(a, b, fields, members[at].0, fields.len() as int);
        if read_as(section, FormView::Section(fields)) is Some {
            let n = fields.len() as int;
            lemma_other_field(
                read_fields(a, fields, n)->Some_0,
                read_fields(b, fields, n)->Some_0,
                members[at].0,
                key,
                0,
            );
        }
    }
}

proof fn lemma_other_text(
    members: Seq<(Seq<char>, Seq<char>)>,
    at: int,
    value: Seq<char>,
    key: Seq<char>,
    from: int,
)
    requires
        0 <= at < members.len(),
        members[at].0 != key,
        0 <= from <= members.len(),
    ensures
        text_under(members.update(at, (members[at].0, value)), key, from) == text_under(
            members,
            key,
            from,
        ),
    decreases members.len() - from,
{
    if from < members.len() {
        lemma_other_text(members, at, value, key, from + 1);
    }
}

/// Two members under one key, that are the same unless the key is `spoiled`.
pub open spec fn same_but(
    a: Seq<(Seq<char>, Tree)>,
    b: Seq<(Seq<char>, Tree)>,
    spoiled: Seq<char>,
) -> bool {
    &&& a.len() == b.len()
    &&& forall|i: int|
        0 <= i < a.len() ==> (#[trigger] a[i]).0 == b[i].0 && (a[i].0 != spoiled ==> a[i] == b[i])
}

proof fn lemma_other_fields(
    a: Seq<Option<Seq<char>>>,
    b: Seq<Option<Seq<char>>>,
    fields: Seq<(Seq<char>, FormView)>,
    spoiled: Seq<char>,
    n: int,
)
    requires
        0 <= n <= fields.len(),
        a.len() == fields.len(),
        b.len() == fields.len(),
        forall|k: int|
            0 <= k < fields.len() && (#[trigger] fields[k]).0 == spoiled ==> fields[k].1 is Value,
        forall|k: int| 0 <= k < fields.len() && fields[k].0 != spoiled ==> (#[trigger] a[k]) == b[k],
    ensures
        match read_fields(a, fields, n) {
            Some(left) => read_fields(b, fields, n) matches Some(right) && same_but(
                left,
                right,
                spoiled,
            ),
            None => read_fields(b, fields, n) is None,
        },
    decreases n,
{
    if n > 0 {
        lemma_other_fields(a, b, fields, spoiled, n - 1);
        if fields[n - 1].0 != spoiled {
            assert(a[n - 1] == b[n - 1]);
        } else {
            assert(fields[n - 1].1 is Value);
            assert(read_as(a[n - 1]->Some_0, fields[n - 1].1) is Some);
            assert(read_as(b[n - 1]->Some_0, fields[n - 1].1) is Some);
        }
    }
}

proof fn lemma_other_field(
    a: Seq<(Seq<char>, Tree)>,
    b: Seq<(Seq<char>, Tree)>,
    spoiled: Seq<char>,
    key: Seq<char>,
    from: int,
)
    requires
        same_but(a, b, spoiled),
        key != spoiled,
        0 <= from <= a.len(),
    ensures
        member_from(a, key, from) == member_from(b, key, from),
    decreases a.len() - from,
{
    if from < a.len() {
        lemma_other_field(a, b, spoiled, key, from + 1);
    }
}

} // verus!
