//! JSON documents as plain values.
//!
//! `Json` holds a document; `JsonTree` is what it means: an object is a map from keys to values.
//! Text is read and written by `serde_json`, reached through the trusted items of this module.

use vstd::prelude::*;

use crate::text::{decimal, decimal_text, is_white, same_text, trimmed, views};

verus! {

/// What a JSON document means.
pub enum JsonTree {
    Null,
    Bool(bool),
    /// A number: its value where it is a 64-bit signed integer, and how it is written.
    Number(Option<i64>, Seq<char>),
    Text(Seq<char>),
    List(Seq<JsonTree>),
    Object(Map<Seq<char>, JsonTree>),
}

/// A number of a document: its value where it is a 64-bit signed integer, and how it is written.
#[derive(Debug)]
pub struct JsonNumber {
    pub integer: Option<i64>,
    pub literal: String,
}

/// A JSON document. Of two entries of an object with the same key the later one counts.
#[derive(Debug)]
pub enum Json {
    Null,
    Bool(bool),
    Number(JsonNumber),
    Text(String),
    List(Vec<Json>),
    Object(Vec<(String, Json)>),
}

impl Json {
    pub open spec fn tree(self) -> JsonTree
        decreases self,
    {
        match self {
            Json::Null => JsonTree::Null,
            Json::Bool(b) => JsonTree::Bool(b),
            Json::Number(n) => JsonTree::Number(n.integer, n.literal@),
            Json::Text(text) => JsonTree::Text(text@),
            Json::List(items) => JsonTree::List(trees(items@)),
            Json::Object(entries) => JsonTree::Object(entry_map(entries@)),
        }
    }
}

impl View for Json {
    type V = JsonTree;

    open spec fn view(&self) -> JsonTree {
        self.tree()
    }
}

/// What each of the documents means.
pub open spec fn trees(items: Seq<Json>) -> Seq<JsonTree>
    decreases items,
{
    if items.len() == 0 {
        seq![]
    } else {
        trees(items.drop_last()).push(items.last().tree())
    }
}

/// The map that the entries of an object stand for.
pub open spec fn entry_map(entries: Seq<(String, Json)>) -> Map<Seq<char>, JsonTree>
    decreases entries,
{
    if entries.len() == 0 {
        Map::empty()
    } else {
        entry_map(entries.drop_last()).insert(entries.last().0@, entries.last().1.tree())
    }
}

/// The value that an object holds under `key`; nothing for any other document.
pub open spec fn member_of(tree: JsonTree, key: Seq<char>) -> Option<JsonTree> {
    match tree {
        JsonTree::Object(members) => if members.contains_key(key) {
            Some(members[key])
        } else {
            None
        },
        _ => None,
    }
}

/// The text of a document that is a string.
pub open spec fn text_of(tree: JsonTree) -> Option<Seq<char>> {
    match tree {
        JsonTree::Text(text) => Some(text),
        _ => None,
    }
}

/// The text that an object holds under `key`, where it is a string.
pub open spec fn text_member(tree: JsonTree, key: Seq<char>) -> Option<Seq<char>> {
    match member_of(tree, key) {
        Some(value) => text_of(value),
        None => None,
    }
}

/// The object `tree` with `value` under `key`.
pub open spec fn with_member(tree: JsonTree, key: Seq<char>, value: JsonTree) -> JsonTree {
    match tree {
        JsonTree::Object(members) => JsonTree::Object(members.insert(key, value)),
        _ => tree,
    }
}

pub proof fn lemma_trees(items: Seq<Json>)
    ensures
        trees(items).len() == items.len(),
        forall|i: int| 0 <= i < items.len() ==> trees(items)[i] == #[trigger] items[i].tree(),
    decreases items.len(),
{
    if items.len() > 0 {
        lemma_trees(items.drop_last());
        assert forall|i: int| 0 <= i < items.len() implies trees(items)[i]
            == #[trigger] items[i].tree() by {
            if i < items.len() - 1 {
                assert(items[i] == items.drop_last()[i]);
                assert(trees(items.drop_last())[i] == items.drop_last()[i].tree());
            }
        }
    }
}

/// Entries after position `at` that hold another key do not change what is found under `key`.
proof fn lemma_entry_map_suffix(entries: Seq<(String, Json)>, at: int, key: Seq<char>)
    requires
        0 <= at <= entries.len(),
        forall|j: int| at <= j < entries.len() ==> (#[trigger] entries[j]).0@ != key,
    ensures
        entry_map(entries).contains_key(key) == entry_map(entries.take(at)).contains_key(key),
        entry_map(entries.take(at)).contains_key(key) ==> entry_map(entries)[key] == entry_map(
            entries.take(at),
        )[key],
    decreases entries.len() - at,
{
    if at < entries.len() {
        let rest = entries.drop_last();
        assert(entries.last() == entries[entries.len() - 1]);
        lemma_entry_map_suffix(rest, at, key);
        assert(rest.take(at) =~= entries.take(at));
    } else {
        assert(entries.take(at) =~= entries);
    }
}

/// Putting a new value in the last entry of `key` gives the map with that value under `key`.
proof fn lemma_entry_map_update(
    entries: Seq<(String, Json)>,
    at: int,
    entry: (String, Json),
)
    requires
        0 <= at < entries.len(),
        entries[at].0@ == entry.0@,
        forall|j: int| at < j < entries.len() ==> (#[trigger] entries[j]).0@ != entry.0@,
    ensures
        entry_map(entries.update(at, entry)) == entry_map(entries).insert(
            entry.0@,
            entry.1.tree(),
        ),
    decreases entries.len() - at,
{
    let updated = entries.update(at, entry);
    if at == entries.len() - 1 {
        assert(updated.drop_last() =~= entries.drop_last());
        assert(entry_map(updated) =~= entry_map(entries).insert(entry.0@, entry.1.tree()));
    } else {
        let rest = entries.drop_last();
        let last = entries.last();
        assert(last == entries[entries.len() - 1]);
        lemma_entry_map_update(rest, at, entry);
        assert(updated.drop_last() =~= rest.update(at, entry));
        assert(updated.last() == last);
        assert(entry_map(updated) =~= entry_map(entries).insert(entry.0@, entry.1.tree()));
    }
}

/// The position of the last entry under `key`.
fn find_entry(entries: &Vec<(String, Json)>, key: &str) -> (at: Option<usize>)
    ensures
        match at {
            Some(at) => {
                &&& at < entries@.len()
                &&& entries@[at as int].0@ == key@
                &&& forall|j: int| at < j < entries@.len() ==> (#[trigger] entries@[j]).0@ != key@
                &&& entry_map(entries@).contains_key(key@)
                &&& entry_map(entries@)[key@] == entries@[at as int].1.tree()
            },
            None => {
                &&& forall|j: int| 0 <= j < entries@.len() ==> (#[trigger] entries@[j]).0@ != key@
                &&& !entry_map(entries@).contains_key(key@)
            },
        },
{
    let mut i: usize = entries.len();
    while i > 0
        invariant
            i <= entries@.len(),
            forall|j: int| i <= j < entries@.len() ==> (#[trigger] entries@[j]).0@ != key@,
        decreases i,
    {
        i -= 1;
        if same_text(entries[i].0.as_str(), key) {
            proof {
                lemma_entry_map_suffix(entries@, i + 1, key@);
                assert(entries@.take(i + 1).drop_last() =~= entries@.take(i as int));
            }
            return Some(i);
        }
    }
    proof {
        lemma_entry_map_suffix(entries@, 0, key@);
        assert(entries@.take(0) =~= Seq::<(String, Json)>::empty());
    }
    None
}

/// What stands under `key` among the entries of an object.
pub fn get_entry<'a>(entries: &'a Vec<(String, Json)>, key: &str) -> (value: Option<&'a Json>)
    ensures
        match value {
            Some(value) => entry_map(entries@).contains_key(key@) && value@ == entry_map(
                entries@,
            )[key@],
            None => !entry_map(entries@).contains_key(key@),
        },
{
    match find_entry(entries, key) {
        Some(at) => Some(&entries[at].1),
        None => None,
    }
}

/// Puts `value` under `key`, in place of what stood there.
pub fn set_entry(entries: &mut Vec<(String, Json)>, key: String, value: Json)
    ensures
        entry_map(final(entries)@) == entry_map(old(entries)@).insert(key@, value@),
{
    match find_entry(&*entries, key.as_str()) {
        Some(at) => {
            proof {
                lemma_entry_map_update(entries@, at as int, (key, value));
            }
            entries.set(at, (key, value));
        },
        None => {
            let ghost before = entries@;
            entries.push((key, value));
            assert(entries@.drop_last() =~= before);
        },
    }
}

/// Without the entry at `at`, the map is the same but under that entry's key.
proof fn lemma_entry_map_remove(entries: Seq<(String, Json)>, at: int, value: JsonTree)
    requires
        0 <= at < entries.len(),
    ensures
        entry_map(entries.remove(at)).insert(entries[at].0@, value) == entry_map(entries).insert(
            entries[at].0@,
            value,
        ),
    decreases entries.len(),
{
    let key = entries[at].0@;
    let rest = entries.drop_last();
    let last = entries.last();
    let removed = entries.remove(at);
    if at == entries.len() - 1 {
        assert(removed =~= rest);
        assert(entry_map(removed).insert(key, value) =~= entry_map(entries).insert(key, value));
    } else {
        assert(rest[at] == entries[at]);
        lemma_entry_map_remove(rest, at, value);
        assert(removed.drop_last() =~= rest.remove(at));
        assert(removed.last() == last);
        let a = entry_map(rest.remove(at));
        let b = entry_map(rest);
        let v = last.1.tree();
        assert(a.insert(key, value) == b.insert(key, value));
        let x = a.insert(last.0@, v).insert(key, value);
        let y = b.insert(last.0@, v).insert(key, value);
        assert forall|k: Seq<char>|
            #![trigger x.dom().contains(k)]
            x.dom().contains(k) == y.dom().contains(k) && x[k] == y[k] by {
            if k != key && k != last.0@ {
                assert(a.insert(key, value).dom().contains(k) == b.insert(key, value).dom().contains(
                    k,
                ));
                assert(a.insert(key, value)[k] == b.insert(key, value)[k]);
                assert(x[k] == a[k] && y[k] == b[k]);
            }
        }
        assert(x =~= y);
    }
}

/// Takes out what stands under `key`, to be put back changed.
pub fn take_entry(entries: &mut Vec<(String, Json)>, key: &str) -> (value: Option<Json>)
    ensures
        match value {
            Some(value) => {
                &&& entry_map(old(entries)@).contains_key(key@)
                &&& value@ == entry_map(old(entries)@)[key@]
                &&& forall|other: JsonTree|
                    #![trigger entry_map(final(entries)@).insert(key@, other)]
                    entry_map(final(entries)@).insert(key@, other) == entry_map(
                        old(entries)@,
                    ).insert(key@, other)
            },
            None => !entry_map(old(entries)@).contains_key(key@) && final(entries)@ == old(
                entries,
            )@,
        },
{
    match find_entry(&*entries, key) {
        Some(at) => {
            let ghost before = entries@;
            let (_, value) = entries.remove(at);
            proof {
                assert forall|other: JsonTree|
                    #![trigger entry_map(entries@).insert(key@, other)]
                    entry_map(entries@).insert(key@, other) == entry_map(before).insert(
                        key@,
                        other,
                    ) by {
                    lemma_entry_map_remove(before, at as int, other);
                }
            }
            Some(value)
        },
        None => None,
    }
}

impl Json {
    /// The value that an object holds under `key`.
    pub fn get(&self, key: &str) -> (value: Option<&Json>)
        ensures
            match value {
                Some(value) => member_of(self@, key@) == Some(value@),
                None => member_of(self@, key@) is None,
            },
    {
        match self {
            Json::Object(entries) => get_entry(entries, key),
            _ => None,
        }
    }

    /// The text of a string.
    pub fn as_str(&self) -> (text: Option<&str>)
        ensures
            match text {
                Some(text) => text_of(self@) == Some(text@),
                None => text_of(self@) is None,
            },
    {
        match self {
            Json::Text(text) => Some(text.as_str()),
            _ => None,
        }
    }

    /// The text that an object holds under `key`, where it is a string.
    pub fn get_str(&self, key: &str) -> (text: Option<&str>)
        ensures
            match text {
                Some(text) => text_member(self@, key@) == Some(text@),
                None => text_member(self@, key@) is None,
            },
    {
        match self.get(key) {
            Some(value) => value.as_str(),
            None => None,
        }
    }
}

/// A list of texts.
pub open spec fn text_list(texts: Seq<Seq<char>>) -> JsonTree {
    JsonTree::List(texts.map_values(|text: Seq<char>| JsonTree::Text(text)))
}

/// The document that is a list of the texts.
pub fn list_of_texts(texts: Vec<String>) -> (list: Json)
    ensures
        list@ == text_list(views(texts@)),
{
    let ghost all = texts@;
    let mut values: Vec<Json> = Vec::new();
    for text in it: texts
        invariant
            it.seq() == all,
            values@.len() == it.index(),
            forall|j: int|
                0 <= j < it.index() ==> #[trigger] values@[j].tree() == JsonTree::Text(all[j]@),
    {
        values.push(Json::Text(text));
    }
    proof {
        lemma_trees(values@);
        let wanted = views(all).map_values(|text: Seq<char>| JsonTree::Text(text));
        assert forall|j: int| 0 <= j < all.len() implies #[trigger] trees(values@)[j]
            == wanted[j] by {
            assert(values@[j].tree() == JsonTree::Text(all[j]@));
        }
        assert(trees(values@) =~= wanted);
    }
    Json::List(values)
}

#[verifier::external_type_specification]
#[verifier::external_body]
pub struct ExValue(serde_json::Value);

/// The document that `serde_json::from_str` reads from a text.
pub uninterp spec fn parsed_json(text: Seq<char>) -> Option<JsonTree>;

/// The text that `serde_json::to_string` writes for a document.
pub uninterp spec fn compact_json(tree: JsonTree) -> Seq<char>;

/// The text that `serde_json::to_string_pretty` writes for a document.
pub uninterp spec fn pretty_json(tree: JsonTree) -> Seq<char>;

/// What a `serde_json::Value` holds.
pub uninterp spec fn value_tree(value: serde_json::Value) -> JsonTree;

/// Whether every number in `tree` is written as `serde_json` writes it.
pub open spec fn numbers_canonical(tree: JsonTree) -> bool
    decreases tree,
{
    match tree {
        JsonTree::Number(_, literal) => parsed_json(literal) == Some(tree),
        JsonTree::List(items) => forall|i: int|
            0 <= i < items.len() ==> numbers_canonical(#[trigger] items[i]),
        JsonTree::Object(members) => forall|key: Seq<char>|
            #[trigger] members.contains_key(key) ==> numbers_canonical(members[key]),
        _ => true,
    }
}

/// Whether lists and objects are nested in `tree` at most `levels` deep.
pub open spec fn within_levels(tree: JsonTree, levels: nat) -> bool
    decreases levels,
{
    match tree {
        JsonTree::List(items) => levels > 0 && forall|i: int|
            0 <= i < items.len() ==> within_levels(#[trigger] items[i], (levels - 1) as nat),
        JsonTree::Object(members) => levels > 0 && forall|key: Seq<char>|
            #[trigger] members.contains_key(key) ==> within_levels(
                members[key],
                (levels - 1) as nat,
            ),
        _ => true,
    }
}

/// The nesting up to which `serde_json` reads a text.
pub open spec fn max_levels() -> nat {
    127
}

/// Whether `tree` is a document that survives being written and read again.
pub open spec fn reads_back(tree: JsonTree) -> bool {
    numbers_canonical(tree) && within_levels(tree, max_levels())
}

/// A list of texts can be read back, in any place of a document but the deepest.
pub proof fn lemma_text_list_reads_back(texts: Seq<Seq<char>>)
    ensures
        numbers_canonical(text_list(texts)),
        within_levels(text_list(texts), 126),
{
    let values = text_list(texts)->List_0;
    assert forall|i: int| 0 <= i < values.len() implies numbers_canonical(#[trigger] values[i])
        && within_levels(values[i], 125) by {
        assert(values[i] == JsonTree::Text(texts[i]));
    }
}

/// One layer of a `serde_json::Value`.
pub enum Layer {
    Null,
    Bool(bool),
    Number(Option<i64>, String),
    Text(String),
    List(Vec<serde_json::Value>),
    Object(Vec<(String, serde_json::Value)>),
}

pub open spec fn value_map(entries: Seq<(String, serde_json::Value)>) -> Map<Seq<char>, JsonTree>
    decreases entries.len(),
{
    if entries.len() == 0 {
        Map::empty()
    } else {
        value_map(entries.drop_last()).insert(entries.last().0@, value_tree(entries.last().1))
    }
}

/// Whether no two of the members have the same key.
pub open spec fn distinct_keys(entries: Seq<(String, serde_json::Value)>) -> bool {
    forall|i: int, j: int|
        0 <= i < j < entries.len() ==> (#[trigger] entries[i]).0@ != (#[trigger] entries[j]).0@
}

impl Layer {
    pub open spec fn tree(self) -> JsonTree {
        match self {
            Layer::Null => JsonTree::Null,
            Layer::Bool(b) => JsonTree::Bool(b),
            Layer::Number(integer, literal) => JsonTree::Number(integer, literal@),
            Layer::Text(text) => JsonTree::Text(text@),
            Layer::List(items) => JsonTree::List(
                items@.map_values(|item: serde_json::Value| value_tree(item)),
            ),
            Layer::Object(entries) => JsonTree::Object(value_map(entries@)),
        }
    }
}

/// `serde_json::from_str` reads a JSON document. The same text always gives the same document or
/// the same refusal. A document that was read has its numbers as `serde_json` writes them and is
/// nested at most as deep as the reader goes; an object is read only from text whose first
/// character other than white space is an opening brace; white space around a document that was read
/// makes no difference to it; and the decimal digits of a 64-bit signed integer are read as that
/// integer.
#[verifier::external_body]
fn read_value(text: &str) -> (value: Option<serde_json::Value>)
    ensures
        match value {
            Some(value) => parsed_json(text@) == Some(value_tree(value)),
            None => parsed_json(text@) is None,
        },
        value matches Some(value) ==> reads_back(value_tree(value)),
        value matches Some(value) && value_tree(value) is Object ==> trimmed(text@).len() > 0
            && trimmed(text@)[0] == '{',
        value matches Some(value) ==> parsed_json(trimmed(text@)) == Some(value_tree(value)),
        forall|n: i64|
            n >= 0 && text@ == #[trigger] decimal(n as nat) ==> (value matches Some(value)
                && value_tree(value) == JsonTree::Number(Some(n), text@)),
{
    serde_json::from_str::<serde_json::Value>(text).ok()
}

/// `serde_json::to_string` writes a document on one line: it escapes control characters, and
/// white space stands only inside strings. It succeeds for every `serde_json::Value`, since all
/// keys are strings. What it writes is read back as the same document, where the document's
/// numbers are as `serde_json` writes them and its nesting is one that the reader accepts; of
/// numbers with a fraction or an exponent this holds with the feature `float_roundtrip`.
#[verifier::external_body]
fn write_value(value: &serde_json::Value) -> (text: Result<String, String>)
    ensures
        text is Ok,
        text matches Ok(text) ==> {
            &&& text@ == compact_json(value_tree(*value))
            &&& reads_back(value_tree(*value)) ==> parsed_json(text@) == Some(value_tree(*value))
            &&& text@.len() > 0
            &&& !is_white(text@[0])
            &&& !is_white(text@.last())
            &&& forall|i: int| 0 <= i < text@.len() ==> text@[i] != '\n' && text@[i] != '\r'
        },
{
    serde_json::to_string(value).map_err(|error| error.to_string())
}

/// `serde_json::to_string_pretty` writes a document with line breaks and indentation. It succeeds
/// for every `serde_json::Value`, and what it writes is read back under the same conditions as
/// what `serde_json::to_string` writes, also with a line feed after it: white space at the end is
/// passed over.
#[verifier::external_body]
fn write_value_pretty(value: &serde_json::Value) -> (text: Result<String, String>)
    ensures
        text is Ok,
        text matches Ok(text) ==> {
            &&& text@ == pretty_json(value_tree(*value))
            &&& reads_back(value_tree(*value)) ==> parsed_json(text@) == Some(value_tree(*value))
            &&& reads_back(value_tree(*value)) ==> parsed_json(text@ + seq!['\n']) == Some(
                value_tree(*value),
            )
        },
{
    serde_json::to_string_pretty(value).map_err(|error| error.to_string())
}

/// Takes a `serde_json::Value` apart: the enum's variants one for one. A number gives
/// `Number::as_i64` and the text that `Display` writes for it; no two members of an object have
/// the same key.
#[verifier::external_body]
fn open_value(value: serde_json::Value) -> (layer: Layer)
    ensures
        layer.tree() == value_tree(value),
        layer matches Layer::Object(members) ==> distinct_keys(members@),
{
    match value {
        serde_json::Value::Null => Layer::Null,
        serde_json::Value::Bool(b) => Layer::Bool(b),
        serde_json::Value::Number(n) => Layer::Number(n.as_i64(), n.to_string()),
        serde_json::Value::String(text) => Layer::Text(text),
        serde_json::Value::Array(items) => Layer::List(items),
        serde_json::Value::Object(members) => Layer::Object(members.into_iter().collect()),
    }
}

/// Puts a `serde_json::Value` together: the enum's variants one for one. A number is read from its
/// text; the members of an object are collected, and no two of them may have the same key.
#[verifier::external_body]
fn close_value(layer: Layer) -> (value: serde_json::Value)
    requires
        layer matches Layer::Number(_, literal) ==> parsed_json(literal@) == Some(layer.tree()),
        layer matches Layer::Object(members) ==> distinct_keys(members@),
    ensures
        value_tree(value) == layer.tree(),
{
    match layer {
        Layer::Null => serde_json::Value::Null,
        Layer::Bool(b) => serde_json::Value::Bool(b),
        Layer::Number(_, literal) => serde_json::from_str(literal.as_str()).unwrap_or_default(),
        Layer::Text(text) => serde_json::Value::String(text),
        Layer::List(items) => serde_json::Value::Array(items),
        Layer::Object(members) => serde_json::Value::Object(members.into_iter().collect()),
    }
}

proof fn lemma_value_map_take(entries: Seq<(String, serde_json::Value)>, n: int)
    requires
        0 <= n < entries.len(),
    ensures
        value_map(entries.take(n + 1)) == value_map(entries.take(n)).insert(
            entries[n].0@,
            value_tree(entries[n].1),
        ),
{
    assert(entries.take(n + 1).drop_last() =~= entries.take(n));
}

proof fn lemma_value_map_finite(entries: Seq<(String, serde_json::Value)>)
    ensures
        value_map(entries).dom().finite(),
    decreases entries.len(),
{
    if entries.len() > 0 {
        lemma_value_map_finite(entries.drop_last());
    }
}

proof fn lemma_value_map_member(entries: Seq<(String, serde_json::Value)>, n: int)
    requires
        0 <= n < entries.len(),
        distinct_keys(entries),
    ensures
        value_map(entries).contains_key(entries[n].0@),
        value_map(entries)[entries[n].0@] == value_tree(entries[n].1),
    decreases entries.len(),
{
    let rest = entries.drop_last();
    if n < rest.len() {
        assert(rest[n] == entries[n]);
        assert forall|i: int, j: int| 0 <= i < j < rest.len() implies (#[trigger] rest[i]).0@ != (
        #[trigger] rest[j]).0@ by {
            assert(rest[i] == entries[i] && rest[j] == entries[j]);
        }
        assert(entries.last() == entries[entries.len() - 1]);
        lemma_value_map_member(rest, n);
    }
}

/// Whether no entry after position `at` has the key of the entry there.
spec fn last_of_key(entries: Seq<(String, Json)>, at: int) -> bool {
    &&& 0 <= at < entries.len()
    &&& forall|j: int| at < j < entries.len() ==> (#[trigger] entries[j]).0@ != entries[at].0@
}

/// Whether an entry before position `end` has the key `key` and is the last that has it.
spec fn is_passed(entries: Seq<(String, Json)>, end: int, key: Seq<char>) -> bool {
    exists|j: int| #[trigger] last_of_key(entries, j) && j < end && entries[j].0@ == key
}

proof fn lemma_last_of_key(entries: Seq<(String, Json)>, key: Seq<char>) -> (at: int)
    requires
        entry_map(entries).contains_key(key),
    ensures
        last_of_key(entries, at),
        entries[at].0@ == key,
    decreases entries.len(),
{
    let last = entries.len() - 1;
    if entries[last].0@ == key {
        last
    } else {
        let rest = entries.drop_last();
        let at = lemma_last_of_key(rest, key);
        assert forall|j: int| at < j < entries.len() implies (#[trigger] entries[j]).0@
            != entries[at].0@ by {
            if j < last {
                assert(rest[j] == entries[j]);
            }
        }
        at
    }
}

/// The document that `value` holds.
fn json_of_value(value: serde_json::Value) -> (json: Json)
    ensures
        json@ == value_tree(value),
    decreases value_tree(value),
{
    match open_value(value) {
        Layer::Null => Json::Null,
        Layer::Bool(b) => Json::Bool(b),
        Layer::Number(integer, literal) => Json::Number(JsonNumber { integer, literal }),
        Layer::Text(text) => Json::Text(text),
        Layer::List(items) => {
            let ghost all = items@;
            let mut list: Vec<Json> = Vec::new();
            for item in it: items
                invariant
                    it.seq() == all,
                    value_tree(value) == JsonTree::List(
                        all.map_values(|item: serde_json::Value| value_tree(item)),
                    ),
                    list@.len() == it.index(),
                    forall|j: int| 0 <= j < it.index() ==> #[trigger] list@[j].tree() == value_tree(all[j]),
            {
                assert(value_tree(item) == value_tree(value)->List_0[it.index() as int]);
                list.push(json_of_value(item));
            }
            proof {
                lemma_trees(list@);
                assert forall|j: int| 0 <= j < all.len() implies trees(list@)[j] == value_tree(
                    #[trigger] all[j],
                ) by {
                    assert(list@[j].tree() == value_tree(all[j]));
                }
                assert(trees(list@) =~= all.map_values(|item: serde_json::Value| value_tree(item)));
            }
            Json::List(list)
        },
        Layer::Object(members) => {
            let ghost all = members@;
            let mut entries: Vec<(String, Json)> = Vec::new();
            for member in it: members
                invariant
                    it.seq() == all,
                    value_tree(value) == JsonTree::Object(value_map(all)),
                    distinct_keys(all),
                    entry_map(entries@) == value_map(all.take(it.index() as int)),
            {
                proof {
                    lemma_value_map_take(all, it.index() as int);
                    lemma_value_map_member(all, it.index() as int);
                    lemma_value_map_finite(all);
                    let members = value_tree(value)->Object_0;
                    assert(decreases_to!(value_tree(value) => members));
                    assert(decreases_to!(members => members[member.0@]));
                }
                let (key, item) = member;
                let json = json_of_value(item);
                let ghost before = entries@;
                entries.push((key, json));
                assert(entries@.drop_last() =~= before);
            }
            assert(all.take(all.len() as int) =~= all);
            Json::Object(entries)
        },
    }
}

/// Reads a JSON document.
pub fn parse_json(text: &str) -> (json: Option<Json>)
    ensures
        match json {
            Some(json) => parsed_json(text@) == Some(json@),
            None => parsed_json(text@) is None,
        },
        json matches Some(json) ==> reads_back(json@),
        json matches Some(json) && json@ is Object ==> trimmed(text@).len() > 0 && trimmed(
            text@,
        )[0] == '{',
        json matches Some(json) ==> parsed_json(trimmed(text@)) == Some(json@),
        forall|n: i64|
            n >= 0 && text@ == #[trigger] decimal(n as nat) ==> (json matches Some(json) && json@
                == JsonTree::Number(Some(n), text@)),
{
    match read_value(text) {
        Some(value) => Some(json_of_value(value)),
        None => None,
    }
}

/// The document that is the number `n`.
pub fn number_json(n: u32) -> (json: Json)
    ensures
        json@ == JsonTree::Number(Some(n as i64), decimal(n as nat)),
        numbers_canonical(json@),
{
    let literal = decimal_text(n as u64);
    proof {
        let whole = n as i64;
        assert(literal@ == decimal(whole as nat));
    }
    match parse_json(literal.as_str()) {
        Some(json) => json,
        None => Json::Null,
    }
}

fn value_of_number(number: &JsonNumber) -> (value: Option<serde_json::Value>)
    ensures
        match value {
            Some(value) => {
                let tree = JsonTree::Number(number.integer, number.literal@);
                value_tree(value) == tree && parsed_json(number.literal@) == Some(tree)
            },
            None => parsed_json(number.literal@) != Some(
                JsonTree::Number(number.integer, number.literal@),
            ),
        },
{
    match parse_json(number.literal.as_str()) {
        Some(Json::Number(read)) => {
            let same_integer = match (read.integer, number.integer) {
                (Some(a), Some(b)) => a == b,
                (None, None) => true,
                _ => false,
            };
            if same_integer && same_text(read.literal.as_str(), number.literal.as_str()) {
                Some(close_value(Layer::Number(read.integer, read.literal)))
            } else {
                None
            }
        },
        _ => None,
    }
}

/// The `serde_json::Value` that holds `json`.
fn value_of(json: &Json) -> (value: Option<serde_json::Value>)
    ensures
        match value {
            Some(value) => value_tree(value) == json@ && numbers_canonical(json@),
            None => !numbers_canonical(json@),
        },
    decreases json,
{
    match json {
        Json::Null => Some(close_value(Layer::Null)),
        Json::Bool(b) => Some(close_value(Layer::Bool(*b))),
        Json::Number(number) => value_of_number(number),
        Json::Text(text) => Some(close_value(Layer::Text(text.clone()))),
        Json::List(items) => {
            let mut values: Vec<serde_json::Value> = Vec::new();
            let mut i: usize = 0;
            proof {
                lemma_trees(items@);
            }
            while i < items.len()
                invariant
                    i <= items@.len(),
                    json@ == JsonTree::List(trees(items@)),
                    *json == Json::List(*items),
                    trees(items@).len() == items@.len(),
                    forall|j: int| 0 <= j < items@.len() ==> trees(items@)[j] == #[trigger] items@[j].tree(),
                    values@.len() == i,
                    forall|j: int| 0 <= j < i ==> value_tree(#[trigger] values@[j]) == trees(items@)[j],
                    forall|j: int| 0 <= j < i ==> numbers_canonical(#[trigger] trees(items@)[j]),
                decreases items@.len() - i,
            {
                assert(trees(items@)[i as int] == items@[i as int].tree());
                match value_of(&items[i]) {
                    Some(value) => values.push(value),
                    None => {
                        proof {
                            let all = json@->List_0;
                            assert(!numbers_canonical(all[i as int]));
                        }
                        return None;
                    },
                }
                i += 1;
            }
            let ghost all = values@.map_values(|item: serde_json::Value| value_tree(item));
            assert(all =~= trees(items@));
            Some(close_value(Layer::List(values)))
        },
        Json::Object(entries) => {
            let mut members: Vec<(String, serde_json::Value)> = Vec::new();
            let mut i: usize = 0;
            while i < entries.len()
                invariant
                    i <= entries@.len(),
                    json@ == JsonTree::Object(entry_map(entries@)),
                    *json == Json::Object(*entries),
                    forall|key: Seq<char>|
                        #![trigger value_map(members@).contains_key(key)]
                        value_map(members@).contains_key(key) ==> {
                            &&& entry_map(entries@).contains_key(key)
                            &&& value_map(members@)[key] == entry_map(entries@)[key]
                            &&& numbers_canonical(entry_map(entries@)[key])
                        },
                    forall|j: int|
                        0 <= j < i && last_of_key(entries@, j) ==> value_map(
                            members@,
                        ).contains_key(#[trigger] entries@[j].0@),
                    distinct_keys(members@),
                    forall|m: int|
                        0 <= m < members@.len() ==> is_passed(
                            entries@,
                            i as int,
                            (#[trigger] members@[m]).0@,
                        ),
                decreases entries@.len() - i,
            {
                let last = match find_entry(entries, entries[i].0.as_str()) {
                    Some(at) => at == i,
                    None => false,
                };
                if last {
                    match value_of(&entries[i].1) {
                        Some(value) => {
                            let ghost before = members@;
                            members.push((entries[i].0.clone(), value));
                            proof {
                                let key = entries@[i as int].0@;
                                let all = entry_map(entries@);
                                assert(members@.drop_last() =~= before);
                                assert(value_map(members@) == value_map(before).insert(
                                    key,
                                    all[key],
                                ));
                                assert forall|k: Seq<char>| #[trigger]
                                    value_map(members@).contains_key(
                                        k,
                                    ) implies all.contains_key(k) && value_map(members@)[k]
                                    == all[k] && numbers_canonical(all[k]) by {
                                    if k != key {
                                        assert(value_map(before).contains_key(k));
                                    }
                                }
                                assert(last_of_key(entries@, i as int));
                                assert(is_passed(entries@, i + 1, key));
                                assert forall|m: int| 0 <= m < before.len() implies (
                                #[trigger] members@[m]).0@ != key by {
                                    assert(members@[m] == before[m]);
                                }
                            }
                        },
                        None => {
                            proof {
                                let all = json@->Object_0;
                                assert(all.contains_key(entries@[i as int].0@));
                                assert(!numbers_canonical(all[entries@[i as int].0@]));
                            }
                            return None;
                        },
                    }
                }
                assert forall|m: int| 0 <= m < members@.len() implies is_passed(
                    entries@,
                    i + 1,
                    (#[trigger] members@[m]).0@,
                ) by {
                    let key = members@[m].0@;
                    if is_passed(entries@, i as int, key) {
                        let j = choose|j: int|
                            #[trigger] last_of_key(entries@, j) && j < i && entries@[j].0@ == key;
                        assert(last_of_key(entries@, j));
                    }
                }
                i += 1;
            }
            proof {
                assert forall|key: Seq<char>| entry_map(entries@).contains_key(key) implies value_map(
                    members@,
                ).contains_key(key) by {
                    let j = lemma_last_of_key(entries@, key);
                    assert(value_map(members@).contains_key(entries@[j].0@));
                }
                assert(value_map(members@) =~= entry_map(entries@));
            }
            Some(close_value(Layer::Object(members)))
        },
    }
}

/// Writes `json` on one line. It fails only where a number is not written as JSON writes it.
pub fn render_json(json: &Json) -> (text: Result<String, String>)
    ensures
        text is Ok <==> numbers_canonical(json@),
        text matches Ok(text) ==> {
            &&& text@ == compact_json(json@)
            &&& reads_back(json@) ==> parsed_json(text@) == Some(json@)
            &&& text@.len() > 0
            &&& !is_white(text@[0])
            &&& !is_white(text@.last())
            &&& forall|i: int| 0 <= i < text@.len() ==> text@[i] != '\n' && text@[i] != '\r'
        },
        text matches Err(error) ==> error@ == "invalid number"@,
{
    match value_of(json) {
        Some(value) => write_value(&value),
        None => Err("invalid number".to_owned()),
    }
}

/// Writes `json` with line breaks and indentation. It fails only where a number is not written as
/// JSON writes it.
pub fn render_json_pretty(json: &Json) -> (text: Result<String, String>)
    ensures
        text is Ok <==> numbers_canonical(json@),
        text matches Ok(text) ==> {
            &&& text@ == pretty_json(json@)
            &&& reads_back(json@) ==> parsed_json(text@) == Some(json@)
            &&& reads_back(json@) ==> parsed_json(text@ + seq!['\n']) == Some(json@)
        },
        text matches Err(error) ==> error@ == "invalid number"@,
{
    match value_of(json) {
        Some(value) => write_value_pretty(&value),
        None => Err("invalid number".to_owned()),
    }
}

/// An object with a new value under a key has that value there, and all others as they were.
pub proof fn new_member_leaves_the_others(
    tree: JsonTree,
    key: Seq<char>,
    value: JsonTree,
    other: Seq<char>,
)
    requires
        tree is Object,
    ensures
        with_member(tree, key, value) is Object,
        member_of(with_member(tree, key, value), key) == Some(value),
        other != key ==> member_of(with_member(tree, key, value), other) == member_of(tree, other),
{
}

/// Of two entries of an object with one key the later one counts.
pub proof fn later_entry_counts(
    entries: Seq<(String, Json)>,
    key: String,
    value: Json,
    other: Seq<char>,
)
    ensures
        entry_map(Seq::empty()) == Map::<Seq<char>, JsonTree>::empty(),
        entry_map(entries.push((key, value)))[key@] == value@,
        entry_map(entries.push((key, value))).contains_key(key@),
        other != key@ ==> entry_map(entries.push((key, value))).contains_key(other) == entry_map(
            entries,
        ).contains_key(other) && entry_map(entries.push((key, value)))[other] == entry_map(
            entries,
        )[other],
{
    assert(entries.push((key, value)).drop_last() =~= entries);
    assert(entries.push((key, value)).last() == (key, value));
}

} // verus!
