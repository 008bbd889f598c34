//! JSON values that the library can look into.
//!
//! `serde_json` reads and writes JSON text; its `Value` is opaque here. A
//! [`Json`] holds the same value in plain parts, and the conversions in both
//! directions are proved to keep what the value holds.

use vstd::prelude::*;
use vstd::string::*;

use crate::text;

verus! {

/// The numbers of `serde_json`, carried without a look inside.
#[verifier::external_type_specification]
#[verifier::external_body]
pub struct ExNumber(serde_json::Number);

/// The values of `serde_json`; what one holds is named by [`value_view`].
#[verifier::external_type_specification]
#[verifier::external_body]
pub struct ExValue(serde_json::Value);

/// `serde_json::Number::clone` hands back an equal number.
pub assume_specification[ <serde_json::Number as Clone>::clone ](n: &serde_json::Number) -> (r:
    serde_json::Number)
    ensures
        r == *n,
;

// ---------------------------------------------------------------------------
// Model
// ---------------------------------------------------------------------------

/// A number with a fraction or an exponent, carried as `serde_json` read it.
///
/// It is only ever made from a number that is neither a `u64` nor an `i64`.
#[derive(Debug, PartialEq)]
pub struct JsonFloat {
    number: serde_json::Number,
}

#[derive(Debug, PartialEq)]
pub enum JsonNumber {
    Unsigned(u64),
    Signed(i64),
    Float(JsonFloat),
}

/// A JSON value.
#[derive(Debug, PartialEq)]
pub enum Json {
    Null,
    Bool(bool),
    Number(JsonNumber),
    Text(String),
    Array(Vec<Json>),
    Object(JsonMap),
}

/// The members of a JSON object. Of two entries with one key the later counts.
#[derive(Debug, PartialEq)]
pub struct JsonMap {
    pub entries: Vec<(String, Json)>,
}

/// What a JSON number is: an integer, or a number carried as it was read.
pub enum NumberView {
    Integer(int),
    Float(JsonFloat),
}

/// What a JSON value is.
pub enum JsonView {
    Null,
    Bool(bool),
    Number(NumberView),
    Text(Seq<char>),
    Array(Seq<JsonView>),
    Object(Map<Seq<char>, JsonView>),
}

impl View for JsonNumber {
    type V = NumberView;

    open spec fn view(&self) -> NumberView {
        match *self {
            JsonNumber::Unsigned(n) => NumberView::Integer(n as int),
            JsonNumber::Signed(n) => NumberView::Integer(n as int),
            JsonNumber::Float(f) => NumberView::Float(f),
        }
    }
}

pub open spec fn json_view(j: Json) -> JsonView
    decreases j,
{
    match j {
        Json::Null => JsonView::Null,
        Json::Bool(b) => JsonView::Bool(b),
        Json::Number(n) => JsonView::Number(n@),
        Json::Text(s) => JsonView::Text(s@),
        Json::Array(items) => JsonView::Array(items_view(items@)),
        Json::Object(map) => JsonView::Object(entries_view(map.entries@)),
    }
}

/// The views of a row of values.
pub open spec fn items_view(items: Seq<Json>) -> Seq<JsonView>
    decreases items,
{
    if items.len() == 0 {
        Seq::empty()
    } else {
        items_view(items.drop_last()).push(json_view(items.last()))
    }
}

/// The map that a row of entries makes, the later of two equal keys counting.
pub open spec fn entries_view(entries: Seq<(String, Json)>) -> Map<Seq<char>, JsonView>
    decreases entries,
{
    if entries.len() == 0 {
        Map::empty()
    } else {
        entries_view(entries.drop_last()).insert(entries.last().0@, json_view(entries.last().1))
    }
}

impl View for Json {
    type V = JsonView;

    open spec fn view(&self) -> JsonView {
        json_view(*self)
    }
}

impl View for JsonMap {
    type V = Map<Seq<char>, JsonView>;

    open spec fn view(&self) -> Map<Seq<char>, JsonView> {
        entries_view(self.entries@)
    }
}

impl JsonView {
    /// The member `key` of an object.
    pub open spec fn get(self, key: Seq<char>) -> Option<JsonView> {
        match self {
            JsonView::Object(m) => if m.contains_key(key) {
                Some(m[key])
            } else {
                None
            },
            _ => None,
        }
    }

    pub open spec fn text(self) -> Option<Seq<char>> {
        match self {
            JsonView::Text(s) => Some(s),
            _ => None,
        }
    }

    /// An integer from 0 to 2^64 - 1.
    pub open spec fn unsigned(self) -> Option<u64> {
        match self {
            JsonView::Number(NumberView::Integer(n)) => if 0 <= n <= u64::MAX {
                Some(n as u64)
            } else {
                None
            },
            _ => None,
        }
    }

    /// The member `key` of an object, where it is a text.
    pub open spec fn get_text(self, key: Seq<char>) -> Option<Seq<char>> {
        match self.get(key) {
            Some(v) => v.text(),
            None => None,
        }
    }

    /// The member `key` of an object, where it is an integer from 0 to 2^64 - 1.
    pub open spec fn get_unsigned(self, key: Seq<char>) -> Option<u64> {
        match self.get(key) {
            Some(v) => v.unsigned(),
            None => None,
        }
    }
}

pub proof fn lemma_items_view(items: Seq<Json>)
    ensures
        items_view(items).len() == items.len(),
        forall|i: int| 0 <= i < items.len() ==> items_view(items)[i] == json_view(#[trigger] items[i]),
    decreases items.len(),
{
    if items.len() > 0 {
        let rest = items.drop_last();
        lemma_items_view(rest);
        assert forall|i: int| 0 <= i < items.len() implies items_view(items)[i] == json_view(
            #[trigger] items[i],
        ) by {
            if i < rest.len() {
                assert(rest[i] == items[i]);
            }
        }
    }
}

pub proof fn lemma_items_push(items: Seq<Json>, item: Json)
    ensures
        items_view(items.push(item)) == items_view(items).push(json_view(item)),
{
    assert(items.push(item).drop_last() =~= items);
}

pub proof fn lemma_entries_push(entries: Seq<(String, Json)>, entry: (String, Json))
    ensures
        entries_view(entries.push(entry)) == entries_view(entries).insert(
            entry.0@,
            json_view(entry.1),
        ),
{
    assert(entries.push(entry).drop_last() =~= entries);
}

pub proof fn lemma_entries_finite(entries: Seq<(String, Json)>)
    ensures
        entries_view(entries).dom().finite(),
    decreases entries.len(),
{
    if entries.len() > 0 {
        lemma_entries_finite(entries.drop_last());
    }
}

// ---------------------------------------------------------------------------
// Values
// ---------------------------------------------------------------------------

impl Clone for JsonNumber {
    fn clone(&self) -> (r: JsonNumber)
        ensures
            r@ == self@,
    {
        match self {
            JsonNumber::Unsigned(n) => JsonNumber::Unsigned(*n),
            JsonNumber::Signed(n) => JsonNumber::Signed(*n),
            JsonNumber::Float(f) => JsonNumber::Float(JsonFloat { number: f.number.clone() }),
        }
    }
}

impl JsonNumber {
    pub fn as_u64(&self) -> (r: Option<u64>)
        ensures
            r == JsonView::Number(self@).unsigned(),
    {
        match self {
            JsonNumber::Unsigned(n) => Some(*n),
            JsonNumber::Signed(n) => if *n >= 0 {
                Some(*n as u64)
            } else {
                None
            },
            JsonNumber::Float(_) => None,
        }
    }
}

impl JsonMap {
    pub fn new() -> (r: JsonMap)
        ensures
            r@ == Map::<Seq<char>, JsonView>::empty(),
    {
        JsonMap { entries: Vec::new() }
    }

    /// Set the member `key`.
    pub fn insert(&mut self, key: String, value: Json)
        ensures
            final(self)@ == old(self)@.insert(key@, value@),
    {
        proof {
            lemma_entries_push(self.entries@, (key, value));
        }
        self.entries.push((key, value));
    }

    /// The member `key`.
    pub fn get(&self, key: &str) -> (r: Option<&Json>)
        ensures
            match r {
                Some(j) => self@.contains_key(key@) && j@ == self@[key@],
                None => !self@.contains_key(key@),
            },
    {
        let mut i: usize = self.entries.len();
        assert(self.entries@.take(i as int) =~= self.entries@);
        while i > 0
            invariant
                i <= self.entries@.len(),
                self@.contains_key(key@) == entries_view(self.entries@.take(i as int)).contains_key(
                    key@,
                ),
                self@.contains_key(key@) ==> self@[key@] == entries_view(
                    self.entries@.take(i as int),
                )[key@],
            decreases i,
        {
            let ghost t = self.entries@.take(i as int);
            assert(t.last() == self.entries@[i - 1]);
            assert(t.drop_last() =~= self.entries@.take(i - 1));
            i = i - 1;
            if text::same(self.entries[i].0.as_str(), key) {
                return Some(&self.entries[i].1);
            }
        }
        None
    }

    /// Drop the member `key`.
    pub fn without(&self, key: &str) -> (r: JsonMap)
        ensures
            r@ == self@.remove(key@),
    {
        let mut out = JsonMap::new();
        let mut i: usize = 0;
        assert(out@ =~= Map::<Seq<char>, JsonView>::empty().remove(key@));
        assert(entries_view(self.entries@.take(0)) == Map::<Seq<char>, JsonView>::empty());
        while i < self.entries.len()
            invariant
                i <= self.entries@.len(),
                out@ == entries_view(self.entries@.take(i as int)).remove(key@),
            decreases self.entries@.len() - i,
        {
            let ghost t = self.entries@.take(i + 1);
            assert(t.last() == self.entries@[i as int]);
            assert(t.drop_last() =~= self.entries@.take(i as int));
            let name = &self.entries[i].0;
            if !text::same(name.as_str(), key) {
                out.insert(name.clone(), self.entries[i].1.clone());
            }
            assert(out@ =~= entries_view(t).remove(key@));
            i = i + 1;
        }
        assert(self.entries@.take(i as int) =~= self.entries@);
        out
    }
}

impl JsonMap {
    /// Set every member of `other`.
    pub fn extend(&mut self, other: &JsonMap)
        ensures
            final(self)@ == old(self)@.union_prefer_right(other@),
    {
        let mut i: usize = 0;
        let ghost start = self@;
        assert(entries_view(other.entries@.take(0)) == Map::<Seq<char>, JsonView>::empty());
        assert(start =~= start.union_prefer_right(Map::empty()));
        while i < other.entries.len()
            invariant
                i <= other.entries@.len(),
                self@ == start.union_prefer_right(entries_view(other.entries@.take(i as int))),
            decreases other.entries@.len() - i,
        {
            let ghost t = other.entries@.take(i + 1);
            assert(t.last() == other.entries@[i as int]);
            assert(t.drop_last() =~= other.entries@.take(i as int));
            self.insert(other.entries[i].0.clone(), other.entries[i].1.clone());
            assert(self@ =~= start.union_prefer_right(entries_view(t)));
            i = i + 1;
        }
        assert(other.entries@.take(i as int) =~= other.entries@);
    }
}

impl Clone for JsonMap {
    fn clone(&self) -> (r: JsonMap)
        ensures
            r@ == self@,
        decreases self,
    {
        let mut out = JsonMap::new();
        let mut i: usize = 0;
        assert(entries_view(self.entries@.take(0)) == Map::<Seq<char>, JsonView>::empty());
        while i < self.entries.len()
            invariant
                i <= self.entries@.len(),
                out@ == entries_view(self.entries@.take(i as int)),
            decreases self.entries@.len() - i,
        {
            let ghost t = self.entries@.take(i + 1);
            assert(t.last() == self.entries@[i as int]);
            assert(t.drop_last() =~= self.entries@.take(i as int));
            out.insert(self.entries[i].0.clone(), self.entries[i].1.clone());
            i = i + 1;
        }
        assert(self.entries@.take(i as int) =~= self.entries@);
        out
    }
}

impl Json {
    /// The member `key`, where this is an object that has it.
    pub fn get(&self, key: &str) -> (r: Option<&Json>)
        ensures
            match r {
                Some(j) => self@.get(key@) == Some(j@),
                None => self@.get(key@) is None,
            },
    {
        match self {
            Json::Object(map) => map.get(key),
            _ => None,
        }
    }

    pub fn as_str(&self) -> (r: Option<&str>)
        ensures
            match r {
                Some(s) => self@.text() == Some(s@),
                None => self@.text() is None,
            },
    {
        match self {
            Json::Text(s) => Some(s.as_str()),
            _ => None,
        }
    }

    pub fn as_u64(&self) -> (r: Option<u64>)
        ensures
            r == self@.unsigned(),
    {
        match self {
            Json::Number(n) => n.as_u64(),
            _ => None,
        }
    }

    /// The member `key`, where it is a text.
    pub fn get_str(&self, key: &str) -> (r: Option<&str>)
        ensures
            match r {
                Some(s) => self@.get_text(key@) == Some(s@),
                None => self@.get_text(key@) is None,
            },
    {
        match self.get(key) {
            Some(v) => v.as_str(),
            None => None,
        }
    }

    /// The member `key`, where it is an integer from 0 to 2^64 - 1.
    pub fn get_u64(&self, key: &str) -> (r: Option<u64>)
        ensures
            r == self@.get_unsigned(key@),
    {
        match self.get(key) {
            Some(v) => v.as_u64(),
            None => None,
        }
    }

    pub fn object(m: JsonMap) -> (r: Json)
        ensures
            r@ == JsonView::Object(m@),
    {
        Json::Object(m)
    }

    pub fn text(s: &str) -> (r: Json)
        ensures
            r@ == JsonView::Text(s@),
    {
        Json::Text(s.to_owned())
    }
}

impl Clone for Json {
    fn clone(&self) -> (r: Json)
        ensures
            r@ == self@,
        decreases self,
    {
        match self {
            Json::Null => Json::Null,
            Json::Bool(b) => Json::Bool(*b),
            Json::Number(n) => Json::Number(n.clone()),
            Json::Text(s) => Json::Text(s.clone()),
            Json::Array(items) => {
                let mut out: Vec<Json> = Vec::new();
                let mut i: usize = 0;
                while i < items.len()
                    invariant
                        i <= items@.len(),
                        items_view(out@) == items_view(items@.take(i as int)),
                        self == Json::Array(*items),
                    decreases items@.len() - i,
                {
                    let ghost t = items@.take(i + 1);
                    assert(t.last() == items@[i as int]);
                    assert(t.drop_last() =~= items@.take(i as int));
                    assert(decreases_to!(self => self->Array_0@[i as int]));
                    let item = items[i].clone();
                    proof {
                        lemma_items_push(out@, item);
                    }
                    out.push(item);
                    i = i + 1;
                }
                assert(items@.take(i as int) =~= items@);
                Json::Array(out)
            },
            Json::Object(map) => Json::Object(map.clone()),
        }
    }
}

// ---------------------------------------------------------------------------
// serde_json
// ---------------------------------------------------------------------------

/// What a `serde_json::Value` holds.
pub uninterp spec fn value_view(v: serde_json::Value) -> JsonView;

/// What `serde_json::from_str` makes of a text: the value, or the message of
/// its error.
pub uninterp spec fn json_parse(text: Seq<char>) -> Result<JsonView, Seq<char>>;

/// What `serde_json::from_slice` makes of bytes: the value, or the message of
/// its error.
pub uninterp spec fn json_parse_bytes(bytes: Seq<u8>) -> Result<JsonView, Seq<char>>;

/// What `serde_json::to_string` makes of a value: its text, or the message of
/// its error.
pub uninterp spec fn json_text(value: JsonView) -> Result<Seq<char>, Seq<char>>;

/// The outermost layer of a value, with the values inside it still opaque.
enum Node<'a> {
    Null,
    Bool(bool),
    Number(JsonNumber),
    Text(&'a str),
    Array(Vec<&'a serde_json::Value>),
    Object(Vec<(&'a String, &'a serde_json::Value)>),
}

/// The outermost layer of a value, with the values inside it owned.
enum OwnedNode {
    Null,
    Bool(bool),
    Number(JsonNumber),
    Text(String),
    Array(Vec<serde_json::Value>),
    Object(Vec<(String, serde_json::Value)>),
}

spec fn value_items(items: Seq<serde_json::Value>) -> Seq<JsonView> {
    items.map_values(|v: serde_json::Value| value_view(v))
}

/// Whether no two entries have one key.
spec fn owned_keys_distinct(entries: Seq<(String, serde_json::Value)>) -> bool {
    forall|i: int, j: int|
        0 <= i < j < entries.len() ==> #[trigger] entries[i].0@ != #[trigger] entries[j].0@
}

/// The map that a row of entries with distinct keys makes.
spec fn value_entries(entries: Seq<(String, serde_json::Value)>) -> Map<Seq<char>, JsonView>
    decreases entries.len(),
{
    if entries.len() == 0 {
        Map::empty()
    } else {
        value_entries(entries.drop_last()).insert(
            entries.last().0@,
            value_view(entries.last().1),
        )
    }
}

proof fn lemma_value_keys(entries: Seq<(String, serde_json::Value)>)
    ensures
        forall|i: int|
            0 <= i < entries.len() ==> value_entries(entries).contains_key(
                (#[trigger] entries[i]).0@,
            ),
        forall|k: Seq<char>| #[trigger]
            value_entries(entries).contains_key(k) ==> exists|i: int|
                0 <= i < entries.len() && (#[trigger] entries[i]).0@ == k,
    decreases entries.len(),
{
    if entries.len() > 0 {
        let rest = entries.drop_last();
        lemma_value_keys(rest);
        assert forall|i: int| 0 <= i < entries.len() implies value_entries(entries).contains_key(
            (#[trigger] entries[i]).0@,
        ) by {
            if i < rest.len() {
                assert(rest[i] == entries[i]);
            }
        }
        assert forall|k: Seq<char>| #[trigger] value_entries(entries).contains_key(k) implies exists|
            i: int,
        | 0 <= i < entries.len() && (#[trigger] entries[i]).0@ == k by {
            if value_entries(rest).contains_key(k) {
                let i = choose|i: int| 0 <= i < rest.len() && (#[trigger] rest[i]).0@ == k;
                assert(entries[i].0@ == k);
            } else {
                assert(entries[entries.len() - 1].0@ == k);
            }
        }
    }
}

/// Whether an entry from `from` on has the key `k`.
spec fn key_from(entries: Seq<(String, Json)>, from: int, k: Seq<char>) -> bool {
    exists|j: int| from <= j < entries.len() && (#[trigger] entries[j]).0@ == k
}

proof fn lemma_entry_keys(entries: Seq<(String, Json)>)
    ensures
        forall|k: Seq<char>| #[trigger]
            entries_view(entries).contains_key(k) <==> key_from(entries, 0, k),
    decreases entries.len(),
{
    if entries.len() > 0 {
        let rest = entries.drop_last();
        lemma_entry_keys(rest);
        assert forall|k: Seq<char>| #[trigger] entries_view(entries).contains_key(k)
            <==> key_from(entries, 0, k) by {
            assert(entries_view(rest).contains_key(k) <==> key_from(rest, 0, k));
            if entries_view(entries).contains_key(k) {
                if k == entries.last().0@ {
                    assert(entries[entries.len() - 1].0@ == k);
                } else {
                    let j = choose|j: int| 0 <= j < rest.len() && (#[trigger] rest[j]).0@ == k;
                    assert(entries[j].0@ == k);
                }
            }
            if key_from(entries, 0, k) {
                let j = choose|j: int| 0 <= j < entries.len() && (#[trigger] entries[j]).0@ == k;
                if j < rest.len() {
                    assert(rest[j].0@ == k);
                }
            }
        }
    }
}

/// An entry that no later one overrides counts.
proof fn lemma_last_counts(entries: Seq<(String, Json)>, i: int)
    requires
        0 <= i < entries.len(),
        !key_from(entries, i + 1, entries[i].0@),
    ensures
        entries_view(entries).contains_key(entries[i].0@),
        entries_view(entries)[entries[i].0@] == json_view(entries[i].1),
    decreases entries.len(),
{
    let rest = entries.drop_last();
    if i < rest.len() {
        let k = entries[i].0@;
        assert(entries[entries.len() - 1].0@ != k);
        if key_from(rest, i + 1, k) {
            let j = choose|j: int| i + 1 <= j < rest.len() && (#[trigger] rest[j]).0@ == k;
            assert(entries[j].0@ == k);
        }
        lemma_last_counts(rest, i);
    }
}

fn has_key(entries: &Vec<(String, serde_json::Value)>, key: &str) -> (r: bool)
    ensures
        r == value_entries(entries@).contains_key(key@),
{
    proof {
        lemma_value_keys(entries@);
    }
    let mut i: usize = 0;
    while i < entries.len()
        invariant
            i <= entries@.len(),
            forall|j: int| 0 <= j < i ==> (#[trigger] entries@[j]).0@ != key@,
        decreases entries@.len() - i,
    {
        if text::same(entries[i].0.as_str(), key) {
            proof {
                lemma_value_keys(entries@);
                assert(entries@[i as int].0@ == key@);
            }
            return true;
        }
        i = i + 1;
    }
    false
}

spec fn owned_node_view(n: OwnedNode) -> JsonView {
    match n {
        OwnedNode::Null => JsonView::Null,
        OwnedNode::Bool(b) => JsonView::Bool(b),
        OwnedNode::Number(n) => JsonView::Number(n@),
        OwnedNode::Text(s) => JsonView::Text(s@),
        OwnedNode::Array(items) => JsonView::Array(value_items(items@)),
        OwnedNode::Object(entries) => JsonView::Object(value_entries(entries@)),
    }
}

spec fn keys_distinct(entries: Seq<(&String, &serde_json::Value)>) -> bool {
    forall|i: int, j: int| 0 <= i < j < entries.len() ==> #[trigger] entries[i].0@ != #[trigger] entries[j].0@
}

/// Whether `n` is the outermost layer of a value with the view `v`. The
/// members of an object have distinct keys, and are all there are.
spec fn node_of(n: Node, v: JsonView) -> bool {
    match n {
        Node::Null => v == JsonView::Null,
        Node::Bool(b) => v == JsonView::Bool(b),
        Node::Number(n) => v == JsonView::Number(n@),
        Node::Text(s) => v == JsonView::Text(s@),
        Node::Array(items) => v matches JsonView::Array(s) && s.len() == items@.len() && forall|
            i: int,
        | 0 <= i < s.len() ==> s[i] == value_view(*#[trigger] items@[i]),
        Node::Object(entries) => v matches JsonView::Object(m) && m.dom().finite() && keys_distinct(
            entries@,
        ) && (forall|i: int|
            0 <= i < entries@.len() ==> m.contains_key((#[trigger] entries@[i]).0@)
                && m[entries@[i].0@] == value_view(*entries@[i].1)) && (forall|k: Seq<char>|
            m.contains_key(k) ==> exists|i: int|
                0 <= i < entries@.len() && (#[trigger] entries@[i]).0@ == k),
    }
}

/// Matches on the variants of `serde_json::Value`. Of a number
/// `Number::as_u64` and `Number::as_i64` tell whether it is held as a `u64`,
/// as an `i64` or with a fraction; the entries of its map have distinct keys.
#[verifier::external_body]
fn open_value<'a>(v: &'a serde_json::Value) -> (n: Node<'a>)
    ensures
        node_of(n, value_view(*v)),
{
    match v {
        serde_json::Value::Null => Node::Null,
        serde_json::Value::Bool(b) => Node::Bool(*b),
        serde_json::Value::Number(n) => Node::Number(match (n.as_u64(), n.as_i64()) {
            (Some(u), _) => JsonNumber::Unsigned(u),
            (None, Some(i)) => JsonNumber::Signed(i),
            (None, None) => JsonNumber::Float(JsonFloat { number: n.clone() }),
        }),
        serde_json::Value::String(s) => Node::Text(s),
        serde_json::Value::Array(items) => Node::Array(items.iter().collect()),
        serde_json::Value::Object(map) => Node::Object(map.iter().collect()),
    }
}

/// Builds the variant of `serde_json::Value`. Collecting entries with distinct
/// keys into its map keeps them all; `Number::from` keeps an integer.
#[verifier::external_body]
fn close_node(n: OwnedNode) -> (v: serde_json::Value)
    requires
        n matches OwnedNode::Object(entries) ==> owned_keys_distinct(entries@),
    ensures
        value_view(v) == owned_node_view(n),
{
    match n {
        OwnedNode::Null => serde_json::Value::Null,
        OwnedNode::Bool(b) => serde_json::Value::Bool(b),
        OwnedNode::Number(JsonNumber::Unsigned(n)) => serde_json::Value::Number(n.into()),
        OwnedNode::Number(JsonNumber::Signed(n)) => serde_json::Value::Number(n.into()),
        OwnedNode::Number(JsonNumber::Float(f)) => serde_json::Value::Number(f.number),
        OwnedNode::Text(s) => serde_json::Value::String(s),
        OwnedNode::Array(items) => serde_json::Value::Array(items),
        OwnedNode::Object(entries) => serde_json::Value::Object(entries.into_iter().collect()),
    }
}

/// `serde_json::from_str`, its result named by [`json_parse`].
#[verifier::external_body]
fn parse_value(text: &str) -> (r: Result<serde_json::Value, String>)
    ensures
        match r {
            Ok(v) => json_parse(text@) == Ok::<JsonView, Seq<char>>(value_view(v)),
            Err(message) => json_parse(text@) == Err::<JsonView, Seq<char>>(message@),
        },
{
    serde_json::from_str(text).map_err(|e| e.to_string())
}

/// `serde_json::from_slice`, its result named by [`json_parse_bytes`].
#[verifier::external_body]
fn parse_value_bytes(bytes: &[u8]) -> (r: Result<serde_json::Value, String>)
    ensures
        match r {
            Ok(v) => json_parse_bytes(bytes@) == Ok::<JsonView, Seq<char>>(value_view(v)),
            Err(message) => json_parse_bytes(bytes@) == Err::<JsonView, Seq<char>>(message@),
        },
{
    serde_json::from_slice(bytes).map_err(|e| e.to_string())
}

/// Whether a value holds only what is read back exactly as it was written: no
/// number with a fraction, no member whose name begins with a dollar sign, and
/// no arrays and objects nested more deeply than the given depth.
pub open spec fn exact(v: JsonView, depth: nat) -> bool
    decreases depth,
{
    match v {
        JsonView::Number(NumberView::Integer(n)) => i64::MIN <= n <= u64::MAX,
        JsonView::Number(NumberView::Float(_)) => false,
        JsonView::Array(items) => depth > 0 && forall|i: int|
            0 <= i < items.len() ==> exact(#[trigger] items[i], (depth - 1) as nat),
        JsonView::Object(m) => depth > 0 && forall|k: Seq<char>| #[trigger]
            m.contains_key(k) ==> !(k.len() > 0 && k[0] == '$') && exact(
                m[k],
                (depth - 1) as nat,
            ),
        _ => true,
    }
}

/// The depth of nesting up to which a text that was written can be read.
pub const READABLE_DEPTH: u32 = 100;

/// What holds of the text of a value: it has no control character, and it
/// spells the value where that is [`exact`].
pub open spec fn spells(text: Seq<char>, v: JsonView) -> bool {
    &&& forall|i: int| 0 <= i < text.len() ==> (#[trigger] text[i]) as u32 >= 0x20
    &&& exact(v, READABLE_DEPTH as nat) ==> json_parse(text) == Ok::<JsonView, Seq<char>>(v)
}

/// `serde_json::to_string`, its result named by [`json_text`]. The compact
/// text holds no control character below U+0020: in a string they are escaped.
/// `serde_json::from_str` reads it back as the value that was written, with the
/// exceptions that [`exact`] leaves out: the reader need not hit the same
/// fraction, it takes a name reserved by `serde_json`, which begins with a
/// dollar sign, for something else, and it stops at a depth of 128.
#[verifier::external_body]
fn write_value(v: &serde_json::Value) -> (r: Result<String, String>)
    ensures
        match r {
            Ok(text) => json_text(value_view(*v)) == Ok::<Seq<char>, Seq<char>>(text@) && spells(
                text@,
                value_view(*v),
            ),
            Err(message) => json_text(value_view(*v)) == Err::<Seq<char>, Seq<char>>(message@),
        },
{
    serde_json::to_string(v).map_err(|e| e.to_string())
}

impl Json {
    /// The same value in plain parts.
    pub fn from_value(v: &serde_json::Value) -> (r: Json)
        ensures
            r@ == value_view(*v),
        decreases value_view(*v),
    {
        match open_value(v) {
            Node::Null => Json::Null,
            Node::Bool(b) => Json::Bool(b),
            Node::Number(n) => Json::Number(n),
            Node::Text(s) => Json::Text(s.to_owned()),
            Node::Array(items) => {
                let ghost all = value_view(*v)->Array_0;
                let mut out: Vec<Json> = Vec::new();
                let mut i: usize = 0;
                while i < items.len()
                    invariant
                        i <= items@.len(),
                        all.len() == items@.len(),
                        value_view(*v) == JsonView::Array(all),
                        forall|j: int| 0 <= j < all.len() ==> all[j] == value_view(
                            *#[trigger] items@[j],
                        ),
                        items_view(out@) == all.take(i as int),
                    decreases items@.len() - i,
                {
                    assert(all[i as int] == value_view(*items@[i as int]));
                    assert(decreases_to!(value_view(*v) => value_view(*v)->Array_0[i as int]));
                    let item = Json::from_value(items[i]);
                    proof {
                        lemma_items_push(out@, item);
                        assert(all.take(i as int).push(all[i as int]) =~= all.take(i + 1));
                    }
                    out.push(item);
                    i = i + 1;
                }
                assert(all.take(i as int) =~= all);
                Json::Array(out)
            },
            Node::Object(entries) => {
                let ghost all = value_view(*v)->Object_0;
                let mut out = JsonMap::new();
                let mut i: usize = 0;
                while i < entries.len()
                    invariant
                        i <= entries@.len(),
                        value_view(*v) == JsonView::Object(all),
                        node_of(Node::Object(entries), value_view(*v)),
                        forall|k: Seq<char>| #[trigger]
                            out@.contains_key(k) <==> exists|j: int|
                                0 <= j < i && (#[trigger] entries@[j]).0@ == k,
                        forall|k: Seq<char>| #[trigger] out@.contains_key(k) ==> out@[k] == all[k],
                    decreases entries@.len() - i,
                {
                    let ghost key = entries@[i as int].0@;
                    assert(all.contains_key(key));
                    assert(decreases_to!(value_view(*v) => value_view(*v)->Object_0[key]));
                    let item = Json::from_value(entries[i].1);
                    let ghost before = out@;
                    out.insert(entries[i].0.clone(), item);
                    assert forall|k: Seq<char>| #[trigger] out@.contains_key(k) <==> exists|j: int|
                        0 <= j < i + 1 && (#[trigger] entries@[j]).0@ == k by {
                        if k == key {
                            assert(entries@[i as int].0@ == k);
                        } else if before.contains_key(k) {
                            let j = choose|j: int| 0 <= j < i && (#[trigger] entries@[j]).0@ == k;
                            assert(entries@[j].0@ == k);
                        }
                    }
                    i = i + 1;
                }
                assert(out@ =~= all);
                Json::Object(out)
            },
        }
    }

    /// The same value as `serde_json` holds it.
    pub fn to_value(&self) -> (r: serde_json::Value)
        ensures
            value_view(r) == self@,
        decreases self,
    {
        match self {
            Json::Null => close_node(OwnedNode::Null),
            Json::Bool(b) => close_node(OwnedNode::Bool(*b)),
            Json::Number(n) => close_node(OwnedNode::Number(n.clone())),
            Json::Text(s) => close_node(OwnedNode::Text(s.clone())),
            Json::Array(items) => {
                let mut out: Vec<serde_json::Value> = Vec::new();
                let mut i: usize = 0;
                while i < items.len()
                    invariant
                        i <= items@.len(),
                        self == Json::Array(*items),
                        out@.len() == i,
                        forall|j: int| 0 <= j < i ==> value_view(#[trigger] out@[j]) == json_view(
                            items@[j],
                        ),
                    decreases items@.len() - i,
                {
                    assert(decreases_to!(self => self->Array_0@[i as int]));
                    out.push(items[i].to_value());
                    i = i + 1;
                }
                proof {
                    lemma_items_view(items@);
                    assert(value_items(out@) =~= items_view(items@));
                }
                close_node(OwnedNode::Array(out))
            },
            Json::Object(map) => {
                // From the end, so that an entry that a later one overrides is
                // left out.
                let ghost all = map.entries@;
                let mut out: Vec<(String, serde_json::Value)> = Vec::new();
                let mut i: usize = map.entries.len();
                while i > 0
                    invariant
                        i <= map.entries@.len(),
                        self == Json::Object(*map),
                        all == map.entries@,
                        owned_keys_distinct(out@),
                        forall|k: Seq<char>| #[trigger]
                            value_entries(out@).contains_key(k) <==> key_from(all, i as int, k),
                        forall|k: Seq<char>| #[trigger]
                            value_entries(out@).contains_key(k) ==> value_entries(out@)[k]
                                == entries_view(all)[k],
                    decreases i,
                {
                    i = i - 1;
                    let ghost key = all[i as int].0@;
                    let ghost before = out@;
                    assert forall|k: Seq<char>| #[trigger] key_from(all, i as int, k) <==> k == key
                        || key_from(all, i + 1, k) by {
                        if key_from(all, i as int, k) {
                            let j = choose|j: int|
                                i <= j < all.len() && (#[trigger] all[j]).0@ == k;
                            assert(all[j].0@ == k);
                        }
                        if key_from(all, i + 1, k) {
                            let j = choose|j: int|
                                i + 1 <= j < all.len() && (#[trigger] all[j]).0@ == k;
                            assert(all[j].0@ == k);
                        }
                        if k == key {
                            assert(all[i as int].0@ == k);
                        }
                    }
                    if !has_key(&out, map.entries[i].0.as_str()) {
                        assert(decreases_to!(self => self->Object_0.entries@[i as int].1));
                        let entry = (map.entries[i].0.clone(), map.entries[i].1.to_value());
                        proof {
                            lemma_last_counts(all, i as int);
                            assert(out@.push(entry).drop_last() =~= out@);
                            lemma_value_keys(before);
                        }
                        out.push(entry);
                    }
                }
                proof {
                    lemma_entry_keys(all);
                    assert(value_entries(out@) =~= entries_view(all));
                }
                close_node(OwnedNode::Object(out))
            },
        }
    }

    /// The value that a text spells, or the message of the error.
    pub fn parse(text: &str) -> (r: Result<Json, String>)
        ensures
            match r {
                Ok(j) => json_parse(text@) == Ok::<JsonView, Seq<char>>(j@),
                Err(message) => json_parse(text@) == Err::<JsonView, Seq<char>>(message@),
            },
    {
        match parse_value(text) {
            Ok(v) => Ok(Json::from_value(&v)),
            Err(message) => Err(message),
        }
    }

    /// The value that UTF-8 text spells, or the message of the error.
    pub fn parse_bytes(bytes: &[u8]) -> (r: Result<Json, String>)
        ensures
            match r {
                Ok(j) => json_parse_bytes(bytes@) == Ok::<JsonView, Seq<char>>(j@),
                Err(message) => json_parse_bytes(bytes@) == Err::<JsonView, Seq<char>>(message@),
            },
    {
        match parse_value_bytes(bytes) {
            Ok(v) => Ok(Json::from_value(&v)),
            Err(message) => Err(message),
        }
    }

    /// The compact text of the value, or the message of the error.
    pub fn to_text(&self) -> (r: Result<String, String>)
        ensures
            match r {
                Ok(text) => json_text(self@) == Ok::<Seq<char>, Seq<char>>(text@) && spells(
                    text@,
                    self@,
                ),
                Err(message) => json_text(self@) == Err::<Seq<char>, Seq<char>>(message@),
            },
    {
        let v = self.to_value();
        write_value(&v)
    }
}

} // verus!
