//! Reading typed values out of JSON, and writing them back.

use vstd::prelude::*;
use vstd::string::*;

use crate::json;
use crate::json::{Json, JsonMap, JsonView};
use crate::text;

verus! {

/// Why a JSON value is not of the expected type: the member that is missing,
/// of a content block with its kind, the member that holds something else, or
/// the type none of whose forms the value has.
#[derive(Debug, PartialEq, Eq)]
pub enum DecodeError {
    Missing(String),
    MissingInBlock { kind: String, name: String },
    Invalid(String),
    NoVariant(String),
}

pub enum DecodeErrorView {
    Missing(Seq<char>),
    MissingInBlock { kind: Seq<char>, name: Seq<char> },
    Invalid(Seq<char>),
    NoVariant(Seq<char>),
}

impl View for DecodeError {
    type V = DecodeErrorView;

    open spec fn view(&self) -> DecodeErrorView {
        match *self {
            DecodeError::Missing(name) => DecodeErrorView::Missing(name@),
            DecodeError::MissingInBlock { kind, name } => DecodeErrorView::MissingInBlock {
                kind: kind@,
                name: name@,
            },
            DecodeError::Invalid(name) => DecodeErrorView::Invalid(name@),
            DecodeError::NoVariant(name) => DecodeErrorView::NoVariant(name@),
        }
    }
}

impl DecodeErrorView {
    pub open spec fn message(self) -> Seq<char> {
        match self {
            DecodeErrorView::Missing(name) => "missing field `"@ + name + "`"@,
            DecodeErrorView::MissingInBlock { kind, name } => "content block \""@ + kind
                + "\" is missing \""@ + name + "\""@,
            DecodeErrorView::Invalid(name) => "invalid value for field `"@ + name + "`"@,
            DecodeErrorView::NoVariant(name) => "data did not match any variant of untagged enum "@
                + name,
        }
    }
}

impl DecodeError {
    pub fn message(&self) -> (r: String)
        ensures
            r@ == self@.message(),
    {
        match self {
            DecodeError::Missing(name) => text::concat3("missing field `", name.as_str(), "`"),
            DecodeError::MissingInBlock { kind, name } => {
                let mut r = text::concat3("content block \"", kind.as_str(), "\" is missing \"");
                r.append(name.as_str());
                r.append("\"");
                r
            },
            DecodeError::Invalid(name) => text::concat3(
                "invalid value for field `",
                name.as_str(),
                "`",
            ),
            DecodeError::NoVariant(name) => text::concat2(
                "data did not match any variant of untagged enum ",
                name.as_str(),
            ),
        }
    }
}

/// The result of decoding each of `items` in turn; the first error counts.
pub open spec fn decode_all<V>(
    items: Seq<JsonView>,
    f: spec_fn(JsonView) -> Result<V, DecodeErrorView>,
) -> Result<Seq<V>, DecodeErrorView>
    decreases items.len(),
{
    if items.len() == 0 {
        Ok(Seq::empty())
    } else {
        match decode_all(items.drop_last(), f) {
            Err(e) => Err(e),
            Ok(done) => match f(items.last()) {
                Err(e) => Err(e),
                Ok(v) => Ok(done.push(v)),
            },
        }
    }
}

/// An error in a leading part is the error of the whole.
pub proof fn lemma_decode_all_error<V>(
    items: Seq<JsonView>,
    f: spec_fn(JsonView) -> Result<V, DecodeErrorView>,
    n: int,
)
    requires
        0 <= n <= items.len(),
        decode_all(items.take(n), f) is Err,
    ensures
        decode_all(items, f) == decode_all(items.take(n), f),
    decreases items.len(),
{
    if n < items.len() {
        assert(items.drop_last().take(n) =~= items.take(n));
        lemma_decode_all_error(items.drop_last(), f, n);
    } else {
        assert(items.take(n) =~= items);
    }
}

pub proof fn lemma_decode_all_step<V>(
    items: Seq<JsonView>,
    f: spec_fn(JsonView) -> Result<V, DecodeErrorView>,
    n: int,
)
    requires
        0 <= n < items.len(),
        decode_all(items.take(n), f) is Ok,
    ensures
        decode_all(items.take(n + 1), f) == (match f(items[n]) {
            Err(e) => Err::<Seq<V>, DecodeErrorView>(e),
            Ok(v) => Ok(decode_all(items.take(n), f)->Ok_0.push(v)),
        }),
{
    assert(items.take(n + 1).drop_last() =~= items.take(n));
    assert(items.take(n + 1).last() == items[n]);
}

/// The member `name`, which has to be there.
pub open spec fn required(m: Map<Seq<char>, JsonView>, name: Seq<char>) -> Result<
    JsonView,
    DecodeErrorView,
> {
    if m.contains_key(name) {
        Ok(m[name])
    } else {
        Err(DecodeErrorView::Missing(name))
    }
}

/// The member `name`, which has to be there and be a text.
pub open spec fn required_text(m: Map<Seq<char>, JsonView>, name: Seq<char>) -> Result<
    Seq<char>,
    DecodeErrorView,
> {
    match required(m, name) {
        Err(e) => Err(e),
        Ok(JsonView::Text(s)) => Ok(s),
        Ok(_) => Err(DecodeErrorView::Invalid(name)),
    }
}

/// The member `name`, which may be absent or `null` and is else a text.
pub open spec fn optional_text(m: Map<Seq<char>, JsonView>, name: Seq<char>) -> Result<
    Option<Seq<char>>,
    DecodeErrorView,
> {
    if m.contains_key(name) {
        match m[name] {
            JsonView::Null => Ok(None),
            JsonView::Text(s) => Ok(Some(s)),
            _ => Err(DecodeErrorView::Invalid(name)),
        }
    } else {
        Ok(None)
    }
}

/// The member `name`: 0 where it is absent, and else an integer below 2^32.
pub open spec fn counter(m: Map<Seq<char>, JsonView>, name: Seq<char>) -> Result<
    u32,
    DecodeErrorView,
> {
    if m.contains_key(name) {
        match m[name].unsigned() {
            Some(n) => if n <= u32::MAX {
                Ok(n as u32)
            } else {
                Err(DecodeErrorView::Invalid(name))
            },
            None => Err(DecodeErrorView::Invalid(name)),
        }
    } else {
        Ok(0)
    }
}

pub fn get_required<'a>(m: &'a JsonMap, name: &str) -> (r: Result<&'a Json, DecodeError>)
    ensures
        match r {
            Ok(v) => required(m@, name@) == Ok::<JsonView, DecodeErrorView>(v@),
            Err(e) => required(m@, name@) == Err::<JsonView, DecodeErrorView>(e@),
        },
{
    match m.get(name) {
        Some(v) => Ok(v),
        None => Err(DecodeError::Missing(name.to_owned())),
    }
}

pub fn get_required_text(m: &JsonMap, name: &str) -> (r: Result<String, DecodeError>)
    ensures
        match r {
            Ok(v) => required_text(m@, name@) == Ok::<Seq<char>, DecodeErrorView>(v@),
            Err(e) => required_text(m@, name@) == Err::<Seq<char>, DecodeErrorView>(e@),
        },
{
    match m.get(name) {
        Some(Json::Text(s)) => Ok(s.clone()),
        Some(_) => Err(DecodeError::Invalid(name.to_owned())),
        None => Err(DecodeError::Missing(name.to_owned())),
    }
}

/// The characters of a text that may be absent.
pub open spec fn text_view(t: Option<String>) -> Option<Seq<char>> {
    match t {
        Some(s) => Some(s@),
        None => None,
    }
}

pub fn get_optional_text(m: &JsonMap, name: &str) -> (r: Result<Option<String>, DecodeError>)
    ensures
        match r {
            Ok(v) => optional_text(m@, name@) == Ok::<Option<Seq<char>>, DecodeErrorView>(
                text_view(v),
            ),
            Err(e) => optional_text(m@, name@) == Err::<Option<Seq<char>>, DecodeErrorView>(e@),
        },
{
    match m.get(name) {
        Some(Json::Text(s)) => Ok(Some(s.clone())),
        Some(Json::Null) => Ok(None),
        Some(_) => Err(DecodeError::Invalid(name.to_owned())),
        None => Ok(None),
    }
}

pub fn get_counter(m: &JsonMap, name: &str) -> (r: Result<u32, DecodeError>)
    ensures
        match r {
            Ok(v) => counter(m@, name@) == Ok::<u32, DecodeErrorView>(v),
            Err(e) => counter(m@, name@) == Err::<u32, DecodeErrorView>(e@),
        },
{
    match m.get(name) {
        Some(v) => match v.as_u64() {
            Some(n) => if n <= 0xffff_ffff {
                Ok(n as u32)
            } else {
                Err(DecodeError::Invalid(name.to_owned()))
            },
            None => Err(DecodeError::Invalid(name.to_owned())),
        },
        None => Ok(0),
    }
}

/// The member `name`, unless it is absent or `null`.
pub open spec fn present(m: Map<Seq<char>, JsonView>, name: Seq<char>) -> Option<JsonView> {
    if m.contains_key(name) && m[name] != JsonView::Null {
        Some(m[name])
    } else {
        None
    }
}

pub fn get_present<'a>(m: &'a JsonMap, name: &str) -> (r: Option<&'a Json>)
    ensures
        match r {
            Some(v) => present(m@, name@) == Some(v@),
            None => present(m@, name@) is None,
        },
{
    match m.get(name) {
        Some(Json::Null) => None,
        other => other,
    }
}

/// `m` with the member `name` set, where there is a value for it.
pub open spec fn with(
    m: Map<Seq<char>, JsonView>,
    name: Seq<char>,
    value: Option<JsonView>,
) -> Map<Seq<char>, JsonView> {
    match value {
        Some(v) => m.insert(name, v),
        None => m,
    }
}

/// The view of a JSON value that may be absent.
pub open spec fn value_view(v: Option<Json>) -> Option<JsonView> {
    match v {
        Some(v) => Some(v@),
        None => None,
    }
}

/// Set the member `name`, where there is a value for it.
pub fn put(m: &mut JsonMap, name: &str, value: Option<Json>)
    ensures
        final(m)@ == with(old(m)@, name@, value_view(value)),
{
    if let Some(v) = value {
        m.insert(name.to_owned(), v);
    }
}

// ---------------------------------------------------------------------------
// Typed values
// ---------------------------------------------------------------------------

/// A type whose values are read out of JSON.
pub trait FromJson: View + Sized {
    /// What a JSON value holds, or why it is none of this type.
    spec fn of(v: JsonView) -> Result<<Self as View>::V, DecodeErrorView>;

    fn from_json(v: &Json) -> (r: Result<Self, DecodeError>)
        ensures
            match r {
                Ok(x) => Self::of(v@) == Ok::<<Self as View>::V, DecodeErrorView>(x@),
                Err(e) => Self::of(v@) == Err::<<Self as View>::V, DecodeErrorView>(e@),
            },
    ;
}

/// A type whose values are written as JSON.
pub trait ToJson: View {
    spec fn json(v: <Self as View>::V) -> JsonView;

    fn to_json(&self) -> (r: Json)
        ensures
            r@ == Self::json(self@),
    ;
}

/// The views of a row of values.
pub open spec fn all_views<T: View>(items: Seq<T>) -> Seq<<T as View>::V> {
    items.map_values(|x: T| x@)
}

pub open spec fn list_of<T: FromJson>(items: Seq<JsonView>) -> Result<
    Seq<<T as View>::V>,
    DecodeErrorView,
> {
    decode_all(items, |v: JsonView| T::of(v))
}

pub open spec fn list_json<T: ToJson>(items: Seq<<T as View>::V>) -> JsonView {
    JsonView::Array(items.map_values(|x: <T as View>::V| T::json(x)))
}

pub fn list_from_json<T: FromJson>(items: &Vec<Json>) -> (r: Result<Vec<T>, DecodeError>)
    ensures
        match r {
            Ok(b) => list_of::<T>(json::items_view(items@)) == Ok::<
                Seq<<T as View>::V>,
                DecodeErrorView,
            >(all_views(b@)),
            Err(e) => list_of::<T>(json::items_view(items@)) == Err::<
                Seq<<T as View>::V>,
                DecodeErrorView,
            >(e@),
        },
{
    let ghost all = json::items_view(items@);
    let ghost f = |v: JsonView| T::of(v);
    let mut out: Vec<T> = Vec::new();
    let mut i: usize = 0;
    proof {
        json::lemma_items_view(items@);
        assert(all_views(out@) =~= Seq::<<T as View>::V>::empty());
    }
    while i < items.len()
        invariant
            i <= items@.len(),
            all == json::items_view(items@),
            all.len() == items@.len(),
            forall|j: int| 0 <= j < items@.len() ==> all[j] == #[trigger] items@[j]@,
            f == (|v: JsonView| T::of(v)),
            decode_all(all.take(i as int), f) == Ok::<Seq<<T as View>::V>, DecodeErrorView>(
                all_views(out@),
            ),
        decreases items@.len() - i,
    {
        proof {
            lemma_decode_all_step(all, f, i as int);
        }
        match T::from_json(&items[i]) {
            Ok(x) => {
                let ghost before = out@;
                out.push(x);
                assert(all_views(out@) =~= all_views(before).push(x@));
            },
            Err(e) => {
                proof {
                    lemma_decode_all_error(all, f, i + 1);
                }
                return Err(e);
            },
        }
        i = i + 1;
    }
    assert(all.take(i as int) =~= all);
    Ok(out)
}

pub fn list_to_json<T: ToJson>(items: &Vec<T>) -> (r: Json)
    ensures
        r@ == list_json::<T>(all_views(items@)),
{
    let ghost all = list_json::<T>(all_views(items@))->Array_0;
    let mut out: Vec<Json> = Vec::new();
    let mut i: usize = 0;
    while i < items.len()
        invariant
            i <= items@.len(),
            all == list_json::<T>(all_views(items@))->Array_0,
            json::items_view(out@) == all.take(i as int),
        decreases items@.len() - i,
    {
        let item = items[i].to_json();
        proof {
            json::lemma_items_push(out@, item);
            assert(all.take(i + 1) =~= all.take(i as int).push(all[i as int]));
        }
        out.push(item);
        i = i + 1;
    }
    assert(all.take(i as int) =~= all);
    Json::Array(out)
}

impl FromJson for String {
    open spec fn of(v: JsonView) -> Result<Seq<char>, DecodeErrorView> {
        match v {
            JsonView::Text(s) => Ok(s),
            _ => Err(DecodeErrorView::Invalid("text"@)),
        }
    }

    fn from_json(v: &Json) -> (r: Result<String, DecodeError>) {
        match v {
            Json::Text(s) => Ok(s.clone()),
            _ => Err(DecodeError::Invalid("text".to_owned())),
        }
    }
}

impl ToJson for String {
    open spec fn json(v: Seq<char>) -> JsonView {
        JsonView::Text(v)
    }

    fn to_json(&self) -> (r: Json) {
        Json::Text(self.clone())
    }
}

} // verus!
