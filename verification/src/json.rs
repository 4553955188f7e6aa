//! Reading values out of JSON documents returned by booru services.

use vstd::prelude::*;
use crate::models::opt_view;
use crate::text::owned;

verus! {

/// One step of a path into a JSON document: a key of an object or a
/// position in an array, as `serde_json::Value::get` takes them.
#[derive(Debug)]
pub enum JsonStep {
    Key(String),
    Index(usize),
}

/// The plain view of a [`JsonStep`].
pub enum PathStep {
    Key(Seq<char>),
    Index(nat),
}

impl View for JsonStep {
    type V = PathStep;

    open spec fn view(&self) -> PathStep {
        match self {
            JsonStep::Key(k) => PathStep::Key(k@),
            JsonStep::Index(i) => PathStep::Index(*i as nat),
        }
    }
}

/// The view of a path.
pub open spec fn path_view(p: Seq<JsonStep>) -> Seq<PathStep> {
    p.map_values(|s: JsonStep| s@)
}

// The message of the error `serde_json` reports for a text that is not a
// JSON document; none when it is one.
pub uninterp spec fn json_parse_error(text: Seq<char>) -> Option<Seq<char>>;

/// The text parses as a JSON document.
pub open spec fn json_parses(text: Seq<char>) -> bool {
    json_parse_error(text) is None
}

// The string found at the end of a path into a JSON document.
pub uninterp spec fn json_text_at(text: Seq<char>, path: Seq<PathStep>) -> Option<Seq<char>>;

// The integer, where it fits in an `i64`, found at the end of a path into a JSON document.
pub uninterp spec fn json_int_at(text: Seq<char>, path: Seq<PathStep>) -> Option<i64>;

// The length of the array found at the end of a path into a JSON document.
pub uninterp spec fn json_len_at(text: Seq<char>, path: Seq<PathStep>) -> Option<nat>;

/// Parses a text with `serde_json::from_str::<serde_json::Value>` and gives
/// the `to_string` of the error when it fails. The contract claims only that
/// the result is a function of the text, named [`json_parse_error`].
#[verifier::external_body]
pub(crate) fn json_check(text: &str) -> (r: Option<String>)
    ensures
        opt_view(r) == json_parse_error(text@),
{
    serde_json::from_str::<serde_json::Value>(text).err().map(|e| e.to_string())
}

/// Parses a text with `serde_json::from_str::<serde_json::Value>`, follows
/// the path with `serde_json::Value::get` and reads the value there with
/// `serde_json::Value::as_str`. The contract claims only that the result is
/// a function of the text and the path, named [`json_text_at`].
#[verifier::external_body]
pub(crate) fn json_str(text: &str, path: &[JsonStep]) -> (r: Option<String>)
    ensures
        opt_view(r) == json_text_at(text@, path_view(path@)),
{
    let root: serde_json::Value = serde_json::from_str(text).ok()?;
    let mut cur = &root;
    for step in path {
        cur = match step {
            JsonStep::Key(k) => cur.get(k.as_str())?,
            JsonStep::Index(i) => cur.get(*i)?,
        };
    }
    cur.as_str().map(String::from)
}

/// As [`json_str`], reading the value with `serde_json::Value::as_i64`. The
/// contract claims only that the result is a function of the text and the
/// path, named [`json_int_at`].
#[verifier::external_body]
pub(crate) fn json_i64(text: &str, path: &[JsonStep]) -> (r: Option<i64>)
    ensures
        r == json_int_at(text@, path_view(path@)),
{
    let root: serde_json::Value = serde_json::from_str(text).ok()?;
    let mut cur = &root;
    for step in path {
        cur = match step {
            JsonStep::Key(k) => cur.get(k.as_str())?,
            JsonStep::Index(i) => cur.get(*i)?,
        };
    }
    cur.as_i64()
}

/// As [`json_str`], reading the value with `serde_json::Value::as_array` and
/// giving the array's length. The contract claims only that the result is a
/// function of the text and the path, named [`json_len_at`].
#[verifier::external_body]
pub(crate) fn json_array_len(text: &str, path: &[JsonStep]) -> (r: Option<usize>)
    ensures
        match r {
            Some(n) => json_len_at(text@, path_view(path@)) == Some(n as nat),
            None => json_len_at(text@, path_view(path@)) is None,
        },
{
    let root: serde_json::Value = serde_json::from_str(text).ok()?;
    let mut cur = &root;
    for step in path {
        cur = match step {
            JsonStep::Key(k) => cur.get(k.as_str())?,
            JsonStep::Index(i) => cur.get(*i)?,
        };
    }
    cur.as_array().map(|a| a.len())
}

/// A key step.
pub fn key(k: &str) -> (s: JsonStep)
    ensures
        s@ == PathStep::Key(k@),
{
    JsonStep::Key(owned(k))
}

} // verus!
