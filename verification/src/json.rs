//! The calls into `serde_json`: reading and writing the whitelist file's
//! JSON array of strings, and picking the fields of a daemon event line.
use vstd::prelude::*;

use crate::events::EventFields;
use crate::text::names;

verus! {

/// What `serde_json::from_str::<Vec<String>>` yields for `text`: the strings of
/// the JSON array of strings that `text` holds, or `None` where it holds none.
pub uninterp spec fn json_string_array(text: Seq<char>) -> Option<Seq<Seq<char>>>;

/// What `serde_json::to_string_pretty` yields for an array of strings: the
/// pretty-printed JSON text (its documentation lets it fail only for a value
/// whose `Serialize` fails or for a map with non-string keys, so never here).
pub uninterp spec fn json_pretty_string_array(entries: Seq<Seq<char>>) -> Seq<char>;

/// What a daemon event line holds, as `serde_json::from_str::<serde_json::Value>`
/// and the field accessors read it: `None` where the line is not JSON; else the
/// string fields named `id_key`, `kind_key` and `command_key` (each `None` where
/// absent or not a string) and the bit pattern of the number named `ts_key`
/// read as an `f64` (`None` where absent or not a number).
pub uninterp spec fn json_event(
    line: Seq<char>,
    id_key: Seq<char>,
    kind_key: Seq<char>,
    command_key: Seq<char>,
    ts_key: Seq<char>,
) -> Option<(Option<Seq<char>>, Option<Seq<char>>, Option<Seq<char>>, Option<u64>)>;

/// Calls `serde_json::from_str::<Vec<String>>` on `text`. The contract claims that
/// the strings it returns (or its failure) are those that `json_string_array` names.
#[verifier::external_body]
pub(crate) fn parse_string_array(text: &str) -> (r: Option<Vec<String>>)
    ensures
        match r {
            Some(v) => json_string_array(text@) == Some(names(v@)),
            None => json_string_array(text@) is None,
        },
{
    serde_json::from_str::<Vec<String>>(text).ok()
}

/// Calls `serde_json::to_string_pretty` on `entries`. The contract claims that
/// it succeeds (its documentation: serialization fails only for a value whose
/// `Serialize` fails or for a map with non-string keys, and a list of strings
/// is neither), that its text is what `json_pretty_string_array` names, and
/// that `serde_json::from_str::<Vec<String>>` reads that text back as the same
/// strings (strings are written with every `"`, `\\` and control character
/// escaped, and parsed with those escapes undone).
#[verifier::external_body]
pub(crate) fn to_pretty_string_array(entries: &Vec<String>) -> (r: Result<String, String>)
    ensures
        r is Ok,
        r matches Ok(s) ==> json_pretty_string_array(names(entries@)) == s@,
        r matches Ok(s) ==> json_string_array(s@) == Some(names(entries@)),
{
    match serde_json::to_string_pretty(entries) {
        Ok(s) => Ok(s),
        Err(e) => Err(e.to_string()),
    }
}

/// Calls `serde_json::from_str::<serde_json::Value>` on `line`, then
/// `Value::get` with `Value::as_str` for the string fields and `Value::as_f64`
/// for the time. The contract claims that the fields it returns are those that
/// `json_event` names.
#[verifier::external_body]
pub(crate) fn read_event(
    line: &str,
    id_key: &str,
    kind_key: &str,
    command_key: &str,
    ts_key: &str,
) -> (r: Option<EventFields>)
    ensures
        match r {
            Some(f) => json_event(line@, id_key@, kind_key@, command_key@, ts_key@) == Some(f@),
            None => json_event(line@, id_key@, kind_key@, command_key@, ts_key@) is None,
        },
{
    let v: serde_json::Value = match serde_json::from_str(line) {
        Ok(v) => v,
        Err(_) => return None,
    };
    let session_id = v.get(id_key).and_then(serde_json::Value::as_str).map(String::from);
    let kind = v.get(kind_key).and_then(serde_json::Value::as_str).map(String::from);
    let command = v.get(command_key).and_then(serde_json::Value::as_str).map(String::from);
    let ts_bits = match v.get(ts_key).and_then(serde_json::Value::as_f64) {
        Some(ts) => Some(ts.to_bits()),
        None => None,
    };
    Some(EventFields { session_id, kind, command, ts_bits })
}

} // verus!
