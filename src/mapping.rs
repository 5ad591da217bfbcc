//! The table that maps file keys to the paths they stand for.

use vstd::prelude::*;

use crate::paths::{path_of, PathModel, SourcePath};
use crate::rewrite::RewriteError;
use crate::text::{lowercase_first, to_lowercase_first, to_uppercase_first, uppercase_first};

verus! {

#[verifier::external_type_specification]
#[verifier::external_body]
pub struct ExValue(serde_json::Value);

/// The members of a JSON object, by key: the text of a string value, none
/// for another kind of value; nothing for a value that is not an object.
pub uninterp spec fn json_members(v: serde_json::Value) -> Map<Seq<char>, Option<Seq<char>>>;

/// The content of an optional string.
pub open spec fn opt_text(t: Option<String>) -> Option<Seq<char>> {
    match t {
        Some(x) => Some(x@),
        None => None,
    }
}

/// Relies on `serde_json::Value::get` with a string index: the member of
/// an object under that key, none for another kind of value. The member's
/// value is told apart as a string or as anything else.
#[verifier::external_body]
fn member_text(v: &serde_json::Value, key: &str) -> (r: Option<Option<String>>)
    ensures
        r is None <==> !json_members(*v).contains_key(key@),
        r matches Some(t) ==> json_members(*v)[key@] == opt_text(t),
{
    match v.get(key) {
        Some(serde_json::Value::String(t)) => Some(Some(t.clone())),
        Some(_) => Some(None),
        None => None,
    }
}

/// The path that a table member names; none where its value is not text.
pub open spec fn member_path(t: Option<Seq<char>>) -> Option<PathModel> {
    match t {
        Some(x) => Some(path_of(x)),
        None => None,
    }
}

/// The path that `path` maps to: the member under its key with the first
/// character lowercased, else under its key with the first character
/// uppercased; `path` itself where neither is in the table or there is no
/// table. `None` where the member found is not text.
pub open spec fn mapped(mapping: Option<serde_json::Value>, path: Seq<char>) -> Option<PathModel> {
    match mapping {
        Some(m) => if path.len() > 0 && json_members(m).contains_key(lowercase_first(path)) {
            member_path(json_members(m)[lowercase_first(path)])
        } else if path.len() > 0 && json_members(m).contains_key(uppercase_first(path)) {
            member_path(json_members(m)[uppercase_first(path)])
        } else {
            Some(path_of(path))
        },
        None => Some(path_of(path)),
    }
}

/// The path of a member found in the table, or the error for a member that
/// is not text.
fn member_or_error(t: Option<String>, key: String) -> (r: Result<SourcePath, RewriteError>)
    ensures
        match member_path(opt_text(t)) {
            Some(p) => r matches Ok(q) && q@ == p,
            None => r is Err,
        },
{
    match t {
        Some(text) => Ok(SourcePath::parse(text.as_str())),
        None => Err(RewriteError::MappingNotText(key)),
    }
}

/// Looks `path` up in the mapping table.
pub fn apply_mapping(mapping: &Option<serde_json::Value>, path: &str) -> (r: Result<SourcePath, RewriteError>)
    ensures
        match mapped(*mapping, path@) {
            Some(p) => r matches Ok(q) && q@ == p,
            None => r is Err,
        },
{
    match mapping {
        Some(m) => {
            if path.is_empty() {
                return Ok(SourcePath::parse(path));
            }
            let lower = to_lowercase_first(path);
            match member_text(m, lower.as_str()) {
                Some(t) => member_or_error(t, lower),
                None => {
                    let upper = to_uppercase_first(path);
                    match member_text(m, upper.as_str()) {
                        Some(t) => member_or_error(t, upper),
                        None => Ok(SourcePath::parse(path)),
                    }
                },
            }
        },
        None => Ok(SourcePath::parse(path)),
    }
}

} // verus!
