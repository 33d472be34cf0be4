//! The saved settings.

use vstd::prelude::*;

verus! {

/// A JSON value of `serde_json`.
#[verifier::external_type_specification]
#[verifier::external_body]
pub struct ExJsonValue(serde_json::Value);

/// A JSON error of `serde_json`.
#[verifier::external_type_specification]
#[verifier::external_body]
pub struct ExJsonError(serde_json::Error);

/// The JSON value that `text` writes, if it writes one, as
/// `serde_json::from_str` reads it.
pub uninterp spec fn json_of(text: Seq<char>) -> Option<serde_json::Value>;

/// The members of a JSON object by their keys. Any other value has none.
pub uninterp spec fn json_members(value: serde_json::Value) -> Map<Seq<char>, serde_json::Value>;

/// The text of a JSON string. Any other value has none.
pub uninterp spec fn json_text(value: serde_json::Value) -> Option<Seq<char>>;

/// The member of `value` under `key`.
pub open spec fn member(value: serde_json::Value, key: Seq<char>) -> Option<serde_json::Value> {
    if json_members(value).contains_key(key) {
        Some(json_members(value)[key])
    } else {
        None
    }
}

/// The start folder that the settings `root` hold: the text, unless it is
/// empty, under `textEditorPath` in the section `text editor`.
pub open spec fn start_folder(root: serde_json::Value) -> Option<Seq<char>> {
    match member(root, "text editor"@) {
        Some(section) => match member(section, "textEditorPath"@) {
            Some(value) => match json_text(value) {
                Some(path) => if path.len() > 0 {
                    Some(path)
                } else {
                    None
                },
                None => None,
            },
            None => None,
        },
        None => None,
    }
}

/// The start folder that a settings file with the text `data` holds.
pub open spec fn saved_folder(data: Seq<char>) -> Option<Seq<char>> {
    match json_of(data) {
        Some(root) => start_folder(root),
        None => None,
    }
}

/// `serde_json::from_str` reads a JSON value from a text. Whether it can, and
/// the value, are functions of the text.
#[verifier::external_body]
fn parse_json(text: &str) -> (r: Result<serde_json::Value, serde_json::Error>)
    ensures
        match r {
            Ok(value) => json_of(text@) == Some(value),
            Err(_) => json_of(text@) is None,
        },
{
    serde_json::from_str::<serde_json::Value>(text)
}

/// `serde_json::Value::get` with a text gives the member of an object under
/// that key, and nothing for any other value or a key that is not there.
#[verifier::external_body]
fn json_get<'a>(value: &'a serde_json::Value, key: &str) -> (r: Option<&'a serde_json::Value>)
    ensures
        match r {
            Some(found) => json_members(*value).contains_key(key@) && json_members(*value)[key@]
                == *found,
            None => !json_members(*value).contains_key(key@),
        },
{
    value.get(key)
}

/// `serde_json::Value::as_str` gives the text of a JSON string, and nothing for
/// any other value.
#[verifier::external_body]
fn json_as_str<'a>(value: &'a serde_json::Value) -> (r: Option<&'a str>)
    ensures
        match r {
            Some(text) => json_text(*value) == Some(text@),
            None => json_text(*value) is None,
        },
{
    value.as_str()
}

/// The start folder that the settings `root` hold.
pub fn start_folder_in(root: &serde_json::Value) -> (r: Option<String>)
    ensures
        match r {
            Some(path) => start_folder(*root) == Some(path@),
            None => start_folder(*root) is None,
        },
{
    match json_get(root, "text editor") {
        Some(section) => match json_get(section, "textEditorPath") {
            Some(value) => match json_as_str(value) {
                Some(path) => if path.is_empty() {
                    None
                } else {
                    Some(path.to_owned())
                },
                None => None,
            },
            None => None,
        },
        None => None,
    }
}

/// The start folder that a settings file with the text `data` holds.
pub fn saved_start_folder(data: &str) -> (r: Option<String>)
    ensures
        match r {
            Some(path) => saved_folder(data@) == Some(path@),
            None => saved_folder(data@) is None,
        },
{
    match parse_json(data) {
        Ok(root) => start_folder_in(&root),
        Err(_) => None,
    }
}

} // verus!
