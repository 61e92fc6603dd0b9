//! The JSON documents the tools read, through `serde_json`.
use vstd::prelude::*;

verus! {

/// `serde_json::Error`, carried through unread.
#[verifier::external_type_specification]
#[verifier::external_body]
pub struct ExJsonError(serde_json::Error);

/// `text` is a JSON document: `serde_json::from_str::<serde_json::Value>` accepts it. Reading
/// is deterministic, so this depends on `text` alone.
pub uninterp spec fn json_document(text: Seq<char>) -> bool;

/// What `serde_json::to_string_pretty` writes for the document `serde_json::from_str` reads
/// from `text`, or `None` when `text` is not a JSON document. Both functions are
/// deterministic, so this depends on `text` alone.
pub uninterp spec fn pretty_json(text: Seq<char>) -> Option<Seq<char>>;

/// Reads `text` as a JSON document (`serde_json::from_str::<serde_json::Value>`) and writes it
/// back indented (`serde_json::to_string_pretty`). Claimed: it succeeds exactly when `text`
/// is a JSON document and when `pretty_json` gives a text, and then returns that text.
/// Writing a `Value` cannot fail (its keys are strings), so an error always comes from
/// reading.
#[verifier::external_body]
pub(crate) fn reformat_json(text: &str) -> (r: Result<String, serde_json::Error>)
    ensures
        r is Ok <==> json_document(text@),
        r is Ok <==> pretty_json(text@) is Some,
        r matches Ok(s) ==> pretty_json(text@) == Some(s@),
{
    let value: serde_json::Value = serde_json::from_str(text)?;
    serde_json::to_string_pretty(&value)
}

/// For the JSON document in `text`: `None` when `text` is not one; otherwise the string that
/// its member `key` holds, `Some(None)` when there is no such member or it is not a string.
pub uninterp spec fn json_string_member(text: Seq<char>, key: Seq<char>) -> Option<
    Option<Seq<char>>,
>;

/// Reads `text` as a JSON document (`serde_json::from_str::<serde_json::Value>`) and looks up
/// the string member `key` (`Value::get`, `Value::as_str`, which never fail). Claimed: it
/// succeeds exactly when `text` is a JSON document and when `json_string_member` is `Some`,
/// with the member it gives.
#[verifier::external_body]
pub(crate) fn string_member(text: &str, key: &str) -> (r: Result<
    Option<String>,
    serde_json::Error,
>)
    ensures
        r is Ok <==> json_document(text@),
        r is Ok <==> json_string_member(text@, key@) is Some,
        r matches Ok(m) ==> json_string_member(text@, key@) == Some(
            match m {
                Some(s) => Some(s@),
                None => None,
            },
        ),
{
    let value: serde_json::Value = serde_json::from_str(text)?;
    Ok(value.get(key).and_then(|v| v.as_str()).map(|s| s.to_string()))
}

/// An entry of a git tree listing: its `path` and `type` members, where they are strings.
pub struct TreeEntry {
    pub path: Option<String>,
    pub kind: Option<String>,
}

/// The `path` and `type` texts of a tree entry.
pub open spec fn tree_entry_view(e: TreeEntry) -> (Option<Seq<char>>, Option<Seq<char>>) {
    (
        match e.path {
            Some(p) => Some(p@),
            None => None,
        },
        match e.kind {
            Some(k) => Some(k@),
            None => None,
        },
    )
}

/// For the JSON document in `text`: `None` when `text` is not one; `Some(None)` when it has
/// no array member `list_key`; otherwise the `path_key` and `type_key` strings of each element
/// of that array, in order (`None` for one that is missing or not a string).
pub uninterp spec fn json_tree_entries(
    text: Seq<char>,
    list_key: Seq<char>,
    path_key: Seq<char>,
    type_key: Seq<char>,
) -> Option<Option<Seq<(Option<Seq<char>>, Option<Seq<char>>)>>>;

/// Reads `text` as a JSON document (`serde_json::from_str::<serde_json::Value>`) and lists
/// the `path_key` and `type_key` strings of the elements of its array member `list_key`
/// (`Value::get`, `Value::as_array`, `Value::as_str`, which never fail). Claimed: it succeeds
/// exactly when `text` is a JSON document and when `json_tree_entries` is `Some`, with the
/// entries it gives.
#[verifier::external_body]
pub(crate) fn tree_entries(
    text: &str,
    list_key: &str,
    path_key: &str,
    type_key: &str,
) -> (r: Result<Option<Vec<TreeEntry>>, serde_json::Error>)
    ensures
        r is Ok <==> json_document(text@),
        r is Ok <==> json_tree_entries(text@, list_key@, path_key@, type_key@) is Some,
        r matches Ok(t) ==> json_tree_entries(text@, list_key@, path_key@, type_key@) == Some(
            match t {
                Some(v) => Some(v@.map_values(|e: TreeEntry| tree_entry_view(e))),
                None => None,
            },
        ),
{
    let value: serde_json::Value = serde_json::from_str(text)?;
    let field = |item: &serde_json::Value, key: &str| item.get(key).and_then(|v| v.as_str()).map(|s| s.to_string());
    Ok(value.get(list_key).and_then(|t| t.as_array()).map(|items| {
        items.iter().map(|item| TreeEntry { path: field(item, path_key), kind: field(item, type_key) }).collect()
    }))
}

} // verus!
