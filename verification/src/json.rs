//! What the session store's JSON text holds, as `serde_json` reads it.

use vstd::prelude::*;

verus! {

/// What `serde_json` reads from `text`: `None` when `text` is not one JSON
/// value, `Some(Some(n))` for an array of `n` elements, `Some(None)` for any
/// other value.
pub uninterp spec fn json_outline(text: Seq<char>) -> Option<Option<usize>>;

/// Parses `text` with `serde_json::from_str::<serde_json::Value>` and reports
/// whether it parsed and, for an array, how many elements it has. The
/// contract only ties the result to `text` through `json_outline`; what
/// counts as JSON is `serde_json`'s to decide.
#[verifier::external_body]
pub(crate) fn read_json_outline(text: &str) -> (r: Option<Option<usize>>)
    ensures
        r == json_outline(text@),
{
    match serde_json::from_str::<serde_json::Value>(text) {
        Ok(serde_json::Value::Array(items)) => Some(Some(items.len())),
        Ok(_) => Some(None),
        Err(_) => None,
    }
}

} // verus!
