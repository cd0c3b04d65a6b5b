//! Single members of JSON files whose shape is not this project's own.

use crate::text;
use vstd::prelude::*;

verus! {

/// A member of a JSON object: its text where it is a string, and the member
/// written as JSON.
pub type MemberView = (Option<Seq<char>>, Seq<char>);

/// What taking the member `key` out of a JSON text gives: the member, nothing
/// where there is none, or what the parser says of the text.
pub uninterp spec fn json_member(text: Seq<char>, key: Seq<char>) -> Result<
    Option<(Option<Seq<char>>, Seq<char>)>,
    Seq<char>,
>;

/// What was read of a member.
pub open spec fn member_view(read: Result<Option<(Option<String>, String)>, String>) -> Result<
    Option<MemberView>,
    Seq<char>,
> {
    match read {
        Ok(Some(m)) => Ok(Some((text::opt_text(m.0), m.1@))),
        Ok(None) => Ok(None),
        Err(e) => Err(e@),
    }
}

/// `serde_json::from_str` into a `Value`, then `Value::get`, `as_str` and
/// `to_string`; the error is handed on as its message. All of it is a function
/// of the text and the key.
#[verifier::external_body]
pub(crate) fn read_member(json: &str, key: &str) -> (r: Result<
    Option<(Option<String>, String)>,
    String,
>)
    ensures
        member_view(r) == json_member(json@, key@),
{
    match serde_json::from_str::<serde_json::Value>(json) {
        Ok(v) => Ok(v.get(key).map(|m| (m.as_str().map(str::to_owned), m.to_string()))),
        Err(e) => Err(e.to_string()),
    }
}

} // verus!
