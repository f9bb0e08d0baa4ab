use vstd::prelude::*;

verus! {

use crate::codec::ParseStep;
use crate::codec::spec_parse_str;
use crate::messages::EvalMessage;
use crate::messages::decode_value_str;
use crate::errors::PayloadShapeError;

/// The string value at `key` of the top-level JSON object in `text`: `Some`
/// exactly when `text` parses as a JSON object holding a string under `key`.
pub uninterp spec fn json_str_field(text: Seq<char>, key: Seq<char>) -> Option<Seq<char>>;

/// Relies on serde_json::from_str and serde_json's object lookup: parses
/// `text` as JSON and returns the string value at `key` of the top-level
/// object; `None` when `text` is not JSON, not an object, lacks `key`, or
/// holds a non-string there. The result depends on `text` and `key` alone.
#[verifier::external_body]
fn json_str_field_exec(text: &str, key: &str) -> (r: Option<String>)
    ensures
        r matches Some(s) ==> json_str_field(text@, key@) == Some(s@),
        r is None ==> json_str_field(text@, key@) is None,
{
    match serde_json::from_str::<serde_json::Value>(text) {
        Ok(serde_json::Value::Object(map)) => match map.get(key) {
            Some(serde_json::Value::String(s)) => Some(s.clone()),
            _ => None,
        },
        _ => None,
    }
}

/// The payload correlation id of an evaluation payload blob: the
/// `taskContextId` string of the JSON object embedded as a text element.
pub open spec fn spec_task_context_id(value: Seq<u8>) -> Option<Seq<char>> {
    match spec_parse_str(value, 0) {
        ParseStep::Found(text, e) => json_str_field(text, "taskContextId"@),
        ParseStep::Short => None,
        ParseStep::Bad => None,
    }
}

impl EvalMessage {
    /// The JSON document text embedded in this payload blob.
    pub fn json_value(&self) -> (r: Result<String, PayloadShapeError>)
        ensures
            r matches Ok(s) ==> (spec_parse_str(self@.value, 0) matches ParseStep::Found(t, _)
                && t == s@),
            r is Err ==> !(spec_parse_str(self@.value, 0) is Found),
    {
        decode_value_str(&self.value)
    }

    /// The task-context id named inside this payload's JSON object, the
    /// payload-level correlation id that a task-result report must carry.
    pub fn task_context_id(&self) -> (r: Result<String, PayloadShapeError>)
        ensures
            r matches Ok(s) ==> spec_task_context_id(self@.value) == Some(s@),
            r is Err ==> spec_task_context_id(self@.value) is None,
    {
        match self.json_value() {
            Ok(text) => match json_str_field_exec(text.as_str(), "taskContextId") {
                Some(id) => Ok(id),
                None => Err(PayloadShapeError::NoTaskContextId),
            },
            Err(e) => Err(e),
        }
    }
}

} // verus!
