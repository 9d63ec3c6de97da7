//! What the guest answers for one evaluation.
//!
//! The interpreter reports how a script ended; the answer written back to
//! the host distinguishes a script that produced no value (`undefined`) from
//! one that produced `null`.

use crate::protocol::EvaluationResult;
use serde_json::Value as JsonValue;
use vstd::prelude::*;

verus! {

/// How the interpreter reports the end of one evaluation.
pub enum Completion {
    /// The script completed with `undefined`.
    Undefined,
    /// The script completed with a value that has a JSON form.
    Json(JsonValue),
    /// The script completed with a value that has no JSON form; its display
    /// text.
    Unserializable(String),
    /// The script threw an error object; its string form.
    ThrownError(String),
    /// The script threw something that is not an error object; its display
    /// text.
    ThrownValue(String),
}

pub open spec fn unserializable_message(display: Seq<char>) -> Seq<char> {
    seq!['R', 'e', 's', 'u', 'l', 't', ' '] + display + " could not be serialized to JSON"@
}

pub open spec fn non_error_message(display: Seq<char>) -> Seq<char> {
    "Non error thrown: "@ + display
}

/// The answer for a completion: `undefined` is an absent value (not a
/// `null` one), a value with a JSON form is that value, and everything else
/// is an error message.
pub fn evaluation_result(c: Completion) -> (r: EvaluationResult)
    ensures
        r@ == match c {
            Completion::Undefined => Ok(None),
            Completion::Json(v) => Ok(Some(v)),
            Completion::Unserializable(d) => Err(unserializable_message(d@)),
            Completion::ThrownError(m) => Err(m@),
            Completion::ThrownValue(d) => Err(non_error_message(d@)),
        },
{
    match c {
        Completion::Undefined => EvaluationResult::Value(None),
        Completion::Json(v) => EvaluationResult::Value(Some(v)),
        Completion::Unserializable(d) => {
            let mut m = "Result ".to_owned();
            m.append(d.as_str());
            m.append(" could not be serialized to JSON");
            proof {
                reveal_strlit("Result ");
            }
            assert(m@ =~= unserializable_message(d@));
            EvaluationResult::Error(m)
        },
        Completion::ThrownError(m) => EvaluationResult::Error(m),
        Completion::ThrownValue(d) => {
            let mut m = "Non error thrown: ".to_owned();
            m.append(d.as_str());
            assert(m@ =~= non_error_message(d@));
            EvaluationResult::Error(m)
        },
    }
}

} // verus!
