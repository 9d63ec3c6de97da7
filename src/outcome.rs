//! Classifying what one run of the guest came to.
//!
//! A run either returns normally, and then the guest's result document says
//! whether the script produced a value or failed, or it traps. Traps and
//! failures are told apart by the markers in their messages: running out of
//! fuel, and the allocator refusing memory. A run that ran out of fuel or
//! memory gives up its context; one that completed hands it back.

use crate::pipe::StdoutPipe;
use crate::protocol::{decoded, err_key, is_framed, ok_key, DecodeError, EvaluationResult};
use serde_json::Value as JsonValue;
use std::string::FromUtf8Error;
use vstd::prelude::*;
use vstd::string::StringSliceAdditionalSpecFns;
use vstd::utf8::*;

verus! {

/// The engine's trap message when the fuel is used up.
pub const FUEL_EXHAUSTED_MARKER: &'static str = "all fuel consumed by WebAssembly";

/// The trap message of the guest's out-of-memory handler.
pub const OOM_TRAP_MARKER: &'static str = "rust_oom";

/// The error the guest reports when its allocator refuses memory.
pub const ALLOCATOR_REFUSAL_MARKER: &'static str =
    "memory allocation failed because the memory allocator returned a error";

/// Whether `pat` occurs in `s` as a contiguous run.
pub open spec fn contains(s: Seq<u8>, pat: Seq<u8>) -> bool {
    exists|i: int| 0 <= i && i + pat.len() <= s.len() && #[trigger] s.subrange(i, i + pat.len()) == pat
}

/// Whether the text `pat` occurs in the text `s`.
pub fn contains_str(s: &str, pat: &str) -> (r: bool)
    ensures
        r == contains(s.spec_bytes(), pat.spec_bytes()),
{
    let sb = s.as_bytes();
    let pb = pat.as_bytes();
    let n = sb.len();
    let m = pb.len();
    if m > n {
        return false;
    }
    let mut i: usize = 0;
    while i <= n - m
        invariant
            n == sb@.len(),
            m == pb@.len(),
            m <= n,
            sb@ == s.spec_bytes(),
            pb@ == pat.spec_bytes(),
            forall|k: int| 0 <= k < i ==> #[trigger] sb@.subrange(k, k + m) != pb@,
        decreases n - m + 1 - i,
    {
        let mut j: usize = 0;
        while j < m
            invariant
                n == sb@.len(),
                m == pb@.len(),
                i + m <= n,
                j <= m,
                forall|l: int| 0 <= l < j ==> sb@[i + l] == pb@[l],
            ensures
                j <= m,
                forall|l: int| 0 <= l < j ==> sb@[i + l] == pb@[l],
                j < m ==> sb@[i + j] != pb@[j as int],
            decreases m - j,
        {
            if sb[i + j] != pb[j] {
                break;
            }
            j = j + 1;
        }
        if j == m {
            assert(sb@.subrange(i as int, i + m) =~= pb@);
            return true;
        }
        assert(sb@.subrange(i as int, i + m)[j as int] != pb@[j as int]);
        i = i + 1;
    }
    assert forall|k: int| 0 <= k && k + m <= n implies #[trigger] sb@.subrange(k, k + m) != pb@ by {
        assert(k < i);
    }
    false
}

/// What one run came to.
pub enum JsRunOutput<C> {
    /// The script completed with a value or none; the context can be reused.
    Success { ctx: C, result: Option<JsonValue>, stdout: String, stderr: String },
    /// The script failed; the context can be reused.
    RuntimeError { ctx: C, message: String, stdout: String, stderr: String },
    /// The fuel ran out; the context is gone.
    OutOfFuel { stdout: String, stderr: String },
    /// Memory ran out; the context is gone.
    OutOfMemory { stdout: String, stderr: String },
}

/// Why a run could not be classified: a fault on the host's side.
pub enum RunFailure {
    /// A trap that is neither fuel nor memory exhaustion.
    Trap(String),
    /// A stream or the result file did not hold UTF-8.
    Utf8(FromUtf8Error),
    /// The result file did not hold a result document.
    Decode(DecodeError),
}

/// `r` is the classification of a trap with message `m`, the streams having
/// held `out` and `err`: `None` for a trap that is not the guest's fault.
pub open spec fn classifies_trap<C>(
    r: Option<JsRunOutput<C>>,
    m: Seq<u8>,
    out: Seq<char>,
    err: Seq<char>,
) -> bool {
    if contains(m, FUEL_EXHAUSTED_MARKER.spec_bytes()) {
        r matches Some(JsRunOutput::OutOfFuel { stdout: o, stderr: e }) && o@ == out && e@ == err
    } else if contains(m, OOM_TRAP_MARKER.spec_bytes()) {
        r matches Some(JsRunOutput::OutOfMemory { stdout: o, stderr: e }) && o@ == out && e@ == err
    } else {
        r is None
    }
}

/// `r` is the classification of a completed run whose result was `x`.
pub open spec fn classifies_evaluation<C>(
    r: JsRunOutput<C>,
    ctx: C,
    x: Result<Option<JsonValue>, Seq<char>>,
    out: Seq<char>,
    err: Seq<char>,
) -> bool {
    match x {
        Ok(v) => r matches JsRunOutput::Success { ctx: c, result: w, stdout: o, stderr: e } && c
            == ctx && w == v && o@ == out && e@ == err,
        Err(m) => if contains(encode_utf8(m), ALLOCATOR_REFUSAL_MARKER.spec_bytes()) {
            r matches JsRunOutput::OutOfMemory { stdout: o, stderr: e } && o@ == out && e@ == err
        } else {
            r matches JsRunOutput::RuntimeError { ctx: c, message: t, stdout: o, stderr: e } && c
                == ctx && t@ == m && o@ == out && e@ == err
        },
    }
}

/// Classifies a trap by its message.
pub fn classify_trap<C>(message: &str, stdout: String, stderr: String) -> (r: Option<JsRunOutput<C>>)
    ensures
        classifies_trap(r, message.spec_bytes(), stdout@, stderr@),
{
    if contains_str(message, FUEL_EXHAUSTED_MARKER) {
        Some(JsRunOutput::OutOfFuel { stdout, stderr })
    } else if contains_str(message, OOM_TRAP_MARKER) {
        Some(JsRunOutput::OutOfMemory { stdout, stderr })
    } else {
        None
    }
}

/// Classifies the result of a completed run.
pub fn classify_evaluation<C>(
    ctx: C,
    result: EvaluationResult,
    stdout: String,
    stderr: String,
) -> (r: JsRunOutput<C>)
    ensures
        classifies_evaluation(r, ctx, result@, stdout@, stderr@),
{
    match result {
        EvaluationResult::Value(value) => JsRunOutput::Success { ctx, result: value, stdout, stderr },
        EvaluationResult::Error(message) => {
            if contains_str(message.as_str(), ALLOCATOR_REFUSAL_MARKER) {
                JsRunOutput::OutOfMemory { stdout, stderr }
            } else {
                JsRunOutput::RuntimeError { ctx, message, stdout, stderr }
            }
        },
    }
}

/// Finishes one run of the guest. `call` is how the call into the guest
/// ended: normally, or with a trap and its message. The streams and the
/// result file are drained in every case. The captured output is kept in
/// every classified outcome, including the ones that give up the context.
pub fn finish_run<C>(
    ctx: C,
    call: Result<(), String>,
    stdout: &mut StdoutPipe,
    stderr: &mut StdoutPipe,
    output: &mut StdoutPipe,
) -> (r: Result<JsRunOutput<C>, RunFailure>)
    ensures
        final(stdout)@ == Seq::<u8>::empty(),
        final(stderr)@ == Seq::<u8>::empty(),
        call is Ok ==> final(output)@ == Seq::<u8>::empty(),
        !valid_utf8(old(stdout)@) || !valid_utf8(old(stderr)@) ==> r matches Err(RunFailure::Utf8(_)),
        valid_utf8(old(stdout)@) && valid_utf8(old(stderr)@) ==> {
            let out = decode_utf8(old(stdout)@);
            let err = decode_utf8(old(stderr)@);
            match call {
                Err(m) => {
                    &&& classifies_trap(None::<JsRunOutput<C>>, encode_utf8(m@), out, err)
                        ==> (r matches Err(RunFailure::Trap(t)) && t@ == m@)
                    &&& (r matches Ok(o) ==> classifies_trap(Some(o), encode_utf8(m@), out, err))
                    &&& !classifies_trap(None::<JsRunOutput<C>>, encode_utf8(m@), out, err) ==> r is Ok
                },
                Ok(_) => {
                    let text = decode_utf8(old(output)@);
                    &&& !valid_utf8(old(output)@) ==> (r matches Err(RunFailure::Utf8(_)))
                    &&& valid_utf8(old(output)@) && !is_framed(text, ok_key()) && !is_framed(
                        text,
                        err_key(),
                    ) ==> (r matches Err(RunFailure::Decode(DecodeError::Malformed)))
                    &&& valid_utf8(old(output)@) ==> match decoded(text) {
                        Some(x) => r matches Ok(o) && classifies_evaluation(o, ctx, x, out, err),
                        None => r matches Err(RunFailure::Decode(_)),
                    }
                },
            }
        },
{
    let out = match stdout.read_all_to_string() {
        Ok(s) => s,
        Err(e) => {
            let _ = stderr.read_all();
            if call.is_ok() {
                let _ = output.read_all();
            }
            return Err(RunFailure::Utf8(e));
        },
    };
    let err = match stderr.read_all_to_string() {
        Ok(s) => s,
        Err(e) => {
            if call.is_ok() {
                let _ = output.read_all();
            }
            return Err(RunFailure::Utf8(e));
        },
    };
    match call {
        Err(message) => match classify_trap(message.as_str(), out, err) {
            Some(o) => Ok(o),
            None => Err(RunFailure::Trap(message)),
        },
        Ok(()) => {
            let text = match output.read_all_to_string() {
                Ok(s) => s,
                Err(e) => {
                    return Err(RunFailure::Utf8(e));
                },
            };
            match EvaluationResult::from_str(text.as_str()) {
                Ok(result) => Ok(classify_evaluation(ctx, result, out, err)),
                Err(e) => Err(RunFailure::Decode(e)),
            }
        },
    }
}

} // verus!
