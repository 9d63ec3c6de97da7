use secure_js_sandbox::guest::{evaluation_result, Completion};
use secure_js_sandbox::outcome::{
    classify_evaluation, classify_trap, contains_str, finish_run, JsRunOutput, RunFailure,
};
use secure_js_sandbox::pipe::StdoutPipe;
use secure_js_sandbox::protocol::EvaluationResult;
use serde_json::Value;

fn pipe_with(text: &str) -> StdoutPipe {
    let mut p = StdoutPipe::new();
    p.write(text.as_bytes());
    p
}

fn finish(call: Result<(), String>, out: &str, err: &str, doc: &str) -> Result<JsRunOutput<u32>, RunFailure> {
    let mut stdout = pipe_with(out);
    let mut stderr = pipe_with(err);
    let mut output = pipe_with(doc);
    let r = finish_run(7u32, call, &mut stdout, &mut stderr, &mut output);
    assert!(stdout.read_all().is_empty());
    assert!(stderr.read_all().is_empty());
    r
}

fn guest_document(c: Completion) -> String {
    evaluation_result(c).to_string().unwrap()
}

#[test]
fn substring_search() {
    assert!(contains_str("xx rust_oom yy", "rust_oom"));
    assert!(contains_str("rust_oom", "rust_oom"));
    assert!(contains_str("abc", ""));
    assert!(!contains_str("rust_oo", "rust_oom"));
    assert!(!contains_str("", "a"));
}

#[test]
fn fuel_trap_is_out_of_fuel_and_keeps_output() {
    let r = classify_trap::<u32>(
        "error while executing: all fuel consumed by WebAssembly",
        "partial".to_string(),
        "warn".to_string(),
    );
    match r {
        Some(JsRunOutput::OutOfFuel { stdout, stderr }) => {
            assert_eq!(stdout, "partial");
            assert_eq!(stderr, "warn");
        }
        _ => panic!("expected out of fuel"),
    }
}

#[test]
fn oom_trap_is_out_of_memory() {
    let r = classify_trap::<u32>("wasm trap: rust_oom", String::new(), String::new());
    assert!(matches!(r, Some(JsRunOutput::OutOfMemory { .. })));
}

#[test]
fn other_trap_is_not_classified() {
    let r = classify_trap::<u32>("unreachable executed", String::new(), String::new());
    assert!(r.is_none());
}

#[test]
fn allocator_refusal_error_is_out_of_memory() {
    let msg = "RangeError: memory allocation failed because the memory allocator returned a error";
    let r = classify_evaluation(1u32, EvaluationResult::Error(msg.to_string()), String::new(), String::new());
    assert!(matches!(r, JsRunOutput::OutOfMemory { .. }));
}

#[test]
fn other_error_is_runtime_error_with_context() {
    let r = classify_evaluation(1u32, EvaluationResult::Error("Error: nope".to_string()), "o".to_string(), "e".to_string());
    match r {
        JsRunOutput::RuntimeError { ctx, message, stdout, stderr } => {
            assert_eq!(ctx, 1);
            assert_eq!(message, "Error: nope");
            assert_eq!(stdout, "o");
            assert_eq!(stderr, "e");
        }
        _ => panic!("expected a runtime error"),
    }
}

#[test]
fn pure_expression_scenario() {
    let doc = guest_document(Completion::Json(Value::from(3u64)));
    match finish(Ok(()), "", "", &doc).ok().unwrap() {
        JsRunOutput::Success { ctx, result, stdout, stderr } => {
            assert_eq!(ctx, 7);
            assert_eq!(result, Some(Value::from(3u64)));
            assert_eq!(stdout, "");
            assert_eq!(stderr, "");
        }
        _ => panic!("expected success"),
    }
}

#[test]
fn undefined_result_scenario() {
    let doc = guest_document(Completion::Undefined);
    assert_eq!(doc, "{\"Ok\":null}");
    match finish(Ok(()), "", "", &doc).ok().unwrap() {
        JsRunOutput::Success { result, .. } => assert_eq!(result, None),
        _ => panic!("expected success"),
    }
}

#[test]
fn thrown_error_scenario() {
    let doc = guest_document(Completion::ThrownError("Error: nope".to_string()));
    match finish(Ok(()), "", "", &doc).ok().unwrap() {
        JsRunOutput::RuntimeError { message, .. } => assert!(message.contains("nope")),
        _ => panic!("expected a runtime error"),
    }
}

#[test]
fn fuel_exhaustion_scenario() {
    let call = Err("all fuel consumed by WebAssembly".to_string());
    match finish(call, "printed before the trap", "", "").ok().unwrap() {
        JsRunOutput::OutOfFuel { stdout, .. } => assert_eq!(stdout, "printed before the trap"),
        _ => panic!("expected out of fuel"),
    }
}

#[test]
fn memory_exhaustion_scenario() {
    let doc = guest_document(Completion::ThrownError(
        "memory allocation failed because the memory allocator returned a error".to_string(),
    ));
    assert!(matches!(finish(Ok(()), "", "", &doc).ok().unwrap(), JsRunOutput::OutOfMemory { .. }));
}

#[test]
fn unknown_trap_is_a_host_failure() {
    match finish(Err("indirect call type mismatch".to_string()), "", "", "") {
        Err(RunFailure::Trap(m)) => assert_eq!(m, "indirect call type mismatch"),
        _ => panic!("expected a host failure"),
    }
}

#[test]
fn bad_result_file_is_a_host_failure() {
    assert!(matches!(finish(Ok(()), "", "", "not json"), Err(RunFailure::Decode(_))));
    let mut stdout = StdoutPipe::new();
    stdout.write(&[0xc3]);
    let mut stderr = StdoutPipe::new();
    let mut output = pipe_with("{\"Ok\":null}");
    let r = finish_run(1u32, Ok(()), &mut stdout, &mut stderr, &mut output);
    assert!(matches!(r, Err(RunFailure::Utf8(_))));
    assert!(output.read_all().is_empty());
}

#[test]
fn guest_answers() {
    assert!(matches!(evaluation_result(Completion::Undefined), EvaluationResult::Value(None)));
    match evaluation_result(Completion::Json(Value::Null)) {
        EvaluationResult::Value(Some(v)) => assert_eq!(v, Value::Null),
        _ => panic!("expected a null value"),
    }
    match evaluation_result(Completion::Unserializable("[object Foo]".to_string())) {
        EvaluationResult::Error(m) => assert_eq!(m, "Result [object Foo] could not be serialized to JSON"),
        _ => panic!("expected an error"),
    }
    match evaluation_result(Completion::ThrownValue("42".to_string())) {
        EvaluationResult::Error(m) => assert_eq!(m, "Non error thrown: 42"),
        _ => panic!("expected an error"),
    }
}
