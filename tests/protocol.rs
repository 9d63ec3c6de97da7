use secure_js_sandbox::protocol::{request_line_for, DecodeError, EvaluationResult, Input};
use serde_json::Value;

fn round_trip(r: EvaluationResult) -> EvaluationResult {
    let text = r.to_string().unwrap();
    EvaluationResult::from_str(&text).ok().unwrap()
}

#[test]
fn absent_value_is_written_as_null() {
    let text = EvaluationResult::Value(None).to_string().unwrap();
    assert_eq!(text, "{\"Ok\":null}");
}

#[test]
fn value_and_error_documents() {
    let text = EvaluationResult::Value(Some(Value::from(3u64))).to_string().unwrap();
    assert_eq!(text, "{\"Ok\":3}");
    let text = EvaluationResult::Error("say \"nope\"".to_string()).to_string().unwrap();
    assert_eq!(text, "{\"Err\":\"say \\\"nope\\\"\"}");
}

#[test]
fn null_document_reads_as_absent_not_null() {
    match EvaluationResult::from_str("{\"Ok\":null}") {
        Ok(EvaluationResult::Value(None)) => {}
        _ => panic!("expected an absent value"),
    }
}

#[test]
fn round_trip_keeps_values() {
    let mut obj = serde_json::Map::new();
    obj.insert("a".to_string(), Value::from(vec![Value::from(1.5f64), Value::Bool(true)]));
    obj.insert("b".to_string(), Value::from("x\ny"));
    let v = Value::Object(obj);
    match round_trip(EvaluationResult::Value(Some(v.clone()))) {
        EvaluationResult::Value(Some(w)) => assert_eq!(w, v),
        _ => panic!("expected the value back"),
    }
    match round_trip(EvaluationResult::Value(None)) {
        EvaluationResult::Value(None) => {}
        _ => panic!("expected no value back"),
    }
    match round_trip(EvaluationResult::Error("Error: nope \u{1F600}".to_string())) {
        EvaluationResult::Error(m) => assert_eq!(m, "Error: nope \u{1F600}"),
        _ => panic!("expected the message back"),
    }
}

#[test]
fn round_trip_keeps_float_precision() {
    let v = Value::from(0.1f64 + 0.2f64);
    match round_trip(EvaluationResult::Value(Some(v.clone()))) {
        EvaluationResult::Value(Some(w)) => assert_eq!(w, v),
        _ => panic!("expected the value back"),
    }
}

#[test]
fn malformed_documents_are_refused() {
    for text in ["", "{}", "{\"Ok\":1", "[\"Ok\",1]", "{\"Value\":1}", "{\"ok\":1}"] {
        match EvaluationResult::from_str(text) {
            Err(DecodeError::Malformed) => {}
            _ => panic!("accepted {text:?}"),
        }
    }
}

#[test]
fn invalid_embedded_json_is_a_json_error() {
    match EvaluationResult::from_str("{\"Ok\":nope}") {
        Err(DecodeError::Json(_)) => {}
        _ => panic!("expected a JSON error"),
    }
    match EvaluationResult::from_str("{\"Err\":42}") {
        Err(DecodeError::Json(_)) => {}
        _ => panic!("expected a JSON error"),
    }
}

#[test]
fn input_document_round_trip() {
    let input = Input { script: "print(\"hi\")\n1 + 2".to_string() };
    let text = input.to_string().unwrap();
    assert_eq!(text, "{\"script\":\"print(\\\"hi\\\")\\n1 + 2\"}");
    let back = Input::from_str(&text).ok().unwrap();
    assert_eq!(back.script, input.script);
    assert!(matches!(Input::from_str("{\"code\":\"1\"}"), Err(DecodeError::Malformed)));
}

#[test]
fn request_line_ends_with_newline() {
    let line = request_line_for("1 + 2").unwrap();
    assert_eq!(line, "{\"script\":\"1 + 2\"}\n");
}

#[test]
fn deeply_nested_value_prints_but_does_not_read_back() {
    let mut v = Value::from(1u64);
    for _ in 0..200 {
        v = Value::Array(vec![v]);
    }
    let text = EvaluationResult::Value(Some(v)).to_string().unwrap();
    assert!(text.starts_with("{\"Ok\":[[["));
    assert!(matches!(EvaluationResult::from_str(&text), Err(DecodeError::Json(_))));
}

#[test]
fn error_documents_always_encode() {
    let text = EvaluationResult::Error(String::new()).to_string().unwrap();
    assert_eq!(text, "{\"Err\":\"\"}");
    match EvaluationResult::from_str(&text) {
        Ok(EvaluationResult::Error(m)) => assert_eq!(m, ""),
        _ => panic!("expected an empty message"),
    }
}
