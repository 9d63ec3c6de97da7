use secure_js_sandbox::flow::{
    begin, finish, fresh_context, fuel_top_up, init_finished, internal_error, script_finished,
    Config, RequestBody, ResponseBody, ResponseStage, Step,
};
use secure_js_sandbox::outcome::JsRunOutput;
use secure_js_sandbox::store::{MemoryUsage, SandboxStoreCore};
use serde_json::Value;

/// A stand-in guest that knows two scripts: `globalThis.x = N` and `x+1`.
struct FakeVm {
    x: Option<i64>,
    fuel: u64,
}

impl MemoryUsage for FakeVm {
    fn memory_consumed(&self) -> usize {
        1024
    }
}

fn run(mut vm: FakeVm, script: &str) -> JsRunOutput<FakeVm> {
    if let Some(n) = script.strip_prefix("globalThis.x = ") {
        vm.x = Some(n.parse().unwrap());
        return JsRunOutput::Success { ctx: vm, result: None, stdout: String::new(), stderr: String::new() };
    }
    if script == "while(true){}" {
        return JsRunOutput::OutOfFuel { stdout: String::new(), stderr: String::new() };
    }
    match vm.x {
        Some(x) => JsRunOutput::Success {
            ctx: vm,
            result: Some(Value::from(x + 1)),
            stdout: String::new(),
            stderr: String::new(),
        },
        None => JsRunOutput::RuntimeError {
            ctx: vm,
            message: "ReferenceError: x is not defined".to_string(),
            stdout: String::new(),
            stderr: String::new(),
        },
    }
}

fn config() -> Config {
    Config {
        port: 3000,
        memory_limit_bytes_sandbox_cache: 128 * 1024 * 1024,
        memory_limit_bytes_per_sandbox: 50 * 1024 * 1024,
        max_table_elements_per_sandbox: 10_000,
        fuel_per_init: 440_000_000,
        fuel_per_call: 440_000_000,
    }
}

fn handle(req: &RequestBody, store: &mut SandboxStoreCore<FakeVm>, log: &mut Vec<&'static str>) -> ResponseBody {
    let config = config();
    let mut step = begin(req, &config, store);
    loop {
        step = match step {
            Step::CreateContext { fuel } => {
                log.push("create");
                fresh_context(req, FakeVm { x: None, fuel })
            }
            Step::RunInit { ctx, script } => {
                log.push("init");
                init_finished(run(ctx, &script))
            }
            Step::RunScript { mut ctx } => {
                log.push("script");
                ctx.fuel += fuel_top_up(ctx.fuel, config.fuel_per_call);
                script_finished(req, run(ctx, &req.script))
            }
            Step::Respond { response, keep } => {
                let bytes = keep.as_ref().map(|vm| vm.memory_consumed()).unwrap_or(0);
                finish(req, keep, bytes, store);
                return response;
            }
        }
    }
}

fn request(id: Option<&str>, init: Option<&str>, script: &str) -> RequestBody {
    RequestBody {
        sandbox_id: id.map(|s| s.to_string()),
        init_script: init.map(|s| s.to_string()),
        script: script.to_string(),
    }
}

fn result_of(r: ResponseBody) -> Option<Value> {
    match r {
        ResponseBody::Success { result, .. } => result,
        _ => panic!("expected success"),
    }
}

#[test]
fn reuse_with_matching_init_scenario() {
    let mut store = SandboxStoreCore::new(Some(128 * 1024 * 1024));
    let req = request(Some("A"), Some("globalThis.x = 41"), "x+1");
    let mut log = Vec::new();
    assert_eq!(result_of(handle(&req, &mut store, &mut log)), Some(Value::from(42)));
    assert_eq!(log, vec!["create", "init", "script"]);
    let mut log = Vec::new();
    assert_eq!(result_of(handle(&req, &mut store, &mut log)), Some(Value::from(42)));
    assert_eq!(log, vec!["script"]);
}

#[test]
fn reuse_with_mismatched_init_scenario() {
    let mut store = SandboxStoreCore::new(Some(128 * 1024 * 1024));
    let mut log = Vec::new();
    let first = request(Some("A"), Some("globalThis.x = 41"), "x+1");
    handle(&first, &mut store, &mut log);
    handle(&first, &mut store, &mut log);
    let mut log = Vec::new();
    let second = request(Some("A"), Some("globalThis.x = 100"), "x+1");
    assert_eq!(result_of(handle(&second, &mut store, &mut log)), Some(Value::from(101)));
    assert_eq!(log, vec!["create", "init", "script"]);
    let mut log = Vec::new();
    assert_eq!(result_of(handle(&first, &mut store, &mut log)), Some(Value::from(42)));
    assert_eq!(log, vec!["create", "init", "script"]);
}

#[test]
fn request_without_id_keeps_nothing() {
    let mut store = SandboxStoreCore::new(None);
    let mut log = Vec::new();
    let req = request(None, Some("globalThis.x = 1"), "x+1");
    assert_eq!(result_of(handle(&req, &mut store, &mut log)), Some(Value::from(2)));
    assert_eq!(store.memory_consumed(), 0);
}

#[test]
fn runtime_error_keeps_context_and_out_of_fuel_does_not() {
    let mut store = SandboxStoreCore::new(None);
    let mut log = Vec::new();
    let r = handle(&request(Some("B"), None, "x+1"), &mut store, &mut log);
    match r {
        ResponseBody::RuntimeError { stage, message, .. } => {
            assert!(stage == ResponseStage::Script);
            assert!(message.contains("x is not defined"));
        }
        _ => panic!("expected a runtime error"),
    }
    assert_eq!(store.memory_consumed(), 1024);
    let r = handle(&request(Some("B"), None, "while(true){}"), &mut store, &mut log);
    assert!(matches!(r, ResponseBody::OutOfFuel { stage: ResponseStage::Script, .. }));
    assert_eq!(store.memory_consumed(), 0);
}

#[test]
fn failing_init_is_reported_at_init_stage() {
    let mut store = SandboxStoreCore::new(None);
    let mut log = Vec::new();
    let r = handle(&request(Some("C"), Some("while(true){}"), "x+1"), &mut store, &mut log);
    assert!(matches!(r, ResponseBody::OutOfFuel { stage: ResponseStage::Init, .. }));
    assert_eq!(log, vec!["create", "init"]);
    assert_eq!(store.memory_consumed(), 0);
}

#[test]
fn fuel_is_topped_up_to_the_per_call_budget() {
    assert_eq!(fuel_top_up(0, 440_000_000), 440_000_000);
    assert_eq!(fuel_top_up(40_000_000, 440_000_000), 400_000_000);
    assert_eq!(fuel_top_up(500_000_000, 440_000_000), 0);
    assert_eq!(fuel_top_up(440_000_000, 440_000_000), 0);
}

#[test]
fn status_codes_and_stage_names() {
    let ok = ResponseBody::Success { result: None, stdout: String::new(), stderr: String::new() };
    assert_eq!(ok.status_code(), 200);
    assert_eq!(ResponseBody::ParseBodyError("bad".to_string()).status_code(), 400);
    assert_eq!(internal_error(ResponseStage::Init).status_code(), 500);
    let oom = ResponseBody::OutOfMemory { stage: ResponseStage::Script, stdout: String::new(), stderr: String::new() };
    assert_eq!(oom.status_code(), 400);
    assert_eq!(ResponseStage::Init.to_string(), "INIT");
    assert_eq!(ResponseStage::Script.to_string(), "SCRIPT");
    match internal_error(ResponseStage::Script) {
        ResponseBody::InternalError(ResponseStage::Script, m) => {
            assert_eq!(m, "Internal error while evaluating script.")
        }
        _ => panic!("expected an internal error"),
    }
}

#[test]
fn limits_come_from_config() {
    let l = config().limits();
    assert_eq!(l.max_bytes, 50 * 1024 * 1024);
    assert_eq!(l.max_table_elements, 10_000);
}
