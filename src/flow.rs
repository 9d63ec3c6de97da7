//! The decisions of one evaluation request.
//!
//! A request names a script, and optionally an id under which its context is
//! kept for later requests and an init-script that prepares a fresh context.
//! The embedding program drives the request as a series of steps: each
//! function here takes what the last step produced and says what to do next,
//! while the program does the work itself (making a context, running the
//! guest) and reports back.

use crate::outcome::JsRunOutput;
use crate::store::{
    after_set, budget_of, init_view, lookup, remove_id, SandboxStoreCore,
    StoredContext,
};
use serde_json::Value as JsonValue;
use vstd::prelude::*;

verus! {

/// The caps of one sandbox: bytes of linear memory and elements of its
/// function table.
pub struct MemoryLimits {
    pub max_bytes: usize,
    pub max_table_elements: u32,
}

/// The service's settings.
#[derive(Clone, Copy)]
pub struct Config {
    pub port: u16,
    pub memory_limit_bytes_sandbox_cache: usize,
    pub memory_limit_bytes_per_sandbox: usize,
    pub max_table_elements_per_sandbox: u32,
    pub fuel_per_init: u64,
    pub fuel_per_call: u64,
}

impl Config {
    /// The caps for each fresh sandbox.
    pub fn limits(&self) -> (r: MemoryLimits)
        ensures
            r.max_bytes == self.memory_limit_bytes_per_sandbox,
            r.max_table_elements == self.max_table_elements_per_sandbox,
    {
        MemoryLimits {
            max_bytes: self.memory_limit_bytes_per_sandbox,
            max_table_elements: self.max_table_elements_per_sandbox,
        }
    }
}

/// One evaluation request.
pub struct RequestBody {
    pub sandbox_id: Option<String>,
    pub init_script: Option<String>,
    pub script: String,
}

/// Which evaluation of a request an outcome belongs to.
#[derive(PartialEq, Eq, Structural, Clone, Copy)]
pub enum ResponseStage {
    Init,
    Script,
}

impl ResponseStage {
    /// `INIT` or `SCRIPT`.
    pub fn to_string(&self) -> (r: String)
        ensures
            r@ == match self {
                ResponseStage::Init => seq!['I', 'N', 'I', 'T'],
                ResponseStage::Script => seq!['S', 'C', 'R', 'I', 'P', 'T'],
            },
    {
        match self {
            ResponseStage::Init => {
                proof {
                    reveal_strlit("INIT");
                }
                "INIT".to_owned()
            },
            ResponseStage::Script => {
                proof {
                    reveal_strlit("SCRIPT");
                }
                "SCRIPT".to_owned()
            },
        }
    }
}

/// The reply to a request.
pub enum ResponseBody {
    ParseBodyError(String),
    InternalError(ResponseStage, String),
    Success { result: Option<JsonValue>, stdout: String, stderr: String },
    RuntimeError { stage: ResponseStage, message: String, stdout: String, stderr: String },
    OutOfFuel { stage: ResponseStage, stdout: String, stderr: String },
    OutOfMemory { stage: ResponseStage, stdout: String, stderr: String },
}

impl ResponseBody {
    /// The HTTP status: 200 for success, 500 for a fault of the host, 400
    /// for everything else.
    pub fn status_code(&self) -> (r: u16)
        ensures
            r == match self {
                ResponseBody::Success { .. } => 200u16,
                ResponseBody::InternalError(..) => 500u16,
                _ => 400u16,
            },
    {
        match self {
            ResponseBody::ParseBodyError(_) => 400,
            ResponseBody::InternalError(_, _) => 500,
            ResponseBody::Success { .. } => 200,
            ResponseBody::RuntimeError { .. } => 400,
            ResponseBody::OutOfFuel { .. } => 400,
            ResponseBody::OutOfMemory { .. } => 400,
        }
    }
}

/// What the embedding program does next.
pub enum Step<C> {
    /// Make a fresh context, add `fuel` to it and pass it to `fresh_context`.
    CreateContext { fuel: u64 },
    /// Run `script` in `ctx` and pass the outcome to `init_finished`.
    RunInit { ctx: C, script: String },
    /// Add `fuel_top_up` of the context's remaining fuel, run the request's
    /// script and pass the outcome to `script_finished`.
    RunScript { ctx: C },
    /// Measure the memory of `keep`, if any, pass both to `finish`, then
    /// send `response`.
    Respond { response: ResponseBody, keep: Option<C> },
}

/// The first step: a context kept under the request's id and prepared by
/// the same init-script is taken out of the store and reused (its
/// init-script is not run again); otherwise a fresh context gets the init
/// fuel. Any context kept under the id leaves the store either way.
pub fn begin<C>(req: &RequestBody, config: &Config, store: &mut SandboxStoreCore<C>) -> (r: Step<C>)
    requires
        old(store).wf(),
    ensures
        final(store).wf(),
        final(store).limit() == old(store).limit(),
        match req.sandbox_id {
            Some(id) => {
                &&& final(store)@ == remove_id(old(store)@, id@)
                &&& match lookup(old(store)@, id@, init_view(req.init_script)) {
                    Some(c) => r matches Step::RunScript { ctx } && ctx == c,
                    None => r matches Step::CreateContext { fuel } && fuel == config.fuel_per_init,
                }
            },
            None => {
                &&& final(store)@ == old(store)@
                &&& r matches Step::CreateContext { fuel } && fuel == config.fuel_per_init
            },
        },
{
    let cached = match &req.sandbox_id {
        Some(id) => store.get(id.as_str(), &req.init_script),
        None => None,
    };
    match cached {
        Some(ctx) => Step::RunScript { ctx },
        None => Step::CreateContext { fuel: config.fuel_per_init },
    }
}

/// A fresh context runs the init-script first, if the request has one.
pub fn fresh_context<C>(req: &RequestBody, ctx: C) -> (r: Step<C>)
    ensures
        match req.init_script {
            Some(init) => r matches Step::RunInit { ctx: c, script } && c == ctx && script@ == init@,
            None => r matches Step::RunScript { ctx: c } && c == ctx,
        },
{
    match &req.init_script {
        Some(init) => Step::RunInit { ctx, script: init.clone() },
        None => Step::RunScript { ctx },
    }
}

/// After the init-script: on success the script runs in the same context;
/// any other outcome is the reply, at the init stage, and no context is
/// kept.
pub fn init_finished<C>(out: JsRunOutput<C>) -> (r: Step<C>)
    ensures
        match out {
            JsRunOutput::Success { ctx, .. } => r matches Step::RunScript { ctx: c } && c == ctx,
            JsRunOutput::RuntimeError { message, stdout, stderr, .. } => r matches Step::Respond {
                response: ResponseBody::RuntimeError { stage, message: m, stdout: o, stderr: e },
                keep: None,
            } && stage == ResponseStage::Init && m == message && o == stdout && e == stderr,
            JsRunOutput::OutOfFuel { stdout, stderr } => r matches Step::Respond {
                response: ResponseBody::OutOfFuel { stage, stdout: o, stderr: e },
                keep: None,
            } && stage == ResponseStage::Init && o == stdout && e == stderr,
            JsRunOutput::OutOfMemory { stdout, stderr } => r matches Step::Respond {
                response: ResponseBody::OutOfMemory { stage, stdout: o, stderr: e },
                keep: None,
            } && stage == ResponseStage::Init && o == stdout && e == stderr,
        },
{
    match out {
        JsRunOutput::Success { ctx, .. } => Step::RunScript { ctx },
        JsRunOutput::RuntimeError { message, stdout, stderr, .. } => Step::Respond {
            response: ResponseBody::RuntimeError {
                stage: ResponseStage::Init,
                message,
                stdout,
                stderr,
            },
            keep: None,
        },
        JsRunOutput::OutOfFuel { stdout, stderr } => Step::Respond {
            response: ResponseBody::OutOfFuel { stage: ResponseStage::Init, stdout, stderr },
            keep: None,
        },
        JsRunOutput::OutOfMemory { stdout, stderr } => Step::Respond {
            response: ResponseBody::OutOfMemory { stage: ResponseStage::Init, stdout, stderr },
            keep: None,
        },
    }
}

/// The fuel to add before the script runs, so that it starts with at least
/// the per-call budget.
pub fn fuel_top_up(fuel_remaining: u64, fuel_per_call: u64) -> (r: u64)
    ensures
        r == if fuel_remaining < fuel_per_call {
            fuel_per_call - fuel_remaining
        } else {
            0
        },
        fuel_remaining + r >= fuel_per_call,
{
    if fuel_remaining < fuel_per_call {
        fuel_per_call - fuel_remaining
    } else {
        0
    }
}

/// After the script: the outcome becomes the reply, at the script stage. A
/// context that completed (with a value or a runtime error) is kept when
/// the request has an id; one that ran out of fuel or memory never is.
pub fn script_finished<C>(req: &RequestBody, out: JsRunOutput<C>) -> (r: Step<C>)
    ensures
        match out {
            JsRunOutput::Success { ctx, result, stdout, stderr } => r matches Step::Respond {
                response: ResponseBody::Success { result: v, stdout: o, stderr: e },
                keep,
            } && v == result && o == stdout && e == stderr && keep == if req.sandbox_id is Some {
                Some(ctx)
            } else {
                None
            },
            JsRunOutput::RuntimeError { ctx, message, stdout, stderr } => r matches Step::Respond {
                response: ResponseBody::RuntimeError { stage, message: m, stdout: o, stderr: e },
                keep,
            } && stage == ResponseStage::Script && m == message && o == stdout && e == stderr
                && keep == if req.sandbox_id is Some {
                Some(ctx)
            } else {
                None
            },
            JsRunOutput::OutOfFuel { stdout, stderr } => r matches Step::Respond {
                response: ResponseBody::OutOfFuel { stage, stdout: o, stderr: e },
                keep: None,
            } && stage == ResponseStage::Script && o == stdout && e == stderr,
            JsRunOutput::OutOfMemory { stdout, stderr } => r matches Step::Respond {
                response: ResponseBody::OutOfMemory { stage, stdout: o, stderr: e },
                keep: None,
            } && stage == ResponseStage::Script && o == stdout && e == stderr,
        },
{
    let has_id = req.sandbox_id.is_some();
    match out {
        JsRunOutput::Success { ctx, result, stdout, stderr } => Step::Respond {
            response: ResponseBody::Success { result, stdout, stderr },
            keep: if has_id {
                Some(ctx)
            } else {
                None
            },
        },
        JsRunOutput::RuntimeError { ctx, message, stdout, stderr } => Step::Respond {
            response: ResponseBody::RuntimeError {
                stage: ResponseStage::Script,
                message,
                stdout,
                stderr,
            },
            keep: if has_id {
                Some(ctx)
            } else {
                None
            },
        },
        JsRunOutput::OutOfFuel { stdout, stderr } => Step::Respond {
            response: ResponseBody::OutOfFuel { stage: ResponseStage::Script, stdout, stderr },
            keep: None,
        },
        JsRunOutput::OutOfMemory { stdout, stderr } => Step::Respond {
            response: ResponseBody::OutOfMemory { stage: ResponseStage::Script, stdout, stderr },
            keep: None,
        },
    }
}

/// The reply when running the guest failed on the host's side.
pub fn internal_error(stage: ResponseStage) -> (r: ResponseBody)
    ensures
        r matches ResponseBody::InternalError(s, m) && s == stage && m@ == match stage {
            ResponseStage::Init => "Internal error while evaluating init_script."@,
            ResponseStage::Script => "Internal error while evaluating script."@,
        },
{
    match stage {
        ResponseStage::Init => ResponseBody::InternalError(
            ResponseStage::Init,
            "Internal error while evaluating init_script.".to_owned(),
        ),
        ResponseStage::Script => ResponseBody::InternalError(
            ResponseStage::Script,
            "Internal error while evaluating script.".to_owned(),
        ),
    }
}

/// The last step: a context to keep goes back into the store under the
/// request's id and init-script, recorded with `memory_consumed`, the size
/// the embedding program measured for it when the script ended.
pub fn finish<C>(
    req: &RequestBody,
    keep: Option<C>,
    memory_consumed: usize,
    store: &mut SandboxStoreCore<C>,
)
    requires
        old(store).wf(),
    ensures
        final(store).wf(),
        final(store).limit() == old(store).limit(),
        match (keep, req.sandbox_id) {
            (Some(ctx), Some(id)) => final(store)@ == after_set(
                old(store)@,
                StoredContext {
                    id: id@,
                    init_script: init_view(req.init_script),
                    ctx: ctx,
                    bytes: memory_consumed as nat,
                },
                budget_of(old(store).limit()),
            ),
            _ => final(store)@ == old(store)@,
        },
{
    match (keep, &req.sandbox_id) {
        (Some(ctx), Some(id)) => {
            let init = match &req.init_script {
                Some(s) => Some(s.clone()),
                None => None,
            };
            store.set_with_size(id.as_str(), init, ctx, memory_consumed);
        },
        _ => {},
    }
}

} // verus!
