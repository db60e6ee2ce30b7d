//! The task that runs an isolate: what it does with its messages and with what comes of them.

use vstd::prelude::*;

use crate::base::deno::{copied_of_js, CopyRegs, ProxiedV8Value, ProxyV8Client};
use crate::base::luau::{lua_views, ProxiedLuaValue, LAST_ID};
use crate::deno::bridge::{
    exception_text, property_refused, property_refused_text, thrown, thrown_text, ScriptOutcome,
    V8IsolateManagerClient,
};
use crate::deno::bridge::V8_MIN_STACK_SIZE;
use crate::deno::tree::{
    all_to_v8, proxy_to_v8, tree_of, tree_views, trees_of, FinalizerList, LuaRef, V8Tree,
};
use crate::denobridge::bridge::MIN_HEAP_LIMIT;
use crate::denobridge::jsvalue::JsValue;
use crate::registry::{ObjectRef, RegistryView};
use crate::text::join;

verus! {

/// How the thread of an isolate is made.
#[derive(Debug, PartialEq, Eq)]
pub struct V8IsolateManagerThreadData {
    pub stack_size: usize,
    pub heap_limit: usize,
    pub id: String,
}

impl V8IsolateManagerThreadData {
    /// The stack that the thread gets: what was asked for, and no less than the least.
    pub fn thread_stack_size(&self) -> (r: usize)
        ensures
            r == if self.stack_size < V8_MIN_STACK_SIZE {
                V8_MIN_STACK_SIZE
            } else {
                self.stack_size
            },
    {
        if self.stack_size < V8_MIN_STACK_SIZE {
            V8_MIN_STACK_SIZE
        } else {
            self.stack_size
        }
    }

    /// The heap that the isolate gets: what was asked for, and no less than the least.
    pub fn isolate_heap_limit(&self) -> (r: usize)
        ensures
            r == if self.heap_limit < MIN_HEAP_LIMIT {
                MIN_HEAP_LIMIT
            } else {
                self.heap_limit
            },
    {
        if self.heap_limit < MIN_HEAP_LIMIT {
            MIN_HEAP_LIMIT
        } else {
            self.heap_limit
        }
    }
}

/// The heap limit while an isolate that ran out of heap is ended.
pub fn spiked_heap_limit(current_value: usize) -> (r: usize)
    requires
        5 * current_value <= usize::MAX,
    ensures
        r == 5 * current_value,
{
    5 * current_value
}

/// What an isolate is asked to do.
#[derive(Debug, PartialEq, Eq)]
pub enum V8IsolateManagerMessage {
    Shutdown,
    ErrSubscribe,
    CodeExec { code: String, args: Vec<ProxiedLuaValue> },
    GetObjectProperty { obj_id: i64, key: ProxiedLuaValue },
}

/// What an isolate does with a message.
#[derive(Debug, PartialEq, Eq)]
pub enum ManagerAction {
    /// End.
    Stop,
    /// Answer with a receiver of the errors.
    Subscribe,
    /// Compile and run the code, then go on with the arguments.
    Compile { code: String, args: Vec<ProxiedLuaValue> },
    /// Read that property of that object.
    Read { obj: ObjectRef, key: V8Tree },
    /// Answer with an error.
    Refuse(String),
}

/// How reading a property came out.
#[derive(Debug, PartialEq, Eq)]
pub enum PropertyOutcome {
    /// It could not be read, with what was thrown.
    NotRead(Option<String>),
    /// What was read, and what was thrown while it was looked at.
    Value { value: JsValue, thrown: Option<String> },
}

/// The state of the task that runs an isolate.
pub struct IsolateState {
    pub proxy_client: ProxyV8Client,
    pub finalizers: FinalizerList,
    /// How many calls are under way.
    pub running: usize,
    /// The last error of the event loop.
    pub error: Option<String>,
}

impl IsolateState {
    /// The state is in order.
    pub open spec fn wf(&self) -> bool {
        self.proxy_client.wf() && self.finalizers.wf()
    }

    /// The task before its first message.
    pub fn new() -> (r: Self)
        ensures
            r.wf(),
            ({
                let nothing = RegistryView { live: Map::empty(), next: 1, last: LAST_ID };
                r.proxy_client.regs() == (CopyRegs { obj: nothing, func: nothing, promise: nothing })
            }),
            r.finalizers@ == Seq::<LuaRef>::empty(),
            r.running == 0,
            r.error is None,
    {
        IsolateState {
            proxy_client: ProxyV8Client::new(),
            finalizers: FinalizerList::new(),
            running: 0,
            error: None,
        }
    }

    /// What the task does with a message.
    pub fn on_message(&mut self, msg: V8IsolateManagerMessage) -> (r: ManagerAction)
        requires
            old(self).wf(),
        ensures
            final(self).wf(),
            final(self).proxy_client == old(self).proxy_client,
            final(self).running == old(self).running,
            final(self).error == old(self).error,
            match msg {
                V8IsolateManagerMessage::GetObjectProperty { obj_id, key } => {
                    let objs = old(self).proxy_client.obj_registry@;
                    let want = tree_of(key@, old(self).finalizers@, 0);
                    if !objs.live.dom().contains(obj_id) {
                        final(self).finalizers@ == old(self).finalizers@ && (
                        r matches ManagerAction::Refuse(e) && e@ == "Object ID not found"@)
                    } else {
                        &&& final(self).finalizers@ == want.held
                        &&& match want.res {
                            Err(t) => r matches ManagerAction::Refuse(e) && e@ == t,
                            Ok(t) => r matches ManagerAction::Read { obj, key: k } && obj
                                == objs.live[obj_id].obj && k@ == t,
                        }
                    }
                },
                _ => final(self).finalizers@ == old(self).finalizers@,
            },
            match msg {
                V8IsolateManagerMessage::Shutdown => r is Stop,
                V8IsolateManagerMessage::ErrSubscribe => r is Subscribe,
                V8IsolateManagerMessage::CodeExec { code, args } => r == (ManagerAction::Compile {
                    code,
                    args,
                }),
                V8IsolateManagerMessage::GetObjectProperty { .. } => r is Refuse || r is Read,
            },
    {
        match msg {
            V8IsolateManagerMessage::Shutdown => ManagerAction::Stop,
            V8IsolateManagerMessage::ErrSubscribe => ManagerAction::Subscribe,
            V8IsolateManagerMessage::CodeExec { code, args } => ManagerAction::Compile {
                code,
                args,
            },
            V8IsolateManagerMessage::GetObjectProperty { obj_id, key } => {
                let obj = match self.proxy_client.obj_registry.get(obj_id) {
                    Some(obj) => obj,
                    None => return ManagerAction::Refuse("Object ID not found".to_owned()),
                };
                match proxy_to_v8(&key, &mut self.finalizers, 0) {
                    Ok(key) => ManagerAction::Read { obj, key },
                    Err(e) => ManagerAction::Refuse(e),
                }
            },
        }
    }

    /// What the task calls when code was compiled and run: the function and its arguments.
    pub fn on_compiled(&mut self, outcome: ScriptOutcome, args: &Vec<ProxiedLuaValue>) -> (r:
        Result<(u64, Vec<V8Tree>), String>)
        requires
            old(self).wf(),
            old(self).running < usize::MAX,
        ensures
            final(self).wf(),
            final(self).proxy_client == old(self).proxy_client,
            final(self).error == old(self).error,
            final(self).running == old(self).running + if r is Ok {
                1int
            } else {
                0
            },
            match outcome {
                ScriptOutcome::Function(f) => {
                    let want = trees_of(
                        lua_views(args@),
                        0,
                        Seq::empty(),
                        old(self).finalizers@,
                        0,
                    );
                    &&& final(self).finalizers@ == want.held
                    &&& match want.res {
                        Err(t) => r matches Err(e) && e@ == t,
                        Ok(vs) => r matches Ok(call) && call.0 == f && tree_views(call.1@) == vs,
                    }
                },
                ScriptOutcome::NotCompiled(e) => final(self).finalizers@ == old(self).finalizers@
                    && (r matches Err(t) && t@ == thrown(
                    "Failed to compile script"@,
                    exception_text(e),
                )),
                ScriptOutcome::NotRun(e) => final(self).finalizers@ == old(self).finalizers@ && (
                r matches Err(t) && t@ == thrown("Failed to run script"@, exception_text(e))),
                ScriptOutcome::NoFunction => final(self).finalizers@ == old(self).finalizers@ && (
                r matches Err(t) && t@ == "Script did not return a function"@),
            },
    {
        let func = match V8IsolateManagerClient::compile_code(outcome) {
            Ok(f) => f,
            Err(e) => return Err(e),
        };
        match all_to_v8(args, &mut self.finalizers, 0) {
            Err(e) => Err(e),
            Ok(args) => {
                self.running = self.running + 1;
                Ok((func, args))
            },
        }
    }

    /// What the task answers when a property was read.
    pub fn on_property(&mut self, outcome: PropertyOutcome) -> (r: Result<ProxiedV8Value, String>)
        requires
            old(self).wf(),
        ensures
            final(self).wf(),
            final(self).finalizers == old(self).finalizers,
            final(self).running == old(self).running,
            final(self).error == old(self).error,
            match outcome {
                PropertyOutcome::NotRead(e) => final(self).proxy_client == old(self).proxy_client
                    && (r matches Err(t) && t@ == thrown(
                    "Failed to get object property"@,
                    exception_text(e),
                )),
                PropertyOutcome::Value { value, thrown } => {
                    let want = copied_of_js(value@, old(self).proxy_client.regs(), 0);
                    &&& final(self).proxy_client.regs() == want.regs
                    &&& match (r, want.res) {
                        (Ok(p), Ok(v)) => p@ == v,
                        (Err(e), Err(t)) => e@ == property_refused(exception_text(thrown), t),
                        _ => false,
                    }
                },
            },
    {
        match outcome {
            PropertyOutcome::NotRead(e) => Err(thrown_text("Failed to get object property", e)),
            PropertyOutcome::Value { value, thrown } => {
                match ProxiedV8Value::proxy_from_v8(&value, &mut self.proxy_client, 0) {
                    Ok(v) => Ok(v),
                    Err(e) => Err(property_refused_text(thrown, e)),
                }
            },
        }
    }

    /// What the task answers when a call is over.
    pub fn on_finished(&mut self, result: Result<JsValue, String>) -> (r: Result<
        ProxiedV8Value,
        String,
    >)
        requires
            old(self).wf(),
            old(self).running > 0,
        ensures
            final(self).wf(),
            final(self).finalizers == old(self).finalizers,
            final(self).running == old(self).running - 1,
            final(self).error == old(self).error,
            match result {
                Ok(value) => {
                    let want = copied_of_js(value@, old(self).proxy_client.regs(), 0);
                    &&& final(self).proxy_client.regs() == want.regs
                    &&& match (r, want.res) {
                        (Ok(p), Ok(v)) => p@ == v,
                        (Err(e), Err(t)) => e@ == t,
                        _ => false,
                    }
                },
                Err(t) => final(self).proxy_client == old(self).proxy_client && (r matches Err(e)
                    && e@ == "JavaScript execution error: "@ + t@),
            },
    {
        self.running = self.running - 1;
        match result {
            Ok(value) => ProxiedV8Value::proxy_from_v8(&value, &mut self.proxy_client, 0),
            Err(e) => Err(join("JavaScript execution error: ", &e)),
        }
    }

    /// Whether the event loop is run: as long as a call is under way.
    pub fn runs_event_loop(&self) -> (r: bool)
        ensures
            r <==> self.running > 0,
    {
        self.running > 0
    }

    /// Takes note of how the event loop ended. An error takes the place of the last one.
    pub fn on_event_loop(&mut self, res: Result<(), String>)
        requires
            old(self).wf(),
        ensures
            final(self).wf(),
            final(self).proxy_client == old(self).proxy_client,
            final(self).finalizers == old(self).finalizers,
            final(self).running == old(self).running,
            final(self).error == match res {
                Ok(_) => old(self).error,
                Err(e) => Some(e),
            },
    {
        match res {
            Ok(_) => {},
            Err(e) => self.error = Some(e),
        }
    }
}

/// How a request to an isolate ends, given whether it was sent and whether it was answered.
pub fn request_result<T>(what: &str, sent: bool, answer: Option<T>) -> (r: Result<T, String>)
    ensures
        !sent ==> (r matches Err(e) && e@ == "Failed to send message to isolate manager"@),
        sent ==> match answer {
            Some(x) => r == Ok::<T, String>(x),
            None => r matches Err(e) && e@ == "Failed to receive "@ + what@ + " response"@,
        },
{
    if !sent {
        return Err("Failed to send message to isolate manager".to_owned());
    }
    match answer {
        Some(x) => Ok(x),
        None => {
            let head = join("Failed to receive ", what);
            Err(join(&head, " response"))
        },
    }
}

/// What running code gives: the answer of the isolate, where there is one.
pub fn eval_result(sent: bool, answer: Option<Result<ProxiedV8Value, String>>) -> (r: Result<
    ProxiedV8Value,
    String,
>)
    ensures
        !sent ==> (r matches Err(e) && e@ == "Failed to send message to isolate manager"@),
        sent ==> match answer {
            Some(x) => r == x,
            None => r matches Err(e) && e@ == "Failed to receive CodeExec response"@,
        },
{
    proof {
        reveal_strlit("Failed to receive ");
        reveal_strlit("CodeExec");
        reveal_strlit(" response");
        reveal_strlit("Failed to receive CodeExec response");
        assert("Failed to receive "@ + "CodeExec"@ + " response"@
            =~= "Failed to receive CodeExec response"@);
    }
    match request_result("CodeExec", sent, answer) {
        Ok(x) => x,
        Err(e) => Err(e),
    }
}

} // verus!
