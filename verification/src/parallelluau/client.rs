//! The child state: what it is asked, and what it does.

use vstd::prelude::*;

use crate::luau::embedder_api::{EmbedderData, EmbedderDataContext};
use crate::luau::objreg::unknown_object;
use crate::luau::value::{luau_views, LuauValue};
use crate::parallelluau::convert::{value_of_state, value_to_state};
use crate::parallelluau::many::{all_from_state, all_into_state, all_of_state, all_to_state};
use crate::parallelluau::objreg::PLuauObjectRegistryID;
use crate::parallelluau::primitives::ProxiedLuauPrimitive;
use crate::parallelluau::state::ProxyPLuaClient;
use crate::parallelluau::value::{pluau_views, PLuauView, ProxiedLuauValue};
use crate::registry::{ObjectRef, RefKind};
use crate::text::{join, join3};
use crate::transport::concurrentlyexec::StartOutcome;

verus! {

/// Memory limit for Luau isolates
pub const MIN_HEAP_LIMIT: usize = 5 * 1024 * 1024;

/// Magic number for Parallel Luau messages
///
/// Helpful to avoid common user errors like running a V8 isolate manager with a parallel luau child instead
pub const PLUAU_MESSAGE_MAGIC: usize = 2;

/// Internal representation of a message that can be sent to the parallel luau instance
#[derive(Debug, PartialEq, Eq)]
pub enum ParallelLuaMessage {
    CodeExec { filename: String, magic: usize },
    GetProperty { obj_id: PLuauObjectRegistryID, property: ProxiedLuauValue, magic: usize },
    CallFunctionChild { obj_id: PLuauObjectRegistryID, args: Vec<ProxiedLuauValue>, magic: usize },
    RequestDispose { obj_id: PLuauObjectRegistryID, magic: usize },
    Shutdown,
}

/// Whether a message is one for a child state.
pub open spec fn well_addressed(msg: ParallelLuaMessage) -> bool {
    match msg {
        ParallelLuaMessage::CodeExec { magic, .. } => magic == PLUAU_MESSAGE_MAGIC,
        ParallelLuaMessage::GetProperty { magic, .. } => magic == PLUAU_MESSAGE_MAGIC,
        ParallelLuaMessage::CallFunctionChild { magic, .. } => magic == PLUAU_MESSAGE_MAGIC,
        ParallelLuaMessage::RequestDispose { magic, .. } => magic == PLUAU_MESSAGE_MAGIC,
        ParallelLuaMessage::Shutdown => true,
    }
}

/// The name of a message.
pub open spec fn message_name(msg: ParallelLuaMessage) -> Seq<char> {
    match msg {
        ParallelLuaMessage::CodeExec { .. } => "CodeExec"@,
        ParallelLuaMessage::GetProperty { .. } => "GetProperty"@,
        ParallelLuaMessage::CallFunctionChild { .. } => "CallFunctionChild"@,
        ParallelLuaMessage::RequestDispose { .. } => "RequestDispose"@,
        ParallelLuaMessage::Shutdown => "Shutdown"@,
    }
}

/// The refusal of a message that is not for a child state.
pub open spec fn wrong_magic(name: Seq<char>) -> Seq<char> {
    "Invalid magic number in "@ + name
        + " message; are you sure you're running a parallel luau child process?"@
}

/// The refusal of a message that is not for a child state.
fn refuse_magic(name: &str) -> (r: ChildAction)
    ensures
        r matches ChildAction::Refuse(e) && e@ == wrong_magic(name@),
{
    ChildAction::Refuse(
        join3(
            "Invalid magic number in ",
            name,
            " message; are you sure you're running a parallel luau child process?",
        ),
    )
}

/// Runs a file.
#[derive(Debug, PartialEq, Eq)]
pub struct CodeExecMessage {
    pub filename: String,
}

impl CodeExecMessage {
    /// The message as it is sent.
    pub fn to_message(self) -> (r: ParallelLuaMessage)
        ensures
            well_addressed(r),
            r == (ParallelLuaMessage::CodeExec {
                filename: self.filename,
                magic: PLUAU_MESSAGE_MAGIC,
            }),
    {
        ParallelLuaMessage::CodeExec { filename: self.filename, magic: PLUAU_MESSAGE_MAGIC }
    }
}

/// Reads a property of an object.
#[derive(Debug, PartialEq, Eq)]
pub struct GetPropertyMessage {
    pub obj_id: PLuauObjectRegistryID,
    pub property: ProxiedLuauValue,
}

impl GetPropertyMessage {
    /// The message as it is sent.
    pub fn to_message(self) -> (r: ParallelLuaMessage)
        ensures
            well_addressed(r),
            r == (ParallelLuaMessage::GetProperty {
                obj_id: self.obj_id,
                property: self.property,
                magic: PLUAU_MESSAGE_MAGIC,
            }),
    {
        ParallelLuaMessage::GetProperty {
            obj_id: self.obj_id,
            property: self.property,
            magic: PLUAU_MESSAGE_MAGIC,
        }
    }
}

/// Calls a function.
#[derive(Debug, PartialEq, Eq)]
pub struct CallFunctionChildMessage {
    pub obj_id: PLuauObjectRegistryID,
    pub args: Vec<ProxiedLuauValue>,
}

impl CallFunctionChildMessage {
    /// The message as it is sent.
    pub fn to_message(self) -> (r: ParallelLuaMessage)
        ensures
            well_addressed(r),
            r == (ParallelLuaMessage::CallFunctionChild {
                obj_id: self.obj_id,
                args: self.args,
                magic: PLUAU_MESSAGE_MAGIC,
            }),
    {
        ParallelLuaMessage::CallFunctionChild {
            obj_id: self.obj_id,
            args: self.args,
            magic: PLUAU_MESSAGE_MAGIC,
        }
    }
}

/// Gives an object back.
#[derive(Debug, PartialEq, Eq)]
pub struct RequestDisposeMessage {
    pub obj_id: PLuauObjectRegistryID,
}

impl RequestDisposeMessage {
    /// The message as it is sent.
    pub fn to_message(self) -> (r: ParallelLuaMessage)
        ensures
            well_addressed(r),
            r == (ParallelLuaMessage::RequestDispose {
                obj_id: self.obj_id,
                magic: PLUAU_MESSAGE_MAGIC,
            }),
    {
        ParallelLuaMessage::RequestDispose { obj_id: self.obj_id, magic: PLUAU_MESSAGE_MAGIC }
    }
}

/// Ends the child state.
#[derive(Debug, PartialEq, Eq)]
pub struct ShutdownMessage;

impl ShutdownMessage {
    /// The message as it is sent.
    pub fn to_message(self) -> (r: ParallelLuaMessage)
        ensures
            well_addressed(r),
            r is Shutdown,
    {
        ParallelLuaMessage::Shutdown
    }
}

/// What the child state does with a message.
#[derive(Debug, PartialEq, Eq)]
pub enum ChildAction {
    /// Answer with an error.
    Refuse(String),
    /// Look for the file.
    FindFile(String),
    /// Read the table at the key, then go on with the account.
    Index { table: ObjectRef, key: LuauValue, ed: EmbedderDataContext },
    /// Call the function in a thread of its own, then go on with the account.
    Call { func: ObjectRef, args: Vec<LuauValue>, ed: EmbedderDataContext },
    /// Answer that the object is gone.
    Disposed,
    /// End.
    Stop,
}

/// The functions that files gave, by the names of the files.
pub struct FunctionCache {
    funcs: Vec<(String, ObjectRef)>,
}

/// The place of the last entry under a name among the first `n`, and -1 where there is none.
pub open spec fn cached_at(s: Seq<(String, ObjectRef)>, name: Seq<char>, n: int) -> int
    decreases n,
{
    if n <= 0 || n > s.len() {
        -1
    } else if s[n - 1].0@ == name {
        n - 1
    } else {
        cached_at(s, name, n - 1)
    }
}

impl FunctionCache {
    /// The functions by name.
    pub closed spec fn view(&self) -> spec_fn(Seq<char>) -> Option<ObjectRef> {
        |name: Seq<char>|
            {
                let at = cached_at(self.funcs@, name, self.funcs@.len() as int);
                if 0 <= at < self.funcs@.len() {
                    Some(self.funcs@[at].1)
                } else {
                    None
                }
            }
    }

    /// No functions.
    pub fn new() -> (r: Self)
        ensures
            forall|name: Seq<char>| #[trigger] (r@)(name) is None,
    {
        FunctionCache { funcs: Vec::new() }
    }

    /// The function of that file, where it is there.
    pub fn get(&self, name: &String) -> (r: Option<ObjectRef>)
        ensures
            r == (self@)(name@),
    {
        let mut n: usize = self.funcs.len();
        while n > 0
            invariant
                n <= self.funcs@.len(),
                cached_at(self.funcs@, name@, n as int) == cached_at(
                    self.funcs@,
                    name@,
                    self.funcs@.len() as int,
                ),
            decreases n,
        {
            if self.funcs[n - 1].0 == *name {
                return Some(self.funcs[n - 1].1);
            }
            n = n - 1;
        }
        None
    }

    /// Keeps the function of a file.
    pub fn insert(&mut self, name: String, func: ObjectRef)
        ensures
            (final(self)@)(name@) == Some(func),
            forall|other: Seq<char>|
                other != name@ ==> #[trigger] (final(self)@)(other) == (old(self)@)(other),
    {
        let ghost before = self.funcs@;
        self.funcs.push((name, func));
        proof {
            assert forall|other: Seq<char>| other != name@ implies #[trigger] (self@)(other) == (
            old(self)@)(other) by {
                lemma_cached_at_pushed(before, (name, func), other, before.len() as int);
            }
        }
    }
}

/// One more entry at the end does not change what is before it.
proof fn lemma_cached_at_pushed(
    s: Seq<(String, ObjectRef)>,
    entry: (String, ObjectRef),
    name: Seq<char>,
    n: int,
)
    requires
        0 <= n <= s.len(),
    ensures
        cached_at(s.push(entry), name, n) == cached_at(s, name, n),
        -1 <= cached_at(s, name, n) < n,
    decreases n,
{
    if n > 0 {
        lemma_cached_at_pushed(s, entry, name, n - 1);
    }
}

/// How loading a file came out.
#[derive(Debug, PartialEq, Eq)]
pub enum LoadOutcome {
    /// It could not be compiled.
    NotCompiled(String),
    /// What was compiled could not be loaded.
    NotLoaded(String),
    /// The function that it gave.
    Loaded(ObjectRef),
}

/// How a call came out.
#[derive(Debug, PartialEq, Eq)]
pub enum CallEnd {
    /// There was no thread for it.
    NoThread(String),
    /// It yielded.
    Yielded,
    /// It could not be made.
    Failed(String),
    /// The function raised an error.
    Raised(String),
    /// The function returned.
    Returned(Vec<LuauValue>),
}

/// What the child does when it has looked for a file.
#[derive(Debug, PartialEq, Eq)]
pub enum FileAction {
    /// Answer with an error.
    Refuse(String),
    /// Compile and load it.
    Load,
    /// Call the function that it gave before.
    Call(ObjectRef),
}

/// The child state.
#[derive(Debug, PartialEq, Eq)]
pub struct ParallelLuaClient {}

impl ParallelLuaClient {
    /// The memory that the child state gets.
    pub fn heap_limit(ed: &EmbedderData) -> (r: usize)
        ensures
            r == if ed.heap_limit >= MIN_HEAP_LIMIT {
                ed.heap_limit
            } else {
                MIN_HEAP_LIMIT
            },
    {
        ed.effective_heap_limit(MIN_HEAP_LIMIT)
    }

    /// What the child state does with a message.
    pub fn on_message(plc: &mut ProxyPLuaClient, msg: ParallelLuaMessage) -> (r: ChildAction)
        requires
            old(plc).wf(),
        ensures
            final(plc).wf(),
            final(plc).ed == old(plc).ed,
            final(plc).obj_registry@ == match msg {
                ParallelLuaMessage::RequestDispose { obj_id, magic } => if magic
                    == PLUAU_MESSAGE_MAGIC {
                    old(plc).obj_registry@.removed(obj_id@)
                } else {
                    old(plc).obj_registry@
                },
                _ => old(plc).obj_registry@,
            },
            !well_addressed(msg) ==> (r matches ChildAction::Refuse(e) && e@ == wrong_magic(
                message_name(msg),
            )),
            well_addressed(msg) ==> {
                let reg = old(plc).obj_registry@;
                let fresh = EmbedderDataContext { ed: old(plc).ed, depth: 0, size: 0 };
                match msg {
                    ParallelLuaMessage::CodeExec { filename, .. } => r == ChildAction::FindFile(
                        filename,
                    ),
                    ParallelLuaMessage::GetProperty { obj_id, property, .. } => {
                        let key = value_to_state(property@, false, reg, fresh);
                        if !reg.live.dom().contains(obj_id@) {
                            r matches ChildAction::Refuse(e) && e@
                                == "Failed to get object for GetProperty: "@ + unknown_object(
                                obj_id@,
                            )
                        } else {
                            match key.res {
                                Err(t) => r matches ChildAction::Refuse(e) && e@
                                    == "Failed to convert property to Lua value: "@ + t,
                                Ok(k) => if reg.live[obj_id@].obj.kind != RefKind::Table {
                                    r matches ChildAction::Refuse(e) && e@
                                        == "Object is not a table"@
                                } else {
                                    r matches ChildAction::Index { table, key: q, ed } && table
                                        == reg.live[obj_id@].obj && q@ == k && ed == key.ed
                                },
                            }
                        }
                    },
                    ParallelLuaMessage::CallFunctionChild { obj_id, args, .. } => {
                        let all = all_to_state(
                            pluau_views(args@),
                            0,
                            Seq::empty(),
                            false,
                            reg,
                            fresh,
                            "Failed to convert argument to Lua value: "@,
                        );
                        if !reg.live.dom().contains(obj_id@) {
                            r matches ChildAction::Refuse(e) && e@
                                == "Failed to get object for CallFunctionChild: "@
                                + unknown_object(obj_id@)
                        } else if reg.live[obj_id@].obj.kind != RefKind::Function {
                            r matches ChildAction::Refuse(e) && e@ == "Object is not a function"@
                        } else {
                            match all.res {
                                Err(t) => r matches ChildAction::Refuse(e) && e@ == t,
                                Ok(vs) => r matches ChildAction::Call { func, args: a, ed } && func
                                    == reg.live[obj_id@].obj && luau_views(a@) == vs && ed
                                    == all.ed,
                            }
                        }
                    },
                    ParallelLuaMessage::RequestDispose { .. } => r is Disposed,
                    ParallelLuaMessage::Shutdown => r is Stop,
                }
            },
    {
        match msg {
            ParallelLuaMessage::CodeExec { filename, magic } => {
                if magic != PLUAU_MESSAGE_MAGIC {
                    return refuse_magic("CodeExec");
                }
                ChildAction::FindFile(filename)
            },
            ParallelLuaMessage::GetProperty { obj_id, property, magic } => {
                if magic != PLUAU_MESSAGE_MAGIC {
                    return refuse_magic("GetProperty");
                }
                let value = match plc.obj_registry.get(obj_id) {
                    Ok(v) => v,
                    Err(e) => return ChildAction::Refuse(
                        join("Failed to get object for GetProperty: ", &e),
                    ),
                };
                let mut ed = EmbedderDataContext::new(plc.ed);
                let key = match property.to_luau_child(plc, &mut ed) {
                    Ok(v) => v,
                    Err(e) => return ChildAction::Refuse(
                        join("Failed to convert property to Lua value: ", &e),
                    ),
                };
                if value.kind != RefKind::Table {
                    return ChildAction::Refuse("Object is not a table".to_owned());
                }
                ChildAction::Index { table: value, key, ed }
            },
            ParallelLuaMessage::CallFunctionChild { obj_id, args, magic } => {
                if magic != PLUAU_MESSAGE_MAGIC {
                    return refuse_magic("CallFunctionChild");
                }
                let value = match plc.obj_registry.get(obj_id) {
                    Ok(v) => v,
                    Err(e) => return ChildAction::Refuse(
                        join("Failed to get object for CallFunctionChild: ", &e),
                    ),
                };
                if value.kind != RefKind::Function {
                    return ChildAction::Refuse("Object is not a function".to_owned());
                }
                ParallelLuaClient::spawn_function_async(plc, value, &args)
            },
            ParallelLuaMessage::RequestDispose { obj_id, magic } => {
                if magic != PLUAU_MESSAGE_MAGIC {
                    return refuse_magic("RequestDispose");
                }
                plc.obj_registry.remove(obj_id);
                ChildAction::Disposed
            },
            ParallelLuaMessage::Shutdown => ChildAction::Stop,
        }
    }

    /// The call of a function with proxied arguments.
    pub fn spawn_function_async(
        plc: &ProxyPLuaClient,
        func: ObjectRef,
        args: &Vec<ProxiedLuauValue>,
    ) -> (r: ChildAction)
        requires
            plc.wf(),
        ensures
            ({
                let all = all_to_state(
                    pluau_views(args@),
                    0,
                    Seq::empty(),
                    false,
                    plc.obj_registry@,
                    EmbedderDataContext { ed: plc.ed, depth: 0, size: 0 },
                    "Failed to convert argument to Lua value: "@,
                );
                match all.res {
                    Err(t) => r matches ChildAction::Refuse(e) && e@ == t,
                    Ok(vs) => r matches ChildAction::Call { func: f, args: a, ed } && f == func
                        && luau_views(a@) == vs && ed == all.ed,
                }
            }),
    {
        let mut ed = EmbedderDataContext::new(plc.ed);
        match all_into_state(args, plc, &mut ed, "Failed to convert argument to Lua value: ") {
            Err(e) => ChildAction::Refuse(e),
            Ok(args) => ChildAction::Call { func, args, ed },
        }
    }

    /// What the child does when it has looked for a file.
    pub fn on_file(cache: &FunctionCache, filename: &String, found: Result<(), String>) -> (r:
        FileAction)
        ensures
            match found {
                Err(t) => r matches FileAction::Refuse(e) && e@ == "Failed to get file from VFS: "@
                    + t@,
                Ok(_) => match (cache@)(filename@) {
                    Some(f) => r == FileAction::Call(f),
                    None => r is Load,
                },
            },
    {
        match found {
            Err(e) => FileAction::Refuse(join("Failed to get file from VFS: ", &e)),
            Ok(_) => match cache.get(filename) {
                Some(f) => FileAction::Call(f),
                None => FileAction::Load,
            },
        }
    }

    /// The function to call when a file was loaded. It is kept for the next time.
    pub fn on_loaded(cache: &mut FunctionCache, filename: String, outcome: LoadOutcome) -> (r:
        Result<ObjectRef, String>)
        ensures
            match outcome {
                LoadOutcome::NotCompiled(t) => final(cache)@ == old(cache)@ && (r matches Err(e)
                    && e@ == "Failed to compile Luau code: "@ + t@),
                LoadOutcome::NotLoaded(t) => final(cache)@ == old(cache)@ && (r matches Err(e) && e@
                    == "Failed to load function from bytecode: "@ + t@),
                LoadOutcome::Loaded(f) => {
                    &&& r == Ok::<ObjectRef, String>(f)
                    &&& (final(cache)@)(filename@) == Some(f)
                    &&& forall|other: Seq<char>|
                        other != filename@ ==> #[trigger] (final(cache)@)(other) == (old(cache)@)(
                            other,
                        )
                },
            },
    {
        match outcome {
            LoadOutcome::NotCompiled(e) => Err(join("Failed to compile Luau code: ", &e)),
            LoadOutcome::NotLoaded(e) => Err(join("Failed to load function from bytecode: ", &e)),
            LoadOutcome::Loaded(f) => {
                cache.insert(filename, f);
                Ok(f)
            },
        }
    }

    /// What the child answers when it has read a table.
    pub fn on_property(
        plc: &mut ProxyPLuaClient,
        ed: EmbedderDataContext,
        found: Result<LuauValue, String>,
    ) -> (r: Result<ProxiedLuauValue, String>)
        requires
            old(plc).wf(),
        ensures
            final(plc).wf(),
            final(plc).ed == old(plc).ed,
            match found {
                Err(t) => final(plc).obj_registry@ == old(plc).obj_registry@ && (r matches Err(e)
                    && e@ == "Failed to get property from Lua table: "@ + t@),
                Ok(value) => {
                    let want = value_of_state(value@, false, old(plc).obj_registry@, ed);
                    &&& final(plc).obj_registry@ == want.reg
                    &&& match (r, want.res) {
                        (Ok(p), Ok(v)) => p@ == v,
                        (Err(e), Err(t)) => e@
                            == "Failed to convert property value to ProxiedLuauValue: "@ + t,
                        _ => false,
                    }
                },
            },
    {
        match found {
            Err(e) => Err(join("Failed to get property from Lua table: ", &e)),
            Ok(value) => {
                let mut ed = ed;
                match ProxiedLuauValue::from_luau_child(plc, &value, &mut ed) {
                    Ok(v) => Ok(v),
                    Err(e) => Err(
                        join("Failed to convert property value to ProxiedLuauValue: ", &e),
                    ),
                }
            },
        }
    }

    /// What the child answers when a call is over.
    pub fn on_returned(plc: &mut ProxyPLuaClient, ed: EmbedderDataContext, end: CallEnd) -> (r:
        Result<Vec<ProxiedLuauValue>, String>)
        requires
            old(plc).wf(),
        ensures
            final(plc).wf(),
            final(plc).ed == old(plc).ed,
            match end {
                CallEnd::Returned(values) => {
                    let want = all_of_state(
                        luau_views(values@),
                        0,
                        Seq::empty(),
                        false,
                        old(plc).obj_registry@,
                        ed,
                        "Failed to convert return value to ProxiedLuauValue: "@,
                    );
                    &&& final(plc).obj_registry@ == want.reg
                    &&& match (r, want.res) {
                        (Ok(p), Ok(v)) => pluau_views(p@) == v,
                        (Err(e), Err(t)) => e@ == t,
                        _ => false,
                    }
                },
                CallEnd::NoThread(t) => final(plc).obj_registry@ == old(plc).obj_registry@ && (
                r matches Err(e) && e@ == "Failed to create thread for function call: "@ + t@),
                CallEnd::Yielded => final(plc).obj_registry@ == old(plc).obj_registry@ && (
                r matches Err(e) && e@ == "Function yielded unexpectedly"@),
                CallEnd::Failed(t) => final(plc).obj_registry@ == old(plc).obj_registry@ && (
                r matches Err(e) && e@ == "Function call failed: "@ + t@),
                CallEnd::Raised(t) => final(plc).obj_registry@ == old(plc).obj_registry@ && (
                r matches Err(e) && e@ == "Function call error: "@ + t@),
            },
    {
        match end {
            CallEnd::Returned(values) => {
                let mut ed = ed;
                all_from_state(
                    plc,
                    &values,
                    &mut ed,
                    "Failed to convert return value to ProxiedLuauValue: ",
                )
            },
            CallEnd::NoThread(e) => Err(join("Failed to create thread for function call: ", &e)),
            CallEnd::Yielded => Err("Function yielded unexpectedly".to_owned()),
            CallEnd::Failed(e) => Err(join("Function call failed: ", &e)),
            CallEnd::Raised(e) => Err(join("Function call error: ", &e)),
        }
    }
}

/// The end of the channel to the child, or why there is none.
pub fn started<T>(outcome: StartOutcome<T>) -> (r: Result<T, String>)
    ensures
        match outcome {
            StartOutcome::NoExecutor(t) => r matches Err(e) && e@
                == "Failed to create parallel luau executor: "@ + t@,
            StartOutcome::NoMessenger(t) => r matches Err(e) && e@
                == "Failed to receive messenger: "@ + t@,
            StartOutcome::Started(x) => r == Ok::<T, String>(x),
        },
{
    match outcome {
        StartOutcome::NoExecutor(e) => Err(join("Failed to create parallel luau executor: ", &e)),
        StartOutcome::NoMessenger(e) => Err(join("Failed to receive messenger: ", &e)),
        StartOutcome::Started(x) => Ok(x),
    }
}

/// A text for the child state.
pub fn from_string(s: String) -> (r: ProxiedLuauValue)
    ensures
        r@ == PLuauView::String(s@),
{
    ProxiedLuauValue::Primitive(ProxiedLuauPrimitive::String(s))
}

/// How a request to the child state ends: `shut` tells whether the child was shut down when the
/// wait for the answer was over.
pub fn send_result<T>(sent: Result<(), String>, answer: Result<T, String>, shut: bool) -> (r:
    Result<T, String>)
    ensures
        match sent {
            Err(t) => r matches Err(e) && e@ == "Failed to send message to parallel luau: "@ + t@,
            Ok(_) => if shut {
                r matches Err(e) && e@ == "Parallel luau is shut down (likely due to timeout)"@
            } else {
                match answer {
                    Ok(x) => r == Ok::<T, String>(x),
                    Err(t) => r matches Err(e) && e@
                        == "Failed to receive response from parallel luau: "@ + t@,
                }
            },
        },
{
    match sent {
        Err(e) => return Err(join("Failed to send message to parallel luau: ", &e)),
        Ok(_) => {},
    }
    if shut {
        return Err("Parallel luau is shut down (likely due to timeout)".to_owned());
    }
    match answer {
        Ok(x) => Ok(x),
        Err(e) => Err(join("Failed to receive response from parallel luau: ", &e)),
    }
}

/// How the wait for an answer ended.
#[derive(Debug, PartialEq, Eq)]
pub enum Waited<T> {
    /// It took too long.
    TimedOut(String),
    /// No answer came.
    NoAnswer(String),
    /// The answer.
    Answer(T),
}

/// How a request with a limit on the wait ends.
pub fn send_timeout_result<T>(sent: Result<(), String>, waited: Waited<T>, shut: bool) -> (r: Result<
    T,
    String,
>)
    ensures
        match sent {
            Err(t) => r matches Err(e) && e@ == "Failed to send message to parallel luau: "@ + t@,
            Ok(_) => match waited {
                Waited::TimedOut(t) => r matches Err(e) && e@
                    == "Timeout waiting for response from parallel luau: "@ + t@,
                Waited::NoAnswer(t) => r matches Err(e) && e@
                    == "Failed to receive response from parallel luau: "@ + t@,
                Waited::Answer(x) => if shut {
                    r matches Err(e) && e@ == "parallel luau is shut down (likely due to timeout)"@
                } else {
                    r == Ok::<T, String>(x)
                },
            },
        },
{
    match sent {
        Err(e) => return Err(join("Failed to send message to parallel luau: ", &e)),
        Ok(_) => {},
    }
    match waited {
        Waited::TimedOut(e) => Err(
            join("Timeout waiting for response from parallel luau: ", &e),
        ),
        Waited::NoAnswer(e) => Err(join("Failed to receive response from parallel luau: ", &e)),
        Waited::Answer(x) => {
            if shut {
                Err("parallel luau is shut down (likely due to timeout)".to_owned())
            } else {
                Ok(x)
            }
        },
    }
}

/// How the end of the child ends, given how the executor was shut down and how it was waited for.
/// What is said when the child itself is asked to end does not matter.
pub fn shutdown_outcome(ended: Waited<()>, waited: Waited<()>) -> (r: Result<(), String>)
    ensures
        match ended {
            Waited::TimedOut(t) => r matches Err(e) && e@
                == "Timeout shutting down V8 isolate manager executor: "@ + t@,
            Waited::NoAnswer(t) => r matches Err(e) && e@ == t@,
            Waited::Answer(_) => match waited {
                Waited::TimedOut(t) => r matches Err(e) && e@
                    == "Timeout waiting for V8 isolate manager to shut down: "@ + t@,
                Waited::NoAnswer(t) => r matches Err(e) && e@ == t@,
                Waited::Answer(_) => r is Ok,
            },
        },
{
    match ended {
        Waited::TimedOut(e) => return Err(
            join("Timeout shutting down V8 isolate manager executor: ", &e),
        ),
        Waited::NoAnswer(e) => return Err(e),
        Waited::Answer(_) => {},
    }
    match waited {
        Waited::TimedOut(e) => Err(
            join("Timeout waiting for V8 isolate manager to shut down: ", &e),
        ),
        Waited::NoAnswer(e) => Err(e),
        Waited::Answer(_) => Ok(()),
    }
}

} // verus!
