//! The runtime that serves Luau and QuickJS to each other.

use vstd::prelude::*;
use vstd::utf8::{decode_utf8_encode_utf8, valid_utf8};

use crate::luau::value::{luau_views, LuauValue, LuauView, Number, Vector3};
use crate::registry::{ObjectRef, RefKind};
use crate::rquickjs::store::PersistentStoreHandler;
use crate::rquickjs::value::{
    all_in_qjs, all_into_qjs, in_qjs, no_values, of_qjs, proxy_from_quickjs, proxy_object,
    qjs_trees, qjs_views, three_floats, vector_of_qjs, ProxyStores, QjsTree, QjsTreeView, QjsValue, QjsView, QjsStep, StoresView,
};
use crate::text::join;

verus! {

/// What the runtime is asked to do.
#[derive(Debug, PartialEq, Eq)]
pub enum RuntimeEvent {
    Shutdown,
    AddAsync { thread: ObjectRef, args: Vec<LuauValue> },
    RunQuickjsModule { name: String, code: String },
    RunQuickjsProxy { func_idx: PersistentStoreHandler, args: Vec<LuauValue> },
    RunQuickjsPromiseProxy { promise_idx: PersistentStoreHandler },
    GetQuickjsObject { obj_idx: PersistentStoreHandler, key: LuauValue },
}

/// What the runtime does when it is asked.
#[derive(Debug, PartialEq, Eq)]
#[allow(inconsistent_fields)]
pub enum RuntimeAction {
    /// End.
    Stop,
    /// Answer with an error.
    Refuse(String),
    /// Run the Luau thread.
    RunThread { thread: ObjectRef, args: Vec<LuauValue> },
    /// Declare and evaluate the module.
    RunModule { name: String, code: String },
    /// Call the function.
    Call { func: u64, args: Vec<QjsTree> },
    /// Await the promise.
    Await(u64),
    /// Read the property of the object.
    Read { obj: u64, key: QjsTree },
}

/// How something that QuickJS did came out.
#[derive(Debug, PartialEq, Eq)]
pub enum QjsOutcome {
    /// A step failed: what could not be done, and the text of the error.
    Failed(QjsFailure, String),
    /// The value that it gave.
    Value(QjsValue),
}

/// What could not be done.
#[derive(Clone, Copy, Debug, PartialEq, Eq, Structural)]
pub enum QjsFailure {
    PushArgument,
    RestoreFunction,
    CallFunction,
    RestorePromise,
    AwaitPromise,
    DeclareModule,
    EvaluateModule,
    AwaitModule,
    ModuleNamespace,
    KeyToAtom,
    RestoreObject,
    GetProperty,
}

/// What is told in front of the error.
pub open spec fn failure_text(f: QjsFailure) -> Seq<char> {
    match f {
        QjsFailure::PushArgument => "Failed to push argument to QuickJS function: "@,
        QjsFailure::RestoreFunction => "Failed to restore QuickJS function: "@,
        QjsFailure::CallFunction => "Failed to call QuickJS function: "@,
        QjsFailure::RestorePromise => "Failed to restore QuickJS promise: "@,
        QjsFailure::AwaitPromise => "Failed to await QuickJS promise: "@,
        QjsFailure::DeclareModule => "Failed to declare QuickJS module: "@,
        QjsFailure::EvaluateModule => "Failed to evaluate QuickJS module: "@,
        QjsFailure::AwaitModule => "Failed to await QuickJS module evaluation: "@,
        QjsFailure::ModuleNamespace => "Failed to get QuickJS module namespace: "@,
        QjsFailure::KeyToAtom => "Failed to convert QuickJS key to atom: "@,
        QjsFailure::RestoreObject => "Failed to restore QuickJS object: "@,
        QjsFailure::GetProperty => "Failed to get property from QuickJS object: "@,
    }
}

/// The text of `failure_text`.
fn failure_str(f: QjsFailure) -> (r: &'static str)
    ensures
        r@ == failure_text(f),
{
    match f {
        QjsFailure::PushArgument => "Failed to push argument to QuickJS function: ",
        QjsFailure::RestoreFunction => "Failed to restore QuickJS function: ",
        QjsFailure::CallFunction => "Failed to call QuickJS function: ",
        QjsFailure::RestorePromise => "Failed to restore QuickJS promise: ",
        QjsFailure::AwaitPromise => "Failed to await QuickJS promise: ",
        QjsFailure::DeclareModule => "Failed to declare QuickJS module: ",
        QjsFailure::EvaluateModule => "Failed to evaluate QuickJS module: ",
        QjsFailure::AwaitModule => "Failed to await QuickJS module evaluation: ",
        QjsFailure::ModuleNamespace => "Failed to get QuickJS module namespace: ",
        QjsFailure::KeyToAtom => "Failed to convert QuickJS key to atom: ",
        QjsFailure::RestoreObject => "Failed to restore QuickJS object: ",
        QjsFailure::GetProperty => "Failed to get property from QuickJS object: ",
    }
}

/// How a Luau thread came out.
#[derive(Debug, PartialEq, Eq)]
pub enum ThreadOutcome {
    /// It could not be run, or raised an error.
    Failed(String),
    /// It ended without a result.
    NoValue,
    /// It panicked, with what was said where something was.
    Panicked(Option<String>),
    /// What it returned.
    Returned(Vec<LuauValue>),
}

/// The state of a runtime.
pub struct QuickjsRuntime {
    /// Whether the Lua state still exists.
    pub lua_alive: bool,
    pub is_running: bool,
    pub stores: ProxyStores,
}

/// What is said when the Lua state is gone.
pub open spec fn lua_dropped() -> Seq<char> {
    "Lua state has been dropped"@
}

impl QuickjsRuntime {
    /// The stores are in order.
    pub open spec fn wf(&self) -> bool {
        self.stores.wf()
    }

    /// A runtime that does not run.
    pub fn new() -> (r: Self)
        ensures
            r.wf(),
            r.lua_alive,
            !r.is_running,
            r.stores@ == no_values(),
    {
        QuickjsRuntime { lua_alive: true, is_running: false, stores: ProxyStores::new() }
    }

    /// Starts the runtime.
    pub fn start(&mut self)
        requires
            old(self).wf(),
            !old(self).is_running,
        ensures
            final(self).wf(),
            final(self).is_running,
            final(self).lua_alive == old(self).lua_alive,
            final(self).stores@ == old(self).stores@,
    {
        self.is_running = true;
    }

    /// Ends the runtime. It holds on to no value then.
    pub fn stop(&mut self)
        ensures
            final(self).wf(),
            !final(self).is_running,
            final(self).lua_alive == old(self).lua_alive,
            final(self).stores@ == no_values(),
    {
        self.is_running = false;
        self.stores.clear();
    }

    /// What the runtime does when it is asked. A handle that is handed over is dropped when its
    /// value was looked up.
    pub fn on_event(&mut self, event: RuntimeEvent) -> (r: RuntimeAction)
        requires
            old(self).wf(),
        ensures
            final(self).wf(),
            final(self).lua_alive == old(self).lua_alive,
            final(self).is_running == old(self).is_running,
            final(self).stores@ == released(old(self).stores@, event),
            match event {
                RuntimeEvent::Shutdown => r is Stop,
                RuntimeEvent::AddAsync { thread, args } => if old(self).lua_alive {
                    r == (RuntimeAction::RunThread { thread, args })
                } else {
                    r matches RuntimeAction::Refuse(e) && e@ == lua_dropped()
                },
                RuntimeEvent::RunQuickjsModule { name, code } => r == (RuntimeAction::RunModule {
                    name,
                    code,
                }),
                RuntimeEvent::RunQuickjsProxy { func_idx, args } => match old(
                    self,
                ).stores@.funcs.at(func_idx.index as int) {
                    None => r matches RuntimeAction::Refuse(e) && e@
                        == "Invalid QuickJS function index"@,
                    Some(f) => match all_in_qjs(
                        luau_views(args@),
                        0,
                        Seq::empty(),
                        "Failed to proxy Lua argument to QuickJS: "@,
                    ) {
                        Err(t) => r matches RuntimeAction::Refuse(e) && e@ == t,
                        Ok(vs) => r matches RuntimeAction::Call { func, args: a } && func == f
                            && qjs_trees(a@) == vs,
                    },
                },
                RuntimeEvent::RunQuickjsPromiseProxy { promise_idx } => match old(
                    self,
                ).stores@.promises.at(promise_idx.index as int) {
                    None => r matches RuntimeAction::Refuse(e) && e@
                        == "Invalid QuickJS promise index"@,
                    Some(p) => r == RuntimeAction::Await(p),
                },
                RuntimeEvent::GetQuickjsObject { obj_idx, key } => if !old(self).lua_alive {
                    r matches RuntimeAction::Refuse(e) && e@ == lua_dropped()
                } else {
                    match old(self).stores@.objects.at(obj_idx.index as int) {
                        None => r matches RuntimeAction::Refuse(e) && e@
                            == "Invalid QuickJS object index"@,
                        Some(o) => match in_qjs(key@) {
                            Err(t) => r matches RuntimeAction::Refuse(e) && e@
                                == "Failed to proxy Lua key to QuickJS: "@ + t,
                            Ok(k) => r matches RuntimeAction::Read { obj, key: q } && obj == o && q@
                                == k,
                        },
                    }
                },
            },
    {
        match event {
            RuntimeEvent::Shutdown => RuntimeAction::Stop,
            RuntimeEvent::AddAsync { thread, args } => {
                if !self.lua_alive {
                    return RuntimeAction::Refuse("Lua state has been dropped".to_owned());
                }
                RuntimeAction::RunThread { thread, args }
            },
            RuntimeEvent::RunQuickjsModule { name, code } => RuntimeAction::RunModule {
                name,
                code,
            },
            RuntimeEvent::RunQuickjsProxy { func_idx, args } => {
                let func = match self.stores.funcs.get(&func_idx) {
                    Some(f) => Some(*f),
                    None => None,
                };
                func_idx.drop(&mut self.stores.funcs);
                let func = match func {
                    Some(f) => f,
                    None => {
                        return RuntimeAction::Refuse("Invalid QuickJS function index".to_owned());
                    },
                };
                match all_into_qjs(&args, "Failed to proxy Lua argument to QuickJS: ") {
                    Err(e) => RuntimeAction::Refuse(e),
                    Ok(args) => RuntimeAction::Call { func, args },
                }
            },
            RuntimeEvent::RunQuickjsPromiseProxy { promise_idx } => {
                let promise = match self.stores.promises.get(&promise_idx) {
                    Some(p) => Some(*p),
                    None => None,
                };
                promise_idx.drop(&mut self.stores.promises);
                match promise {
                    Some(p) => RuntimeAction::Await(p),
                    None => RuntimeAction::Refuse("Invalid QuickJS promise index".to_owned()),
                }
            },
            RuntimeEvent::GetQuickjsObject { obj_idx, key } => {
                if !self.lua_alive {
                    obj_idx.drop(&mut self.stores.objects);
                    return RuntimeAction::Refuse("Lua state has been dropped".to_owned());
                }
                let obj = match self.stores.objects.get(&obj_idx) {
                    Some(o) => Some(*o),
                    None => None,
                };
                obj_idx.drop(&mut self.stores.objects);
                let obj = match obj {
                    Some(o) => o,
                    None => {
                        return RuntimeAction::Refuse("Invalid QuickJS object index".to_owned());
                    },
                };
                match proxy_object(&key) {
                    Err(e) => RuntimeAction::Refuse(
                        join("Failed to proxy Lua key to QuickJS: ", &e),
                    ),
                    Ok(key) => RuntimeAction::Read { obj, key },
                }
            },
        }
    }

    /// What Luau gets when QuickJS is done.
    pub fn on_outcome(&mut self, outcome: QjsOutcome) -> (r: Result<LuauValue, String>)
        requires
            old(self).wf(),
        ensures
            final(self).wf(),
            final(self).lua_alive == old(self).lua_alive,
            final(self).is_running == old(self).is_running,
            match outcome {
                QjsOutcome::Failed(f, t) => final(self).stores@ == old(self).stores@ && (
                r matches Err(e) && e@ == failure_text(f) + t@),
                QjsOutcome::Value(value) => if !old(self).lua_alive {
                    final(self).stores@ == old(self).stores@ && (r matches Err(e) && e@
                        == lua_dropped())
                } else {
                    let want = of_qjs(value@, old(self).stores@);
                    &&& final(self).stores@ == want.stores
                    &&& match (r, want.res) {
                        (Ok(p), Ok(v)) => p@ == v,
                        (Err(e), Err(t)) => e@
                            == "Failed to proxy QuickJS return value to Lua: "@ + t,
                        _ => false,
                    }
                },
            },
    {
        match outcome {
            QjsOutcome::Failed(f, e) => Err(join(failure_str(f), &e)),
            QjsOutcome::Value(value) => {
                if !self.lua_alive {
                    return Err("Lua state has been dropped".to_owned());
                }
                match proxy_from_quickjs(&value, &mut self.stores) {
                    Ok(v) => Ok(v),
                    Err(e) => Err(join("Failed to proxy QuickJS return value to Lua: ", &e)),
                }
            },
        }
    }

    /// What comes of a Luau thread.
    pub fn on_thread(outcome: ThreadOutcome) -> (r: Result<Vec<LuauValue>, String>)
        ensures
            match outcome {
                ThreadOutcome::Failed(t) => r matches Err(e) && e@ == t@,
                ThreadOutcome::NoValue => r matches Err(e) && e@
                    == "Lua thread returned no value"@,
                ThreadOutcome::Panicked(said) => r matches Err(e) && e@
                    == "Panic occurred while executing Lua thread: "@ + match said {
                    Some(t) => t@,
                    None => "Unknown panic"@,
                },
                ThreadOutcome::Returned(vs) => r == Ok::<Vec<LuauValue>, String>(vs),
            },
    {
        match outcome {
            ThreadOutcome::Failed(e) => Err(e),
            ThreadOutcome::NoValue => Err("Lua thread returned no value".to_owned()),
            ThreadOutcome::Panicked(said) => {
                let said = match said {
                    Some(t) => t,
                    None => "Unknown panic".to_owned(),
                };
                Err(join("Panic occurred while executing Lua thread: ", &said))
            },
            ThreadOutcome::Returned(vs) => Ok(vs),
        }
    }

    /// How loading a module ends for Luau, given how the request and the answer went.
    pub fn load_result(sent: Result<(), String>, answer: Option<Result<LuauValue, String>>) -> (r:
        Result<LuauValue, String>)
        ensures
            match sent {
                Err(t) => r matches Err(e) && e@ == "Failed to send event to runtime: "@ + t@,
                Ok(_) => match answer {
                    None => r matches Err(e) && e@ == "Failed to receive result from runtime"@,
                    Some(x) => r == x,
                },
            },
    {
        match sent {
            Err(e) => Err(join("Failed to send event to runtime: ", &e)),
            Ok(_) => match answer {
                None => Err("Failed to receive result from runtime".to_owned()),
                Some(x) => x,
            },
        }
    }
}

/// How a request of Luau to QuickJS ends, given how it and the answer went. `what` is told in front
/// of the error of a request that could not be made.
pub fn quickjs_result<T>(what: &str, sent: Result<(), String>, answer: Option<
    Result<T, String>,
>) -> (r: Result<T, String>)
    ensures
        match sent {
            Err(t) => r matches Err(e) && e@ == what@ + t@,
            Ok(_) => match answer {
                None => r matches Err(e) && e@ == "Failed to receive result from QuickJS runtime"@,
                Some(x) => r == x,
            },
        },
{
    match sent {
        Err(e) => Err(join(what, &e)),
        Ok(_) => match answer {
            None => Err("Failed to receive result from QuickJS runtime".to_owned()),
            Some(x) => x,
        },
    }
}

/// The stores after a request: a handle that owns its value takes it along.
pub open spec fn released(stores: StoresView, event: RuntimeEvent) -> StoresView {
    match event {
        RuntimeEvent::RunQuickjsProxy { func_idx, .. } => if func_idx.drop {
            StoresView { funcs: stores.funcs.removed(func_idx.index), ..stores }
        } else {
            stores
        },
        RuntimeEvent::RunQuickjsPromiseProxy { promise_idx } => if promise_idx.drop {
            StoresView { promises: stores.promises.removed(promise_idx.index), ..stores }
        } else {
            stores
        },
        RuntimeEvent::GetQuickjsObject { obj_idx, .. } => if obj_idx.drop {
            StoresView { objects: stores.objects.removed(obj_idx.index), ..stores }
        } else {
            stores
        },
        _ => stores,
    }
}

/// The QuickJS values from the `i`th on in Luau, behind those that are there.
pub open spec fn all_of_qjs(s: Seq<QjsView>, i: int, done: Seq<LuauView>, stores: StoresView) -> QjsStep<
    Seq<LuauView>,
>
    decreases s.len() - i,
{
    if i < 0 || i >= s.len() {
        QjsStep { stores, res: Ok(done) }
    } else {
        let one = of_qjs(s[i], stores);
        match one.res {
            Err(e) => QjsStep { stores: one.stores, res: Err(e) },
            Ok(v) => all_of_qjs(s, i + 1, done.push(v), one.stores),
        }
    }
}

/// What QuickJS gets for what a Luau function returned: undefined for nothing, the value for one,
/// and an array for several.
pub open spec fn returned_to_qjs(vs: Seq<LuauView>) -> Result<QjsTreeView, Seq<char>> {
    if vs.len() == 0 {
        Ok(QjsTreeView::Undefined)
    } else if vs.len() == 1 {
        in_qjs(vs[0])
    } else {
        match all_in_qjs(vs, 0, Seq::empty(), Seq::empty()) {
            Err(e) => Err(e),
            Ok(items) => Ok(QjsTreeView::Array(items)),
        }
    }
}

/// How a call of a Luau function from QuickJS came out.
#[derive(Debug, PartialEq, Eq)]
pub enum LuaCallOutcome {
    /// There was no thread for it.
    NoThread(String),
    /// The runtime could not be asked.
    NotSent(String),
    /// The runtime did not answer.
    NoAnswer,
    /// What came of the thread.
    Done(Result<Vec<LuauValue>, String>),
}

/// A Luau function that QuickJS can call.
#[derive(Debug, PartialEq, Eq)]
pub struct LuaFunction {}

impl LuaFunction {
    /// The arguments of a call, in Luau.
    pub fn arguments(runtime: &mut QuickjsRuntime, args: &Vec<QjsValue>) -> (r: Result<
        Vec<LuauValue>,
        String,
    >)
        requires
            old(runtime).wf(),
        ensures
            final(runtime).wf(),
            final(runtime).lua_alive == old(runtime).lua_alive,
            final(runtime).is_running == old(runtime).is_running,
            if !old(runtime).lua_alive {
                final(runtime).stores@ == old(runtime).stores@ && (r matches Err(e) && e@
                    == lua_dropped())
            } else {
                let want = all_of_qjs(qjs_views(args@), 0, Seq::empty(), old(runtime).stores@);
                &&& final(runtime).stores@ == want.stores
                &&& match (r, want.res) {
                    (Ok(p), Ok(v)) => luau_views(p@) == v,
                    (Err(e), Err(t)) => e@ == t,
                    _ => false,
                }
            },
    {
        if !runtime.lua_alive {
            return Err("Lua state has been dropped".to_owned());
        }
        let ghost all = qjs_views(args@);
        let ghost want = all_of_qjs(all, 0, Seq::empty(), runtime.stores@);
        let mut list: Vec<LuauValue> = Vec::new();
        assert(luau_views(list@) =~= Seq::empty());
        let mut i: usize = 0;
        while i < args.len()
            invariant
                i <= args@.len(),
                all == qjs_views(args@),
                runtime.wf(),
                runtime.lua_alive,
                old(runtime).lua_alive,
                runtime.is_running == old(runtime).is_running,
                want == all_of_qjs(all, 0, Seq::empty(), old(runtime).stores@),
                want == all_of_qjs(all, i as int, luau_views(list@), runtime.stores@),
            decreases args@.len() - i,
        {
            let ghost before = list@;
            match proxy_from_quickjs(&args[i], &mut runtime.stores) {
                Err(e) => return Err(e),
                Ok(v) => {
                    list.push(v);
                    assert(luau_views(list@) =~= luau_views(before).push(v@));
                },
            }
            i += 1;
        }
        Ok(list)
    }

    /// What QuickJS gets when the call is over.
    pub fn handle_async(outcome: LuaCallOutcome) -> (r: Result<QjsTree, String>)
        ensures
            match outcome {
                LuaCallOutcome::NoThread(t) => r matches Err(e) && e@
                    == "Failed to create Lua thread: "@ + t@,
                LuaCallOutcome::NotSent(t) => r matches Err(e) && e@
                    == "Failed to send event to runtime: "@ + t@,
                LuaCallOutcome::NoAnswer => r matches Err(e) && e@
                    == "Failed to receive result from runtime"@,
                LuaCallOutcome::Done(Err(t)) => r matches Err(e) && e@ == t@,
                LuaCallOutcome::Done(Ok(vs)) => match (r, returned_to_qjs(luau_views(vs@))) {
                    (Ok(p), Ok(v)) => p@ == v,
                    (Err(e), Err(t)) => e@ == t,
                    _ => false,
                },
            },
    {
        let res = match outcome {
            LuaCallOutcome::NoThread(e) => return Err(join("Failed to create Lua thread: ", &e)),
            LuaCallOutcome::NotSent(e) => return Err(
                join("Failed to send event to runtime: ", &e),
            ),
            LuaCallOutcome::NoAnswer => return Err(
                "Failed to receive result from runtime".to_owned(),
            ),
            LuaCallOutcome::Done(Err(e)) => return Err(e),
            LuaCallOutcome::Done(Ok(vs)) => vs,
        };
        if res.len() == 0 {
            Ok(QjsTree::Undefined)
        } else if res.len() == 1 {
            proxy_object(&res[0])
        } else {
            proof {
                reveal_strlit("");
                assert(""@ =~= Seq::<char>::empty());
            }
            match all_into_qjs(&res, "") {
                Err(e) => Err(e),
                Ok(items) => {
                    let r = QjsTree::Array(items);
                    assert(r@->Array_0 =~= qjs_trees(items@));
                    Ok(r)
                },
            }
        }
    }

    /// The request that calls a QuickJS function from Luau. The function stays held.
    pub fn from_quickjs(
        func: &PersistentStoreHandler,
        runtime_alive: bool,
        args: Vec<LuauValue>,
    ) -> (r: Result<RuntimeEvent, String>)
        ensures
            if !runtime_alive {
                r matches Err(e) && e@ == lua_dropped()
            } else {
                r matches Ok(RuntimeEvent::RunQuickjsProxy { func_idx, args: a }) && func_idx.index
                    == func.index && !func_idx.drop && a == args
            },
    {
        if !runtime_alive {
            return Err("Lua state has been dropped".to_owned());
        }
        Ok(RuntimeEvent::RunQuickjsProxy { func_idx: func.clone(), args })
    }

    /// What the QuickJS function returned, given how the request and the answer went.
    pub fn quickjs_returned(
        sent: Result<(), String>,
        answer: Option<Result<Vec<LuauValue>, String>>,
    ) -> (r: Result<Vec<LuauValue>, String>)
        ensures
            match sent {
                Err(t) => r matches Err(e) && e@ == t@,
                Ok(_) => match answer {
                    None => r matches Err(e) && e@
                        == "Failed to receive result from QuickJS runtime"@,
                    Some(x) => r == x,
                },
            },
    {
        proof {
            reveal_strlit("");
            assert forall|t: Seq<char>| ""@ + t =~= t by {}
        }
        quickjs_result("", sent, answer)
    }
}

/// A QuickJS promise that Luau can await once.
#[derive(Debug, PartialEq, Eq)]
pub struct QuickJSPromise {
    pub promise: Option<PersistentStoreHandler>,
}

impl QuickJSPromise {
    /// The request that awaits the promise.
    pub fn await_once(&mut self, runtime_alive: bool) -> (r: Result<RuntimeEvent, String>)
        ensures
            if !runtime_alive {
                final(self).promise == old(self).promise && (r matches Err(e) && e@
                    == lua_dropped())
            } else {
                &&& final(self).promise is None
                &&& match old(self).promise {
                    None => r matches Err(e) && e@ == "QuickJS promise has already been awaited"@,
                    Some(p) => r == Ok::<RuntimeEvent, String>(
                        RuntimeEvent::RunQuickjsPromiseProxy { promise_idx: p },
                    ),
                }
            },
    {
        if !runtime_alive {
            return Err("Lua state has been dropped".to_owned());
        }
        match self.promise.take() {
            Some(promise_idx) => Ok(RuntimeEvent::RunQuickjsPromiseProxy { promise_idx }),
            None => Err("QuickJS promise has already been awaited".to_owned()),
        }
    }
}

/// A proxy from a QuickJS object to a Lua object
#[derive(Debug, PartialEq, Eq)]
pub struct JSObjectProxy {
    pub obj: PersistentStoreHandler,
}

impl JSObjectProxy {
    /// The request that reads a property. The object stays held.
    pub fn get(&self, runtime_alive: bool, key: LuauValue) -> (r: Result<RuntimeEvent, String>)
        ensures
            if !runtime_alive {
                r matches Err(e) && e@ == lua_dropped()
            } else {
                r matches Ok(RuntimeEvent::GetQuickjsObject { obj_idx, key: k }) && obj_idx.index
                    == self.obj.index && !obj_idx.drop && k == key
            },
    {
        if !runtime_alive {
            return Err("Lua state has been dropped".to_owned());
        }
        Ok(RuntimeEvent::GetQuickjsObject { obj_idx: self.obj.clone(), key })
    }

    /// What the property is, given how the request and the answer went.
    pub fn got(sent: Result<(), String>, answer: Option<Result<LuauValue, String>>) -> (r: Result<
        LuauValue,
        String,
    >)
        ensures
            match sent {
                Err(t) => r matches Err(e) && e@ == "Failed to request QuickJS for object: "@ + t@,
                Ok(_) => match answer {
                    None => r matches Err(e) && e@
                        == "Failed to receive result from QuickJS runtime"@,
                    Some(x) => r == x,
                },
            },
    {
        quickjs_result("Failed to request QuickJS for object: ", sent, answer)
    }
}

/// A function, promise or object that Luau got is the one that a request through its handle
/// reaches.
pub proof fn law_handle_reaches_its_value(handle: u64, constructor: bool, stores: StoresView)
    requires
        stores.funcs.wf(),
        stores.promises.wf(),
    ensures
        of_qjs(QjsView::Function { handle, constructor }, stores).stores.funcs.at(
            stores.funcs.next(),
        ) == Some(handle),
        of_qjs(QjsView::Promise(handle), stores).stores.promises.at(stores.promises.next()) == Some(
            handle,
        ),
{
}

/// A runtime that has ended reaches no value through any handle.
pub proof fn law_stopped_runtime_holds_nothing(index: int)
    ensures
        no_values().funcs.at(index) is None,
        no_values().promises.at(index) is None,
        no_values().objects.at(index) is None,
{
}

/// How QuickJS hands back a single value that it was given, where it hands it back as it is. A
/// number is taken in the form in which it was given.
pub open spec fn one_read_back(t: QjsTreeView) -> Option<QjsView> {
    match t {
        QjsTreeView::Null => Some(QjsView::Null),
        QjsTreeView::Undefined => Some(QjsView::Undefined),
        QjsTreeView::Bool(b) => Some(QjsView::Bool(b)),
        QjsTreeView::Int(i) => Some(QjsView::Int(i)),
        QjsTreeView::Float(n) => Some(QjsView::Float(n)),
        QjsTreeView::String(s) => Some(QjsView::String(s)),
        QjsTreeView::LuaThread(r) => Some(QjsView::LuaThread(r)),
        QjsTreeView::LuaUserData(r) => Some(QjsView::LuaUserData(r)),
        QjsTreeView::LuaLightUserData(i) => Some(QjsView::LuaLightUserData(i)),
        _ => None,
    }
}

/// How QuickJS hands back a value that it was given: a single value, or an array of them.
pub open spec fn read_back(t: QjsTreeView) -> Option<QjsView> {
    match t {
        QjsTreeView::Array(items) => if forall|i: int|
            0 <= i < items.len() ==> one_read_back(#[trigger] items[i]) is Some {
            Some(QjsView::Array(items.map_values(|x: QjsTreeView| one_read_back(x)->0)))
        } else {
            None
        },
        _ => one_read_back(t),
    }
}

/// Whether a Luau value has its counterpart in QuickJS: it is nil, a boolean, an integer of 32
/// bits, a vector, a text in UTF-8, a thread, a userdata or a light userdata. A number has none,
/// as QuickJS makes an integer of a whole one.
pub open spec fn has_counterpart(v: LuauView) -> bool {
    match v {
        LuauView::Nil => true,
        LuauView::Boolean(_) => true,
        LuauView::Integer(i) => i32::MIN <= i <= i32::MAX,
        LuauView::Vector(_) => true,
        LuauView::String(bytes) => valid_utf8(bytes),
        LuauView::LightUserData(_) => true,
        LuauView::UserData { .. } => true,
        LuauView::Ref(r) => r.kind == RefKind::Thread || r.kind == RefKind::UserData,
        _ => false,
    }
}

/// Three numbers are the vector of what they are in single precision, whichever of them QuickJS
/// hands over as integers.
pub proof fn law_three_numbers_are_a_vector(x: QjsView, y: QjsView, z: QjsView, stores: StoresView)
    requires
        x is Int || x is Float,
        y is Int || y is Float,
        z is Int || z is Float,
    ensures
        of_qjs(QjsView::Array(seq![x, y, z]), stores).res == Ok::<LuauView, Seq<char>>(
            LuauView::Vector(
                Vector3 { x: number_in(x).rounded(), y: number_in(y).rounded(), z: number_in(z).rounded() },
            ),
        ),
        of_qjs(QjsView::Array(seq![x, y, z]), stores).stores == stores,
{
}

/// The number that QuickJS hands over.
pub open spec fn number_in(q: QjsView) -> Number {
    match q {
        QjsView::Int(i) => Number::OfInt(i as i64),
        QjsView::Float(n) => n,
        _ => arbitrary(),
    }
}

/// A Luau value that has its counterpart in QuickJS comes back from there as itself, a userdata by
/// its identity. Nothing is held on to for it.
pub proof fn law_luau_value_comes_back(v: LuauView, stores: StoresView)
    requires
        has_counterpart(v),
    ensures
        in_qjs(v) matches Ok(t) && (read_back(t) matches Some(q) && of_qjs(q, stores).stores == stores
            && of_qjs(q, stores).res == Ok::<LuauView, Seq<char>>(
            match v {
                LuauView::UserData { handle, .. } => LuauView::Ref(
                    ObjectRef { kind: RefKind::UserData, handle },
                ),
                _ => v,
            },
        )),
{
    match v {
        LuauView::String(bytes) => decode_utf8_encode_utf8(bytes),
        LuauView::Vector(x) => {
            let items = three_floats(x);
            let q = items.map_values(|x: QjsTreeView| one_read_back(x)->0);
            assert(forall|i: int| 0 <= i < items.len() ==> one_read_back(#[trigger] items[i]) is Some);
            assert(q.len() == 3);
            assert(q[0] == QjsView::Float(Number::OfSingle(x.x)));
            assert(q[1] == QjsView::Float(Number::OfSingle(x.y)));
            assert(q[2] == QjsView::Float(Number::OfSingle(x.z)));
            assert(vector_of_qjs(q[0], q[1], q[2]) == Ok::<Vector3, Seq<char>>(x));
        },
        _ => {},
    }
}

} // verus!
