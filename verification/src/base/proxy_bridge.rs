//! The Luau end of the bridge that copies values.

use vstd::prelude::*;

use crate::base::deno::{copied_in_luau, copy_views, CopyView, ProxiedV8Value};
use crate::base::message::with_context;
use crate::base::luau::{
    lua_of_proxied, lua_views, missing, missing_text, proxied_of_lua, LuaRegs, LuaStep, LuaView,
    ProxiedLuaValue, ProxyLuaClient,
};
use crate::luau::value::{luau_views, LuauValue, LuauView, Payload, PayloadView, Stub};
use crate::registry::ObjectRef;
use crate::text::{join, join4};

verus! {

/// What sort of object the bridge is asked to drop.
#[derive(Clone, Copy, Debug, PartialEq, Eq, Structural)]
pub enum ObjectRegistryType {
    Function,
    UserData,
    Buffer,
    Thread,
}

/// The arguments of a call, from either side.
#[derive(Debug, PartialEq, Eq)]
pub enum ValueArgs {
    Lua(Vec<ProxiedLuaValue>),
    V8(Vec<ProxiedV8Value>),
}

/// The arguments of a call.
pub enum ArgsView {
    Lua(Seq<LuaView>),
    V8(Seq<CopyView>),
}

impl ValueArgs {
    /// What the arguments are.
    pub open spec fn view(self) -> ArgsView {
        match self {
            ValueArgs::Lua(args) => ArgsView::Lua(lua_views(args@)),
            ValueArgs::V8(args) => ArgsView::V8(copy_views(args@)),
        }
    }
}

/// The values from the `i`th on in Luau, behind those that are there.
pub open spec fn lua_args(s: Seq<LuaView>, i: int, done: Seq<LuauView>, regs: LuaRegs) -> Result<
    Seq<LuauView>,
    Seq<char>,
>
    decreases s.len() - i,
{
    if i < 0 || i >= s.len() {
        Ok(done)
    } else {
        match lua_of_proxied(s[i], regs, false) {
            Err(e) => Err(e),
            Ok(v) => lua_args(s, i + 1, done.push(v), regs),
        }
    }
}

/// The values from the `i`th on in Luau, behind those that are there.
pub open spec fn v8_args(s: Seq<CopyView>, i: int, done: Seq<LuauView>) -> Result<
    Seq<LuauView>,
    Seq<char>,
>
    decreases s.len() - i,
{
    if i < 0 || i >= s.len() {
        Ok(done)
    } else {
        match copied_in_luau(s[i]) {
            Err(e) => Err(e),
            Ok(v) => v8_args(s, i + 1, done.push(v)),
        }
    }
}

/// The arguments in Luau.
pub open spec fn args_in_luau(args: ArgsView, regs: LuaRegs) -> Result<Seq<LuauView>, Seq<char>> {
    match args {
        ArgsView::Lua(s) => lua_args(s, 0, Seq::empty(), regs),
        ArgsView::V8(s) => v8_args(s, 0, Seq::empty()),
    }
}

fn lua_args_into_luau(args: &Vec<ProxiedLuaValue>, plc: &ProxyLuaClient) -> (r: Result<
    Vec<LuauValue>,
    String,
>)
    requires
        plc.wf(),
    ensures
        match (r, lua_args(lua_views(args@), 0, Seq::empty(), plc.regs())) {
            (Ok(p), Ok(v)) => luau_views(p@) == v,
            (Err(e), Err(t)) => e@ == t,
            _ => false,
        },
{
    let ghost all = lua_views(args@);
    let mut list: Vec<LuauValue> = Vec::new();
    assert(luau_views(list@) =~= Seq::empty());
    let mut i: usize = 0;
    while i < args.len()
        invariant
            i <= args@.len(),
            all == lua_views(args@),
            plc.wf(),
            lua_args(all, 0, Seq::empty(), plc.regs()) == lua_args(
                all,
                i as int,
                luau_views(list@),
                plc.regs(),
            ),
        decreases args@.len() - i,
    {
        let ghost before = list@;
        match args[i].to_lua_value(plc) {
            Err(e) => return Err(e),
            Ok(v) => {
                list.push(v);
                assert(luau_views(list@) =~= luau_views(before).push(v@));
            },
        }
        i += 1;
    }
    Ok(list)
}

fn v8_args_into_luau(args: &Vec<ProxiedV8Value>) -> (r: Result<Vec<LuauValue>, String>)
    ensures
        match (r, v8_args(copy_views(args@), 0, Seq::empty())) {
            (Ok(p), Ok(v)) => luau_views(p@) == v,
            (Err(e), Err(t)) => e@ == t,
            _ => false,
        },
{
    let ghost all = copy_views(args@);
    let mut list: Vec<LuauValue> = Vec::new();
    assert(luau_views(list@) =~= Seq::empty());
    let mut i: usize = 0;
    while i < args.len()
        invariant
            i <= args@.len(),
            all == copy_views(args@),
            v8_args(all, 0, Seq::empty()) == v8_args(all, i as int, luau_views(list@)),
        decreases args@.len() - i,
    {
        let ghost before = list@;
        match args[i].proxy_to_lua() {
            Err(e) => return Err(e),
            Ok(v) => {
                list.push(v);
                assert(luau_views(list@) =~= luau_views(before).push(v@));
            },
        }
        i += 1;
    }
    Ok(list)
}

impl ValueArgs {
    /// The arguments in Luau.
    pub fn to_lua_value(&self, plc: &ProxyLuaClient) -> (r: Result<Vec<LuauValue>, String>)
        requires
            plc.wf(),
        ensures
            match (r, args_in_luau(self@, plc.regs())) {
                (Ok(p), Ok(v)) => luau_views(p@) == v,
                (Err(e), Err(t)) => e@ == t,
                _ => false,
            },
    {
        match self {
            ValueArgs::Lua(args) => lua_args_into_luau(args, plc),
            ValueArgs::V8(args) => v8_args_into_luau(args),
        }
    }
}

/// The values from the `i`th on as proxied values, behind those that are there. An error says
/// what was being done.
pub open spec fn all_of_lua(
    s: Seq<LuauView>,
    i: int,
    done: Seq<LuaView>,
    regs: LuaRegs,
    alive: bool,
    what: Seq<char>,
) -> LuaStep<Seq<LuaView>>
    decreases s.len() - i,
{
    if i < 0 || i >= s.len() {
        LuaStep { regs, res: Ok(done) }
    } else {
        let one = proxied_of_lua(s[i], regs, alive, 0);
        match one.res {
            Err(e) => LuaStep { regs: one.regs, res: Err(what + e) },
            Ok(p) => all_of_lua(s, i + 1, done.push(p), one.regs, alive, what),
        }
    }
}

/// Several values as proxied values. An error says what was being done.
pub fn all_from_lua(values: &Vec<LuauValue>, plc: &mut ProxyLuaClient, what: &str) -> (r: Result<
    Vec<ProxiedLuaValue>,
    String,
>)
    requires
        old(plc).wf(),
    ensures
        final(plc).wf(),
        final(plc).lua_alive == old(plc).lua_alive,
        ({
            let want = all_of_lua(
                luau_views(values@),
                0,
                Seq::empty(),
                old(plc).regs(),
                old(plc).lua_alive,
                what@,
            );
            &&& final(plc).regs() == want.regs
            &&& match (r, want.res) {
                (Ok(p), Ok(v)) => lua_views(p@) == v,
                (Err(e), Err(t)) => e@ == t,
                _ => false,
            }
        }),
{
    let ghost all = luau_views(values@);
    let ghost want = all_of_lua(all, 0, Seq::empty(), plc.regs(), plc.lua_alive, what@);
    let mut list: Vec<ProxiedLuaValue> = Vec::new();
    assert(lua_views(list@) =~= Seq::empty());
    let mut i: usize = 0;
    while i < values.len()
        invariant
            i <= values@.len(),
            all == luau_views(values@),
            plc.wf(),
            plc.lua_alive == old(plc).lua_alive,
            want == all_of_lua(
                all,
                0,
                Seq::empty(),
                old(plc).regs(),
                old(plc).lua_alive,
                what@,
            ),
            want == all_of_lua(
                all,
                i as int,
                lua_views(list@),
                plc.regs(),
                plc.lua_alive,
                what@,
            ),
        decreases values@.len() - i,
    {
        let ghost before = list@;
        match ProxiedLuaValue::from_lua_value(&values[i], plc, 0) {
            Err(e) => return Err(join(what, &e)),
            Ok(v) => {
                list.push(v);
                assert(lua_views(list@) =~= lua_views(before).push(v@));
            },
        }
        i += 1;
    }
    Ok(list)
}

/// The values from the `i`th on in a parallel state, behind those that are there. An error says
/// what was being done.
pub open spec fn all_in_parallel(
    s: Seq<LuaView>,
    i: int,
    done: Seq<LuauView>,
    regs: LuaRegs,
    what: Seq<char>,
) -> Result<Seq<LuauView>, Seq<char>>
    decreases s.len() - i,
{
    if i < 0 || i >= s.len() {
        Ok(done)
    } else {
        match lua_of_proxied(s[i], regs, true) {
            Err(e) => Err(what + e),
            Ok(v) => all_in_parallel(s, i + 1, done.push(v), regs, what),
        }
    }
}

/// Several values in a parallel state. An error says what was being done.
pub fn all_into_parallel(values: &Vec<ProxiedLuaValue>, plc: &ProxyLuaClient, what: &str) -> (r:
    Result<Vec<LuauValue>, String>)
    requires
        plc.wf(),
    ensures
        match (r, all_in_parallel(lua_views(values@), 0, Seq::empty(), plc.regs(), what@)) {
            (Ok(p), Ok(v)) => luau_views(p@) == v,
            (Err(e), Err(t)) => e@ == t,
            _ => false,
        },
{
    let ghost all = lua_views(values@);
    let mut list: Vec<LuauValue> = Vec::new();
    assert(luau_views(list@) =~= Seq::empty());
    let mut i: usize = 0;
    while i < values.len()
        invariant
            i <= values@.len(),
            all == lua_views(values@),
            plc.wf(),
            all_in_parallel(all, 0, Seq::empty(), plc.regs(), what@) == all_in_parallel(
                all,
                i as int,
                luau_views(list@),
                plc.regs(),
                what@,
            ),
        decreases values@.len() - i,
    {
        let ghost before = list@;
        match values[i].to_parallel_lua_value(plc) {
            Err(e) => return Err(join(what, &e)),
            Ok(v) => {
                list.push(v);
                assert(luau_views(list@) =~= luau_views(before).push(v@));
            },
        }
        i += 1;
    }
    Ok(list)
}

/// The arguments with which a function of another Luau state is called.
pub fn stub_arguments(args: &Vec<LuauValue>, src_plc: &mut ProxyLuaClient) -> (r: Result<
    ValueArgs,
    String,
>)
    requires
        old(src_plc).wf(),
    ensures
        final(src_plc).wf(),
        final(src_plc).lua_alive == old(src_plc).lua_alive,
        ({
            let want = all_of_lua(
                luau_views(args@),
                0,
                Seq::empty(),
                old(src_plc).regs(),
                old(src_plc).lua_alive,
                "Failed to convert argument to proxied Lua value: "@,
            );
            &&& final(src_plc).regs() == want.regs
            &&& match (r, want.res) {
                (Ok(p), Ok(v)) => p@ == ArgsView::Lua(v),
                (Err(e), Err(t)) => e@ == t,
                _ => false,
            }
        }),
{
    match all_from_lua(args, src_plc, "Failed to convert argument to proxied Lua value: ") {
        Ok(list) => Ok(ValueArgs::Lua(list)),
        Err(e) => Err(e),
    }
}

/// What a call of a function of another Luau state returns, given the answer.
pub fn stub_returned(answer: Result<Vec<ProxiedLuaValue>, String>, src_plc: &ProxyLuaClient) -> (r:
    Result<Vec<LuauValue>, String>)
    requires
        src_plc.wf(),
    ensures
        match answer {
            Err(t) => r matches Err(e) && e@ == "Failed to call proxied Lua function: "@ + t@,
            Ok(values) => match (
                r,
                all_in_parallel(
                    lua_views(values@),
                    0,
                    Seq::empty(),
                    src_plc.regs(),
                    "Failed to convert return value to Lua value: "@,
                ),
            ) {
                (Ok(p), Ok(v)) => luau_views(p@) == v,
                (Err(e), Err(t)) => e@ == t,
                _ => false,
            },
        },
{
    match answer {
        Err(e) => Err(join("Failed to call proxied Lua function: ", &e)),
        Ok(values) => all_into_parallel(
            &values,
            src_plc,
            "Failed to convert return value to Lua value: ",
        ),
    }
}

/// What reading a buffer of another Luau state gives, given the answer.
pub fn buffer_read(answer: Result<Vec<u8>, String>) -> (r: Result<Vec<u8>, String>)
    ensures
        match (answer, r) {
            (Ok(x), Ok(y)) => x == y,
            (Err(e), Err(t)) => t@ == "Failed to read proxied buffer: "@ + e@,
            _ => false,
        },
{
    with_context("Failed to read proxied buffer: ", answer)
}

/// What the bridge is asked to do.
#[derive(Debug, PartialEq, Eq)]
pub enum LuaProxyBridgeMessage {
    CallFunction { func_id: i64, args: ValueArgs },
    ReadBuffer { buffer_id: i64 },
    DropObject { obj_type: ObjectRegistryType, obj_id: i64 },
    Shutdown,
}

/// What the bridge does with a message.
#[derive(Debug, PartialEq, Eq)]
pub enum BridgeAction {
    /// Answer with an error.
    Refuse(String),
    /// Call the function in a thread of its own.
    Call { func: ObjectRef, args: Vec<LuauValue> },
    /// Answer with the contents of the buffer.
    Read(ObjectRef),
    /// Nothing more.
    Done,
    /// End.
    Stop,
}

/// How a call that the bridge made came out.
#[derive(Debug, PartialEq, Eq)]
pub enum CallOutcome {
    /// The function returned.
    Returned(Vec<LuauValue>),
    /// The function raised an error.
    Raised(String),
    /// The thread ended without a result.
    NoResult,
    /// The thread could not be run.
    Failed(String),
}

/// What the bridge answers after a call, and whether it ends then.
#[derive(Debug, PartialEq, Eq)]
pub struct CallReply {
    pub reply: Result<Vec<ProxiedLuaValue>, String>,
    pub stop: bool,
}

/// The registries after an object was dropped.
pub open spec fn dropped_from(regs: LuaRegs, obj_type: ObjectRegistryType, id: i64) -> LuaRegs {
    match obj_type {
        ObjectRegistryType::Function => LuaRegs { func: regs.func.removed(id), ..regs },
        ObjectRegistryType::UserData => LuaRegs { userdata: regs.userdata.removed(id), ..regs },
        ObjectRegistryType::Buffer => LuaRegs { buffer: regs.buffer.removed(id), ..regs },
        ObjectRegistryType::Thread => LuaRegs { thread: regs.thread.removed(id), ..regs },
    }
}

/// Thread safe proxy bridge between Luau and another language
///
/// The one that was made first ends the bridge when it is dropped. Its copies do not.
#[derive(Debug, PartialEq, Eq)]
pub struct LuaProxyBridge {
    drop: bool,
}

impl Clone for LuaProxyBridge {
    fn clone(&self) -> (r: Self)
        ensures
            !r.ends_bridge(),
    {
        LuaProxyBridge { drop: false }
    }
}

impl LuaProxyBridge {
    /// Whether dropping this ends the bridge.
    pub closed spec fn ends_bridge(&self) -> bool {
        self.drop
    }

    /// The bridge that ends with this.
    pub fn new() -> (r: Self)
        ensures
            r.ends_bridge(),
    {
        LuaProxyBridge { drop: true }
    }

    /// What is sent when this is dropped.
    pub fn on_drop(&self) -> (r: Option<LuaProxyBridgeMessage>)
        ensures
            r is Some <==> self.ends_bridge(),
            r matches Some(m) ==> m is Shutdown,
    {
        if self.drop {
            Some(LuaProxyBridgeMessage::Shutdown)
        } else {
            None
        }
    }

    /// What the bridge does with a message.
    pub fn on_message(plc: &mut ProxyLuaClient, msg: LuaProxyBridgeMessage) -> (r: BridgeAction)
        requires
            old(plc).wf(),
        ensures
            final(plc).wf(),
            final(plc).lua_alive == old(plc).lua_alive,
            final(plc).regs() == match msg {
                LuaProxyBridgeMessage::DropObject { obj_type, obj_id } => dropped_from(
                    old(plc).regs(),
                    obj_type,
                    obj_id,
                ),
                _ => old(plc).regs(),
            },
            match msg {
                LuaProxyBridgeMessage::CallFunction { func_id, args } => {
                    let func = old(plc).func_registry@;
                    let want = args_in_luau(args@, old(plc).regs());
                    if !func.live.dom().contains(func_id) {
                        r matches BridgeAction::Refuse(e) && e@ == missing("Function"@, func_id)
                    } else if !old(plc).lua_alive {
                        r matches BridgeAction::Refuse(e) && e@ == "Lua state has been dropped"@
                    } else {
                        match want {
                            Err(t) => r matches BridgeAction::Refuse(e) && e@
                                == "Failed to convert arguments to Lua values: "@ + t,
                            Ok(vs) => r matches BridgeAction::Call { func: f, args: a } && f
                                == func.live[func_id].obj && luau_views(a@) == vs,
                        }
                    }
                },
                LuaProxyBridgeMessage::ReadBuffer { buffer_id } => {
                    let buffer = old(plc).buffer_registry@;
                    if buffer.live.dom().contains(buffer_id) {
                        r matches BridgeAction::Read(b) && b == buffer.live[buffer_id].obj
                    } else {
                        r matches BridgeAction::Refuse(e) && e@ == missing("Buffer"@, buffer_id)
                    }
                },
                LuaProxyBridgeMessage::DropObject { .. } => r is Done,
                LuaProxyBridgeMessage::Shutdown => r is Stop,
            },
    {
        match msg {
            LuaProxyBridgeMessage::CallFunction { func_id, args } => {
                let func = match plc.func_registry.get(func_id) {
                    Some(f) => f,
                    None => return BridgeAction::Refuse(missing_text("Function", func_id)),
                };
                if !plc.lua_alive {
                    return BridgeAction::Refuse("Lua state has been dropped".to_owned());
                }
                match args.to_lua_value(plc) {
                    Ok(args) => BridgeAction::Call { func, args },
                    Err(e) => BridgeAction::Refuse(
                        join("Failed to convert arguments to Lua values: ", &e),
                    ),
                }
            },
            LuaProxyBridgeMessage::ReadBuffer { buffer_id } => {
                match plc.buffer_registry.get(buffer_id) {
                    Some(b) => BridgeAction::Read(b),
                    None => BridgeAction::Refuse(missing_text("Buffer", buffer_id)),
                }
            },
            LuaProxyBridgeMessage::DropObject { obj_type, obj_id } => {
                match obj_type {
                    ObjectRegistryType::Function => plc.func_registry.remove(obj_id),
                    ObjectRegistryType::UserData => plc.userdata_registry.remove(obj_id),
                    ObjectRegistryType::Buffer => plc.buffer_registry.remove(obj_id),
                    ObjectRegistryType::Thread => plc.thread_registry.remove(obj_id),
                }
                BridgeAction::Done
            },
            LuaProxyBridgeMessage::Shutdown => BridgeAction::Stop,
        }
    }

    /// What the bridge answers when a call is over. A result that cannot be sent ends the bridge.
    pub fn on_returned(plc: &mut ProxyLuaClient, outcome: CallOutcome) -> (r: CallReply)
        requires
            old(plc).wf(),
        ensures
            final(plc).wf(),
            final(plc).lua_alive == old(plc).lua_alive,
            match outcome {
                CallOutcome::Returned(values) => {
                    let want = all_of_lua(
                        luau_views(values@),
                        0,
                        Seq::empty(),
                        old(plc).regs(),
                        old(plc).lua_alive,
                        "Failed to convert return value to proxied Lua value: "@,
                    );
                    &&& final(plc).regs() == want.regs
                    &&& r.stop <==> want.res is Err
                    &&& match (r.reply, want.res) {
                        (Ok(p), Ok(v)) => lua_views(p@) == v,
                        (Err(e), Err(t)) => e@ == t,
                        _ => false,
                    }
                },
                CallOutcome::Raised(t) => final(plc).regs() == old(plc).regs() && !r.stop
                    && (r.reply matches Err(e) && e@ == "Lua function error: "@ + t@),
                CallOutcome::NoResult => final(plc).regs() == old(plc).regs() && !r.stop
                    && (r.reply matches Ok(p) && p@.len() == 0),
                CallOutcome::Failed(t) => final(plc).regs() == old(plc).regs() && !r.stop
                    && (r.reply matches Err(e) && e@ == "Failed to call Lua function: "@ + t@),
            },
    {
        match outcome {
            CallOutcome::Returned(values) => {
                match all_from_lua(
                    &values,
                    plc,
                    "Failed to convert return value to proxied Lua value: ",
                ) {
                    Ok(args) => CallReply { reply: Ok(args), stop: false },
                    Err(e) => CallReply { reply: Err(e), stop: true },
                }
            },
            CallOutcome::Raised(e) => CallReply {
                reply: Err(join("Lua function error: ", &e)),
                stop: false,
            },
            CallOutcome::NoResult => CallReply { reply: Ok(Vec::new()), stop: false },
            CallOutcome::Failed(e) => CallReply {
                reply: Err(join("Failed to call Lua function: ", &e)),
                stop: false,
            },
        }
    }

    /// How a request that waits for an answer ends, given how the sending of it and the wait for
    /// the answer went.
    pub fn request_result<T>(
        what: &str,
        sent: Result<(), String>,
        answer: Result<Result<T, String>, String>,
    ) -> (r: Result<T, String>)
        ensures
            match (sent, answer) {
                (Err(e), _) => r matches Err(t) && t@ == "Failed to send "@ + what@ + " message: "@
                    + e@,
                (Ok(()), Err(e)) => r matches Err(t) && t@ == "Failed to receive "@ + what@
                    + " response: "@ + e@,
                (Ok(()), Ok(x)) => r == x,
            },
    {
        match sent {
            Err(e) => Err(join4("Failed to send ", what, " message: ", &e)),
            Ok(()) => match answer {
                Err(e) => Err(join4("Failed to receive ", what, " response: ", &e)),
                Ok(x) => x,
            },
        }
    }
}

/// What the bridge is asked to drop once a value of a parallel state is gone.
pub open spec fn owed_drop(v: LuauView) -> Option<(ObjectRegistryType, i64)> {
    match v {
        LuauView::Stub(Stub::LuaFunction(id)) => Some((ObjectRegistryType::Function, id)),
        LuauView::UserData { payload: PayloadView::LuaBuffer(id), .. } => Some(
            (ObjectRegistryType::Buffer, id),
        ),
        _ => None,
    }
}

/// What the bridge is asked to drop once a value of a parallel state is gone.
pub fn drop_request(value: &LuauValue) -> (r: Option<LuaProxyBridgeMessage>)
    ensures
        r is Some <==> owed_drop(value@) is Some,
        r matches Some(m) ==> (m matches LuaProxyBridgeMessage::DropObject { obj_type, obj_id }
            && owed_drop(value@) == Some((obj_type, obj_id))),
{
    match value {
        LuauValue::Stub(Stub::LuaFunction(id)) => Some(
            LuaProxyBridgeMessage::DropObject {
                obj_type: ObjectRegistryType::Function,
                obj_id: *id,
            },
        ),
        LuauValue::UserData { payload: Payload::LuaBuffer(id), .. } => Some(
            LuaProxyBridgeMessage::DropObject {
                obj_type: ObjectRegistryType::Buffer,
                obj_id: *id,
            },
        ),
        _ => None,
    }
}

/// An object that the bridge was asked to drop can no longer be called or read.
pub proof fn law_dropped_is_unknown(regs: LuaRegs, obj_type: ObjectRegistryType, id: i64)
    ensures
        obj_type == ObjectRegistryType::Function ==> !dropped_from(
            regs,
            obj_type,
            id,
        ).func.live.dom().contains(id),
        obj_type == ObjectRegistryType::Buffer ==> !dropped_from(
            regs,
            obj_type,
            id,
        ).buffer.live.dom().contains(id),
{
}

} // verus!
