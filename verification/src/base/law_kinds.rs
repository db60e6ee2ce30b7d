//! What each kind of value becomes on its way to and from the base bridge.

use vstd::prelude::*;
use vstd::utf8::encode_utf8;

use crate::base::deno::{copied_in_luau, copied_of_js, CopyRegs, CopyStep, CopyView};
use crate::base::luau::{lua_of_proxied, proxied_of_lua, LuaRegs, LuaStep, LuaView};
use crate::base::proxy_bridge::{dropped_from, owed_drop, ObjectRegistryType};
use crate::denobridge::jsvalue::JsView;
use crate::luau::value::{LuauView, PayloadView, Stub, FRESH};
use crate::registry::{ObjectRef, RefKind};
use crate::MAX_PROXY_DEPTH;

verus! {

/// What the values of Luau become: a number keeps its value and a text its bytes, and an object becomes a
/// reference of the sort that it has, kept in the registry of that sort; the other registries stay as
/// they are. Nothing but references changes a registry.
pub proof fn law_luau_values_out(v: LuauView, regs: LuaRegs, alive: bool, depth: nat)
    requires
        depth <= MAX_PROXY_DEPTH,
    ensures
        v is Nil ==> proxied_of_lua(v, regs, alive, depth)
            == (LuaStep { regs, res: Ok(LuaView::Nil) }),
        v matches LuauView::LightUserData(i) ==> proxied_of_lua(v, regs, alive, depth)
            == (LuaStep { regs, res: Ok(LuaView::Integer(i)) }),
        v matches LuauView::Boolean(b) ==> proxied_of_lua(v, regs, alive, depth)
            == (LuaStep { regs, res: Ok(LuaView::Boolean(b)) }),
        v matches LuauView::Integer(i) ==> proxied_of_lua(v, regs, alive, depth)
            == (LuaStep { regs, res: Ok(LuaView::Integer(i)) }),
        v matches LuauView::Number(n) ==> proxied_of_lua(v, regs, alive, depth)
            == (LuaStep { regs, res: Ok(LuaView::Number(n)) }),
        v matches LuauView::String(bytes) ==> proxied_of_lua(v, regs, alive, depth)
            == (LuaStep { regs, res: Ok(LuaView::String(bytes)) }),
        v matches LuauView::Vector(x) ==> proxied_of_lua(v, regs, alive, depth)
            == (LuaStep { regs, res: Ok(LuaView::Vector(x)) }),
        v matches LuauView::Table { .. }
            ==> (!alive ==> proxied_of_lua(v, regs, alive, depth).res is Err),
        v matches LuauView::UserData { handle, .. } ==> ({
            &&& regs.userdata.admits((ObjectRef { kind: RefKind::UserData, handle }))
                ==> proxied_of_lua(v, regs, alive, depth) == (LuaStep {
                regs: LuaRegs { userdata: regs.userdata.added((ObjectRef { kind: RefKind::UserData,
                    handle })), ..regs },
                res: Ok(LuaView::UserData(regs.userdata.id_for((ObjectRef { kind: RefKind::UserData, handle })))),
            })
            &&& !regs.userdata.admits((ObjectRef { kind: RefKind::UserData, handle }))
                ==> proxied_of_lua(v, regs, alive, depth).res is Err
                    && proxied_of_lua(v, regs, alive, depth).regs == regs
        }),
        v matches LuauView::Buffer { handle, .. } ==> ({
            &&& regs.buffer.admits((ObjectRef { kind: RefKind::Buffer, handle }))
                ==> proxied_of_lua(v, regs, alive, depth) == (LuaStep {
                regs: LuaRegs { buffer: regs.buffer.added((ObjectRef { kind: RefKind::Buffer,
                    handle })), ..regs },
                res: Ok(LuaView::Buffer(regs.buffer.id_for((ObjectRef { kind: RefKind::Buffer,
                    handle })))),
            })
            &&& !regs.buffer.admits((ObjectRef { kind: RefKind::Buffer, handle }))
                ==> proxied_of_lua(v, regs, alive, depth).res is Err
                    && proxied_of_lua(v, regs, alive, depth).regs == regs
        }),
        v matches LuauView::Ref(obj) ==> (obj.kind == RefKind::Function ==> ({
            &&& regs.func.admits(obj) ==> proxied_of_lua(v, regs, alive, depth) == (LuaStep {
                regs: LuaRegs { func: regs.func.added(obj), ..regs },
                res: Ok(LuaView::Function(regs.func.id_for(obj))),
            })
            &&& !regs.func.admits(obj) ==> proxied_of_lua(v, regs, alive, depth).res is Err
                && proxied_of_lua(v, regs, alive, depth).regs == regs
        })),
        v matches LuauView::Ref(obj) ==> (obj.kind == RefKind::UserData ==> ({
            &&& regs.userdata.admits(obj) ==> proxied_of_lua(v, regs, alive, depth) == (LuaStep {
                regs: LuaRegs { userdata: regs.userdata.added(obj), ..regs },
                res: Ok(LuaView::UserData(regs.userdata.id_for(obj))),
            })
            &&& !regs.userdata.admits(obj) ==> proxied_of_lua(v, regs, alive, depth).res is Err
                && proxied_of_lua(v, regs, alive, depth).regs == regs
        })),
        v matches LuauView::Ref(obj) ==> (obj.kind == RefKind::Buffer ==> ({
            &&& regs.buffer.admits(obj) ==> proxied_of_lua(v, regs, alive, depth) == (LuaStep {
                regs: LuaRegs { buffer: regs.buffer.added(obj), ..regs },
                res: Ok(LuaView::Buffer(regs.buffer.id_for(obj))),
            })
            &&& !regs.buffer.admits(obj) ==> proxied_of_lua(v, regs, alive, depth).res is Err
                && proxied_of_lua(v, regs, alive, depth).regs == regs
        })),
        v matches LuauView::Ref(obj) ==> (obj.kind == RefKind::Thread ==> ({
            &&& regs.thread.admits(obj) ==> proxied_of_lua(v, regs, alive, depth) == (LuaStep {
                regs: LuaRegs { thread: regs.thread.added(obj), ..regs },
                res: Ok(LuaView::Thread(regs.thread.id_for(obj))),
            })
            &&& !regs.thread.admits(obj) ==> proxied_of_lua(v, regs, alive, depth).res is Err
                && proxied_of_lua(v, regs, alive, depth).regs == regs
        })),
        v matches LuauView::Stub(_) ==> proxied_of_lua(v, regs, alive, depth).res is Err,
        v matches LuauView::Error(_) ==> proxied_of_lua(v, regs, alive, depth).res is Err,
        v matches LuauView::Other(text)
            ==> (alive ==> proxied_of_lua(v, regs, alive, depth)
                == (LuaStep { regs, res: Ok(LuaView::String(encode_utf8("unknown("@ + text + ")"@))) })),
        v matches LuauView::Other(_)
            ==> (!alive ==> proxied_of_lua(v, regs, alive, depth).res is Err),
{
}

/// What a value becomes in Luau: a number keeps its value and a text its bytes; at home a reference
/// becomes the object that its registry holds, if it is still known. In a parallel state a function
/// becomes a stub and a buffer a userdata that stands for it, and other objects cannot be sent.
pub proof fn law_values_back_in_luau(p: LuaView, regs: LuaRegs, parallel: bool)
    ensures
        p is Nil ==> lua_of_proxied(p, regs, parallel) == Ok::<LuauView, Seq<char>>(LuauView::Nil),
        p matches LuaView::Boolean(b) ==> lua_of_proxied(p, regs, parallel)
            == Ok::<LuauView, Seq<char>>(LuauView::Boolean(b)),
        p matches LuaView::Integer(i) ==> lua_of_proxied(p, regs, parallel)
            == Ok::<LuauView, Seq<char>>(LuauView::Integer(i)),
        p matches LuaView::Number(n) ==> lua_of_proxied(p, regs, parallel)
            == Ok::<LuauView, Seq<char>>(LuauView::Number(n)),
        p matches LuaView::String(bytes) ==> lua_of_proxied(p, regs, parallel)
            == Ok::<LuauView, Seq<char>>(LuauView::String(bytes)),
        p matches LuaView::Vector(x) ==> lua_of_proxied(p, regs, parallel)
            == Ok::<LuauView, Seq<char>>(LuauView::Vector(x)),
        p matches LuaView::Function(id) ==> (!parallel ==> if regs.func.live.dom().contains(id) {
            lua_of_proxied(p, regs, parallel)
                == Ok::<LuauView, Seq<char>>(LuauView::Ref(regs.func.live[id].obj))
        } else {
            lua_of_proxied(p, regs, parallel) is Err
        }),
        p matches LuaView::UserData(id)
            ==> (!parallel ==> if regs.userdata.live.dom().contains(id) {
            lua_of_proxied(p, regs, parallel)
                == Ok::<LuauView, Seq<char>>(LuauView::Ref(regs.userdata.live[id].obj))
        } else {
            lua_of_proxied(p, regs, parallel) is Err
        }),
        p matches LuaView::Buffer(id) ==> (!parallel ==> if regs.buffer.live.dom().contains(id) {
            lua_of_proxied(p, regs, parallel)
                == Ok::<LuauView, Seq<char>>(LuauView::Ref(regs.buffer.live[id].obj))
        } else {
            lua_of_proxied(p, regs, parallel) is Err
        }),
        p matches LuaView::Thread(id) ==> (!parallel ==> if regs.thread.live.dom().contains(id) {
            lua_of_proxied(p, regs, parallel)
                == Ok::<LuauView, Seq<char>>(LuauView::Ref(regs.thread.live[id].obj))
        } else {
            lua_of_proxied(p, regs, parallel) is Err
        }),
        p matches LuaView::Function(id)
            ==> (parallel ==> lua_of_proxied(p, regs, parallel)
                == Ok::<LuauView, Seq<char>>(LuauView::Stub(Stub::LuaFunction(id)))),
        p matches LuaView::Buffer(id)
            ==> (parallel ==> lua_of_proxied(p, regs, parallel)
                == Ok::<LuauView, Seq<char>>(LuauView::UserData { handle: FRESH,
                    payload: PayloadView::LuaBuffer(id) })),
        p matches LuaView::UserData(_) ==> (parallel ==> lua_of_proxied(p, regs, parallel) is Err),
        p matches LuaView::Thread(_) ==> (parallel ==> lua_of_proxied(p, regs, parallel) is Err),
{
}

/// What the values of v8 become: a number keeps its value and a text its letters, and an object becomes a
/// reference of the sort that it has, kept in the registry of that sort; the other registries stay as
/// they are.
pub proof fn law_js_values_copied(v: JsView, regs: CopyRegs, depth: nat)
    requires
        depth <= MAX_PROXY_DEPTH,
    ensures
        v is Null ==> copied_of_js(v, regs, depth) == (CopyStep { regs, res: Ok(CopyView::Nil) }),
        v is Undefined ==> copied_of_js(v, regs, depth)
            == (CopyStep { regs, res: Ok(CopyView::Undefined) }),
        v matches JsView::Boolean(b) ==> copied_of_js(v, regs, depth)
            == (CopyStep { regs, res: Ok(CopyView::Boolean(b)) }),
        v matches JsView::Int32(i) ==> copied_of_js(v, regs, depth)
            == (CopyStep { regs, res: Ok(CopyView::Integer(i)) }),
        v matches JsView::Number(n) ==> copied_of_js(v, regs, depth)
            == (CopyStep { regs, res: Ok(CopyView::Number(n)) }),
        v matches JsView::String(text) ==> copied_of_js(v, regs, depth)
            == (CopyStep { regs, res: Ok(CopyView::String(encode_utf8(text))) }),
        v matches JsView::ArrayBuffer { bytes, .. } ==> copied_of_js(v, regs, depth)
            == (CopyStep { regs, res: Ok(CopyView::Buffer(bytes)) }),
        v matches JsView::Ref(obj) ==> (obj.kind == RefKind::Function ==> ({
            &&& regs.func.admits(obj) ==> copied_of_js(v, regs, depth) == (CopyStep {
                regs: CopyRegs { func: regs.func.added(obj), ..regs },
                res: Ok(CopyView::Function(regs.func.id_for(obj))),
            })
            &&& !regs.func.admits(obj) ==> copied_of_js(v, regs, depth).res is Err
                && copied_of_js(v, regs, depth).regs == regs
        })),
        v matches JsView::Ref(obj) ==> (obj.kind == RefKind::Promise ==> ({
            &&& regs.promise.admits(obj) ==> copied_of_js(v, regs, depth) == (CopyStep {
                regs: CopyRegs { promise: regs.promise.added(obj), ..regs },
                res: Ok(CopyView::Promise(regs.promise.id_for(obj))),
            })
            &&& !regs.promise.admits(obj) ==> copied_of_js(v, regs, depth).res is Err
                && copied_of_js(v, regs, depth).regs == regs
        })),
        v matches JsView::Ref(obj)
            ==> (obj.kind != RefKind::Function && obj.kind != RefKind::Promise ==> ({
            &&& regs.obj.admits(obj) ==> copied_of_js(v, regs, depth) == (CopyStep {
                regs: CopyRegs { obj: regs.obj.added(obj), ..regs },
                res: Ok(CopyView::Object(regs.obj.id_for(obj))),
            })
            &&& !regs.obj.admits(obj) ==> copied_of_js(v, regs, depth).res is Err
                && copied_of_js(v, regs, depth).regs == regs
        })),
        v matches JsView::BigInt(_) ==> copied_of_js(v, regs, depth).res is Err,
        v matches JsView::WideBigInt(_) ==> copied_of_js(v, regs, depth).res is Err,
        v matches JsView::MapObject(_) ==> copied_of_js(v, regs, depth).res is Err,
        v matches JsView::LuaObject(_, _) ==> copied_of_js(v, regs, depth).res is Err,
{
}

/// What a value of v8 becomes in Luau: a number keeps its value and a text its bytes, null and undefined
/// become nil, and an object cannot be sent.
pub proof fn law_js_values_in_luau(p: CopyView)
    ensures
        p is Nil ==> copied_in_luau(p) == Ok::<LuauView, Seq<char>>(LuauView::Nil),
        p is Undefined ==> copied_in_luau(p) == Ok::<LuauView, Seq<char>>(LuauView::Nil),
        p matches CopyView::Boolean(b) ==> copied_in_luau(p)
            == Ok::<LuauView, Seq<char>>(LuauView::Boolean(b)),
        p matches CopyView::Integer(i) ==> copied_in_luau(p)
            == Ok::<LuauView, Seq<char>>(LuauView::Integer(i as i64)),
        p matches CopyView::Number(n) ==> copied_in_luau(p)
            == Ok::<LuauView, Seq<char>>(LuauView::Number(n)),
        p matches CopyView::String(bytes) ==> copied_in_luau(p)
            == Ok::<LuauView, Seq<char>>(LuauView::String(bytes)),
        p matches CopyView::Buffer(bytes) ==> copied_in_luau(p)
            == Ok::<LuauView, Seq<char>>(LuauView::Buffer { handle: FRESH, bytes }),
        p matches CopyView::Object(_) ==> copied_in_luau(p) is Err,
        p matches CopyView::Function(_) ==> copied_in_luau(p) is Err,
        p matches CopyView::Promise(_) ==> copied_in_luau(p) is Err,
{
}

/// Nothing that is nested deeper than the bound is converted, and no registry changes.
pub proof fn law_nothing_deeper_than_the_bound(
    v: LuauView,
    regs: LuaRegs,
    alive: bool,
    w: JsView,
    copies: CopyRegs,
    depth: nat,
)
    requires
        depth > MAX_PROXY_DEPTH,
    ensures
        proxied_of_lua(v, regs, alive, depth).res is Err,
        proxied_of_lua(v, regs, alive, depth).regs == regs,
        copied_of_js(w, copies, depth).res is Err,
        copied_of_js(w, copies, depth).regs == copies,
{
}

/// What is given back is no longer known under its number; everything else of that sort stays as it
/// was, and so do the other sorts.
pub proof fn law_only_what_is_given_back_is_dropped(
    regs: LuaRegs,
    typ: ObjectRegistryType,
    id: i64,
    other: i64,
)
    ensures
        typ is Function ==> !dropped_from(regs, typ, id).func.live.dom().contains(id),
        typ is Function && other != id
            ==> dropped_from(regs, typ, id).func.live.dom().contains(other)
            == regs.func.live.dom().contains(other) && dropped_from(regs, typ, id).func.live[other]
            == regs.func.live[other],
        !(typ is Function) ==> dropped_from(regs, typ, id).func == regs.func,
        typ is UserData ==> !dropped_from(regs, typ, id).userdata.live.dom().contains(id),
        typ is UserData && other != id
            ==> dropped_from(regs, typ, id).userdata.live.dom().contains(other)
            == regs.userdata.live.dom().contains(other)
                && dropped_from(regs, typ, id).userdata.live[other]
            == regs.userdata.live[other],
        !(typ is UserData) ==> dropped_from(regs, typ, id).userdata == regs.userdata,
        typ is Buffer ==> !dropped_from(regs, typ, id).buffer.live.dom().contains(id),
        typ is Buffer && other != id
            ==> dropped_from(regs, typ, id).buffer.live.dom().contains(other)
            == regs.buffer.live.dom().contains(other)
                && dropped_from(regs, typ, id).buffer.live[other]
            == regs.buffer.live[other],
        !(typ is Buffer) ==> dropped_from(regs, typ, id).buffer == regs.buffer,
        typ is Thread ==> !dropped_from(regs, typ, id).thread.live.dom().contains(id),
        typ is Thread && other != id
            ==> dropped_from(regs, typ, id).thread.live.dom().contains(other)
            == regs.thread.live.dom().contains(other)
                && dropped_from(regs, typ, id).thread.live[other]
            == regs.thread.live[other],
        !(typ is Thread) ==> dropped_from(regs, typ, id).thread == regs.thread,
{
}

/// A stub for a function and a userdata for a buffer are what has to be given back, under the number
/// that they have, and nothing else is.
pub proof fn law_what_has_to_be_given_back(v: LuauView)
    ensures
        v matches LuauView::Stub(Stub::LuaFunction(id)) ==> owed_drop(v) == Some(
            (ObjectRegistryType::Function, id),
        ),
        v matches LuauView::UserData { payload: PayloadView::LuaBuffer(id), .. } ==> owed_drop(v)
            == Some((ObjectRegistryType::Buffer, id)),
        owed_drop(v) is Some ==> (v is Stub && v->Stub_0 is LuaFunction) || (v is UserData
            && v->payload is LuaBuffer),
{
}

} // verus!
