//! What each kind of value becomes on its way between two states.

use vstd::prelude::*;
use vstd::utf8::{decode_utf8, encode_utf8, valid_utf8};

use crate::denobridge::law_kinds::comes_to;
use crate::luau::bridge::ObjectRegistryType;
use crate::luau::embedder_api::EmbedderDataContext;
use crate::luau::value::{LuauView, Metatable, PayloadView, FRESH};
use crate::outcome::Step;
use crate::parallelluau::client::{well_addressed, ParallelLuaMessage, PLUAU_MESSAGE_MAGIC};
use crate::parallelluau::convert::{
    psuedo_of_state, psuedo_to_state, value_of_state, value_to_state,
};
use crate::parallelluau::value::PLuauView;
use crate::registry::{ObjectRef, RefKind, RegistryView};

verus! {

/// Whether a conversion gives nothing but the reference to an object of the state that is handed out
/// once more, and gives it where no payload is too large and the registry has room. The host owns
/// what it hands out as the source, the child as the target.
pub open spec fn hands_out(
    r: Step<PLuauView>,
    typ: ObjectRegistryType,
    obj: ObjectRef,
    host: bool,
    reg: RegistryView,
    ed: EmbedderDataContext,
) -> bool {
    &&& r.res matches Ok(got) ==> r.reg == reg.added(obj) && reg.admits(obj)
    &&& r.res matches Ok(got) ==> (host ==> got == PLuauView::SourceOwned(typ, reg.id_for(obj)))
    &&& r.res matches Ok(got) ==> (!host ==> got == PLuauView::TargetOwned(typ, reg.id_for(obj)))
    &&& ed.ed.max_payload_size is None && reg.admits(obj) ==> r.res is Ok
}

/// What the plain values of a state become: an integer keeps its value, a text its letters, bytes that
/// are no text stay bytes, and what is unknown becomes a text that says so.
pub proof fn law_values_of_state(v: LuauView, host: bool, reg: RegistryView,
    ed: EmbedderDataContext)
    ensures
        v is Nil ==> comes_to(value_of_state(v, host, reg, ed).res, PLuauView::Nil, ed),
        v matches LuauView::Boolean(b)
            ==> comes_to(value_of_state(v, host, reg, ed).res, PLuauView::Boolean(b), ed),
        v matches LuauView::LightUserData(i)
            ==> (i == 0 ==> comes_to(value_of_state(v, host, reg, ed).res, PLuauView::Null, ed)),
        v matches LuauView::LightUserData(i)
            ==> (i != 0 ==> comes_to(value_of_state(v, host, reg, ed).res, PLuauView::Integer(i),
                ed)),
        v matches LuauView::Integer(i)
            ==> comes_to(value_of_state(v, host, reg, ed).res, PLuauView::Integer(i), ed),
        v matches LuauView::Number(n)
            ==> comes_to(value_of_state(v, host, reg, ed).res, PLuauView::Number(n), ed),
        v matches LuauView::Vector(x)
            ==> comes_to(value_of_state(v, host, reg, ed).res, PLuauView::Vector(x), ed),
        v matches LuauView::String(bytes)
            ==> (valid_utf8(bytes)
                ==> comes_to(value_of_state(v, host, reg, ed).res,
                    PLuauView::String(decode_utf8(bytes)), ed)),
        v matches LuauView::String(bytes)
            ==> (!valid_utf8(bytes)
                ==> comes_to(value_of_state(v, host, reg, ed).res, PLuauView::Bytes(bytes), ed)),
        v matches LuauView::Other(text)
            ==> comes_to(value_of_state(v, host, reg, ed).res,
                PLuauView::String("unknown("@ + text + ")"@), ed),
{
    let psuedo = psuedo_of_state(v, host, reg, ed.sibling());
}

/// What the objects of a state become: a reference of the sort that the object has, to the object
/// itself; a userdata that stands for an object of the other state becomes what it stands for. A stub
/// and an error cannot be sent.
pub proof fn law_objects_of_state(v: LuauView, host: bool, reg: RegistryView,
    ed: EmbedderDataContext)
    ensures
        v matches LuauView::Table { handle, metatable, .. }
            ==> (metatable == Metatable::Other
                ==> hands_out(value_of_state(v, host, reg, ed), ObjectRegistryType::Table,
                    ObjectRef { kind: RefKind::Table, handle }, host, reg, ed)),
        v matches LuauView::Buffer { handle, .. }
            ==> hands_out(value_of_state(v, host, reg, ed), ObjectRegistryType::Buffer,
                ObjectRef { kind: RefKind::Buffer, handle }, host, reg, ed),
        v matches LuauView::UserData { handle, payload } ==> match payload {
            PayloadView::HostRef(typ, id) => comes_to(value_of_state(v, host, reg, ed).res,
                PLuauView::SourceOwned(typ, id), ed),
            PayloadView::ChildRef(typ, id) => comes_to(value_of_state(v, host, reg, ed).res,
                PLuauView::TargetOwned(typ, id), ed),
            PayloadView::LuauTransfer(p) => if host {
                comes_to(value_of_state(v, host, reg, ed).res, p, ed)
            } else {
                hands_out(value_of_state(v, host, reg, ed), ObjectRegistryType::UserData,
                    ObjectRef { kind: RefKind::UserData, handle }, host, reg, ed)
            },
            _ => hands_out(value_of_state(v, host, reg, ed), ObjectRegistryType::UserData,
                ObjectRef { kind: RefKind::UserData, handle }, host, reg, ed),
        },
        v matches LuauView::Ref(obj) ==> match obj.kind {
            RefKind::Table => hands_out(value_of_state(v, host, reg, ed),
                ObjectRegistryType::Table, obj, host, reg, ed),
            RefKind::Function => hands_out(value_of_state(v, host, reg, ed),
                ObjectRegistryType::Function, obj, host, reg, ed),
            RefKind::UserData => hands_out(value_of_state(v, host, reg, ed),
                ObjectRegistryType::UserData, obj, host, reg, ed),
            RefKind::Buffer => hands_out(value_of_state(v, host, reg, ed),
                ObjectRegistryType::Buffer, obj, host, reg, ed),
            RefKind::Thread => hands_out(value_of_state(v, host, reg, ed),
                ObjectRegistryType::Thread, obj, host, reg, ed),
            _ => value_of_state(v, host, reg, ed).res is Err,
        },
        v matches LuauView::Stub(_) ==> value_of_state(v, host, reg, ed).res is Err,
        v matches LuauView::Error(_) ==> value_of_state(v, host, reg, ed).res is Err,
{
    let psuedo = psuedo_of_state(v, host, reg, ed.sibling());
}

/// What a value becomes in a state: an integer keeps its value and a text its letters; a reference to an
/// object of the other state becomes a userdata that stands for it, and one to an object of this state
/// becomes that object, if it is still known.
pub proof fn law_values_in_state(p: PLuauView, host: bool, reg: RegistryView,
    ed: EmbedderDataContext)
    ensures
        p is Null ==> comes_to(value_to_state(p, host, reg, ed).res, LuauView::LightUserData(0),
            ed),
        p is Nil ==> comes_to(value_to_state(p, host, reg, ed).res, LuauView::Nil, ed),
        p matches PLuauView::Boolean(b)
            ==> comes_to(value_to_state(p, host, reg, ed).res, LuauView::Boolean(b), ed),
        p matches PLuauView::Integer(i)
            ==> comes_to(value_to_state(p, host, reg, ed).res, LuauView::Integer(i), ed),
        p matches PLuauView::String(s)
            ==> comes_to(value_to_state(p, host, reg, ed).res, LuauView::String(encode_utf8(s)),
                ed),
        p matches PLuauView::Number(n)
            ==> comes_to(value_to_state(p, host, reg, ed).res, LuauView::Number(n), ed),
        p matches PLuauView::Vector(x)
            ==> comes_to(value_to_state(p, host, reg, ed).res, LuauView::Vector(x), ed),
        p matches PLuauView::Bytes(bytes)
            ==> comes_to(value_to_state(p, host, reg, ed).res, LuauView::String(bytes), ed),
        p matches PLuauView::SourceOwned(typ, id)
            ==> (!host ==> comes_to(value_to_state(p, host, reg, ed).res,
                LuauView::UserData { handle: FRESH, payload: PayloadView::HostRef(typ, id) }, ed)),
        p matches PLuauView::TargetOwned(typ, id)
            ==> (host ==> comes_to(value_to_state(p, host, reg, ed).res,
                LuauView::UserData { handle: FRESH, payload: PayloadView::ChildRef(typ, id) }, ed)),
        p matches PLuauView::SourceOwned(_, id)
            ==> (host && reg.live.dom().contains(id)
                ==> comes_to(value_to_state(p, host, reg, ed).res, LuauView::Ref(reg.live[id].obj),
                    ed)),
        p matches PLuauView::SourceOwned(_, id)
            ==> (host && !reg.live.dom().contains(id)
                ==> value_to_state(p, host, reg, ed).res is Err),
        p matches PLuauView::TargetOwned(_, id)
            ==> (!host && reg.live.dom().contains(id)
                ==> comes_to(value_to_state(p, host, reg, ed).res, LuauView::Ref(reg.live[id].obj),
                    ed)),
        p matches PLuauView::TargetOwned(_, id)
            ==> (!host && !reg.live.dom().contains(id)
                ==> value_to_state(p, host, reg, ed).res is Err),
{
    if ed.after(1, "ProxiedLuauValue -> <base overhead>"@) is Ok {
        let psuedo = psuedo_to_state(
            p,
            host,
            reg,
            ed.after(1, "ProxiedLuauValue -> <base overhead>"@)->Ok_0,
        );
    }
}

/// A message to a child is taken where it carries the number that all messages to a child carry; the
/// end needs none.
pub proof fn law_message_to_a_child_is_marked(msg: ParallelLuaMessage)
    ensures
        msg matches ParallelLuaMessage::CodeExec { magic, .. } ==> (well_addressed(msg) <==> magic
            == PLUAU_MESSAGE_MAGIC),
        msg matches ParallelLuaMessage::GetProperty { magic, .. }
            ==> (well_addressed(msg) <==> magic
            == PLUAU_MESSAGE_MAGIC),
        msg matches ParallelLuaMessage::CallFunctionChild { magic, .. } ==> (well_addressed(msg)
            <==> magic == PLUAU_MESSAGE_MAGIC),
        msg matches ParallelLuaMessage::RequestDispose { magic, .. } ==> (well_addressed(msg)
            <==> magic == PLUAU_MESSAGE_MAGIC),
        msg is Shutdown ==> well_addressed(msg),
{
}

} // verus!
