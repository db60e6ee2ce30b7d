//! What each kind of value becomes on its way across the bridge.

use vstd::prelude::*;
use vstd::utf8::{decode_utf8, encode_utf8, valid_utf8};

use crate::denobridge::conv_luau::{psuedo_of_luau, psuedo_to_luau, value_of_luau, value_to_luau};
use crate::denobridge::conv_v8::{psuedo_of_v8, psuedo_to_v8, value_of_v8, value_to_v8};
use crate::denobridge::jsvalue::JsView;
use crate::denobridge::bridge::V8ObjectRegistryType;
use crate::denobridge::value::V8View;
use crate::luau::bridge::ObjectRegistryType;
use crate::luau::embedder_api::EmbedderDataContext;
use crate::luau::value::{LuauView, Number, PayloadView, Single, Vector3, FRESH};
use crate::outcome::Step;
use crate::registry::{ObjectRef, RefKind, RegistryView};

verus! {

/// Whether a conversion gives nothing but that value, and gives it where no payload is too large.
pub open spec fn comes_to<T>(res: Result<T, Seq<char>>, want: T, ed: EmbedderDataContext) -> bool {
    &&& res matches Ok(got) ==> got == want
    &&& ed.ed.max_payload_size is None ==> res is Ok
}

/// Whether a conversion gives nothing but the reference to an object of Luau that is handed out once
/// more, and gives it where no payload is too large and the registry has room.
pub open spec fn hands_out(
    r: Step<V8View>,
    typ: ObjectRegistryType,
    obj: ObjectRef,
    reg: RegistryView,
    ed: EmbedderDataContext,
) -> bool {
    &&& r.res matches Ok(got) ==> got == V8View::SourceOwned(typ, reg.id_for(obj)) && r.reg
        == reg.added(obj) && reg.admits(obj)
    &&& ed.ed.max_payload_size is None && reg.admits(obj) ==> r.res is Ok
}

/// Whether a conversion gives nothing but the reference to an object of v8 that is handed out once
/// more, and gives it where no payload is too large and the registry has room.
pub open spec fn lends_out(
    r: Step<V8View>,
    typ: V8ObjectRegistryType,
    obj: ObjectRef,
    reg: RegistryView,
    ed: EmbedderDataContext,
) -> bool {
    &&& r.res matches Ok(got) ==> got == V8View::V8Owned(typ, reg.id_for(obj)) && r.reg
        == reg.added(obj) && reg.admits(obj)
    &&& ed.ed.max_payload_size is None && reg.admits(obj) ==> r.res is Ok
}

/// What the plain values of Luau become: an integer keeps its value, a text its letters, bytes that
/// are no text stay bytes, and what is unknown becomes a text that says so.
pub proof fn law_luau_values_for_v8(v: LuauView, reg: RegistryView, ed: EmbedderDataContext)
    ensures
        v is Nil ==> comes_to(value_of_luau(v, reg, ed).res, V8View::Nil, ed),
        v matches LuauView::Boolean(b)
            ==> comes_to(value_of_luau(v, reg, ed).res, V8View::Boolean(b), ed),
        v matches LuauView::LightUserData(i)
            ==> comes_to(value_of_luau(v, reg, ed).res, V8View::BigInt(i), ed),
        v matches LuauView::Integer(i)
            ==> (-0x8000_0000 <= i <= 0x7fff_ffff
                ==> comes_to(value_of_luau(v, reg, ed).res, V8View::Integer(i as i32), ed)),
        v matches LuauView::Integer(i)
            ==> (i < -0x8000_0000 || i > 0x7fff_ffff
                ==> comes_to(value_of_luau(v, reg, ed).res, V8View::BigInt(i), ed)),
        v matches LuauView::Number(n)
            ==> comes_to(value_of_luau(v, reg, ed).res, V8View::Number(n), ed),
        v matches LuauView::Vector(x)
            ==> comes_to(value_of_luau(v, reg, ed).res, V8View::Vector(x), ed),
        v matches LuauView::String(bytes)
            ==> (valid_utf8(bytes)
                ==> comes_to(value_of_luau(v, reg, ed).res, V8View::String(decode_utf8(bytes)),
                    ed)),
        v matches LuauView::String(bytes)
            ==> (!valid_utf8(bytes)
                ==> comes_to(value_of_luau(v, reg, ed).res, V8View::Bytes(bytes), ed)),
        v matches LuauView::Other(text)
            ==> comes_to(value_of_luau(v, reg, ed).res, V8View::String("unknown("@ + text + ")"@),
                ed),
{
    let psuedo = psuedo_of_luau(v, reg, ed.sibling());
}

/// What the objects of Luau become: a reference of the sort that the object has, to the object itself; a
/// userdata that stands for an object or a value of v8 becomes what it stands for. A stub and an
/// error cannot be sent.
pub proof fn law_luau_objects_for_v8(v: LuauView, reg: RegistryView, ed: EmbedderDataContext)
    ensures
        v matches LuauView::Table { handle, frozen, .. }
            ==> (!frozen ==> hands_out(value_of_luau(v, reg, ed), ObjectRegistryType::Table,
                ObjectRef { kind: RefKind::Table, handle }, reg, ed)),
        v matches LuauView::Buffer { handle, .. }
            ==> hands_out(value_of_luau(v, reg, ed), ObjectRegistryType::Buffer,
                ObjectRef { kind: RefKind::Buffer, handle }, reg, ed),
        v matches LuauView::UserData { handle, payload } ==> match payload {
            PayloadView::V8Ref(typ, id) => comes_to(value_of_luau(v, reg, ed).res,
                V8View::V8Owned(typ, id), ed),
            PayloadView::V8Transfer(p) => comes_to(value_of_luau(v, reg, ed).res, p, ed),
            _ => hands_out(value_of_luau(v, reg, ed), ObjectRegistryType::UserData,
                ObjectRef { kind: RefKind::UserData, handle }, reg, ed),
        },
        v matches LuauView::Ref(obj) ==> match obj.kind {
            RefKind::Table => hands_out(value_of_luau(v, reg, ed), ObjectRegistryType::Table, obj,
                reg, ed),
            RefKind::Function => hands_out(value_of_luau(v, reg, ed), ObjectRegistryType::Function,
                obj, reg, ed),
            RefKind::UserData => hands_out(value_of_luau(v, reg, ed), ObjectRegistryType::UserData,
                obj, reg, ed),
            RefKind::Buffer => hands_out(value_of_luau(v, reg, ed), ObjectRegistryType::Buffer,
                obj, reg, ed),
            RefKind::Thread => hands_out(value_of_luau(v, reg, ed), ObjectRegistryType::Thread,
                obj, reg, ed),
            _ => value_of_luau(v, reg, ed).res is Err,
        },
        v matches LuauView::Stub(_) ==>  value_of_luau(v, reg, ed).res is Err,
        v matches LuauView::Error(_) ==>  value_of_luau(v, reg, ed).res is Err,
{
    let psuedo = psuedo_of_luau(v, reg, ed.sibling());
}

/// What a proxied value becomes in Luau: an integer keeps its value and a text its letters; a reference
/// to an object of v8 becomes a userdata that stands for it, and one to an object of Luau becomes that
/// object, if it is still known.
pub proof fn law_values_in_luau(p: V8View, reg: RegistryView, ed: EmbedderDataContext)
    ensures
        p is Nil ==> comes_to(value_to_luau(p, reg, ed).res, LuauView::Nil, ed),
        p is Undefined ==> comes_to(value_to_luau(p, reg, ed).res, LuauView::Nil, ed),
        p matches V8View::Boolean(b)
            ==> comes_to(value_to_luau(p, reg, ed).res, LuauView::Boolean(b), ed),
        p matches V8View::Integer(i)
            ==> comes_to(value_to_luau(p, reg, ed).res, LuauView::Integer(i as i64), ed),
        p matches V8View::BigInt(i)
            ==> comes_to(value_to_luau(p, reg, ed).res, LuauView::Integer(i), ed),
        p matches V8View::String(s)
            ==> comes_to(value_to_luau(p, reg, ed).res, LuauView::String(encode_utf8(s)), ed),
        p matches V8View::Number(n)
            ==> comes_to(value_to_luau(p, reg, ed).res, LuauView::Number(n), ed),
        p matches V8View::Vector(x)
            ==> comes_to(value_to_luau(p, reg, ed).res, LuauView::Vector(x), ed),
        p matches V8View::Bytes(bytes)
            ==> comes_to(value_to_luau(p, reg, ed).res, LuauView::String(bytes), ed),
        p matches V8View::V8Owned(typ, id)
            ==> comes_to(value_to_luau(p, reg, ed).res,
                LuauView::UserData { handle: FRESH, payload: PayloadView::V8Ref(typ, id) }, ed),
        p matches V8View::SourceOwned(_, id)
            ==> (reg.live.dom().contains(id)
                ==> comes_to(value_to_luau(p, reg, ed).res, LuauView::Ref(reg.live[id].obj), ed)),
        p matches V8View::SourceOwned(_, id)
            ==> (!reg.live.dom().contains(id) ==> value_to_luau(p, reg, ed).res is Err),
{
    if ed.after(1, "ProxiedV8Value -> <base overhead>"@) is Ok {
        let psuedo = psuedo_to_luau(
            p,
            reg,
            ed.after(1, "ProxiedV8Value -> <base overhead>"@)->Ok_0,
        );
    }
}

/// What a proxied value becomes in v8: an integer keeps its value and a text its letters; a vector
/// becomes an array of its three components; a reference to an object of Luau stands for it, and one to
/// an object of v8 becomes that object, or undefined if it is no longer known.
pub proof fn law_values_in_v8(p: V8View, reg: RegistryView, ed: EmbedderDataContext)
    ensures
        p is Nil ==> comes_to(value_to_v8(p, reg, ed).res, JsView::Null, ed),
        p is Undefined ==> comes_to(value_to_v8(p, reg, ed).res, JsView::Undefined, ed),
        p matches V8View::Boolean(b)
            ==> comes_to(value_to_v8(p, reg, ed).res, JsView::Boolean(b), ed),
        p matches V8View::Integer(i)
            ==> comes_to(value_to_v8(p, reg, ed).res, JsView::Int32(i), ed),
        p matches V8View::BigInt(i)
            ==> comes_to(value_to_v8(p, reg, ed).res, JsView::BigInt(i), ed),
        p matches V8View::String(s)
            ==> comes_to(value_to_v8(p, reg, ed).res, JsView::String(s), ed),
        p matches V8View::Number(n)
            ==> comes_to(value_to_v8(p, reg, ed).res, JsView::Number(n), ed),
        p matches V8View::Vector(x) ==> comes_to(value_to_v8(p, reg, ed).res, JsView::Array(
                seq![
                    JsView::Number(Number::OfSingle(x.x)),
                    JsView::Number(Number::OfSingle(x.y)),
                    JsView::Number(Number::OfSingle(x.z)),
                ],
            ), ed),
        p matches V8View::Bytes(bytes)
            ==> comes_to(value_to_v8(p, reg, ed).res, JsView::Uint8Array(bytes), ed),
        p matches V8View::V8Owned(_, id)
            ==> (1 <= id <= 0x7fff_ffff && reg.live.dom().contains(id)
                ==> comes_to(value_to_v8(p, reg, ed).res, JsView::Ref(reg.live[id].obj), ed)),
        p matches V8View::V8Owned(_, id)
            ==> (1 <= id <= 0x7fff_ffff && !reg.live.dom().contains(id)
                ==> comes_to(value_to_v8(p, reg, ed).res, JsView::Undefined, ed)),
        p matches V8View::SourceOwned(typ, id)
            ==> comes_to(value_to_v8(p, reg, ed).res, JsView::LuaObject(typ, id), ed),
{
    if ed.after(1, "ProxiedV8Value -> <base overhead>"@) is Ok {
        let psuedo = psuedo_to_v8(
            p,
            reg,
            ed.after(1, "ProxiedV8Value -> <base overhead>"@)->Ok_0,
        );
    }
}

/// What the values of v8 become: a number keeps its value and a text its letters, a bigint that is too
/// wide becomes the text of it, and an object becomes a reference of the sort that it has, to the
/// object itself.
pub proof fn law_v8_values(v: JsView, reg: RegistryView, ed: EmbedderDataContext)
    ensures
        v is Null ==> comes_to(value_of_v8(v, reg, ed).res, V8View::Nil, ed),
        v is Undefined ==> comes_to(value_of_v8(v, reg, ed).res, V8View::Undefined, ed),
        v matches JsView::Boolean(b)
            ==> comes_to(value_of_v8(v, reg, ed).res, V8View::Boolean(b), ed),
        v matches JsView::Int32(i)
            ==> comes_to(value_of_v8(v, reg, ed).res, V8View::Integer(i), ed),
        v matches JsView::BigInt(i)
            ==> comes_to(value_of_v8(v, reg, ed).res, V8View::BigInt(i), ed),
        v matches JsView::WideBigInt(text)
            ==> comes_to(value_of_v8(v, reg, ed).res, V8View::String(text), ed),
        v matches JsView::String(text)
            ==> comes_to(value_of_v8(v, reg, ed).res, V8View::String(text), ed),
        v matches JsView::Number(n)
            ==> comes_to(value_of_v8(v, reg, ed).res, V8View::Number(n), ed),
        v matches JsView::Uint8Array(bytes)
            ==> comes_to(value_of_v8(v, reg, ed).res, V8View::Bytes(bytes), ed),
        v matches JsView::LuaObject(typ, id)
            ==> comes_to(value_of_v8(v, reg, ed).res, V8View::SourceOwned(typ, id), ed),
        v matches JsView::ArrayBuffer { handle, .. }
            ==> lends_out(value_of_v8(v, reg, ed), V8ObjectRegistryType::ArrayBuffer,
                ObjectRef { kind: RefKind::ArrayBuffer, handle }, reg, ed),
        v matches JsView::Ref(obj) ==> match obj.kind {
            RefKind::ArrayBuffer => lends_out(value_of_v8(v, reg, ed),
                V8ObjectRegistryType::ArrayBuffer, obj, reg, ed),
            RefKind::Function => lends_out(value_of_v8(v, reg, ed), V8ObjectRegistryType::Function,
                obj, reg, ed),
            RefKind::Promise => lends_out(value_of_v8(v, reg, ed), V8ObjectRegistryType::Promise,
                obj, reg, ed),
            _ => lends_out(value_of_v8(v, reg, ed), V8ObjectRegistryType::Object, obj, reg, ed),
        },
{
    if ed.after(1, "ProxiedV8Value -> <base overhead>"@) is Ok {
        let e1 = ed.after(1, "ProxiedV8Value -> <base overhead>"@)->Ok_0;
        if e1.after(1, "ProxiedV8Primitive -> <base overhead>"@) is Ok {
            let e2 = e1.after(1, "ProxiedV8Primitive -> <base overhead>"@)->Ok_0;
            let psuedo = psuedo_of_v8(v, reg, e2);
        }
    }
}

/// Three numbers in an array of v8 are a vector: each component is the single-precision number
/// nearest to the number in its place.
pub proof fn law_three_numbers_are_a_vector(
    a: JsView,
    b: JsView,
    c: JsView,
    x: Number,
    y: Number,
    z: Number,
    reg: RegistryView,
    ed: EmbedderDataContext,
)
    requires
        a == JsView::Number(x) || (a is Int32 && x == Number::OfInt(a->Int32_0 as i64)),
        b == JsView::Number(y) || (b is Int32 && y == Number::OfInt(b->Int32_0 as i64)),
        c == JsView::Number(z) || (c is Int32 && z == Number::OfInt(c->Int32_0 as i64)),
    ensures
        comes_to(
            value_of_v8(JsView::Array(seq![a, b, c]), reg, ed).res,
            V8View::Vector(Vector3 { x: x.rounded(), y: y.rounded(), z: z.rounded() }),
            ed,
        ),
{
    let v = JsView::Array(seq![a, b, c]);
    if ed.after(1, "ProxiedV8Value -> <base overhead>"@) is Ok {
        let e1 = ed.after(1, "ProxiedV8Value -> <base overhead>"@)->Ok_0;
        if e1.after(1, "ProxiedV8Primitive -> <base overhead>"@) is Ok {
            let e2 = e1.after(1, "ProxiedV8Primitive -> <base overhead>"@)->Ok_0;
            let psuedo = psuedo_of_v8(v, reg, e2);
        }
    }
}

/// A number that was made from a single-precision number is rounded back to that number, so a vector
/// keeps its components.
pub proof fn law_single_is_rounded_to_itself(s: Single, bits: u64, i: i64)
    ensures
        Number::OfSingle(s).rounded() == s,
        Number::Bits(bits).rounded() == Single::OfDouble(bits),
        Number::OfInt(i).rounded() == Single::OfInt(i),
{
}

} // verus!
