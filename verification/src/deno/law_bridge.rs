//! What the values of each side become in the bridge by reference.

use vstd::prelude::*;

use crate::deno::bridge::{
    in_source, made_args, made_in_v8, proxied_of_handle, v8_dropped, ObjectRegistryType,
    ProxiedLuaValue, ProxiedV8Value, ProxyLuaClient, SourceValue, V8Handle, V8Made,
    V8ObjectRegistryType, V8Regs, V8Step,
};
use crate::deno::ops::{next_run, RunView};
use crate::luau::value::Number;
use crate::registry::{ObjectRef, RefKind};
use crate::MAX_PROXY_DEPTH;

verus! {

/// What a value of v8 becomes in Luau: a number keeps its value, null and undefined become nil, a
/// reference to an object of v8 stands for an object of that sort and number, and a reference to an
/// object of Luau becomes what the registry of its sort holds, if it is still known.
pub proof fn law_v8_values_at_the_source(p: ProxiedV8Value, plc: &ProxyLuaClient)
    ensures
        p is Nil ==> in_source(p, plc) == Ok::<SourceValue, Seq<char>>(SourceValue::Nil),
        p is Undefined ==> in_source(p, plc) == Ok::<SourceValue, Seq<char>>(SourceValue::Nil),
        p matches ProxiedV8Value::Boolean(b) ==> in_source(p, plc)
            == Ok::<SourceValue, Seq<char>>(SourceValue::Boolean(b)),
        p matches ProxiedV8Value::Integer(i) ==> in_source(p, plc)
            == Ok::<SourceValue, Seq<char>>(SourceValue::Integer(i as i64)),
        p matches ProxiedV8Value::Number(n) ==> in_source(p, plc)
            == Ok::<SourceValue, Seq<char>>(SourceValue::Number(n)),
        p matches ProxiedV8Value::ArrayBuffer(id) ==> in_source(p, plc)
            == Ok::<SourceValue, Seq<char>>(SourceValue::V8 { typ: V8ObjectRegistryType::ArrayBuffer, id, len: None }),
        p matches ProxiedV8Value::Object(id) ==> in_source(p, plc)
            == Ok::<SourceValue, Seq<char>>(SourceValue::V8 { typ: V8ObjectRegistryType::Object,
                id, len: None }),
        p matches ProxiedV8Value::Array(id) ==> in_source(p, plc)
            == Ok::<SourceValue, Seq<char>>(SourceValue::V8 { typ: V8ObjectRegistryType::Array, id,
                len: None }),
        p matches ProxiedV8Value::Function(id) ==> in_source(p, plc)
            == Ok::<SourceValue, Seq<char>>(SourceValue::V8 { typ: V8ObjectRegistryType::Function,
                id, len: None }),
        p matches ProxiedV8Value::Promise(id) ==> in_source(p, plc)
            == Ok::<SourceValue, Seq<char>>(SourceValue::V8 { typ: V8ObjectRegistryType::Promise,
                id, len: None }),
        p matches ProxiedV8Value::String(s) ==> in_source(p, plc)
            == Ok::<SourceValue, Seq<char>>(SourceValue::V8 { typ: V8ObjectRegistryType::String,
                id: s.0, len: Some(s.1) }),
        p matches ProxiedV8Value::SrcString(id)
            ==> if plc.string_registry@.live.dom().contains(id) {
            in_source(p, plc) == Ok::<SourceValue,
                Seq<char>>(SourceValue::Object(plc.string_registry@.live[id].obj))
        } else {
            in_source(p, plc) is Err
        },
        p matches ProxiedV8Value::SrcFunction(id)
            ==> if plc.func_registry@.live.dom().contains(id) {
            in_source(p, plc) == Ok::<SourceValue,
                Seq<char>>(SourceValue::Object(plc.func_registry@.live[id].obj))
        } else {
            in_source(p, plc) is Err
        },
        p matches ProxiedV8Value::SrcTable(id) ==> if plc.table_registry@.live.dom().contains(id) {
            in_source(p, plc) == Ok::<SourceValue,
                Seq<char>>(SourceValue::Object(plc.table_registry@.live[id].obj))
        } else {
            in_source(p, plc) is Err
        },
        p matches ProxiedV8Value::SrcThread(id)
            ==> if plc.thread_registry@.live.dom().contains(id) {
            in_source(p, plc) == Ok::<SourceValue,
                Seq<char>>(SourceValue::Object(plc.thread_registry@.live[id].obj))
        } else {
            in_source(p, plc) is Err
        },
        p matches ProxiedV8Value::SrcBuffer(id)
            ==> if plc.buffer_registry@.live.dom().contains(id) {
            in_source(p, plc) == Ok::<SourceValue,
                Seq<char>>(SourceValue::Object(plc.buffer_registry@.live[id].obj))
        } else {
            in_source(p, plc) is Err
        },
        p matches ProxiedV8Value::SrcUserData(id)
            ==> if plc.userdata_registry@.live.dom().contains(id) {
            in_source(p, plc) == Ok::<SourceValue,
                Seq<char>>(SourceValue::Object(plc.userdata_registry@.live[id].obj))
        } else {
            in_source(p, plc) is Err
        },
{
}

/// What a value of v8 becomes: a number keeps its value, an object of v8 becomes a reference of its
/// sort, kept in the registry of that sort while the others stay as they are, and an object that
/// stands for one of Luau becomes the reference to that.
pub proof fn law_v8_handles(v: V8Handle, regs: V8Regs, depth: nat)
    requires
        depth <= MAX_PROXY_DEPTH,
    ensures
        v is Null ==> proxied_of_handle(v, regs, depth)
            == (V8Step { regs, res: Ok(ProxiedV8Value::Nil) }),
        v is Undefined ==> proxied_of_handle(v, regs, depth)
            == (V8Step { regs, res: Ok(ProxiedV8Value::Undefined) }),
        v matches V8Handle::Boolean(b) ==> proxied_of_handle(v, regs, depth)
            == (V8Step { regs, res: Ok(ProxiedV8Value::Boolean(b)) }),
        v matches V8Handle::Int32(i) ==> proxied_of_handle(v, regs, depth)
            == (V8Step { regs, res: Ok(ProxiedV8Value::Integer(i)) }),
        v matches V8Handle::Number(n) ==> proxied_of_handle(v, regs, depth)
            == (V8Step { regs, res: Ok(ProxiedV8Value::Number(n)) }),
        v matches V8Handle::String { handle, length } ==> ({
            let obj = ObjectRef { kind: RefKind::String, handle };
            &&& regs.string.admits(obj) ==> proxied_of_handle(v, regs, depth) == (V8Step {
                regs: V8Regs { string: regs.string.added(obj), ..regs },
                res: Ok(ProxiedV8Value::String((regs.string.id_for(obj), length))),
            })
            &&& !regs.string.admits(obj) ==> proxied_of_handle(v, regs, depth).res is Err
                && proxied_of_handle(v, regs, depth).regs == regs
        }),
        v matches V8Handle::Array(handle) ==> ({
            let obj = ObjectRef { kind: RefKind::Array, handle };
            &&& regs.array.admits(obj) ==> proxied_of_handle(v, regs, depth) == (V8Step {
                regs: V8Regs { array: regs.array.added(obj), ..regs },
                res: Ok(ProxiedV8Value::Array(regs.array.id_for(obj))),
            })
            &&& !regs.array.admits(obj) ==> proxied_of_handle(v, regs, depth).res is Err
                && proxied_of_handle(v, regs, depth).regs == regs
        }),
        v matches V8Handle::ArrayBuffer(handle) ==> ({
            let obj = ObjectRef { kind: RefKind::ArrayBuffer, handle };
            &&& regs.array_buffer.admits(obj) ==> proxied_of_handle(v, regs, depth) == (V8Step {
                regs: V8Regs { array_buffer: regs.array_buffer.added(obj), ..regs },
                res: Ok(ProxiedV8Value::ArrayBuffer(regs.array_buffer.id_for(obj))),
            })
            &&& !regs.array_buffer.admits(obj) ==> proxied_of_handle(v, regs, depth).res is Err
                && proxied_of_handle(v, regs, depth).regs == regs
        }),
        v matches V8Handle::Function(handle) ==> ({
            let obj = ObjectRef { kind: RefKind::Function, handle };
            &&& regs.func.admits(obj) ==> proxied_of_handle(v, regs, depth) == (V8Step {
                regs: V8Regs { func: regs.func.added(obj), ..regs },
                res: Ok(ProxiedV8Value::Function(regs.func.id_for(obj))),
            })
            &&& !regs.func.admits(obj) ==> proxied_of_handle(v, regs, depth).res is Err
                && proxied_of_handle(v, regs, depth).regs == regs
        }),
        v matches V8Handle::Promise(handle) ==> ({
            let obj = ObjectRef { kind: RefKind::Promise, handle };
            &&& regs.promise.admits(obj) ==> proxied_of_handle(v, regs, depth) == (V8Step {
                regs: V8Regs { promise: regs.promise.added(obj), ..regs },
                res: Ok(ProxiedV8Value::Promise(regs.promise.id_for(obj))),
            })
            &&& !regs.promise.admits(obj) ==> proxied_of_handle(v, regs, depth).res is Err
                && proxied_of_handle(v, regs, depth).regs == regs
        }),
        v matches V8Handle::Object { handle, luatype, luaid }
            ==> (luatype is None || luaid is None ==> ({
            let obj = ObjectRef { kind: RefKind::Object, handle };
            &&& regs.obj.admits(obj) ==> proxied_of_handle(v, regs, depth) == (V8Step {
                regs: V8Regs { obj: regs.obj.added(obj), ..regs },
                res: Ok(ProxiedV8Value::Object(regs.obj.id_for(obj))),
            })
            &&& !regs.obj.admits(obj) ==> proxied_of_handle(v, regs, depth).res is Err
                && proxied_of_handle(v, regs, depth).regs == regs
        })),
        v matches V8Handle::Object { luatype: Some(t), luaid: Some(id), .. } ==> match t {
            ObjectRegistryType::Function => proxied_of_handle(v, regs, depth)
                == (V8Step { regs, res: Ok(ProxiedV8Value::SrcFunction(id)) }),
            ObjectRegistryType::Table => proxied_of_handle(v, regs, depth)
                == (V8Step { regs, res: Ok(ProxiedV8Value::SrcTable(id)) }),
            ObjectRegistryType::Thread => proxied_of_handle(v, regs, depth)
                == (V8Step { regs, res: Ok(ProxiedV8Value::SrcThread(id)) }),
            ObjectRegistryType::Buffer => proxied_of_handle(v, regs, depth)
                == (V8Step { regs, res: Ok(ProxiedV8Value::SrcBuffer(id)) }),
            ObjectRegistryType::UserData => proxied_of_handle(v, regs, depth)
                == (V8Step { regs, res: Ok(ProxiedV8Value::SrcUserData(id)) }),
            ObjectRegistryType::String => proxied_of_handle(v, regs, depth)
                == (V8Step { regs, res: Ok(ProxiedV8Value::SrcString(id)) }),
        },
        v is Other ==> proxied_of_handle(v, regs, depth).res is Err
            && proxied_of_handle(v, regs, depth).regs == regs,
{
}

/// What a value of Luau becomes in v8: an integer keeps its value, as a number where it needs more than
/// 32 bits, a vector becomes its three components in their order, and an object becomes one that stands
/// for it, with its sort and its number.
pub proof fn law_luau_values_made_in_v8(p: ProxiedLuaValue)
    ensures
        p is Nil ==> made_in_v8(p) == V8Made::Null,
        p matches ProxiedLuaValue::Boolean(b) ==> made_in_v8(p) == V8Made::Boolean(b),
        p matches ProxiedLuaValue::Integer(i)
            ==> (-0x8000_0000 <= i <= 0x7fff_ffff ==> made_in_v8(p) == V8Made::Int32(i as i32)),
        p matches ProxiedLuaValue::Integer(i)
            ==> (i < -0x8000_0000 || i > 0x7fff_ffff ==> made_in_v8(p)
                == V8Made::Number(Number::OfInt(i))),
        p matches ProxiedLuaValue::Number(n) ==> made_in_v8(p) == V8Made::Number(n),
        p matches ProxiedLuaValue::Vector(x) ==> made_in_v8(p)
            == V8Made::Triple(Number::OfSingle(x.x), Number::OfSingle(x.y), Number::OfSingle(x.z)),
        p matches ProxiedLuaValue::String(s) ==> made_in_v8(p)
            == (V8Made::LuaObject { luatype: ObjectRegistryType::String, luaid: s.0,
                length: Some(s.1 as i32) }),
        p matches ProxiedLuaValue::Table(id) ==> made_in_v8(p)
            == (V8Made::LuaObject { luatype: ObjectRegistryType::Table, luaid: id, length: None }),
        p matches ProxiedLuaValue::Function(id) ==> made_in_v8(p)
            == (V8Made::LuaObject { luatype: ObjectRegistryType::Function, luaid: id,
                length: None }),
        p matches ProxiedLuaValue::Thread(id) ==> made_in_v8(p)
            == (V8Made::LuaObject { luatype: ObjectRegistryType::Thread, luaid: id, length: None }),
        p matches ProxiedLuaValue::UserData(id) ==> made_in_v8(p)
            == (V8Made::LuaObject { luatype: ObjectRegistryType::UserData, luaid: id,
                length: None }),
        p matches ProxiedLuaValue::Buffer(id) ==> made_in_v8(p)
            == (V8Made::LuaObject { luatype: ObjectRegistryType::Buffer, luaid: id, length: None }),
{
}

/// Several arguments become as many values of v8, each in its place.
pub proof fn law_arguments_made_in_v8(args: Seq<ProxiedLuaValue>)
    ensures
        made_args(args).len() == args.len(),
        forall|k: int|
            0 <= k < args.len() ==> #[trigger] made_args(args)[k] == made_in_v8(args[k]),
{
}

/// What is given back is no longer known under its number; everything else of that sort stays as it
/// was, and so do the other sorts.
pub proof fn law_only_what_is_given_back_is_dropped(
    regs: V8Regs,
    typ: V8ObjectRegistryType,
    id: i64,
    other: i64,
)
    ensures
        typ is ArrayBuffer ==> !v8_dropped(regs, typ, id).array_buffer.live.dom().contains(id),
        typ is ArrayBuffer && other != id
            ==> v8_dropped(regs, typ, id).array_buffer.live.dom().contains(other)
            == regs.array_buffer.live.dom().contains(other)
                && v8_dropped(regs, typ, id).array_buffer.live[other]
            == regs.array_buffer.live[other],
        !(typ is ArrayBuffer) ==> v8_dropped(regs, typ, id).array_buffer == regs.array_buffer,
        typ is String ==> !v8_dropped(regs, typ, id).string.live.dom().contains(id),
        typ is String && other != id ==> v8_dropped(regs, typ, id).string.live.dom().contains(other)
            == regs.string.live.dom().contains(other)
                && v8_dropped(regs, typ, id).string.live[other]
            == regs.string.live[other],
        !(typ is String) ==> v8_dropped(regs, typ, id).string == regs.string,
        typ is Array ==> !v8_dropped(regs, typ, id).array.live.dom().contains(id),
        typ is Array && other != id ==> v8_dropped(regs, typ, id).array.live.dom().contains(other)
            == regs.array.live.dom().contains(other) && v8_dropped(regs, typ, id).array.live[other]
            == regs.array.live[other],
        !(typ is Array) ==> v8_dropped(regs, typ, id).array == regs.array,
        typ is Object ==> !v8_dropped(regs, typ, id).obj.live.dom().contains(id),
        typ is Object && other != id ==> v8_dropped(regs, typ, id).obj.live.dom().contains(other)
            == regs.obj.live.dom().contains(other) && v8_dropped(regs, typ, id).obj.live[other]
            == regs.obj.live[other],
        !(typ is Object) ==> v8_dropped(regs, typ, id).obj == regs.obj,
        typ is Function ==> !v8_dropped(regs, typ, id).func.live.dom().contains(id),
        typ is Function && other != id ==> v8_dropped(regs, typ, id).func.live.dom().contains(other)
            == regs.func.live.dom().contains(other) && v8_dropped(regs, typ, id).func.live[other]
            == regs.func.live[other],
        !(typ is Function) ==> v8_dropped(regs, typ, id).func == regs.func,
        typ is Promise ==> !v8_dropped(regs, typ, id).promise.live.dom().contains(id),
        typ is Promise && other != id
            ==> v8_dropped(regs, typ, id).promise.live.dom().contains(other)
            == regs.promise.live.dom().contains(other)
                && v8_dropped(regs, typ, id).promise.live[other]
            == regs.promise.live[other],
        !(typ is Promise) ==> v8_dropped(regs, typ, id).promise == regs.promise,
{
}

/// A call gets the number that follows the number of calls that are kept.
pub proof fn law_calls_are_counted(runs: Map<i32, RunView>)
    requires
        runs.dom().len() < i32::MAX,
    ensures
        next_run(runs) == runs.dom().len() + 1,
{
}

} // verus!
