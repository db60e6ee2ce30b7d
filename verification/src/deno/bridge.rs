//! The bridge that hands v8 objects to Luau by number.

use vstd::prelude::*;

use crate::base::luau::{missing, missing_text};
use crate::base::objects::ObjectRegistry;
use crate::luau::value::{Number, Vector3};
use crate::registry::{ObjectRef, RefKind, RegistryView};
use crate::text::{join, join4};
use crate::transport::concurrentlyexec::StartOutcome;
use crate::MAX_PROXY_DEPTH;

verus! {

/// Minimum stack size for V8 isolates
pub const V8_MIN_STACK_SIZE: usize = 1024 * 1024 * 15;

/// Marker struct for V8 objects in the object registry
#[derive(Clone, Copy)]
pub struct V8BridgeObject;

/// What sort of v8 object is referred to.
#[derive(Clone, Copy, Debug, PartialEq, Eq, Structural)]
pub enum V8ObjectRegistryType {
    ArrayBuffer,
    String,
    Object,
    Array,
    Function,
    Promise,
}

/// The number of a sort.
pub open spec fn v8_type_number(typ: V8ObjectRegistryType) -> i32 {
    match typ {
        V8ObjectRegistryType::ArrayBuffer => 0,
        V8ObjectRegistryType::String => 1,
        V8ObjectRegistryType::Object => 2,
        V8ObjectRegistryType::Array => 3,
        V8ObjectRegistryType::Function => 4,
        V8ObjectRegistryType::Promise => 5,
    }
}

/// The number of a sort.
pub fn v8_obj_registry_type_to_i32(typ: V8ObjectRegistryType) -> (r: i32)
    ensures
        r == v8_type_number(typ),
        0 <= r <= 5,
{
    match typ {
        V8ObjectRegistryType::ArrayBuffer => 0,
        V8ObjectRegistryType::String => 1,
        V8ObjectRegistryType::Object => 2,
        V8ObjectRegistryType::Array => 3,
        V8ObjectRegistryType::Function => 4,
        V8ObjectRegistryType::Promise => 5,
    }
}

/// The sort with that number, where there is one.
pub fn i32_to_v8_obj_registry_type(i: i32) -> (r: Option<V8ObjectRegistryType>)
    ensures
        r is Some <==> 0 <= i <= 5,
        r matches Some(typ) ==> v8_type_number(typ) == i,
{
    match i {
        0 => Some(V8ObjectRegistryType::ArrayBuffer),
        1 => Some(V8ObjectRegistryType::String),
        2 => Some(V8ObjectRegistryType::Object),
        3 => Some(V8ObjectRegistryType::Array),
        4 => Some(V8ObjectRegistryType::Function),
        5 => Some(V8ObjectRegistryType::Promise),
        _ => None,
    }
}

/// No two sorts have the same number.
pub proof fn law_v8_types_have_their_own_numbers(a: V8ObjectRegistryType, b: V8ObjectRegistryType)
    requires
        v8_type_number(a) == v8_type_number(b),
    ensures
        a == b,
{
}

impl V8ObjectRegistryType {
    /// The name of the sort.
    pub open spec fn name(self) -> Seq<char> {
        match self {
            V8ObjectRegistryType::ArrayBuffer => "ArrayBuffer"@,
            V8ObjectRegistryType::String => "String"@,
            V8ObjectRegistryType::Object => "Object"@,
            V8ObjectRegistryType::Array => "Array"@,
            V8ObjectRegistryType::Function => "Function"@,
            V8ObjectRegistryType::Promise => "Promise"@,
        }
    }

    /// The name of the sort.
    pub fn typestr(&self) -> (r: &'static str)
        ensures
            r@ == self.name(),
    {
        match self {
            V8ObjectRegistryType::ArrayBuffer => "ArrayBuffer",
            V8ObjectRegistryType::String => "String",
            V8ObjectRegistryType::Object => "Object",
            V8ObjectRegistryType::Array => "Array",
            V8ObjectRegistryType::Function => "Function",
            V8ObjectRegistryType::Promise => "Promise",
        }
    }
}

/// What sort of Luau object is referred to.
#[derive(Clone, Copy, Debug, PartialEq, Eq, Structural)]
pub enum ObjectRegistryType {
    String,
    Table,
    Function,
    Thread,
    Buffer,
    UserData,
}

/// A v8 object that Luau holds.
#[derive(Clone, Copy, Debug, PartialEq, Eq, Structural)]
pub struct V8ObjectInner {
    pub id: i64,
    pub typ: V8ObjectRegistryType,
}

/// A v8 object that Luau holds, until it is given back.
#[derive(Debug, PartialEq, Eq)]
pub struct V8Object {
    pub inner: Option<V8ObjectInner>,
}

/// What is said of an object that was given back.
pub open spec fn already_dropped() -> Seq<char> {
    "V8Object has already been dropped"@
}

impl V8Object {
    /// The object with that number.
    pub fn new(id: i64, typ: V8ObjectRegistryType) -> (r: Self)
        ensures
            r.inner == Some(V8ObjectInner { id, typ }),
    {
        V8Object { inner: Some(V8ObjectInner { id, typ }) }
    }

    /// What the object is, as long as it was not given back.
    pub fn get(&self) -> (r: Result<V8ObjectInner, String>)
        ensures
            r is Ok <==> self.inner is Some,
            r matches Ok(inner) ==> self.inner == Some(inner),
            r matches Err(e) ==> e@ == already_dropped(),
    {
        match self.inner {
            Some(inner) => Ok(inner),
            None => Err("V8Object has already been dropped".to_owned()),
        }
    }

    /// Gives the object back: the first time there is something to tell the isolate.
    pub fn requestdispose(&mut self) -> (r: Option<V8IsolateManagerMessage>)
        ensures
            final(self).inner is None,
            r is Some <==> old(self).inner is Some,
            r matches Some(m) ==> (m matches V8IsolateManagerMessage::DropObject {
                obj_type,
                obj_id,
            } && old(self).inner == Some(V8ObjectInner { id: obj_id, typ: obj_type })),
    {
        match self.inner.take() {
            Some(inner) => Some(
                V8IsolateManagerMessage::DropObject { obj_type: inner.typ, obj_id: inner.id },
            ),
            None => None,
        }
    }
}

/// A string of v8 that Luau holds.
#[derive(Debug, PartialEq, Eq)]
pub struct V8String {
    pub obj: V8Object,
    pub len: usize,
}

impl V8String {
    /// The string with that number.
    pub fn new(id: i64, len: usize) -> (r: Self)
        ensures
            r.obj.inner == Some(V8ObjectInner { id, typ: V8ObjectRegistryType::String }),
            r.len == len,
    {
        V8String { obj: V8Object::new(id, V8ObjectRegistryType::String), len }
    }
}

/// A V8 value that can now be easily proxied to Luau
#[derive(Clone, Copy, Debug, PartialEq, Eq)]
pub enum ProxiedV8Value {
    Nil,
    Undefined,
    Boolean(bool),
    Integer(i32),
    Number(Number),
    /// Buffer ID in the buffer registry
    ArrayBuffer(i64),
    /// String ID in the string registry, length
    String((i64, usize)),
    /// Object ID in the map registry
    Object(i64),
    /// Array ID in the array registry
    Array(i64),
    /// Function ID in the function registry
    Function(i64),
    /// Promise ID in the function registry
    Promise(i64),
    /// Function ID in the source lua's function registry
    SrcFunction(i64),
    /// Table ID in the source lua's table registry
    SrcTable(i64),
    /// Thread ID in the source lua's thread registry
    SrcThread(i64),
    /// Buffer ID in the source lua's buffer registry
    SrcBuffer(i64),
    /// Userdata ID in the source lua's userdata registry
    SrcUserData(i64),
    /// String ID in the source lua's string registry
    SrcString(i64),
}

/// A Lua value that can now be easily proxied to v8
#[derive(Clone, Copy, Debug, PartialEq, Eq)]
pub enum ProxiedLuaValue {
    Nil,
    Boolean(bool),
    Integer(i64),
    Number(Number),
    Vector(Vector3),
    String((i64, usize)),
    Table(i64),
    Function(i64),
    Thread(i64),
    UserData(i64),
    Buffer(i64),
}

/// What Luau gets for a proxied value.
#[derive(Clone, Copy, Debug, PartialEq, Eq, Structural)]
pub enum SourceValue {
    Nil,
    Boolean(bool),
    Integer(i64),
    Number(Number),
    /// A userdata for an object of v8, with the length of a string.
    V8 { typ: V8ObjectRegistryType, id: i64, len: Option<usize> },
    /// An object of Luau.
    Object(ObjectRef),
}

/// The Luau objects that v8 holds.
pub struct ProxyLuaClient {
    pub string_registry: ObjectRegistry,
    pub table_registry: ObjectRegistry,
    pub func_registry: ObjectRegistry,
    pub thread_registry: ObjectRegistry,
    pub buffer_registry: ObjectRegistry,
    pub userdata_registry: ObjectRegistry,
}

impl ProxyLuaClient {
    /// The registries are in order.
    pub open spec fn wf(&self) -> bool {
        &&& self.string_registry.wf()
        &&& self.table_registry.wf()
        &&& self.func_registry.wf()
        &&& self.thread_registry.wf()
        &&& self.buffer_registry.wf()
        &&& self.userdata_registry.wf()
    }
}

/// An object that is looked up by its number.
pub open spec fn source_object(reg: RegistryView, what: Seq<char>, id: i64) -> Result<
    SourceValue,
    Seq<char>,
> {
    if reg.live.dom().contains(id) {
        Ok(SourceValue::Object(reg.live[id].obj))
    } else {
        Err(missing(what, id))
    }
}

/// A userdata for an object of v8.
pub open spec fn v8_userdata(typ: V8ObjectRegistryType, id: i64) -> Result<
    SourceValue,
    Seq<char>,
> {
    Ok(SourceValue::V8 { typ, id, len: None })
}

/// What Luau gets for a proxied value.
pub open spec fn in_source(p: ProxiedV8Value, plc: &ProxyLuaClient) -> Result<
    SourceValue,
    Seq<char>,
> {
    match p {
        ProxiedV8Value::Nil => Ok(SourceValue::Nil),
        ProxiedV8Value::Undefined => Ok(SourceValue::Nil),
        ProxiedV8Value::Boolean(b) => Ok(SourceValue::Boolean(b)),
        ProxiedV8Value::Integer(i) => Ok(SourceValue::Integer(i as i64)),
        ProxiedV8Value::Number(n) => Ok(SourceValue::Number(n)),
        ProxiedV8Value::ArrayBuffer(id) => v8_userdata(V8ObjectRegistryType::ArrayBuffer, id),
        ProxiedV8Value::String(s) => Ok(
            SourceValue::V8 { typ: V8ObjectRegistryType::String, id: s.0, len: Some(s.1) },
        ),
        ProxiedV8Value::Object(id) => v8_userdata(V8ObjectRegistryType::Object, id),
        ProxiedV8Value::Array(id) => v8_userdata(V8ObjectRegistryType::Array, id),
        ProxiedV8Value::Function(id) => v8_userdata(V8ObjectRegistryType::Function, id),
        ProxiedV8Value::Promise(id) => v8_userdata(V8ObjectRegistryType::Promise, id),
        ProxiedV8Value::SrcString(id) => source_object(plc.string_registry@, "String"@, id),
        ProxiedV8Value::SrcFunction(id) => source_object(plc.func_registry@, "Function"@, id),
        ProxiedV8Value::SrcTable(id) => source_object(plc.table_registry@, "Table"@, id),
        ProxiedV8Value::SrcThread(id) => source_object(plc.thread_registry@, "Thread"@, id),
        ProxiedV8Value::SrcBuffer(id) => source_object(plc.buffer_registry@, "Buffer"@, id),
        ProxiedV8Value::SrcUserData(id) => source_object(plc.userdata_registry@, "Userdata"@, id),
    }
}

/// An object that is looked up by its number.
fn find_source(reg: &ObjectRegistry, what: &str, id: i64) -> (r: Result<SourceValue, String>)
    requires
        reg.wf(),
    ensures
        match (r, source_object(reg@, what@, id)) {
            (Ok(p), Ok(v)) => p == v,
            (Err(e), Err(t)) => e@ == t,
            _ => false,
        },
{
    match reg.get(id) {
        Some(obj) => Ok(SourceValue::Object(obj)),
        None => Err(missing_text(what, id)),
    }
}

/// A v8 value as the bridge sees it: what it holds, or its identity.
#[derive(Debug, PartialEq, Eq)]
pub enum V8Handle {
    Null,
    Undefined,
    Boolean(bool),
    Int32(i32),
    Number(Number),
    String { handle: u64, length: usize },
    Array(u64),
    ArrayBuffer(u64),
    Function(u64),
    Promise(u64),
    /// An object, with the type and the number that a Luau object has in v8, where they are there.
    Object { handle: u64, luatype: Option<ObjectRegistryType>, luaid: Option<i64> },
    /// A value of any other sort.
    Other,
}

/// The client side state for proxying v8 values
pub struct ProxyV8Client {
    pub array_buffer_registry: ObjectRegistry,
    pub string_registry: ObjectRegistry,
    pub array_registry: ObjectRegistry,
    pub obj_registry: ObjectRegistry,
    pub func_registry: ObjectRegistry,
    pub promise_registry: ObjectRegistry,
}

/// What the registries of a client hold.
pub struct V8Regs {
    pub array_buffer: RegistryView,
    pub string: RegistryView,
    pub array: RegistryView,
    pub obj: RegistryView,
    pub func: RegistryView,
    pub promise: RegistryView,
}

impl ProxyV8Client {
    /// What the registries hold.
    pub open spec fn regs(&self) -> V8Regs {
        V8Regs {
            array_buffer: self.array_buffer_registry@,
            string: self.string_registry@,
            array: self.array_registry@,
            obj: self.obj_registry@,
            func: self.func_registry@,
            promise: self.promise_registry@,
        }
    }

    /// The registries are in order.
    pub open spec fn wf(&self) -> bool {
        &&& self.array_buffer_registry.wf()
        &&& self.string_registry.wf()
        &&& self.array_registry.wf()
        &&& self.obj_registry.wf()
        &&& self.func_registry.wf()
        &&& self.promise_registry.wf()
    }

    /// A client whose registries are empty and hold at most `max` objects each.
    pub fn new(max: i64) -> (r: Self)
        ensures
            r.wf(),
            ({
                let nothing = RegistryView { live: Map::empty(), next: 1, last: max };
                r.regs() == (V8Regs {
                    array_buffer: nothing,
                    string: nothing,
                    array: nothing,
                    obj: nothing,
                    func: nothing,
                    promise: nothing,
                })
            }),
    {
        ProxyV8Client {
            array_buffer_registry: ObjectRegistry::new(max),
            string_registry: ObjectRegistry::new(max),
            array_registry: ObjectRegistry::new(max),
            obj_registry: ObjectRegistry::new(max),
            func_registry: ObjectRegistry::new(max),
            promise_registry: ObjectRegistry::new(max),
        }
    }

    /// Takes an object out of the registry of its sort.
    pub fn remove(&mut self, obj_type: V8ObjectRegistryType, obj_id: i64)
        requires
            old(self).wf(),
        ensures
            final(self).wf(),
            final(self).regs() == v8_dropped(old(self).regs(), obj_type, obj_id),
    {
        match obj_type {
            V8ObjectRegistryType::ArrayBuffer => self.array_buffer_registry.remove(obj_id),
            V8ObjectRegistryType::String => self.string_registry.remove(obj_id),
            V8ObjectRegistryType::Array => self.array_registry.remove(obj_id),
            V8ObjectRegistryType::Object => self.obj_registry.remove(obj_id),
            V8ObjectRegistryType::Function => self.func_registry.remove(obj_id),
            V8ObjectRegistryType::Promise => self.promise_registry.remove(obj_id),
        }
    }
}

/// The registries after an object was taken out.
pub open spec fn v8_dropped(regs: V8Regs, typ: V8ObjectRegistryType, id: i64) -> V8Regs {
    match typ {
        V8ObjectRegistryType::ArrayBuffer => V8Regs {
            array_buffer: regs.array_buffer.removed(id),
            ..regs
        },
        V8ObjectRegistryType::String => V8Regs { string: regs.string.removed(id), ..regs },
        V8ObjectRegistryType::Array => V8Regs { array: regs.array.removed(id), ..regs },
        V8ObjectRegistryType::Object => V8Regs { obj: regs.obj.removed(id), ..regs },
        V8ObjectRegistryType::Function => V8Regs { func: regs.func.removed(id), ..regs },
        V8ObjectRegistryType::Promise => V8Regs { promise: regs.promise.removed(id), ..regs },
    }
}

/// The Luau object that an object of v8 stands for, where it stands for one.
pub open spec fn luau_object_behind(luatype: Option<ObjectRegistryType>, luaid: Option<i64>) -> Option<
    ProxiedV8Value,
> {
    match (luatype, luaid) {
        (Some(t), Some(id)) => Some(
            match t {
                ObjectRegistryType::Function => ProxiedV8Value::SrcFunction(id),
                ObjectRegistryType::Table => ProxiedV8Value::SrcTable(id),
                ObjectRegistryType::Thread => ProxiedV8Value::SrcThread(id),
                ObjectRegistryType::Buffer => ProxiedV8Value::SrcBuffer(id),
                ObjectRegistryType::UserData => ProxiedV8Value::SrcUserData(id),
                ObjectRegistryType::String => ProxiedV8Value::SrcString(id),
            },
        ),
        _ => None,
    }
}

/// The registries after a conversion, and its result or the text of its error.
pub struct V8Step {
    pub regs: V8Regs,
    pub res: Result<ProxiedV8Value, Seq<char>>,
}

/// What a v8 value becomes on its way to Luau.
pub open spec fn proxied_of_handle(v: V8Handle, regs: V8Regs, depth: nat) -> V8Step {
    if depth > MAX_PROXY_DEPTH {
        V8Step { regs, res: Err("Maximum proxy depth exceeded"@) }
    } else {
        match v {
            V8Handle::Null => V8Step { regs, res: Ok(ProxiedV8Value::Nil) },
            V8Handle::Undefined => V8Step { regs, res: Ok(ProxiedV8Value::Undefined) },
            V8Handle::Boolean(b) => V8Step { regs, res: Ok(ProxiedV8Value::Boolean(b)) },
            V8Handle::Int32(i) => V8Step { regs, res: Ok(ProxiedV8Value::Integer(i)) },
            V8Handle::Number(n) => V8Step { regs, res: Ok(ProxiedV8Value::Number(n)) },
            V8Handle::String { handle, length } => {
                let obj = ObjectRef { kind: RefKind::String, handle };
                if regs.string.admits(obj) {
                    V8Step {
                        regs: V8Regs { string: regs.string.added(obj), ..regs },
                        res: Ok(ProxiedV8Value::String((regs.string.id_for(obj), length))),
                    }
                } else {
                    V8Step {
                        regs,
                        res: Err("Failed to register string: too many string references"@),
                    }
                }
            },
            V8Handle::Array(handle) => {
                let obj = ObjectRef { kind: RefKind::Array, handle };
                if regs.array.admits(obj) {
                    V8Step {
                        regs: V8Regs { array: regs.array.added(obj), ..regs },
                        res: Ok(ProxiedV8Value::Array(regs.array.id_for(obj))),
                    }
                } else {
                    V8Step {
                        regs,
                        res: Err("Failed to register array: too many array references"@),
                    }
                }
            },
            V8Handle::ArrayBuffer(handle) => {
                let obj = ObjectRef { kind: RefKind::ArrayBuffer, handle };
                if regs.array_buffer.admits(obj) {
                    V8Step {
                        regs: V8Regs { array_buffer: regs.array_buffer.added(obj), ..regs },
                        res: Ok(ProxiedV8Value::ArrayBuffer(regs.array_buffer.id_for(obj))),
                    }
                } else {
                    V8Step {
                        regs,
                        res: Err(
                            "Failed to register ArrayBuffer: too many ArrayBuffer references"@,
                        ),
                    }
                }
            },
            V8Handle::Function(handle) => {
                let obj = ObjectRef { kind: RefKind::Function, handle };
                if regs.func.admits(obj) {
                    V8Step {
                        regs: V8Regs { func: regs.func.added(obj), ..regs },
                        res: Ok(ProxiedV8Value::Function(regs.func.id_for(obj))),
                    }
                } else {
                    V8Step {
                        regs,
                        res: Err("Failed to register function: too many function references"@),
                    }
                }
            },
            V8Handle::Promise(handle) => {
                let obj = ObjectRef { kind: RefKind::Promise, handle };
                if regs.promise.admits(obj) {
                    V8Step {
                        regs: V8Regs { promise: regs.promise.added(obj), ..regs },
                        res: Ok(ProxiedV8Value::Promise(regs.promise.id_for(obj))),
                    }
                } else {
                    V8Step {
                        regs,
                        res: Err("Failed to register promise: too many promise references"@),
                    }
                }
            },
            V8Handle::Object { handle, luatype, luaid } => match luau_object_behind(
                luatype,
                luaid,
            ) {
                Some(p) => V8Step { regs, res: Ok(p) },
                None => {
                    let obj = ObjectRef { kind: RefKind::Object, handle };
                    if regs.obj.admits(obj) {
                        V8Step {
                            regs: V8Regs { obj: regs.obj.added(obj), ..regs },
                            res: Ok(ProxiedV8Value::Object(regs.obj.id_for(obj))),
                        }
                    } else {
                        V8Step {
                            regs,
                            res: Err("Failed to register object: too many object references"@),
                        }
                    }
                },
            },
            V8Handle::Other => V8Step { regs, res: Err("Unsupported V8 value type"@) },
        }
    }
}

impl ProxiedV8Value {
    /// What Luau gets for a proxied value.
    pub fn proxy_to_src_lua(self, plc: &ProxyLuaClient, depth: usize) -> (r: Result<
        SourceValue,
        String,
    >)
        requires
            plc.wf(),
        ensures
            if depth > MAX_PROXY_DEPTH {
                r matches Err(e) && e@ == "Maximum proxy depth exceeded"@
            } else {
                match (r, in_source(self, plc)) {
                    (Ok(p), Ok(v)) => p == v,
                    (Err(e), Err(t)) => e@ == t,
                    _ => false,
                }
            },
    {
        if depth > MAX_PROXY_DEPTH {
            return Err("Maximum proxy depth exceeded".to_owned());
        }
        match self {
            ProxiedV8Value::Nil => Ok(SourceValue::Nil),
            ProxiedV8Value::Undefined => Ok(SourceValue::Nil),
            ProxiedV8Value::Boolean(b) => Ok(SourceValue::Boolean(b)),
            ProxiedV8Value::Integer(i) => Ok(SourceValue::Integer(i as i64)),
            ProxiedV8Value::Number(n) => Ok(SourceValue::Number(n)),
            ProxiedV8Value::ArrayBuffer(id) => Ok(
                SourceValue::V8 { typ: V8ObjectRegistryType::ArrayBuffer, id, len: None },
            ),
            ProxiedV8Value::String(s) => Ok(
                SourceValue::V8 { typ: V8ObjectRegistryType::String, id: s.0, len: Some(s.1) },
            ),
            ProxiedV8Value::Object(id) => Ok(
                SourceValue::V8 { typ: V8ObjectRegistryType::Object, id, len: None },
            ),
            ProxiedV8Value::Array(id) => Ok(
                SourceValue::V8 { typ: V8ObjectRegistryType::Array, id, len: None },
            ),
            ProxiedV8Value::Function(id) => Ok(
                SourceValue::V8 { typ: V8ObjectRegistryType::Function, id, len: None },
            ),
            ProxiedV8Value::Promise(id) => Ok(
                SourceValue::V8 { typ: V8ObjectRegistryType::Promise, id, len: None },
            ),
            ProxiedV8Value::SrcString(id) => find_source(&plc.string_registry, "String", id),
            ProxiedV8Value::SrcFunction(id) => find_source(&plc.func_registry, "Function", id),
            ProxiedV8Value::SrcTable(id) => find_source(&plc.table_registry, "Table", id),
            ProxiedV8Value::SrcThread(id) => find_source(&plc.thread_registry, "Thread", id),
            ProxiedV8Value::SrcBuffer(id) => find_source(&plc.buffer_registry, "Buffer", id),
            ProxiedV8Value::SrcUserData(id) => find_source(&plc.userdata_registry, "Userdata", id),
        }
    }

    /// The Luau object that an object of v8 stands for, where it stands for one.
    pub fn proxy_from_v8_get_proxied(luatype: Option<ObjectRegistryType>, luaid: Option<i64>) -> (r: Option<Self>)
        ensures
            r == luau_object_behind(luatype, luaid),
    {
        let typ = match luatype {
            Some(typ) => typ,
            None => return None,
        };
        let id = match luaid {
            Some(id) => id,
            None => return None,
        };
        match typ {
            ObjectRegistryType::Function => Some(ProxiedV8Value::SrcFunction(id)),
            ObjectRegistryType::Table => Some(ProxiedV8Value::SrcTable(id)),
            ObjectRegistryType::Thread => Some(ProxiedV8Value::SrcThread(id)),
            ObjectRegistryType::Buffer => Some(ProxiedV8Value::SrcBuffer(id)),
            ObjectRegistryType::UserData => Some(ProxiedV8Value::SrcUserData(id)),
            ObjectRegistryType::String => Some(ProxiedV8Value::SrcString(id)),
        }
    }

    /// What a v8 value becomes on its way to Luau.
    pub fn proxy_from_v8(value: V8Handle, client: &mut ProxyV8Client, depth: usize) -> (r: Result<
        Self,
        String,
    >)
        requires
            old(client).wf(),
        ensures
            final(client).wf(),
            ({
                let want = proxied_of_handle(value, old(client).regs(), depth as nat);
                &&& final(client).regs() == want.regs
                &&& match (r, want.res) {
                    (Ok(p), Ok(v)) => p == v,
                    (Err(e), Err(t)) => e@ == t,
                    _ => false,
                }
            }),
    {
        if depth > MAX_PROXY_DEPTH {
            return Err("Maximum proxy depth exceeded".to_owned());
        }
        match value {
            V8Handle::Null => Ok(ProxiedV8Value::Nil),
            V8Handle::Undefined => Ok(ProxiedV8Value::Undefined),
            V8Handle::Boolean(b) => Ok(ProxiedV8Value::Boolean(b)),
            V8Handle::Int32(i) => Ok(ProxiedV8Value::Integer(i)),
            V8Handle::Number(n) => Ok(ProxiedV8Value::Number(n)),
            V8Handle::String { handle, length } => {
                let obj = ObjectRef { kind: RefKind::String, handle };
                match client.string_registry.add(obj) {
                    Some(id) => Ok(ProxiedV8Value::String((id, length))),
                    None => Err(
                        "Failed to register string: too many string references".to_owned(),
                    ),
                }
            },
            V8Handle::Array(handle) => {
                let obj = ObjectRef { kind: RefKind::Array, handle };
                match client.array_registry.add(obj) {
                    Some(id) => Ok(ProxiedV8Value::Array(id)),
                    None => Err("Failed to register array: too many array references".to_owned()),
                }
            },
            V8Handle::ArrayBuffer(handle) => {
                let obj = ObjectRef { kind: RefKind::ArrayBuffer, handle };
                match client.array_buffer_registry.add(obj) {
                    Some(id) => Ok(ProxiedV8Value::ArrayBuffer(id)),
                    None => Err(
                        "Failed to register ArrayBuffer: too many ArrayBuffer references".to_owned(),
                    ),
                }
            },
            V8Handle::Function(handle) => {
                let obj = ObjectRef { kind: RefKind::Function, handle };
                match client.func_registry.add(obj) {
                    Some(id) => Ok(ProxiedV8Value::Function(id)),
                    None => Err(
                        "Failed to register function: too many function references".to_owned(),
                    ),
                }
            },
            V8Handle::Promise(handle) => {
                let obj = ObjectRef { kind: RefKind::Promise, handle };
                match client.promise_registry.add(obj) {
                    Some(id) => Ok(ProxiedV8Value::Promise(id)),
                    None => Err(
                        "Failed to register promise: too many promise references".to_owned(),
                    ),
                }
            },
            V8Handle::Object { handle, luatype, luaid } => {
                match ProxiedV8Value::proxy_from_v8_get_proxied(luatype, luaid) {
                    Some(v) => return Ok(v),
                    None => {},
                }
                let obj = ObjectRef { kind: RefKind::Object, handle };
                match client.obj_registry.add(obj) {
                    Some(id) => Ok(ProxiedV8Value::Object(id)),
                    None => Err(
                        "Failed to register object: too many object references".to_owned(),
                    ),
                }
            },
            V8Handle::Other => Err("Unsupported V8 value type".to_owned()),
        }
    }
}

/// What v8 gets for a proxied value.
#[derive(Clone, Copy, Debug, PartialEq, Eq, Structural)]
pub enum V8Made {
    Null,
    Boolean(bool),
    Int32(i32),
    Number(Number),
    /// An array of three numbers.
    Triple(Number, Number, Number),
    /// What `createLuaObjectFromData` makes of a type, a number and, for a string, a length.
    LuaObject { luatype: ObjectRegistryType, luaid: i64, length: Option<i32> },
}

/// What v8 gets for a Luau object.
pub open spec fn made_object(typ: ObjectRegistryType, id: i64, len: Option<usize>) -> V8Made {
    V8Made::LuaObject {
        luatype: typ,
        luaid: id,
        length: match len {
            Some(n) => Some(n as i32),
            None => None,
        },
    }
}

/// What v8 gets for a proxied value.
pub open spec fn made_in_v8(p: ProxiedLuaValue) -> V8Made {
    match p {
        ProxiedLuaValue::Nil => V8Made::Null,
        ProxiedLuaValue::Boolean(b) => V8Made::Boolean(b),
        ProxiedLuaValue::Integer(i) => if i32::MIN <= i <= i32::MAX {
            V8Made::Int32(i as i32)
        } else {
            V8Made::Number(Number::OfInt(i))
        },
        ProxiedLuaValue::Number(n) => V8Made::Number(n),
        ProxiedLuaValue::Vector(v) => V8Made::Triple(
            Number::OfSingle(v.x),
            Number::OfSingle(v.y),
            Number::OfSingle(v.z),
        ),
        ProxiedLuaValue::String(s) => made_object(ObjectRegistryType::String, s.0, Some(s.1)),
        ProxiedLuaValue::Table(id) => made_object(ObjectRegistryType::Table, id, None),
        ProxiedLuaValue::Function(id) => made_object(ObjectRegistryType::Function, id, None),
        ProxiedLuaValue::Thread(id) => made_object(ObjectRegistryType::Thread, id, None),
        ProxiedLuaValue::UserData(id) => made_object(ObjectRegistryType::UserData, id, None),
        ProxiedLuaValue::Buffer(id) => made_object(ObjectRegistryType::Buffer, id, None),
    }
}

/// What v8 gets for a Luau object.
pub fn proxy_objreg_from_lua(typ: ObjectRegistryType, id: i64, len: Option<usize>) -> (r: V8Made)
    ensures
        r == made_object(typ, id, len),
{
    let length: Option<i32> = match len {
        Some(n) => Some(#[verifier::truncate] (n as i32)),
        None => None,
    };
    V8Made::LuaObject { luatype: typ, luaid: id, length }
}

/// What v8 gets for a proxied value.
pub fn proxy_to_v8(value: ProxiedLuaValue, depth: usize) -> (r: Result<V8Made, String>)
    ensures
        r is Ok <==> depth <= MAX_PROXY_DEPTH,
        r matches Ok(v) ==> v == made_in_v8(value),
        r matches Err(e) ==> e@ == "Maximum proxy depth exceeded"@,
{
    if depth > MAX_PROXY_DEPTH {
        return Err("Maximum proxy depth exceeded".to_owned());
    }
    Ok(
        match value {
            ProxiedLuaValue::Nil => V8Made::Null,
            ProxiedLuaValue::Boolean(b) => V8Made::Boolean(b),
            ProxiedLuaValue::Integer(i) => {
                if i >= -2147483648 && i <= 2147483647 {
                    V8Made::Int32(i as i32)
                } else {
                    V8Made::Number(Number::OfInt(i))
                }
            },
            ProxiedLuaValue::Number(n) => V8Made::Number(n),
            ProxiedLuaValue::Vector(v) => V8Made::Triple(
                Number::OfSingle(v.x),
                Number::OfSingle(v.y),
                Number::OfSingle(v.z),
            ),
            ProxiedLuaValue::String(s) => proxy_objreg_from_lua(
                ObjectRegistryType::String,
                s.0,
                Some(s.1),
            ),
            ProxiedLuaValue::Table(id) => proxy_objreg_from_lua(
                ObjectRegistryType::Table,
                id,
                None,
            ),
            ProxiedLuaValue::Function(id) => proxy_objreg_from_lua(
                ObjectRegistryType::Function,
                id,
                None,
            ),
            ProxiedLuaValue::Thread(id) => proxy_objreg_from_lua(
                ObjectRegistryType::Thread,
                id,
                None,
            ),
            ProxiedLuaValue::UserData(id) => proxy_objreg_from_lua(
                ObjectRegistryType::UserData,
                id,
                None,
            ),
            ProxiedLuaValue::Buffer(id) => proxy_objreg_from_lua(
                ObjectRegistryType::Buffer,
                id,
                None,
            ),
        },
    )
}

/// A Luau object that v8 was given comes back as that object.
pub proof fn law_luau_object_comes_back(typ: ObjectRegistryType, id: i64, len: Option<usize>)
    ensures
        made_object(typ, id, len) matches V8Made::LuaObject { luatype, luaid, .. }
            && luau_object_behind(Some(luatype), Some(luaid)) == Some(
            match typ {
                ObjectRegistryType::String => ProxiedV8Value::SrcString(id),
                ObjectRegistryType::Table => ProxiedV8Value::SrcTable(id),
                ObjectRegistryType::Function => ProxiedV8Value::SrcFunction(id),
                ObjectRegistryType::Thread => ProxiedV8Value::SrcThread(id),
                ObjectRegistryType::Buffer => ProxiedV8Value::SrcBuffer(id),
                ObjectRegistryType::UserData => ProxiedV8Value::SrcUserData(id),
            },
        ),
{
}

/// How making a Luau object in v8 came out.
#[derive(Debug, PartialEq, Eq)]
pub enum MakeOutcome {
    /// There was no instance of the template.
    NoInstance,
    /// `createLuaObjectFromData` failed, with what was thrown.
    NotRun(Option<String>),
    /// The object that it gave.
    Made(u64),
}

/// The object that was made in v8, or why there is none.
pub fn object_made(outcome: MakeOutcome) -> (r: Result<u64, String>)
    ensures
        match outcome {
            MakeOutcome::NoInstance => r matches Err(t) && t@
                == "Failed to create V8 proxy object"@,
            MakeOutcome::NotRun(e) => r matches Err(t) && t@ == thrown(
                "Failed to run createLuaObjectFromData"@,
                exception_text(e),
            ),
            MakeOutcome::Made(h) => r == Ok::<u64, String>(h),
        },
{
    match outcome {
        MakeOutcome::NoInstance => Err("Failed to create V8 proxy object".to_owned()),
        MakeOutcome::NotRun(e) => Err(thrown_text("Failed to run createLuaObjectFromData", e)),
        MakeOutcome::Made(h) => Ok(h),
    }
}

/// What an isolate is asked to do.
#[derive(Debug, PartialEq, Eq)]
pub enum V8IsolateManagerMessage {
    CodeExec { code: String, args: Vec<ProxiedLuaValue> },
    GetObjectProperty { obj_id: i64, key: ProxiedLuaValue },
    DropObject { obj_type: V8ObjectRegistryType, obj_id: i64 },
    Shutdown,
}

/// What an isolate does with a message.
#[derive(Debug, PartialEq, Eq)]
pub enum ClientAction {
    /// Compile the code, run it, and call the function that it gives with the arguments.
    Execute { code: String, args: Vec<V8Made> },
    /// Read that property of that object.
    Read { obj: ObjectRef, key: V8Made },
    /// Answer with an error.
    Refuse(String),
    /// Nothing more.
    Done,
    /// End.
    Stop,
}

/// How reading a property came out.
#[derive(Debug, PartialEq, Eq)]
pub enum ReadOutcome {
    /// It could not be read, with what was thrown.
    NotRead(Option<String>),
    /// What was read, and what was thrown while it was looked at.
    Value { value: V8Handle, thrown: Option<String> },
}

/// How a script came out.
#[derive(Debug, PartialEq, Eq)]
pub enum ScriptOutcome {
    /// It could not be compiled, with what was thrown.
    NotCompiled(Option<String>),
    /// It could not be run, with what was thrown.
    NotRun(Option<String>),
    /// It gave something else than a function.
    NoFunction,
    /// It gave a function.
    Function(u64),
}

/// The text of a failure, with what was thrown where something was.
pub open spec fn thrown(what: Seq<char>, exception: Option<Seq<char>>) -> Seq<char> {
    match exception {
        Some(e) => what + ": "@ + e,
        None => what,
    }
}

/// The text of `thrown`.
pub fn thrown_text(what: &str, exception: Option<String>) -> (r: String)
    ensures
        r@ == thrown(
            what@,
            match exception {
                Some(e) => Some(e@),
                None => None,
            },
        ),
{
    match exception {
        Some(e) => {
            let head = join(what, ": ");
            join(&head, &e)
        },
        None => what.to_owned(),
    }
}

/// The text of an exception, where there is one.
pub open spec fn exception_text(e: Option<String>) -> Option<Seq<char>> {
    match e {
        Some(s) => Some(s@),
        None => None,
    }
}

/// The text of a property that could not be converted.
pub open spec fn property_refused(thrown: Option<Seq<char>>, e: Seq<char>) -> Seq<char> {
    match thrown {
        Some(t) => "Failed to convert object property to ProxiedV8Value: "@ + t + " ("@ + e + ")"@,
        None => e,
    }
}

/// The text of `property_refused`.
pub fn property_refused_text(thrown: Option<String>, e: String) -> (r: String)
    ensures
        r@ == property_refused(exception_text(thrown), e@),
{
    match thrown {
        Some(t) => {
            let head = join4("Failed to convert object property to ProxiedV8Value: ", &t, " (", &e);
            join(&head, ")")
        },
        None => e,
    }
}

/// The worker that runs an isolate.
#[derive(Debug, PartialEq, Eq)]
pub struct V8IsolateManagerClient {}

/// The arguments of a call as v8 gets them.
pub open spec fn made_args(args: Seq<ProxiedLuaValue>) -> Seq<V8Made> {
    args.map_values(|v: ProxiedLuaValue| made_in_v8(v))
}

impl V8IsolateManagerClient {
    /// The function that code gives, or why it gives none.
    pub fn compile_code(outcome: ScriptOutcome) -> (r: Result<u64, String>)
        ensures
            match outcome {
                ScriptOutcome::NotCompiled(e) => r matches Err(t) && t@ == thrown(
                    "Failed to compile script"@,
                    exception_text(e),
                ),
                ScriptOutcome::NotRun(e) => r matches Err(t) && t@ == thrown(
                    "Failed to run script"@,
                    exception_text(e),
                ),
                ScriptOutcome::NoFunction => r matches Err(t) && t@
                    == "Script did not return a function"@,
                ScriptOutcome::Function(f) => r == Ok::<u64, String>(f),
            },
    {
        match outcome {
            ScriptOutcome::NotCompiled(e) => Err(thrown_text("Failed to compile script", e)),
            ScriptOutcome::NotRun(e) => Err(thrown_text("Failed to run script", e)),
            ScriptOutcome::NoFunction => Err("Script did not return a function".to_owned()),
            ScriptOutcome::Function(f) => Ok(f),
        }
    }

    /// What the worker does with a message.
    pub fn on_message(client: &mut ProxyV8Client, msg: V8IsolateManagerMessage) -> (r: ClientAction)
        requires
            old(client).wf(),
        ensures
            final(client).wf(),
            final(client).regs() == match msg {
                V8IsolateManagerMessage::DropObject { obj_type, obj_id } => v8_dropped(
                    old(client).regs(),
                    obj_type,
                    obj_id,
                ),
                _ => old(client).regs(),
            },
            match msg {
                V8IsolateManagerMessage::CodeExec { code, args } => r matches ClientAction::Execute {
                    code: c,
                    args: a,
                } && c@ == code@ && a@ == made_args(args@),
                V8IsolateManagerMessage::GetObjectProperty { obj_id, key } => {
                    let objs = old(client).regs().obj;
                    if objs.live.dom().contains(obj_id) {
                        r == (ClientAction::Read {
                            obj: objs.live[obj_id].obj,
                            key: made_in_v8(key),
                        })
                    } else {
                        r matches ClientAction::Refuse(e) && e@ == "Object ID not found"@
                    }
                },
                V8IsolateManagerMessage::DropObject { .. } => r is Done,
                V8IsolateManagerMessage::Shutdown => r is Stop,
            },
    {
        match msg {
            V8IsolateManagerMessage::CodeExec { code, args } => {
                let mut made: Vec<V8Made> = Vec::new();
                let mut i: usize = 0;
                while i < args.len()
                    invariant
                        i <= args@.len(),
                        made@ =~= made_args(args@).take(i as int),
                    decreases args@.len() - i,
                {
                    match proxy_to_v8(args[i], 0) {
                        Ok(v) => made.push(v),
                        Err(_) => {
                            assert(false);
                        },
                    }
                    i += 1;
                }
                assert(made@ =~= made_args(args@));
                ClientAction::Execute { code, args: made }
            },
            V8IsolateManagerMessage::GetObjectProperty { obj_id, key } => {
                let obj = match client.obj_registry.get(obj_id) {
                    Some(obj) => obj,
                    None => return ClientAction::Refuse("Object ID not found".to_owned()),
                };
                match proxy_to_v8(key, 0) {
                    Ok(key) => ClientAction::Read { obj, key },
                    Err(e) => ClientAction::Refuse(e),
                }
            },
            V8IsolateManagerMessage::DropObject { obj_type, obj_id } => {
                client.remove(obj_type, obj_id);
                ClientAction::Done
            },
            V8IsolateManagerMessage::Shutdown => ClientAction::Stop,
        }
    }

    /// What the worker answers when a property was read.
    pub fn on_property(client: &mut ProxyV8Client, outcome: ReadOutcome) -> (r: Result<
        ProxiedV8Value,
        String,
    >)
        requires
            old(client).wf(),
        ensures
            final(client).wf(),
            match outcome {
                ReadOutcome::NotRead(e) => final(client).regs() == old(client).regs() && (
                r matches Err(t) && t@ == thrown(
                    "Failed to get object property"@,
                    exception_text(e),
                )),
                ReadOutcome::Value { value, thrown } => {
                    let want = proxied_of_handle(value, old(client).regs(), 0);
                    &&& final(client).regs() == want.regs
                    &&& match (r, want.res) {
                        (Ok(p), Ok(v)) => p == v,
                        (Err(e), Err(t)) => e@ == property_refused(exception_text(thrown), t),
                        _ => false,
                    }
                },
            },
    {
        match outcome {
            ReadOutcome::NotRead(e) => Err(thrown_text("Failed to get object property", e)),
            ReadOutcome::Value { value, thrown } => {
                match ProxiedV8Value::proxy_from_v8(value, client, 0) {
                    Ok(v) => Ok(v),
                    Err(e) => Err(property_refused_text(thrown, e)),
                }
            },
        }
    }

    /// What the worker answers when code has run.
    pub fn on_finished(client: &mut ProxyV8Client, result: Result<V8Handle, String>) -> (r: Result<
        ProxiedV8Value,
        String,
    >)
        requires
            old(client).wf(),
        ensures
            final(client).wf(),
            match result {
                Ok(value) => {
                    let want = proxied_of_handle(value, old(client).regs(), 0);
                    &&& final(client).regs() == want.regs
                    &&& match (r, want.res) {
                        (Ok(p), Ok(v)) => p == v,
                        (Err(e), Err(t)) => e@ == t,
                        _ => false,
                    }
                },
                Err(t) => final(client).regs() == old(client).regs() && (r matches Err(e) && e@
                    == "JavaScript execution error: "@ + t@),
            },
    {
        match result {
            Ok(value) => ProxiedV8Value::proxy_from_v8(value, client, 0),
            Err(e) => Err(join("JavaScript execution error: ", &e)),
        }
    }
}

/// How a request for code to run came out.
#[derive(Debug, PartialEq, Eq)]
pub enum ExecOutcome {
    /// The request could not be sent.
    NotSent(String),
    /// No answer came.
    NoAnswer(String),
    /// The answer.
    Answer(Result<ProxiedV8Value, String>),
}

/// The host's side of an isolate.
#[derive(Debug, PartialEq, Eq)]
pub struct V8IsolateManagerServer {}

impl V8IsolateManagerServer {
    /// The channel to the isolate, or why there is none.
    pub fn started<T>(outcome: StartOutcome<T>) -> (r: Result<T, String>)
        ensures
            match outcome {
                StartOutcome::NoExecutor(e) => r matches Err(t) && t@
                    == "Failed to create V8 isolate manager executor: "@ + e@,
                StartOutcome::NoMessenger(e) => r matches Err(t) && t@
                    == "Failed to receive messenger: "@ + e@,
                StartOutcome::Started(x) => r == Ok::<T, String>(x),
            },
    {
        match outcome {
            StartOutcome::NoExecutor(e) => Err(
                join("Failed to create V8 isolate manager executor: ", &e),
            ),
            StartOutcome::NoMessenger(e) => Err(join("Failed to receive messenger: ", &e)),
            StartOutcome::Started(x) => Ok(x),
        }
    }

    /// The request that runs code.
    pub fn exec_code(code: String, args: Vec<ProxiedLuaValue>) -> (r: V8IsolateManagerMessage)
        ensures
            r == (V8IsolateManagerMessage::CodeExec { code, args }),
    {
        V8IsolateManagerMessage::CodeExec { code, args }
    }

    /// The result of a request that runs code.
    pub fn exec_result(outcome: ExecOutcome) -> (r: Result<ProxiedV8Value, String>)
        ensures
            match outcome {
                ExecOutcome::NotSent(e) => r matches Err(t) && t@
                    == "Failed to send code exec message: "@ + e@,
                ExecOutcome::NoAnswer(e) => r matches Err(t) && t@
                    == "Failed to receive code exec response: "@ + e@,
                ExecOutcome::Answer(a) => r == a,
            },
    {
        match outcome {
            ExecOutcome::NotSent(e) => Err(join("Failed to send code exec message: ", &e)),
            ExecOutcome::NoAnswer(e) => Err(join("Failed to receive code exec response: ", &e)),
            ExecOutcome::Answer(a) => a,
        }
    }

    /// The request that gives an object back.
    pub fn request_drop_object(obj_type: V8ObjectRegistryType, obj_id: i64) -> (r:
        V8IsolateManagerMessage)
        ensures
            r == (V8IsolateManagerMessage::DropObject { obj_type, obj_id }),
    {
        V8IsolateManagerMessage::DropObject { obj_type, obj_id }
    }

    /// The request that ends the isolate.
    pub fn shutdown() -> (r: V8IsolateManagerMessage)
        ensures
            r is Shutdown,
    {
        V8IsolateManagerMessage::Shutdown
    }
}

} // verus!
