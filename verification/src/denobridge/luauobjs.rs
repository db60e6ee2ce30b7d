//! What Luau does with v8 objects.

use vstd::prelude::*;

use crate::denobridge::bridge::V8ObjectRegistryType;
use crate::denobridge::many::{all_from_luau, all_into_luau, all_of_luau, all_to_luau};
use crate::denobridge::objreg::V8ObjectRegistryID;
use crate::denobridge::primitives::{primitive_of_luau, ProxiedV8Primitive};
use crate::denobridge::value::{v8_views, ProxiedV8Value};
use crate::luau::bridge::ProxyLuaClient;
use crate::luau::embedder_api::EmbedderDataContext;
use crate::luau::value::{luau_views, LuauValue};
use crate::text::{decimal, decimal_u64, join};

verus! {

/// What is done with a v8 object.
#[derive(Clone, Copy, Debug, PartialEq, Eq, Structural)]
pub enum V8ObjectOp {
    FunctionCall,
    ObjectGetProperty,
    RequestDispose,
}

/// What v8 is asked to do with an object.
#[derive(Debug, PartialEq, Eq)]
pub struct OpCallMessage {
    pub obj_id: V8ObjectRegistryID,
    pub op: V8ObjectOp,
    pub args: Vec<ProxiedV8Value>,
}

/// The core struct encapsulating a V8 object being proxied *to* luau
#[derive(Debug, PartialEq, Eq)]
pub struct V8Value {
    pub id: V8ObjectRegistryID,
    pub typ: V8ObjectRegistryType,
}

/// The name of a sort of object.
pub open spec fn v8_typename(typ: V8ObjectRegistryType) -> Seq<char> {
    match typ {
        V8ObjectRegistryType::Function => "V8Function"@,
        V8ObjectRegistryType::Object => "V8Object"@,
        V8ObjectRegistryType::ArrayBuffer => "V8ArrayBuffer"@,
        V8ObjectRegistryType::Promise => "V8Promise"@,
    }
}

/// The refusal of several results where there should be one.
pub open spec fn not_one(n: nat) -> Seq<char> {
    "Expected 1 return value from GetProperty, got "@ + decimal(n)
}

impl V8Value {
    /// Create a new V8Value
    pub fn new(id: V8ObjectRegistryID, typ: V8ObjectRegistryType) -> (r: Self)
        ensures
            r.id == id,
            r.typ == typ,
    {
        V8Value { id, typ }
    }

    /// The name of the object's sort.
    pub fn typename(&self) -> (r: &'static str)
        ensures
            r@ == v8_typename(self.typ),
    {
        match self.typ {
            V8ObjectRegistryType::Function => "V8Function",
            V8ObjectRegistryType::Object => "V8Object",
            V8ObjectRegistryType::ArrayBuffer => "V8ArrayBuffer",
            V8ObjectRegistryType::Promise => "V8Promise",
        }
    }

    /// Do a op call with a single primitive argument (optimized)
    pub fn op_call_primitive(&self, plc: &ProxyLuaClient, op: V8ObjectOp, arg: &LuauValue) -> (r:
        Result<OpCallMessage, String>)
        requires
            plc.wf(),
        ensures
            match primitive_of_luau(
                arg@,
                EmbedderDataContext { ed: plc.ed, depth: 0, size: 0 },
            ).res {
                Err(t) => r matches Err(e) && e@ == "Failed to proxy argument to ProxiedV8Value: "@
                    + t,
                Ok(None) => r matches Err(e) && e@ == "Argument is not a primitive value"@,
                Ok(Some(v)) => r matches Ok(m) && m.obj_id == self.id && m.op == op && v8_views(
                    m.args@,
                ) == seq![v],
            },
    {
        let mut ed = EmbedderDataContext::new(plc.ed);
        match ProxiedV8Primitive::from_luau(arg, &mut ed) {
            Err(e) => Err(join("Failed to proxy argument to ProxiedV8Value: ", &e)),
            Ok(None) => Err("Argument is not a primitive value".to_owned()),
            Ok(Some(prim)) => {
                let mut args: Vec<ProxiedV8Value> = Vec::new();
                args.push(ProxiedV8Value::Primitive(prim));
                assert(v8_views(args@) =~= seq![prim@]);
                Ok(OpCallMessage { obj_id: self.id, op, args })
            },
        }
    }

    /// Do a op call with multiple arguments
    pub fn op_call(&self, plc: &mut ProxyLuaClient, op: V8ObjectOp, args: &Vec<LuauValue>) -> (r:
        Result<OpCallMessage, String>)
        requires
            old(plc).wf(),
        ensures
            final(plc).wf(),
            final(plc).ed == old(plc).ed,
            ({
                let want = all_of_luau(
                    luau_views(args@),
                    0,
                    Seq::empty(),
                    old(plc).obj_registry@,
                    EmbedderDataContext { ed: old(plc).ed, depth: 0, size: 0 },
                    "Failed to proxy argument to ProxiedV8Value: "@,
                );
                &&& final(plc).obj_registry@ == want.reg
                &&& match (r, want.res) {
                    (Ok(m), Ok(v)) => m.obj_id == self.id && m.op == op && v8_views(m.args@) == v,
                    (Err(e), Err(t)) => e@ == t,
                    _ => false,
                }
            }),
    {
        let mut ed = EmbedderDataContext::new(plc.ed);
        match all_from_luau(plc, args, &mut ed, "Failed to proxy argument to ProxiedV8Value: ") {
            Ok(args) => Ok(OpCallMessage { obj_id: self.id, op, args }),
            Err(e) => Err(e),
        }
    }

    /// What an op call returned, given the answer.
    pub fn op_returned(plc: &ProxyLuaClient, answer: Result<Vec<ProxiedV8Value>, String>) -> (r:
        Result<Vec<LuauValue>, String>)
        requires
            plc.wf(),
        ensures
            match answer {
                Err(t) => r matches Err(e) && e@ == t@,
                Ok(values) => match (
                    r,
                    all_to_luau(
                        v8_views(values@),
                        0,
                        Seq::empty(),
                        plc.obj_registry@,
                        EmbedderDataContext { ed: plc.ed, depth: 0, size: 0 },
                        "Failed to convert return value to Lua: "@,
                    ).res,
                ) {
                    (Ok(p), Ok(v)) => luau_views(p@) == v,
                    (Err(e), Err(t)) => e@ == t,
                    _ => false,
                },
            },
    {
        match answer {
            Err(e) => Err(e),
            Ok(values) => {
                let mut ed = EmbedderDataContext::new(plc.ed);
                all_into_luau(&values, plc, &mut ed, "Failed to convert return value to Lua: ")
            },
        }
    }

    /// The one value that an op call gave. `what` is told in front of its error.
    pub fn single(what: &str, resp: Result<Vec<LuauValue>, String>) -> (r: Result<
        LuauValue,
        String,
    >)
        ensures
            match resp {
                Err(t) => r matches Err(e) && e@ == what@ + t@,
                Ok(values) => if values@.len() == 1 {
                    r == Ok::<LuauValue, String>(values@[0])
                } else {
                    r matches Err(e) && e@ == not_one(values@.len())
                },
            },
    {
        let mut values = match resp {
            Ok(values) => values,
            Err(e) => return Err(join(what, &e)),
        };
        let n = values.len();
        if n == 1 {
            match values.pop() {
                Some(v) => return Ok(v),
                None => {},
            }
        }
        let number = decimal_u64(n as u64);
        Err(join("Expected 1 return value from GetProperty, got ", &number))
    }

    /// What a call of the object returns, given what the op call gave.
    pub fn call(resp: Result<Vec<LuauValue>, String>) -> (r: Result<LuauValue, String>)
        ensures
            match resp {
                Err(t) => r matches Err(e) && e@ == "Failed to perform function call: "@ + t@,
                Ok(values) => if values@.len() == 1 {
                    r == Ok::<LuauValue, String>(values@[0])
                } else {
                    r matches Err(e) && e@ == not_one(values@.len())
                },
            },
    {
        V8Value::single("Failed to perform function call: ", resp)
    }

    /// The property that was read, given what the op call gave.
    pub fn getproperty(resp: Result<Vec<LuauValue>, String>) -> (r: Result<LuauValue, String>)
        ensures
            match resp {
                Err(t) => r matches Err(e) && e@ == "Failed to get property: "@ + t@,
                Ok(values) => if values@.len() == 1 {
                    r == Ok::<LuauValue, String>(values@[0])
                } else {
                    r matches Err(e) && e@ == not_one(values@.len())
                },
            },
    {
        V8Value::single("Failed to get property: ", resp)
    }

    /// How the request to dispose of the object ends, given what the op call gave.
    pub fn requestdispose(resp: Result<Vec<LuauValue>, String>) -> (r: Result<(), String>)
        ensures
            match (resp, r) {
                (Ok(_), Ok(_)) => true,
                (Err(t), Err(e)) => e@ == "Failed to request dispose: "@ + t@,
                _ => false,
            },
    {
        match resp {
            Ok(_) => Ok(()),
            Err(e) => Err(join("Failed to request dispose: ", &e)),
        }
    }
}

} // verus!
