//! Objects of the other state, as they are used.

use vstd::prelude::*;

use crate::base::message::with_context;
use crate::luau::bridge::ProxyLuaClient;
use crate::luau::embedder_api::EmbedderDataContext;
use crate::luau::value::{luau_views, LuauValue};
use crate::parallelluau::client::{
    CallFunctionChildMessage, GetPropertyMessage, RequestDisposeMessage,
};
use crate::parallelluau::convert::{value_of_state, value_to_state};
use crate::parallelluau::many::{
    all_from_state, all_into_state, all_of_state, all_to_state, each_into_state, each_to_state,
};
use crate::parallelluau::objreg::PLuauObjectRegistryID;
use crate::parallelluau::state::ProxyPLuaClient;
use crate::parallelluau::value::{pluau_views, ProxiedLuauValue};
use crate::text::join;

verus! {

/// An object of the child state that the host holds.
#[derive(Debug, PartialEq, Eq)]
pub struct ForeignRef {
    pub id: PLuauObjectRegistryID,
    pub typ: crate::luau::bridge::ObjectRegistryType,
}

impl ForeignRef {
    /// The number of the object.
    pub fn objid(&self) -> (r: i64)
        ensures
            r == self.id@,
    {
        self.id.objid()
    }

    /// The name of the object's sort.
    pub fn objtype(&self) -> (r: &'static str)
        ensures
            r@ == self.typ.name(),
    {
        self.typ.typename()
    }

    /// The request that gives the object back. It is also made when the reference is dropped.
    pub fn request_dispose(&self) -> (r: RequestDisposeMessage)
        ensures
            r.obj_id == self.id,
    {
        RequestDisposeMessage { obj_id: self.id }
    }

    /// The request that reads a property.
    pub fn get_property(&self, plc: &mut ProxyLuaClient, key: &LuauValue) -> (r: Result<
        GetPropertyMessage,
        String,
    >)
        requires
            old(plc).wf(),
        ensures
            final(plc).wf(),
            final(plc).ed == old(plc).ed,
            ({
                let want = value_of_state(
                    key@,
                    true,
                    old(plc).obj_registry@,
                    EmbedderDataContext { ed: old(plc).ed, depth: 0, size: 0 },
                );
                &&& final(plc).obj_registry@ == want.reg
                &&& match (r, want.res) {
                    (Ok(m), Ok(v)) => m.obj_id == self.id && m.property@ == v,
                    (Err(e), Err(t)) => e@ == "Failed to proxy argument to ProxiedValue: "@ + t,
                    _ => false,
                }
            }),
    {
        let mut ed = EmbedderDataContext::new(plc.ed);
        match ProxiedLuauValue::from_luau_host(plc, key, &mut ed) {
            Ok(property) => Ok(GetPropertyMessage { obj_id: self.id, property }),
            Err(e) => Err(join("Failed to proxy argument to ProxiedValue: ", &e)),
        }
    }

    /// The property that was read, given the answer.
    pub fn got_property(plc: &ProxyLuaClient, answer: Result<ProxiedLuauValue, String>) -> (r:
        Result<LuauValue, String>)
        requires
            plc.wf(),
        ensures
            match answer {
                Err(t) => r matches Err(e) && e@ == t@,
                Ok(value) => match (
                    r,
                    value_to_state(
                        value@,
                        true,
                        plc.obj_registry@,
                        EmbedderDataContext { ed: plc.ed, depth: 0, size: 0 },
                    ).res,
                ) {
                    (Ok(p), Ok(v)) => p@ == v,
                    (Err(e), Err(t)) => e@ == "Failed to convert returned property to Lua: "@ + t,
                    _ => false,
                },
            },
    {
        match answer {
            Err(e) => Err(e),
            Ok(value) => {
                let mut ed = EmbedderDataContext::new(plc.ed);
                match value.to_luau_host(plc, &mut ed) {
                    Ok(v) => Ok(v),
                    Err(e) => Err(join("Failed to convert returned property to Lua: ", &e)),
                }
            },
        }
    }

    /// The request that calls the function. The arguments are on one account.
    pub fn function_call(&self, plc: &mut ProxyLuaClient, args: &Vec<LuauValue>) -> (r: Result<
        CallFunctionChildMessage,
        String,
    >)
        requires
            old(plc).wf(),
        ensures
            final(plc).wf(),
            final(plc).ed == old(plc).ed,
            ({
                let want = all_of_state(
                    luau_views(args@),
                    0,
                    Seq::empty(),
                    true,
                    old(plc).obj_registry@,
                    EmbedderDataContext { ed: old(plc).ed, depth: 0, size: 0 },
                    "Failed to proxy argument to ProxiedValue: "@,
                );
                &&& final(plc).obj_registry@ == want.reg
                &&& match (r, want.res) {
                    (Ok(m), Ok(v)) => m.obj_id == self.id && pluau_views(m.args@) == v,
                    (Err(e), Err(t)) => e@ == t,
                    _ => false,
                }
            }),
    {
        let mut ed = EmbedderDataContext::new(plc.ed);
        match all_from_state(plc, args, &mut ed, "Failed to proxy argument to ProxiedValue: ") {
            Ok(args) => Ok(CallFunctionChildMessage { obj_id: self.id, args }),
            Err(e) => Err(e),
        }
    }

    /// What the call returned, given the answer. Each value is on an account of its own.
    pub fn function_returned(plc: &ProxyLuaClient, answer: Result<
        Vec<ProxiedLuauValue>,
        String,
    >) -> (r: Result<Vec<LuauValue>, String>)
        requires
            plc.wf(),
        ensures
            match answer {
                Err(t) => r matches Err(e) && e@ == t@,
                Ok(values) => match (
                    r,
                    each_to_state(
                        pluau_views(values@),
                        0,
                        Seq::empty(),
                        true,
                        plc.obj_registry@,
                        plc.ed,
                        "Failed to convert return value to Lua: "@,
                    ),
                ) {
                    (Ok(p), Ok(v)) => luau_views(p@) == v,
                    (Err(e), Err(t)) => e@ == t,
                    _ => false,
                },
            },
    {
        match answer {
            Err(e) => Err(e),
            Ok(values) => each_into_state(
                &values,
                plc,
                plc.ed,
                "Failed to convert return value to Lua: ",
            ),
        }
    }

    /// How the request to dispose of the object ends.
    pub fn disposed(answer: Result<(), String>) -> (r: Result<(), String>)
        ensures
            match (answer, r) {
                (Ok(_), Ok(_)) => true,
                (Err(t), Err(e)) => e@ == "Failed to request dispose: "@ + t@,
                _ => false,
            },
    {
        with_context("Failed to request dispose: ", answer)
    }

    /// What a call of the object returns.
    pub fn called(returned: Result<Vec<LuauValue>, String>) -> (r: Result<Vec<LuauValue>, String>)
        ensures
            match (returned, r) {
                (Ok(x), Ok(y)) => x == y,
                (Err(t), Err(e)) => e@ == "Failed to call function: "@ + t@,
                _ => false,
            },
    {
        with_context("Failed to call function: ", returned)
    }

    /// What a property of the object is.
    pub fn property(got: Result<LuauValue, String>) -> (r: Result<LuauValue, String>)
        ensures
            match (got, r) {
                (Ok(x), Ok(y)) => x == y,
                (Err(t), Err(e)) => e@ == "Failed to get property: "@ + t@,
                _ => false,
            },
    {
        with_context("Failed to get property: ", got)
    }
}

/// An object of the host state that the child holds.
#[derive(Debug, PartialEq, Eq)]
pub struct ForeignLuauValue {
    pub id: crate::luau::objreg::LuauObjectRegistryID,
    pub typ: crate::luau::bridge::ObjectRegistryType,
}

impl ForeignLuauValue {
    /// The arguments of a call of the object, on one account.
    pub fn callasync(plc: &mut ProxyPLuaClient, args: &Vec<LuauValue>) -> (r: Result<
        Vec<ProxiedLuauValue>,
        String,
    >)
        requires
            old(plc).wf(),
        ensures
            final(plc).wf(),
            final(plc).ed == old(plc).ed,
            ({
                let want = all_of_state(
                    luau_views(args@),
                    0,
                    Seq::empty(),
                    false,
                    old(plc).obj_registry@,
                    EmbedderDataContext { ed: old(plc).ed, depth: 0, size: 0 },
                    "Failed to proxy argument to ProxiedLuauValue: "@,
                );
                &&& final(plc).obj_registry@ == want.reg
                &&& match (r, want.res) {
                    (Ok(p), Ok(v)) => pluau_views(p@) == v,
                    (Err(e), Err(t)) => e@ == t,
                    _ => false,
                }
            }),
    {
        let mut ed = EmbedderDataContext::new(plc.ed);
        all_from_state(plc, args, &mut ed, "Failed to proxy argument to ProxiedLuauValue: ")
    }

    /// What the call returned, given the answer, on one account.
    pub fn returned(plc: &ProxyPLuaClient, answer: Result<Vec<ProxiedLuauValue>, String>) -> (r:
        Result<Vec<LuauValue>, String>)
        requires
            plc.wf(),
        ensures
            match answer {
                Err(t) => r matches Err(e) && e@ == "Bridge call failed: "@ + t@,
                Ok(values) => match (
                    r,
                    all_to_state(
                        pluau_views(values@),
                        0,
                        Seq::empty(),
                        false,
                        plc.obj_registry@,
                        EmbedderDataContext { ed: plc.ed, depth: 0, size: 0 },
                        "Failed to convert return value to Lua: "@,
                    ).res,
                ) {
                    (Ok(p), Ok(v)) => luau_views(p@) == v,
                    (Err(e), Err(t)) => e@ == t,
                    _ => false,
                },
            },
    {
        match answer {
            Err(e) => Err(join("Bridge call failed: ", &e)),
            Ok(values) => {
                let mut ed = EmbedderDataContext::new(plc.ed);
                all_into_state(&values, plc, &mut ed, "Failed to convert return value to Lua: ")
            },
        }
    }

    /// How the request to dispose of the object ends.
    pub fn disposed(answer: Result<(), String>) -> (r: Result<(), String>)
        ensures
            match (answer, r) {
                (Ok(_), Ok(_)) => true,
                (Err(t), Err(e)) => e@ == "Bridge call failed: "@ + t@,
                _ => false,
            },
    {
        with_context("Bridge call failed: ", answer)
    }
}

} // verus!
