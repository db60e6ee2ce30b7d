//! What v8 does with Luau objects, and the values that it holds while it does.

use vstd::prelude::*;

use crate::denobridge::inner::CommonState;
use crate::denobridge::conv_v8::value_to_v8;
use crate::denobridge::jsvalue::{js_views, JsValue, JsView};
use crate::denobridge::many::{all_from_v8, all_into_v8, all_of_v8, all_to_v8};
use crate::denobridge::objreg::V8ObjectRegistryID;
use crate::denobridge::owned::{
    luau_numbers, owned_by_all, owned_luau_list, owned_v8_list, v8_numbers,
};
use crate::denobridge::value::{v8_views, ProxiedV8Value, V8View};
use crate::luau::bridge::ObjectRegistryType;
use crate::luau::embedder_api::EmbedderDataContext;
use crate::luau::objreg::LuauObjectRegistryID;
use crate::text::{decimal, decimal_u64, join};

verus! {

/// What is done with a Luau object.
#[derive(Clone, Copy, Debug, PartialEq, Eq, Structural)]
pub enum LuauObjectOp {
    FunctionCallSync,
    FunctionCallAsync,
    Index,
}

/// The objects that are given back when some values are no longer held: nothing is said of v8
/// objects where giving them back is switched off, and nothing where there are none.
#[derive(Debug, PartialEq, Eq)]
pub struct RefIdDropGuard {
    pub v8_refs: Option<Vec<V8ObjectRegistryID>>,
    pub lua_refs: Option<Vec<LuauObjectRegistryID>>,
}

impl RefIdDropGuard {
    /// What is given back for some values.
    pub open spec fn covers(&self, args: Seq<V8View>, disposal_enabled: bool) -> bool {
        let v8 = owned_v8_list(args, args.len());
        let lua = owned_luau_list(args, args.len());
        &&& self.v8_refs is Some <==> v8.len() > 0 && disposal_enabled
        &&& self.v8_refs matches Some(ids) ==> v8_numbers(ids@) == v8
        &&& self.lua_refs is Some <==> lua.len() > 0
        &&& self.lua_refs matches Some(ids) ==> luau_numbers(ids@) == lua
    }

    /// What is given back for some values.
    pub fn from_args(args: &Vec<ProxiedV8Value>, disposal_enabled: bool) -> (r: Self)
        ensures
            r.covers(v8_views(args@), disposal_enabled),
    {
        let owned = owned_by_all(args);
        proof {
            assert(v8_views(args@).len() == args@.len());
            assert(v8_numbers(owned.0@).len() == owned.0@.len());
            assert(luau_numbers(owned.1@).len() == owned.1@.len());
        }
        let v8_refs = if owned.0.len() > 0 && disposal_enabled {
            Some(owned.0)
        } else {
            None
        };
        let lua_refs = if owned.1.len() > 0 {
            Some(owned.1)
        } else {
            None
        };
        RefIdDropGuard { v8_refs, lua_refs }
    }
}

/// Values that are passed between operations, until they are taken out.
pub struct ArgBuffer {
    proxied_values: Option<Vec<ProxiedV8Value>>,
}

/// What is said of a buffer that was taken out.
pub open spec fn consumed() -> Seq<char> {
    "ArgBuffer already consumed"@
}

/// The refusal of an index that is not one value.
pub open spec fn index_refused(n: nat) -> Seq<char> {
    "Indexing a object requires exactly/only 1 argument, got "@ + decimal(n)
}

impl ArgBuffer {
    /// The values, and nothing when they were taken out.
    pub closed spec fn view(&self) -> Option<Seq<V8View>> {
        match self.proxied_values {
            Some(values) => Some(v8_views(values@)),
            None => None,
        }
    }

    /// A buffer with some values.
    pub fn new(values: Vec<ProxiedV8Value>) -> (r: Self)
        ensures
            r@ == Some(v8_views(values@)),
    {
        ArgBuffer { proxied_values: Some(values) }
    }

    /// Puts values into a buffer that was taken out.
    pub fn replace(&mut self, values: Vec<ProxiedV8Value>) -> (r: Result<(), String>)
        ensures
            r is Ok <==> old(self)@ is None,
            r is Ok ==> final(self)@ == Some(v8_views(values@)),
            r matches Err(e) ==> final(self)@ == old(self)@ && e@
                == "ArgBuffer already initialized"@,
    {
        if self.proxied_values.is_some() {
            Err("ArgBuffer already initialized".to_owned())
        } else {
            self.proxied_values = Some(values);
            Ok(())
        }
    }

    /// Consume the proxied values, leaving None in its place
    pub fn consume(&mut self) -> (r: Result<Vec<ProxiedV8Value>, String>)
        ensures
            final(self)@ is None,
            r is Ok <==> old(self)@ is Some,
            r matches Ok(values) ==> old(self)@ == Some(v8_views(values@)),
            r matches Err(e) ==> e@ == consumed(),
    {
        match self.take_out() {
            Some(values) => Ok(values),
            None => Err("ArgBuffer already consumed".to_owned()),
        }
    }

    /// Takes out the values. Similar to consume but returns None if already consumed
    pub fn take_out(&mut self) -> (r: Option<Vec<ProxiedV8Value>>)
        ensures
            final(self)@ is None,
            r is Some <==> old(self)@ is Some,
            r matches Some(values) ==> old(self)@ == Some(v8_views(values@)),
    {
        self.proxied_values.take()
    }

    /// What is given back when the buffer is dropped.
    pub fn on_drop(&mut self, disposal_enabled: bool) -> (r: Option<RefIdDropGuard>)
        ensures
            final(self)@ is None,
            r is Some <==> old(self)@ is Some,
            r matches Some(guard) ==> guard.covers(old(self)@->Some_0, disposal_enabled),
    {
        match self.take_out() {
            Some(values) => Some(RefIdDropGuard::from_args(&values, disposal_enabled)),
            None => None,
        }
    }

    /// A buffer with some values of v8.
    pub fn constructor(state: &mut CommonState, args: &Vec<JsValue>) -> (r: Result<Self, String>)
        requires
            old(state).wf(),
        ensures
            final(state).wf(),
            final(state).ed == old(state).ed,
            ({
                let want = all_of_v8(
                    js_views(args@),
                    0,
                    Seq::empty(),
                    old(state).proxy_client.obj_registry@,
                    EmbedderDataContext { ed: old(state).ed, depth: 0, size: 0 },
                );
                &&& final(state).proxy_client.obj_registry@ == want.reg
                &&& match want.err {
                    None => r matches Ok(buffer) && buffer@ == Some(want.done),
                    Some(t) => r matches Err(e) && e@ == t,
                }
            }),
    {
        let mut ed = EmbedderDataContext::new(state.ed);
        let mut values: Vec<ProxiedV8Value> = Vec::new();
        assert(v8_views(values@) =~= Seq::empty());
        match all_from_v8(&mut values, args, state, &mut ed) {
            Ok(()) => Ok(ArgBuffer::new(values)),
            Err(e) => Err(e),
        }
    }

    /// Pushes values of v8. Those that come before one that cannot be converted stay.
    pub fn push(&mut self, state: &mut CommonState, args: &Vec<JsValue>) -> (r: Result<(), String>)
        requires
            old(state).wf(),
        ensures
            final(state).wf(),
            final(state).ed == old(state).ed,
            match old(self)@ {
                None => final(self)@ is None && final(state).proxy_client.obj_registry@ == old(
                    state,
                ).proxy_client.obj_registry@ && (r matches Err(e) && e@ == consumed()),
                Some(there) => {
                    let want = all_of_v8(
                        js_views(args@),
                        0,
                        there,
                        old(state).proxy_client.obj_registry@,
                        EmbedderDataContext { ed: old(state).ed, depth: 0, size: 0 },
                    );
                    &&& final(state).proxy_client.obj_registry@ == want.reg
                    &&& final(self)@ == Some(want.done)
                    &&& match want.err {
                        None => r is Ok,
                        Some(t) => r matches Err(e) && e@ == t,
                    }
                },
            },
    {
        let mut ed = EmbedderDataContext::new(state.ed);
        let mut values = match self.take_out() {
            Some(values) => values,
            None => return Err("ArgBuffer already consumed".to_owned()),
        };
        let r = all_from_v8(&mut values, args, state, &mut ed);
        self.proxied_values = Some(values);
        r
    }

    /// Pops the last value from the ArgBuffer. An empty buffer gives undefined.
    pub fn pop(&mut self, state: &CommonState) -> (r: Result<JsValue, String>)
        requires
            state.wf(),
        ensures
            match old(self)@ {
                None => final(self)@ is None && (r matches Err(e) && e@ == consumed()),
                Some(there) => if there.len() == 0 {
                    final(self)@ == Some(there) && (r matches Ok(v) && v@ == JsView::Undefined)
                } else {
                    &&& final(self)@ == Some(there.drop_last())
                    &&& match (
                        r,
                        value_to_v8(
                            there.last(),
                            state.proxy_client.obj_registry@,
                            EmbedderDataContext { ed: state.ed, depth: 0, size: 0 },
                        ).res,
                    ) {
                        (Ok(p), Ok(v)) => p@ == v,
                        (Err(e), Err(t)) => e@ == "Failed to convert popped value: "@ + t,
                        _ => false,
                    }
                },
            },
    {
        let mut values = match self.take_out() {
            Some(values) => values,
            None => return Err("ArgBuffer already consumed".to_owned()),
        };
        let ghost before = values@;
        let popped = values.pop();
        proof {
            if before.len() > 0 {
                assert(v8_views(values@) =~= v8_views(before).drop_last());
            }
        }
        self.proxied_values = Some(values);
        match popped {
            Some(v) => {
                let mut ed = EmbedderDataContext::new(state.ed);
                match v.to_v8(state, &mut ed) {
                    Ok(v) => Ok(v),
                    Err(e) => Err(join("Failed to convert popped value: ", &e)),
                }
            },
            None => Ok(JsValue::Undefined),
        }
    }

    /// Returns the length of the proxied values
    pub fn size(&self) -> (r: Result<u32, String>)
        ensures
            match self@ {
                None => r matches Err(e) && e@ == consumed(),
                Some(there) => if there.len() > u32::MAX {
                    r matches Err(e) && e@
                        == "ArgBuffer length exceeds u32 max, use sizeBigint instead"@
                } else {
                    r matches Ok(n) && n == there.len()
                },
            },
    {
        match &self.proxied_values {
            Some(values) => {
                if values.len() > 4294967295 {
                    Err("ArgBuffer length exceeds u32 max, use sizeBigint instead".to_owned())
                } else {
                    Ok(values.len() as u32)
                }
            },
            None => Err("ArgBuffer already consumed".to_owned()),
        }
    }

    /// Returns the length of the proxied values as bigint
    pub fn size_bigint(&self) -> (r: Result<usize, String>)
        ensures
            match self@ {
                None => r matches Err(e) && e@ == consumed(),
                Some(there) => r matches Ok(n) && n == there.len(),
            },
    {
        match &self.proxied_values {
            Some(values) => Ok(values.len()),
            None => Err("ArgBuffer already consumed".to_owned()),
        }
    }

    /// After a function call or otherwise, take the values out of the ArgBuffer
    pub fn take(&mut self, state: &CommonState) -> (r: Result<Vec<JsValue>, String>)
        requires
            state.wf(),
        ensures
            final(self)@ is None,
            match old(self)@ {
                None => r matches Err(e) && e@ == consumed(),
                Some(there) => match (
                    r,
                    all_to_v8(
                        there,
                        0,
                        Seq::empty(),
                        state.proxy_client.obj_registry@,
                        EmbedderDataContext { ed: state.ed, depth: 0, size: 0 },
                        "Failed to convert return value: "@,
                    ).res,
                ) {
                    (Ok(p), Ok(v)) => js_views(p@) == v,
                    (Err(e), Err(t)) => e@ == t,
                    _ => false,
                },
            },
    {
        let mut ed = EmbedderDataContext::new(state.ed);
        match self.consume() {
            Ok(args) => all_into_v8(&args, state, &mut ed, "Failed to convert return value: "),
            Err(e) => Err(e),
        }
    }

    /// Similar to take, but flattens single-valued results into just that value
    /// and returns undefined for zero-length results
    pub fn extract(&mut self, state: &CommonState) -> (r: Result<JsValue, String>)
        requires
            state.wf(),
        ensures
            final(self)@ is None,
            match old(self)@ {
                None => r matches Err(e) && e@ == consumed(),
                Some(there) => match (
                    r,
                    all_to_v8(
                        there,
                        0,
                        Seq::empty(),
                        state.proxy_client.obj_registry@,
                        EmbedderDataContext { ed: state.ed, depth: 0, size: 0 },
                        "Failed to convert return value: "@,
                    ).res,
                ) {
                    (Ok(p), Ok(v)) => p@ == flattened(v),
                    (Err(e), Err(t)) => e@ == t,
                    _ => false,
                },
            },
    {
        let mut results = match self.take(state) {
            Ok(results) => results,
            Err(e) => return Err(e),
        };
        if results.len() == 0 {
            Ok(JsValue::Undefined)
        } else if results.len() == 1 {
            let ghost there = js_views(results@);
            let only = results.pop();
            match only {
                Some(v) => {
                    assert(there[0] == v@);
                    Ok(v)
                },
                None => Ok(JsValue::Undefined),
            }
        } else {
            let r = JsValue::Array(results);
            assert(r@->Array_0 =~= js_views(results@));
            Ok(r)
        }
    }
}

/// What several results are as one value.
pub open spec fn flattened(results: Seq<JsView>) -> JsView {
    if results.len() == 0 {
        JsView::Undefined
    } else if results.len() == 1 {
        results[0]
    } else {
        JsView::Array(results)
    }
}

/// A call that is to be made: its arguments, or why it is refused, and what is given back when it
/// is over.
#[derive(Debug, PartialEq, Eq)]
pub struct OpCall {
    pub guard: RefIdDropGuard,
    pub args: Result<Vec<ProxiedV8Value>, String>,
}

/// A Luau object that v8 holds.
#[derive(Debug, PartialEq, Eq)]
pub struct LuaObject {
    pub lua_type: ObjectRegistryType,
    pub lua_id: LuauObjectRegistryID,
}

impl LuaObject {
    /// The number of the object.
    pub fn get_lua_id(&self) -> (r: i64)
        ensures
            r == self.lua_id@,
    {
        self.lua_id.objid()
    }

    /// The name of the object's sort.
    pub fn get_lua_type(&self) -> (r: &'static str)
        ensures
            r@ == self.lua_type.name(),
    {
        self.lua_type.typename()
    }

    /// The number that is given back when the object is dropped.
    pub fn on_drop(&self) -> (r: LuauObjectRegistryID)
        ensures
            r == self.lua_id,
    {
        self.lua_id
    }

    /// Takes the arguments of an operation out of a buffer. The objects in them are given back
    /// when the operation is over, also where it is refused.
    pub fn opcall_impl(bound_args: &mut ArgBuffer, op_id: LuauObjectOp, disposal_enabled: bool) -> (r:
        Result<OpCall, String>)
        ensures
            final(bound_args)@ is None,
            match old(bound_args)@ {
                None => r matches Err(e) && e@ == consumed(),
                Some(there) => {
                    &&& r matches Ok(call)
                    &&& call.guard.covers(there, disposal_enabled)
                    &&& if op_id == LuauObjectOp::Index && there.len() != 1 {
                        call.args matches Err(e) && e@ == index_refused(there.len())
                    } else {
                        call.args matches Ok(args) && v8_views(args@) == there
                    }
                },
            },
    {
        let args = match bound_args.consume() {
            Ok(args) => args,
            Err(e) => return Err(e),
        };
        let guard = RefIdDropGuard::from_args(&args, disposal_enabled);
        if op_id == LuauObjectOp::Index && args.len() != 1 {
            let number = decimal_u64(args.len() as u64);
            return Ok(
                OpCall {
                    guard,
                    args: Err(
                        join("Indexing a object requires exactly/only 1 argument, got ", &number),
                    ),
                },
            );
        }
        Ok(OpCall { guard, args: Ok(args) })
    }

    /// Puts what an operation returned into the buffer.
    pub fn opcall_done(bound_args: &mut ArgBuffer, lua_resp: Result<
        Vec<ProxiedV8Value>,
        String,
    >) -> (r: Result<(), String>)
        ensures
            match lua_resp {
                Err(t) => final(bound_args)@ == old(bound_args)@ && (r matches Err(e) && e@
                    == "Bridge call failed: "@ + t@),
                Ok(values) => if old(bound_args)@ is None {
                    r is Ok && final(bound_args)@ == Some(v8_views(values@))
                } else {
                    final(bound_args)@ == old(bound_args)@ && (r matches Err(e) && e@
                        == "ArgBuffer already initialized"@)
                },
            },
    {
        match lua_resp {
            Err(e) => Err(join("Bridge call failed: ", &e)),
            Ok(values) => bound_args.replace(values),
        }
    }
}

} // verus!
