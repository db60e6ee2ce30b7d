//! The calls of Luau functions that JavaScript has under way.

use std::collections::HashMap;

use vstd::prelude::*;
use vstd::std_specs::hash::*;

use crate::base::deno::{
    copied_of_js, copy_views, CopyRegs, CopyStep, CopyView, ProxiedV8Value, ProxyV8Client,
};
use crate::base::luau::{lua_views, LuaView, ProxiedLuaValue};
use crate::deno::tree::{all_to_v8, tree_views, trees_of, FinalizerList, V8Tree};
use crate::denobridge::jsvalue::{js_views, JsValue, JsView};
use crate::text::{decimal, decimal_u64, join, join4};

verus! {

/// A call of a Luau function.
#[derive(Debug, PartialEq, Eq)]
pub enum FunctionRunState {
    /// The call was bound and not yet made.
    Created { func_id: i64, args: Vec<ProxiedV8Value> },
    /// The call is over.
    Executed { lua_resp: Vec<ProxiedLuaValue> },
}

/// A call of a Luau function.
#[verifier::ext_equal]
pub enum RunView {
    Created { func_id: i64, args: Seq<CopyView> },
    Executed { lua_resp: Seq<LuaView> },
}

impl FunctionRunState {
    /// What the call is.
    pub open spec fn view(self) -> RunView {
        match self {
            FunctionRunState::Created { func_id, args } => RunView::Created {
                func_id,
                args: copy_views(args@),
            },
            FunctionRunState::Executed { lua_resp } => RunView::Executed {
                lua_resp: lua_views(lua_resp@),
            },
        }
    }
}

/// The calls of Luau functions by number.
pub struct RunList {
    list: HashMap<i32, FunctionRunState>,
}

/// The text of an argument that could not be converted.
pub open spec fn argument_refused(i: int, e: Seq<char>) -> Seq<char> {
    "Failed to convert argument "@ + decimal(i as nat) + ": "@ + e
}

/// The arguments from the `i`th on, behind those that are there.
pub open spec fn args_of_js(s: Seq<JsView>, i: int, done: Seq<CopyView>, regs: CopyRegs) -> CopyStep<
    Seq<CopyView>,
>
    decreases s.len() - i,
{
    if i < 0 || i >= s.len() {
        CopyStep { regs, res: Ok(done) }
    } else {
        let one = copied_of_js(s[i], regs, 0);
        match one.res {
            Err(e) => CopyStep { regs: one.regs, res: Err(argument_refused(i, e)) },
            Ok(p) => args_of_js(s, i + 1, done.push(p), one.regs),
        }
    }
}

/// The arguments of a call.
fn args_from_js(args: &Vec<JsValue>, plc: &mut ProxyV8Client) -> (r: Result<
    Vec<ProxiedV8Value>,
    String,
>)
    requires
        old(plc).wf(),
    ensures
        final(plc).wf(),
        ({
            let want = args_of_js(js_views(args@), 0, Seq::empty(), old(plc).regs());
            &&& final(plc).regs() == want.regs
            &&& match (r, want.res) {
                (Ok(p), Ok(v)) => copy_views(p@) == v,
                (Err(e), Err(t)) => e@ == t,
                _ => false,
            }
        }),
{
    let ghost all = js_views(args@);
    let ghost want = args_of_js(all, 0, Seq::empty(), plc.regs());
    let mut list: Vec<ProxiedV8Value> = Vec::new();
    assert(copy_views(list@) =~= Seq::empty());
    let mut i: usize = 0;
    while i < args.len()
        invariant
            i <= args@.len(),
            all == js_views(args@),
            plc.wf(),
            want == args_of_js(all, 0, Seq::empty(), old(plc).regs()),
            want == args_of_js(all, i as int, copy_views(list@), plc.regs()),
        decreases args@.len() - i,
    {
        let ghost before = list@;
        match ProxiedV8Value::proxy_from_v8(&args[i], plc, 0) {
            Err(e) => {
                let number = decimal_u64(i as u64);
                return Err(join4("Failed to convert argument ", &number, ": ", &e));
            },
            Ok(v) => {
                list.push(v);
                assert(copy_views(list@) =~= copy_views(before).push(v@));
            },
        }
        i += 1;
    }
    Ok(list)
}

/// The number of the next call: one more than there are calls.
pub open spec fn next_run(runs: Map<i32, RunView>) -> i32 {
    (runs.dom().len() + 1) as i32
}

impl RunList {
    /// The calls that are there.
    pub closed spec fn view(&self) -> Map<i32, RunView> {
        self.list@.map_values(|s: FunctionRunState| s.view())
    }

    /// No calls.
    pub fn new() -> (r: Self)
        ensures
            r@ == Map::<i32, RunView>::empty(),
    {
        broadcast use group_hash_axioms;

        let r = RunList { list: HashMap::new() };
        assert(r@ =~= Map::<i32, RunView>::empty());
        r
    }

    /// How many calls there are.
    pub fn len(&self) -> (r: usize)
        ensures
            r == self@.dom().len(),
    {
        broadcast use group_hash_axioms;

        assert(self@.dom() =~= self.list@.dom());
        self.list.len()
    }

    /// Binds arguments to a function by number and gives the call a number. Where a call with that
    /// number is there, the new one takes its place.
    pub fn luadispatch(&mut self, plc: &mut ProxyV8Client, func_id: i64, args: &Vec<JsValue>) -> (r:
        Result<i32, String>)
        requires
            old(plc).wf(),
            old(self)@.dom().len() < i32::MAX,
        ensures
            final(plc).wf(),
            ({
                let want = args_of_js(js_views(args@), 0, Seq::empty(), old(plc).regs());
                &&& final(plc).regs() == want.regs
                &&& match want.res {
                    Err(t) => final(self)@ == old(self)@ && (r matches Err(e) && e@ == t),
                    Ok(vs) => r == Ok::<i32, String>(next_run(old(self)@)) && final(self)@ == old(
                        self,
                    )@.insert(next_run(old(self)@), RunView::Created { func_id, args: vs }),
                }
            }),
    {
        broadcast use group_hash_axioms;

        let args = match args_from_js(args, plc) {
            Ok(args) => args,
            Err(e) => return Err(e),
        };
        assert(self@.dom() =~= self.list@.dom());
        let run_id = self.list.len() as i32 + 1;
        self.list.insert(run_id, FunctionRunState::Created { func_id, args });
        assert(self@ =~= old(self)@.insert(
            run_id,
            RunView::Created { func_id, args: copy_views(args@) },
        ));
        Ok(run_id)
    }

    /// Takes a call that is to be made: the function and its arguments.
    pub fn luarun(&mut self, run_id: i32) -> (r: Result<(i64, Vec<ProxiedV8Value>), String>)
        ensures
            final(self)@ == old(self)@.remove(run_id),
            if !old(self)@.dom().contains(run_id) {
                r matches Err(e) && e@ == "Run ID not found"@
            } else {
                match old(self)@[run_id] {
                    RunView::Created { func_id, args } => r matches Ok(call) && call.0 == func_id
                        && copy_views(call.1@) == args,
                    RunView::Executed { .. } => r matches Err(e) && e@
                        == "Run not in Created state"@,
                }
            },
    {
        broadcast use group_hash_axioms;

        let found = self.list.remove(&run_id);
        assert(self@ =~= old(self)@.remove(run_id));
        match found {
            None => Err("Run ID not found".to_owned()),
            Some(FunctionRunState::Created { func_id, args }) => Ok((func_id, args)),
            Some(_) => Err("Run not in Created state".to_owned()),
        }
    }

    /// Keeps what a call returned.
    pub fn luarun_done(&mut self, run_id: i32, outcome: Result<Vec<ProxiedLuaValue>, String>) -> (r:
        Result<(), String>)
        ensures
            match outcome {
                Ok(lua_resp) => r is Ok && final(self)@ == old(self)@.insert(
                    run_id,
                    RunView::Executed { lua_resp: lua_views(lua_resp@) },
                ),
                Err(t) => final(self)@ == old(self)@ && (r matches Err(e) && e@
                    == "Function execution error: "@ + t@),
            },
    {
        broadcast use group_hash_axioms;

        match outcome {
            Ok(lua_resp) => {
                self.list.insert(run_id, FunctionRunState::Executed { lua_resp });
                assert(self@ =~= old(self)@.insert(
                    run_id,
                    RunView::Executed { lua_resp: lua_views(lua_resp@) },
                ));
                Ok(())
            },
            Err(e) => Err(join("Function execution error: ", &e)),
        }
    }

    /// Takes what a call returned, as v8 gets it.
    pub fn luaresult(&mut self, held: &mut FinalizerList, run_id: i32) -> (r: Result<
        Vec<V8Tree>,
        String,
    >)
        requires
            old(held).wf(),
        ensures
            final(held).wf(),
            final(self)@ == old(self)@.remove(run_id),
            if !old(self)@.dom().contains(run_id) {
                final(held)@ == old(held)@ && (r matches Err(e) && e@ == "Run ID not found"@)
            } else {
                match old(self)@[run_id] {
                    RunView::Created { .. } => final(held)@ == old(held)@ && (r matches Err(e) && e@
                        == "Function has not been executed yet"@),
                    RunView::Executed { lua_resp } => {
                        let want = trees_of(lua_resp, 0, Seq::empty(), old(held)@, 0);
                        &&& final(held)@ == want.held
                        &&& match (r, want.res) {
                            (Ok(p), Ok(v)) => tree_views(p@) == v,
                            (Err(e), Err(t)) => e@ == "Failed to convert return value: "@ + t,
                            _ => false,
                        }
                    },
                }
            },
    {
        broadcast use group_hash_axioms;

        let found = self.list.remove(&run_id);
        assert(self@ =~= old(self)@.remove(run_id));
        match found {
            None => Err("Run ID not found".to_owned()),
            Some(FunctionRunState::Created { .. }) => Err(
                "Function has not been executed yet".to_owned(),
            ),
            Some(FunctionRunState::Executed { lua_resp }) => match all_to_v8(&lua_resp, held, 0) {
                Ok(results) => Ok(results),
                Err(e) => Err(join("Failed to convert return value: ", &e)),
            },
        }
    }
}

/// A call is under the number that it was given until it is made, whatever is done to the calls
/// with other numbers.
pub proof fn law_bound_call_stays(
    runs: Map<i32, RunView>,
    func_id: i64,
    args: Seq<CopyView>,
    other: i32,
    state: RunView,
)
    requires
        other != next_run(runs),
    ensures
        ({
            let call = RunView::Created { func_id, args };
            let bound = runs.insert(next_run(runs), call);
            &&& bound.insert(other, state)[next_run(runs)] == call
            &&& bound.remove(other)[next_run(runs)] == call
            &&& bound.remove(other).dom().contains(next_run(runs))
        }),
{
}

} // verus!
