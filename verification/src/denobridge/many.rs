//! Several values at once: the arguments and the results of calls across the bridge.

use vstd::prelude::*;

use crate::denobridge::conv_luau::{value_of_luau, value_to_luau};
use crate::denobridge::conv_v8::{value_of_v8, value_to_v8};
use crate::denobridge::inner::CommonState;
use crate::denobridge::jsvalue::{js_views, JsValue, JsView};
use crate::denobridge::value::{v8_views, ProxiedV8Value, V8View};
use crate::luau::bridge::ProxyLuaClient;
use crate::luau::embedder_api::EmbedderDataContext;
use crate::luau::value::{luau_views, LuauValue, LuauView};
use crate::outcome::{Charged, Step};
use crate::registry::RegistryView;
use crate::text::{decimal, decimal_u64, join, join4};

verus! {

/// The values of Luau from the `i`th on, behind those that are there.
pub open spec fn all_of_luau(
    s: Seq<LuauView>,
    i: int,
    done: Seq<V8View>,
    reg: RegistryView,
    ed: EmbedderDataContext,
    what: Seq<char>,
) -> Step<Seq<V8View>>
    decreases s.len() - i,
{
    if i < 0 || i >= s.len() {
        Step { reg, ed, res: Ok(done) }
    } else {
        let one = value_of_luau(s[i], reg, ed);
        match one.res {
            Err(e) => Step { reg: one.reg, ed: one.ed, res: Err(what + e) },
            Ok(p) => all_of_luau(s, i + 1, done.push(p), one.reg, one.ed, what),
        }
    }
}

/// Proxied values from the `i`th on in Luau, behind those that are there.
pub open spec fn all_to_luau(
    s: Seq<V8View>,
    i: int,
    done: Seq<LuauView>,
    reg: RegistryView,
    ed: EmbedderDataContext,
    what: Seq<char>,
) -> Charged<Seq<LuauView>>
    decreases s.len() - i,
{
    if i < 0 || i >= s.len() {
        Charged { ed, res: Ok(done) }
    } else {
        let one = value_to_luau(s[i], reg, ed);
        match one.res {
            Err(e) => Charged { ed: one.ed, res: Err(what + e) },
            Ok(v) => all_to_luau(s, i + 1, done.push(v), reg, one.ed, what),
        }
    }
}

/// The values of v8 after a conversion: those that were converted before it failed, if it did.
pub struct Taken {
    pub reg: RegistryView,
    pub ed: EmbedderDataContext,
    pub done: Seq<V8View>,
    pub err: Option<Seq<char>>,
}

/// The text of an argument that could not be converted.
pub open spec fn argument_refused(i: int, e: Seq<char>) -> Seq<char> {
    "Failed to convert argument "@ + decimal(i as nat) + ": "@ + e
}

/// The values of v8 from the `i`th on, behind those that are there.
pub open spec fn all_of_v8(
    s: Seq<JsView>,
    i: int,
    done: Seq<V8View>,
    reg: RegistryView,
    ed: EmbedderDataContext,
) -> Taken
    decreases s.len() - i,
{
    if i < 0 || i >= s.len() {
        Taken { reg, ed, done, err: None }
    } else {
        let one = value_of_v8(s[i], reg, ed);
        match one.res {
            Err(e) => Taken {
                reg: one.reg,
                ed: one.ed,
                done,
                err: Some(argument_refused(i, e)),
            },
            Ok(p) => all_of_v8(s, i + 1, done.push(p), one.reg, one.ed),
        }
    }
}

/// Proxied values from the `i`th on in v8, behind those that are there.
pub open spec fn all_to_v8(
    s: Seq<V8View>,
    i: int,
    done: Seq<JsView>,
    reg: RegistryView,
    ed: EmbedderDataContext,
    what: Seq<char>,
) -> Charged<Seq<JsView>>
    decreases s.len() - i,
{
    if i < 0 || i >= s.len() {
        Charged { ed, res: Ok(done) }
    } else {
        let one = value_to_v8(s[i], reg, ed);
        match one.res {
            Err(e) => Charged { ed: one.ed, res: Err(what + e) },
            Ok(v) => all_to_v8(s, i + 1, done.push(v), reg, one.ed, what),
        }
    }
}

/// Proxies several values of Luau, on one account.
pub fn all_from_luau(
    plc: &mut ProxyLuaClient,
    values: &Vec<LuauValue>,
    ed: &mut EmbedderDataContext,
    what: &str,
) -> (r: Result<Vec<ProxiedV8Value>, String>)
    requires
        old(plc).wf(),
    ensures
        final(plc).wf(),
        final(plc).ed == old(plc).ed,
        ({
            let want = all_of_luau(
                luau_views(values@),
                0,
                Seq::empty(),
                old(plc).obj_registry@,
                *old(ed),
                what@,
            );
            &&& final(plc).obj_registry@ == want.reg
            &&& *final(ed) == want.ed
            &&& match (r, want.res) {
                (Ok(p), Ok(v)) => v8_views(p@) == v,
                (Err(e), Err(t)) => e@ == t,
                _ => false,
            }
        }),
{
    let ghost all = luau_views(values@);
    let ghost want = all_of_luau(all, 0, Seq::empty(), plc.obj_registry@, *ed, what@);
    let mut list: Vec<ProxiedV8Value> = Vec::new();
    assert(v8_views(list@) =~= Seq::empty());
    let mut i: usize = 0;
    while i < values.len()
        invariant
            i <= values@.len(),
            all == luau_views(values@),
            plc.wf(),
            plc.ed == old(plc).ed,
            want == all_of_luau(
                all,
                0,
                Seq::empty(),
                old(plc).obj_registry@,
                *old(ed),
                what@,
            ),
            want == all_of_luau(all, i as int, v8_views(list@), plc.obj_registry@, *ed, what@),
        decreases values@.len() - i,
    {
        let ghost before = list@;
        match ProxiedV8Value::from_luau(plc, &values[i], ed) {
            Err(e) => return Err(join(what, &e)),
            Ok(v) => {
                list.push(v);
                assert(v8_views(list@) =~= v8_views(before).push(v@));
            },
        }
        i += 1;
    }
    Ok(list)
}

/// Several proxied values in Luau, on one account.
pub fn all_into_luau(
    values: &Vec<ProxiedV8Value>,
    plc: &ProxyLuaClient,
    ed: &mut EmbedderDataContext,
    what: &str,
) -> (r: Result<Vec<LuauValue>, String>)
    requires
        plc.wf(),
    ensures
        ({
            let want = all_to_luau(
                v8_views(values@),
                0,
                Seq::empty(),
                plc.obj_registry@,
                *old(ed),
                what@,
            );
            &&& *final(ed) == want.ed
            &&& match (r, want.res) {
                (Ok(p), Ok(v)) => luau_views(p@) == v,
                (Err(e), Err(t)) => e@ == t,
                _ => false,
            }
        }),
{
    let ghost all = v8_views(values@);
    let ghost want = all_to_luau(all, 0, Seq::empty(), plc.obj_registry@, *ed, what@);
    let mut list: Vec<LuauValue> = Vec::new();
    assert(luau_views(list@) =~= Seq::empty());
    let mut i: usize = 0;
    while i < values.len()
        invariant
            i <= values@.len(),
            all == v8_views(values@),
            plc.wf(),
            want == all_to_luau(all, 0, Seq::empty(), plc.obj_registry@, *old(ed), what@),
            want == all_to_luau(
                all,
                i as int,
                luau_views(list@),
                plc.obj_registry@,
                *ed,
                what@,
            ),
        decreases values@.len() - i,
    {
        let ghost before = list@;
        match values[i].to_luau(plc, ed) {
            Err(e) => return Err(join(what, &e)),
            Ok(v) => {
                list.push(v);
                assert(luau_views(list@) =~= luau_views(before).push(v@));
            },
        }
        i += 1;
    }
    Ok(list)
}

/// Proxies several values of v8 behind those that are there, on one account. Those that come
/// before one that cannot be converted stay.
pub fn all_from_v8(
    list: &mut Vec<ProxiedV8Value>,
    values: &Vec<JsValue>,
    common_state: &mut CommonState,
    ed: &mut EmbedderDataContext,
) -> (r: Result<(), String>)
    requires
        old(common_state).wf(),
    ensures
        final(common_state).wf(),
        final(common_state).ed == old(common_state).ed,
        ({
            let want = all_of_v8(
                js_views(values@),
                0,
                v8_views(old(list)@),
                old(common_state).proxy_client.obj_registry@,
                *old(ed),
            );
            &&& final(common_state).proxy_client.obj_registry@ == want.reg
            &&& *final(ed) == want.ed
            &&& v8_views(final(list)@) == want.done
            &&& match (r, want.err) {
                (Ok(_), None) => true,
                (Err(e), Some(t)) => e@ == t,
                _ => false,
            }
        }),
{
    let ghost all = js_views(values@);
    let ghost want = all_of_v8(
        all,
        0,
        v8_views(list@),
        common_state.proxy_client.obj_registry@,
        *ed,
    );
    let mut i: usize = 0;
    while i < values.len()
        invariant
            i <= values@.len(),
            all == js_views(values@),
            common_state.wf(),
            common_state.ed == old(common_state).ed,
            want == all_of_v8(
                all,
                0,
                v8_views(old(list)@),
                old(common_state).proxy_client.obj_registry@,
                *old(ed),
            ),
            want == all_of_v8(
                all,
                i as int,
                v8_views(list@),
                common_state.proxy_client.obj_registry@,
                *ed,
            ),
        decreases values@.len() - i,
    {
        let ghost before = list@;
        match ProxiedV8Value::from_v8(&values[i], common_state, ed) {
            Err(e) => {
                let number = decimal_u64(i as u64);
                return Err(join4("Failed to convert argument ", &number, ": ", &e));
            },
            Ok(v) => {
                list.push(v);
                assert(v8_views(list@) =~= v8_views(before).push(v@));
            },
        }
        i += 1;
    }
    Ok(())
}

/// Several proxied values in v8, on one account.
pub fn all_into_v8(
    values: &Vec<ProxiedV8Value>,
    common_state: &CommonState,
    ed: &mut EmbedderDataContext,
    what: &str,
) -> (r: Result<Vec<JsValue>, String>)
    requires
        common_state.wf(),
    ensures
        ({
            let want = all_to_v8(
                v8_views(values@),
                0,
                Seq::empty(),
                common_state.proxy_client.obj_registry@,
                *old(ed),
                what@,
            );
            &&& *final(ed) == want.ed
            &&& match (r, want.res) {
                (Ok(p), Ok(v)) => js_views(p@) == v,
                (Err(e), Err(t)) => e@ == t,
                _ => false,
            }
        }),
{
    let ghost all = v8_views(values@);
    let ghost reg = common_state.proxy_client.obj_registry@;
    let ghost want = all_to_v8(all, 0, Seq::empty(), reg, *ed, what@);
    let mut list: Vec<JsValue> = Vec::new();
    assert(js_views(list@) =~= Seq::empty());
    let mut i: usize = 0;
    while i < values.len()
        invariant
            i <= values@.len(),
            all == v8_views(values@),
            common_state.wf(),
            reg == common_state.proxy_client.obj_registry@,
            want == all_to_v8(all, 0, Seq::empty(), reg, *old(ed), what@),
            want == all_to_v8(all, i as int, js_views(list@), reg, *ed, what@),
        decreases values@.len() - i,
    {
        let ghost before = list@;
        match values[i].to_v8(common_state, ed) {
            Err(e) => return Err(join(what, &e)),
            Ok(v) => {
                list.push(v);
                assert(js_views(list@) =~= js_views(before).push(v@));
            },
        }
        i += 1;
    }
    Ok(list)
}

} // verus!
