//! Several values at once: the arguments and the results of calls between two states.

use vstd::prelude::*;

use crate::luau::embedder_api::{EmbedderData, EmbedderDataContext};
use crate::luau::value::{luau_views, LuauValue, LuauView};
use crate::outcome::{Charged, Step};
use crate::parallelluau::convert::{value_of_state, value_to_state};
use crate::parallelluau::state::StateClient;
use crate::parallelluau::value::{pluau_views, PLuauView, ProxiedLuauValue};
use crate::registry::RegistryView;
use crate::text::join;

verus! {

/// The values of a state from the `i`th on, behind those that are there. What could not be
/// converted is told in front of the error.
pub open spec fn all_of_state(
    s: Seq<LuauView>,
    i: int,
    done: Seq<PLuauView>,
    host: bool,
    reg: RegistryView,
    ed: EmbedderDataContext,
    what: Seq<char>,
) -> Step<Seq<PLuauView>>
    decreases s.len() - i,
{
    if i < 0 || i >= s.len() {
        Step { reg, ed, res: Ok(done) }
    } else {
        let one = value_of_state(s[i], host, reg, ed);
        match one.res {
            Err(e) => Step { reg: one.reg, ed: one.ed, res: Err(what + e) },
            Ok(p) => all_of_state(s, i + 1, done.push(p), host, one.reg, one.ed, what),
        }
    }
}

/// Proxied values from the `i`th on, behind those that are there, on one account.
pub open spec fn all_to_state(
    s: Seq<PLuauView>,
    i: int,
    done: Seq<LuauView>,
    host: bool,
    reg: RegistryView,
    ed: EmbedderDataContext,
    what: Seq<char>,
) -> Charged<Seq<LuauView>>
    decreases s.len() - i,
{
    if i < 0 || i >= s.len() {
        Charged { ed, res: Ok(done) }
    } else {
        let one = value_to_state(s[i], host, reg, ed);
        match one.res {
            Err(e) => Charged { ed: one.ed, res: Err(what + e) },
            Ok(v) => all_to_state(s, i + 1, done.push(v), host, reg, one.ed, what),
        }
    }
}

/// Proxied values from the `i`th on, behind those that are there, each on an account of its own.
pub open spec fn each_to_state(
    s: Seq<PLuauView>,
    i: int,
    done: Seq<LuauView>,
    host: bool,
    reg: RegistryView,
    ed: EmbedderData,
    what: Seq<char>,
) -> Result<Seq<LuauView>, Seq<char>>
    decreases s.len() - i,
{
    if i < 0 || i >= s.len() {
        Ok(done)
    } else {
        match value_to_state(
            s[i],
            host,
            reg,
            EmbedderDataContext { ed, depth: 0, size: 0 },
        ).res {
            Err(e) => Err(what + e),
            Ok(v) => each_to_state(s, i + 1, done.push(v), host, reg, ed, what),
        }
    }
}

/// Proxies several values of a state, on one account.
pub fn all_from_state<H: StateClient>(
    plc: &mut H,
    values: &Vec<LuauValue>,
    ed: &mut EmbedderDataContext,
    what: &str,
) -> (r: Result<Vec<ProxiedLuauValue>, String>)
    requires
        old(plc).in_order(),
    ensures
        final(plc).in_order(),
        final(plc).allowance() == old(plc).allowance(),
        ({
            let want = all_of_state(
                luau_views(values@),
                0,
                Seq::empty(),
                H::hosting(),
                old(plc).registry(),
                *old(ed),
                what@,
            );
            &&& final(plc).registry() == want.reg
            &&& *final(ed) == want.ed
            &&& match (r, want.res) {
                (Ok(p), Ok(v)) => pluau_views(p@) == v,
                (Err(e), Err(t)) => e@ == t,
                _ => false,
            }
        }),
{
    let ghost all = luau_views(values@);
    let ghost want = all_of_state(
        all,
        0,
        Seq::empty(),
        H::hosting(),
        plc.registry(),
        *ed,
        what@,
    );
    let mut list: Vec<ProxiedLuauValue> = Vec::new();
    assert(pluau_views(list@) =~= Seq::empty());
    let mut i: usize = 0;
    while i < values.len()
        invariant
            i <= values@.len(),
            all == luau_views(values@),
            plc.in_order(),
            plc.allowance() == old(plc).allowance(),
            want == all_of_state(
                all,
                0,
                Seq::empty(),
                H::hosting(),
                old(plc).registry(),
                *old(ed),
                what@,
            ),
            want == all_of_state(
                all,
                i as int,
                pluau_views(list@),
                H::hosting(),
                plc.registry(),
                *ed,
                what@,
            ),
        decreases values@.len() - i,
    {
        let ghost before = list@;
        match ProxiedLuauValue::from_state(plc, &values[i], ed) {
            Err(e) => return Err(join(what, &e)),
            Ok(v) => {
                list.push(v);
                assert(pluau_views(list@) =~= pluau_views(before).push(v@));
            },
        }
        i += 1;
    }
    Ok(list)
}

/// Several proxied values in a state, on one account.
pub fn all_into_state<H: StateClient>(
    values: &Vec<ProxiedLuauValue>,
    plc: &H,
    ed: &mut EmbedderDataContext,
    what: &str,
) -> (r: Result<Vec<LuauValue>, String>)
    requires
        plc.in_order(),
    ensures
        ({
            let want = all_to_state(
                pluau_views(values@),
                0,
                Seq::empty(),
                H::hosting(),
                plc.registry(),
                *old(ed),
                what@,
            );
            &&& *final(ed) == want.ed
            &&& match (r, want.res) {
                (Ok(p), Ok(v)) => luau_views(p@) == v,
                (Err(e), Err(t)) => e@ == t,
                _ => false,
            }
        }),
{
    let ghost all = pluau_views(values@);
    let ghost want = all_to_state(
        all,
        0,
        Seq::empty(),
        H::hosting(),
        plc.registry(),
        *ed,
        what@,
    );
    let mut list: Vec<LuauValue> = Vec::new();
    assert(luau_views(list@) =~= Seq::empty());
    let mut i: usize = 0;
    while i < values.len()
        invariant
            i <= values@.len(),
            all == pluau_views(values@),
            plc.in_order(),
            want == all_to_state(
                all,
                0,
                Seq::empty(),
                H::hosting(),
                plc.registry(),
                *old(ed),
                what@,
            ),
            want == all_to_state(
                all,
                i as int,
                luau_views(list@),
                H::hosting(),
                plc.registry(),
                *ed,
                what@,
            ),
        decreases values@.len() - i,
    {
        let ghost before = list@;
        match values[i].to_state(plc, ed) {
            Err(e) => return Err(join(what, &e)),
            Ok(v) => {
                list.push(v);
                assert(luau_views(list@) =~= luau_views(before).push(v@));
            },
        }
        i += 1;
    }
    Ok(list)
}

/// Several proxied values in a state, each on an account of its own.
pub fn each_into_state<H: StateClient>(
    values: &Vec<ProxiedLuauValue>,
    plc: &H,
    ed: EmbedderData,
    what: &str,
) -> (r: Result<Vec<LuauValue>, String>)
    requires
        plc.in_order(),
    ensures
        match (
            r,
            each_to_state(
                pluau_views(values@),
                0,
                Seq::empty(),
                H::hosting(),
                plc.registry(),
                ed,
                what@,
            ),
        ) {
            (Ok(p), Ok(v)) => luau_views(p@) == v,
            (Err(e), Err(t)) => e@ == t,
            _ => false,
        },
{
    let ghost all = pluau_views(values@);
    let ghost want = each_to_state(
        all,
        0,
        Seq::empty(),
        H::hosting(),
        plc.registry(),
        ed,
        what@,
    );
    let mut list: Vec<LuauValue> = Vec::new();
    assert(luau_views(list@) =~= Seq::empty());
    let mut i: usize = 0;
    while i < values.len()
        invariant
            i <= values@.len(),
            all == pluau_views(values@),
            plc.in_order(),
            want == each_to_state(
                all,
                0,
                Seq::empty(),
                H::hosting(),
                plc.registry(),
                ed,
                what@,
            ),
            want == each_to_state(
                all,
                i as int,
                luau_views(list@),
                H::hosting(),
                plc.registry(),
                ed,
                what@,
            ),
        decreases values@.len() - i,
    {
        let ghost before = list@;
        let mut own = EmbedderDataContext::new(ed);
        match values[i].to_state(plc, &mut own) {
            Err(e) => return Err(join(what, &e)),
            Ok(v) => {
                list.push(v);
                assert(luau_views(list@) =~= luau_views(before).push(v@));
            },
        }
        i += 1;
    }
    Ok(list)
}

} // verus!
