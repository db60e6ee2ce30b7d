//! A map comes back from Luau in whichever order Luau goes through it.

use vstd::prelude::*;
use vstd::utf8::*;

use crate::denobridge::conv_luau::{dict_of_luau, list_of_luau, value_of_luau};
use crate::denobridge::law_arrives::fits;
use crate::denobridge::law_charge::{
    keyable, law_sent_when_it_fits, room, sendable, sendable_dict, sendable_list, weight_of_luau,
};
use crate::denobridge::law_roundtrip::{at_home_in_luau, extends, in_luau, law_back_from_luau};
use crate::denobridge::value::V8View;
use crate::luau::embedder_api::EmbedderDataContext;
use crate::luau::value::{LuauView, Metatable};
use crate::registry::RegistryView;

verus! {

/// Whether a sequence lists the numbers below `n` in some order.
pub open spec fn ordering(order: Seq<int>, n: nat) -> bool {
    &&& order.len() == n
    &&& forall|i: int| 0 <= i < n ==> 0 <= #[trigger] order[i] < n
    &&& forall|i: int, j: int|
        #![trigger order[i], order[j]]
        0 <= i < j < n ==> order[i] != order[j]
}

/// Whether a proxied value looks like that in Luau: as it was made there, with the entries of
/// tables that are no arrays in any order.
pub open spec fn shows(v: LuauView, p: V8View, reg: RegistryView) -> bool
    decreases p,
{
    match p {
        V8View::List(items) => match v {
            LuauView::Table { frozen, metatable, len, entries, .. } => {
                &&& frozen
                &&& metatable == Metatable::Array
                &&& len == items.len()
                &&& entries.len() == items.len()
                &&& forall|i: int|
                    0 <= i < items.len() ==> shows((#[trigger] entries[i]).1, items[i], reg)
            },
            _ => false,
        },
        V8View::Dict(items) => match v {
            LuauView::Table { frozen, metatable, entries, .. } => {
                &&& frozen
                &&& metatable == Metatable::Absent
                &&& entries.len() == items.len()
                &&& exists|order: Seq<int>| #[trigger]
                    ordering(order, items.len()) && forall|i: int|
                        0 <= i < items.len() ==> 0 <= order[i] < items.len() && shows(
                            (#[trigger] entries[i]).0,
                            items[order[i]].0,
                            reg,
                        ) && shows(entries[i].1, items[order[i]].1, reg)
            },
            _ => false,
        },
        _ => v == in_luau(p, reg),
    }
}

/// Whether two proxied values differ at most in the order of the entries of maps.
pub open spec fn alike(p: V8View, q: V8View) -> bool
    decreases p,
{
    match p {
        V8View::List(items) => match q {
            V8View::List(others) => {
                &&& others.len() == items.len()
                &&& forall|i: int| 0 <= i < items.len() ==> alike(items[i], #[trigger] others[i])
            },
            _ => false,
        },
        V8View::Dict(items) => match q {
            V8View::Dict(others) => {
                &&& others.len() == items.len()
                &&& exists|order: Seq<int>| #[trigger]
                    ordering(order, items.len()) && forall|i: int|
                        0 <= i < items.len() ==> 0 <= order[i] < items.len() && alike(
                            items[order[i]].0,
                            (#[trigger] others[i]).0,
                        ) && alike(items[order[i]].1, others[i].1)
            },
            _ => false,
        },
        _ => p == q,
    }
}

/// A proxied value that Luau was given is the same value, up to the order of the entries of maps,
/// when it is sent from Luau again, in whichever order Luau goes through them.
pub proof fn law_back_in_any_order(
    p: V8View,
    v: LuauView,
    reg: RegistryView,
    later: RegistryView,
    ed: EmbedderDataContext,
)
    requires
        at_home_in_luau(p, reg),
        shows(v, p, reg),
        extends(reg, later),
    ensures
        value_of_luau(v, later, ed).res matches Ok(q) ==> alike(p, q),
        value_of_luau(v, later, ed).res is Ok ==> extends(reg, value_of_luau(v, later, ed).reg),
    decreases p, 1nat,
{
    match p {
        V8View::List(items) => {
            let entries = v->Table_entries;
            let ed2 = ed.sibling().charged(1).charged(v->Table_len);
            lemma_list_in_any_order(items, entries, 0, Seq::empty(), reg, later, ed2.child());
        },
        V8View::Dict(items) => {
            let entries = v->Table_entries;
            let order = choose|order: Seq<int>| #[trigger]
                ordering(order, items.len()) && forall|i: int|
                    0 <= i < items.len() ==> 0 <= order[i] < items.len() && shows(
                        (#[trigger] entries[i]).0,
                        items[order[i]].0,
                        reg,
                    ) && shows(entries[i].1, items[order[i]].1, reg);
            let ed1 = ed.sibling().charged(1);
            lemma_dict_in_any_order(
                items,
                order,
                entries,
                0,
                Seq::empty(),
                reg,
                later,
                ed1.child(),
            );
        },
        _ => law_back_from_luau(p, reg, later, ed),
    }
}

proof fn lemma_list_in_any_order(
    items: Seq<V8View>,
    entries: Seq<(LuauView, LuauView)>,
    i: int,
    done: Seq<V8View>,
    reg: RegistryView,
    later: RegistryView,
    ed: EmbedderDataContext,
)
    requires
        0 <= i <= items.len(),
        done.len() == i,
        entries.len() == items.len(),
        forall|k: int| 0 <= k < i ==> alike(items[k], #[trigger] done[k]),
        forall|k: int| 0 <= k < items.len() ==> shows((#[trigger] entries[k]).1, items[k], reg),
        forall|k: int| 0 <= k < items.len() ==> at_home_in_luau(#[trigger] items[k], reg),
        extends(reg, later),
    ensures
        ({
            let r = list_of_luau(entries, i, done, later, ed);
            r.res matches Ok(all) ==> {
                &&& all.len() == items.len()
                &&& forall|k: int| 0 <= k < items.len() ==> alike(items[k], #[trigger] all[k])
                &&& extends(reg, r.reg)
            }
        }),
    decreases items, items.len() - i,
{
    if i < items.len() {
        assert(shows(entries[i].1, items[i], reg));
        law_back_in_any_order(items[i], entries[i].1, reg, later, ed);
        let one = value_of_luau(entries[i].1, later, ed);
        if let Ok(q) = one.res {
            lemma_list_in_any_order(items, entries, i + 1, done.push(q), reg, one.reg, one.ed);
        }
    }
}

proof fn lemma_dict_in_any_order(
    items: Seq<(V8View, V8View)>,
    order: Seq<int>,
    entries: Seq<(LuauView, LuauView)>,
    i: int,
    done: Seq<(V8View, V8View)>,
    reg: RegistryView,
    later: RegistryView,
    ed: EmbedderDataContext,
)
    requires
        0 <= i <= items.len(),
        done.len() == i,
        entries.len() == items.len(),
        ordering(order, items.len()),
        forall|k: int|
            0 <= k < i ==> alike(items[order[k]].0, (#[trigger] done[k]).0) && alike(
                items[order[k]].1,
                done[k].1,
            ),
        forall|k: int|
            0 <= k < items.len() ==> 0 <= order[k] < items.len() && shows(
                (#[trigger] entries[k]).0,
                items[order[k]].0,
                reg,
            ) && shows(entries[k].1, items[order[k]].1, reg),
        forall|k: int|
            0 <= k < items.len() ==> at_home_in_luau((#[trigger] items[k]).0, reg)
                && at_home_in_luau(items[k].1, reg),
        extends(reg, later),
    ensures
        ({
            let r = dict_of_luau(entries, i, done, later, ed);
            r.res matches Ok(all) ==> {
                &&& all.len() == items.len()
                &&& forall|k: int|
                    0 <= k < items.len() ==> alike(items[order[k]].0, (#[trigger] all[k]).0)
                        && alike(items[order[k]].1, all[k].1)
                &&& extends(reg, r.reg)
            }
        }),
    decreases items, items.len() - i,
{
    if i < items.len() {
        let item = items[order[i]];
        assert(shows(entries[i].0, item.0, reg) && shows(entries[i].1, item.1, reg));
        law_back_in_any_order(item.0, entries[i].0, reg, later, ed);
        let key = value_of_luau(entries[i].0, later, ed);
        if let Ok(k) = key.res {
            law_back_in_any_order(item.1, entries[i].1, reg, key.reg, key.ed);
            let val = value_of_luau(entries[i].1, key.reg, key.ed);
            if let Ok(q) = val.res {
                lemma_dict_in_any_order(
                    items,
                    order,
                    entries,
                    i + 1,
                    done.push((k, q)),
                    reg,
                    val.reg,
                    val.ed,
                );
            }
        }
    }
}

proof fn lemma_shown_is_sendable(p: V8View, v: LuauView, reg: RegistryView, depth: int)
    requires
        at_home_in_luau(p, reg),
        shows(v, p, reg),
        fits(p, depth),
    ensures
        sendable(v, depth),
        p.is_primitive() ==> keyable(v),
    decreases p, 1nat,
{
    match p {
        V8View::String(s) => encode_utf8_valid_utf8(s),
        V8View::List(items) => {
            lemma_shown_list(items, v->Table_entries, 0, reg, depth + 1);
        },
        V8View::Dict(items) => {
            let entries = v->Table_entries;
            let order = choose|order: Seq<int>| #[trigger]
                ordering(order, items.len()) && forall|i: int|
                    0 <= i < items.len() ==> 0 <= order[i] < items.len() && shows(
                        (#[trigger] entries[i]).0,
                        items[order[i]].0,
                        reg,
                    ) && shows(entries[i].1, items[order[i]].1, reg);
            lemma_shown_dict(items, order, entries, 0, reg, depth + 1);
        },
        _ => {},
    }
}

proof fn lemma_shown_list(
    items: Seq<V8View>,
    entries: Seq<(LuauView, LuauView)>,
    i: int,
    reg: RegistryView,
    depth: int,
)
    requires
        0 <= i <= items.len(),
        entries.len() == items.len(),
        forall|k: int| 0 <= k < items.len() ==> shows((#[trigger] entries[k]).1, items[k], reg),
        forall|k: int|
            0 <= k < items.len() ==> at_home_in_luau(#[trigger] items[k], reg) && fits(
                items[k],
                depth,
            ),
    ensures
        sendable_list(entries, i, depth),
    decreases items, items.len() - i,
{
    if i < items.len() {
        assert(shows(entries[i].1, items[i], reg));
        lemma_shown_is_sendable(items[i], entries[i].1, reg, depth);
        lemma_shown_list(items, entries, i + 1, reg, depth);
    }
}

proof fn lemma_shown_dict(
    items: Seq<(V8View, V8View)>,
    order: Seq<int>,
    entries: Seq<(LuauView, LuauView)>,
    i: int,
    reg: RegistryView,
    depth: int,
)
    requires
        0 <= i <= items.len(),
        entries.len() == items.len(),
        ordering(order, items.len()),
        forall|k: int|
            0 <= k < items.len() ==> 0 <= order[k] < items.len() && shows(
                (#[trigger] entries[k]).0,
                items[order[k]].0,
                reg,
            ) && shows(entries[k].1, items[order[k]].1, reg),
        forall|k: int|
            0 <= k < items.len() ==> (#[trigger] items[k]).0.is_primitive() && at_home_in_luau(
                items[k].0,
                reg,
            ) && at_home_in_luau(items[k].1, reg) && fits(items[k].0, depth) && fits(
                items[k].1,
                depth,
            ),
    ensures
        sendable_dict(entries, i, depth),
    decreases items, items.len() - i,
{
    if i < items.len() {
        let item = items[order[i]];
        assert(shows(entries[i].0, item.0, reg) && shows(entries[i].1, item.1, reg));
        lemma_shown_is_sendable(item.0, entries[i].0, reg, depth);
        lemma_shown_is_sendable(item.1, entries[i].1, reg, depth);
        lemma_shown_dict(items, order, entries, i + 1, reg, depth);
    }
}

/// A proxied value that Luau was given comes back from Luau, up to the order of the entries of
/// maps, as long as its sort exists there, the registry has room, and it stays within the limits.
pub proof fn law_comes_back_in_any_order(
    p: V8View,
    v: LuauView,
    reg: RegistryView,
    later: RegistryView,
    ed: EmbedderDataContext,
)
    requires
        at_home_in_luau(p, reg),
        shows(v, p, reg),
        extends(reg, later),
        fits(p, ed.depth as int),
        room(later, weight_of_luau(v)),
        ed.covers(weight_of_luau(v)),
    ensures
        value_of_luau(v, later, ed).res matches Ok(q) && alike(p, q),
{
    lemma_shown_is_sendable(p, v, reg, ed.depth as int);
    law_sent_when_it_fits(v, later, ed);
    law_back_in_any_order(p, v, reg, later, ed);
}

} // verus!
