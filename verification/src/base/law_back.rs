//! A Luau value that comes back is the value that was sent.

use vstd::prelude::*;

use crate::base::luau::{
    array_of_proxied, elements_of_lua, entries_of_lua, lua_of_proxied, numbered,
    place_of, proxied_of_lua, table_of_proxied, LuaRegs, LuaView,
};
use crate::denobridge::law_arrives::spare;
use crate::denobridge::law_roundtrip::{extends, lemma_id_of_held};
use crate::luau::value::LuauView;
use crate::registry::{RefKind, RegistryView};
use crate::MAX_PROXY_DEPTH;

verus! {

/// Whether an object of that sort is held under that number.
pub open spec fn held_as(reg: RegistryView, id: i64, kind: RefKind) -> bool {
    reg.live.dom().contains(id) && reg.live[id].obj.kind == kind
}

/// Whether a proxied value keeps what it holds in Luau, `depth` containers in: its objects are
/// known, its tables hold no nil and each key once, and it does not nest too deeply.
pub open spec fn at_home(p: LuaView, regs: LuaRegs, depth: int) -> bool
    decreases p,
{
    depth <= MAX_PROXY_DEPTH && match p {
        LuaView::Table(items) => {
            &&& forall|i: int, j: int|
                #![trigger items[i], items[j]]
                0 <= i < j < items.len() ==> items[i].0 != items[j].0
            &&& forall|i: int|
                0 <= i < items.len() ==> !((#[trigger] items[i]).0 is Nil) && !(items[i].1 is Nil)
                    && at_home(items[i].0, regs, depth + 1) && at_home(items[i].1, regs, depth + 1)
        },
        LuaView::Array(items) => {
            &&& items.len() <= usize::MAX
            &&& items.len() < i64::MAX
            &&& forall|i: int|
                0 <= i < items.len() ==> !(#[trigger] items[i] is Nil) && at_home(
                    items[i],
                    regs,
                    depth + 1,
                )
        },
        LuaView::Function(id) => held_as(regs.func, id, RefKind::Function),
        LuaView::UserData(id) => held_as(regs.userdata, id, RefKind::UserData),
        LuaView::Buffer(id) => held_as(regs.buffer, id, RefKind::Buffer),
        LuaView::Thread(id) => held_as(regs.thread, id, RefKind::Thread),
        _ => true,
    }
}

/// Whether the second registries hold what the first do, under the same numbers.
pub open spec fn all_extend(a: LuaRegs, b: LuaRegs) -> bool {
    &&& extends(a.func, b.func)
    &&& extends(a.userdata, b.userdata)
    &&& extends(a.buffer, b.buffer)
    &&& extends(a.thread, b.thread)
}

/// Whether every object that is held can be handed out `n` more times.
pub open spec fn all_spare(regs: LuaRegs, n: nat) -> bool {
    &&& spare(regs.func, n)
    &&& spare(regs.userdata, n)
    &&& spare(regs.buffer, n)
    &&& spare(regs.thread, n)
}

/// How many values a proxied value is made of.
pub open spec fn extent(p: LuaView) -> nat
    decreases p, 0nat,
{
    match p {
        LuaView::Table(items) => 1 + extent_of_table(items, 0),
        LuaView::Array(items) => 1 + extent_of_array(items, 0),
        _ => 1,
    }
}

/// How many values the entries from the `i`th on are made of.
pub open spec fn extent_of_table(s: Seq<(LuaView, LuaView)>, i: int) -> nat
    decreases s, s.len() - i,
{
    if i < 0 || i >= s.len() {
        0
    } else {
        extent(s[i].0) + extent(s[i].1) + extent_of_table(s, i + 1)
    }
}

/// How many values the elements from the `i`th on are made of.
pub open spec fn extent_of_array(s: Seq<LuaView>, i: int) -> nat
    decreases s, s.len() - i,
{
    if i < 0 || i >= s.len() {
        0
    } else {
        extent(s[i]) + extent_of_array(s, i + 1)
    }
}

proof fn lemma_object(a: RegistryView, b: RegistryView, id: i64, n: nat)
    requires
        extends(a, b),
        a.live.dom().contains(id),
        spare(b, n + 1),
    ensures
        b.admits(a.live[id].obj),
        b.id_for(a.live[id].obj) == id,
        extends(a, b.added(a.live[id].obj)),
        spare(b.added(a.live[id].obj), n),
{
    let obj = a.live[id].obj;
    assert(b.live.dom().contains(id) && b.live[id].obj == obj);
    assert(b.holds(obj));
    let k = b.number_of(obj);
    assert(b.live.dom().contains(k) && b.live[k].obj == obj);
    lemma_id_of_held(a, b, id);
}

/// What is known after a value came back.
spec fn back<T>(
    res: Result<T, Seq<char>>,
    want: T,
    regs: LuaRegs,
    after: LuaRegs,
    n: nat,
) -> bool {
    &&& res == Ok::<T, Seq<char>>(want)
    &&& all_extend(regs, after)
    &&& all_spare(after, n)
}

proof fn lemma_back(p: LuaView, regs: LuaRegs, later: LuaRegs, depth: nat, n: nat)
    requires
        at_home(p, regs, depth as int),
        all_extend(regs, later),
        all_spare(later, extent(p) + n),
    ensures
        lua_of_proxied(p, regs, false) is Ok,
        ({
            let r = proxied_of_lua(lua_of_proxied(p, regs, false)->Ok_0, later, true, depth);
            back(r.res, p, regs, r.regs, n)
        }),
    decreases p, 1nat,
{
    match p {
        LuaView::Table(items) => {
            lemma_made_table(items, 0, Seq::empty(), regs, depth as int + 1);
            let entries = table_of_proxied(items, 0, Seq::empty(), regs, false)->Ok_0;
            assert(items.take(0) =~= Seq::empty());
            lemma_back_table(items, entries, 0, Seq::empty(), regs, later, depth + 1, n);
        },
        LuaView::Array(items) => {
            lemma_made_array(items, 0, Seq::empty(), regs, depth as int + 1);
            let vs = array_of_proxied(items, 0, Seq::empty(), regs, false)->Ok_0;
            assert(items.take(0) =~= Seq::empty());
            lemma_back_array(items, vs, 0, Seq::empty(), regs, later, depth + 1, n);
        },
        LuaView::Function(id) => lemma_object(regs.func, later.func, id, n),
        LuaView::UserData(id) => lemma_object(regs.userdata, later.userdata, id, n),
        LuaView::Buffer(id) => lemma_object(regs.buffer, later.buffer, id, n),
        LuaView::Thread(id) => lemma_object(regs.thread, later.thread, id, n),
        _ => {},
    }
}

proof fn lemma_made(p: LuaView, regs: LuaRegs, depth: int)
    requires
        at_home(p, regs, depth),
    ensures
        lua_of_proxied(p, regs, false) is Ok,
    decreases p, 1nat,
{
    match p {
        LuaView::Table(items) => lemma_made_table(items, 0, Seq::empty(), regs, depth + 1),
        LuaView::Array(items) => lemma_made_array(items, 0, Seq::empty(), regs, depth + 1),
        _ => {},
    }
}

proof fn lemma_made_table(
    s: Seq<(LuaView, LuaView)>,
    i: int,
    done: Seq<(LuauView, LuauView)>,
    regs: LuaRegs,
    depth: int,
)
    requires
        0 <= i <= s.len(),
        done.len() == i,
        forall|k: int|
            0 <= k < s.len() ==> at_home((#[trigger] s[k]).0, regs, depth) && at_home(
                s[k].1,
                regs,
                depth,
            ),
        forall|k: int|
            0 <= k < i ==> lua_of_proxied(s[k].0, regs, false) == Ok::<LuauView, Seq<char>>(
                (#[trigger] done[k]).0,
            ) && lua_of_proxied(s[k].1, regs, false) == Ok::<LuauView, Seq<char>>(done[k].1),
    ensures
        table_of_proxied(s, i, done, regs, false) matches Ok(all) && all.len() == s.len()
            && forall|k: int|
            0 <= k < s.len() ==> lua_of_proxied(s[k].0, regs, false) == Ok::<LuauView, Seq<char>>(
                (#[trigger] all[k]).0,
            ) && lua_of_proxied(s[k].1, regs, false) == Ok::<LuauView, Seq<char>>(all[k].1),
    decreases s, s.len() - i,
{
    if i < s.len() {
        lemma_made(s[i].0, regs, depth);
        lemma_made(s[i].1, regs, depth);
        let k = lua_of_proxied(s[i].0, regs, false)->Ok_0;
        let v = lua_of_proxied(s[i].1, regs, false)->Ok_0;
        lemma_made_table(s, i + 1, done.push((k, v)), regs, depth);
    }
}

proof fn lemma_made_array(
    s: Seq<LuaView>,
    i: int,
    done: Seq<LuauView>,
    regs: LuaRegs,
    depth: int,
)
    requires
        0 <= i <= s.len(),
        done.len() == i,
        forall|k: int| 0 <= k < s.len() ==> at_home(#[trigger] s[k], regs, depth),
        forall|k: int|
            0 <= k < i ==> lua_of_proxied(s[k], regs, false) == Ok::<LuauView, Seq<char>>(
                #[trigger] done[k],
            ),
    ensures
        array_of_proxied(s, i, done, regs, false) matches Ok(all) && all.len() == s.len()
            && forall|k: int|
            0 <= k < s.len() ==> lua_of_proxied(s[k], regs, false) == Ok::<LuauView, Seq<char>>(
                #[trigger] all[k],
            ),
    decreases s, s.len() - i,
{
    if i < s.len() {
        lemma_made(s[i], regs, depth);
        let v = lua_of_proxied(s[i], regs, false)->Ok_0;
        lemma_made_array(s, i + 1, done.push(v), regs, depth);
    }
}

proof fn lemma_back_table(
    items: Seq<(LuaView, LuaView)>,
    entries: Seq<(LuauView, LuauView)>,
    i: int,
    done: Seq<(LuaView, LuaView)>,
    regs: LuaRegs,
    later: LuaRegs,
    depth: nat,
    n: nat,
)
    requires
        0 <= i <= items.len(),
        done == items.take(i),
        entries.len() == items.len(),
        forall|k: int|
            0 <= k < items.len() ==> lua_of_proxied(items[k].0, regs, false) == Ok::<
                LuauView,
                Seq<char>,
            >((#[trigger] entries[k]).0) && lua_of_proxied(items[k].1, regs, false) == Ok::<
                LuauView,
                Seq<char>,
            >(entries[k].1),
        forall|k: int|
            0 <= k < items.len() ==> at_home((#[trigger] items[k]).0, regs, depth as int)
                && at_home(items[k].1, regs, depth as int),
        all_extend(regs, later),
        all_spare(later, extent_of_table(items, i) + n),
    ensures
        ({
            let r = entries_of_lua(entries, i, done, later, true, depth);
            back(r.res, items, regs, r.regs, n)
        }),
    decreases items, items.len() - i,
{
    if i < items.len() {
        let rest = extent_of_table(items, i + 1);
        let (k, v) = items[i];
        assert(lua_of_proxied(k, regs, false) == Ok::<LuauView, Seq<char>>(entries[i].0));
        lemma_back(k, regs, later, depth, extent(v) + rest + n);
        let key = proxied_of_lua(entries[i].0, later, true, depth);
        lemma_back(v, regs, key.regs, depth, rest + n);
        let val = proxied_of_lua(entries[i].1, key.regs, true, depth);
        assert(items.take(i).push((k, v)) =~= items.take(i + 1));
        lemma_back_table(
            items,
            entries,
            i + 1,
            items.take(i + 1),
            regs,
            val.regs,
            depth,
            n,
        );
    } else {
        assert(items.take(i) =~= items);
    }
}

proof fn lemma_place(vs: Seq<LuauView>, i: int, k: int)
    requires
        0 <= k <= i < vs.len() < i64::MAX,
    ensures
        place_of(numbered(vs), (i + 1) as i64, k) == i,
    decreases i - k,
{
    assert(numbered(vs)[k].0 == LuauView::Integer((k + 1) as i64));
    if k < i {
        lemma_place(vs, i, k + 1);
    }
}

proof fn lemma_back_array(
    items: Seq<LuaView>,
    vs: Seq<LuauView>,
    i: int,
    done: Seq<LuaView>,
    regs: LuaRegs,
    later: LuaRegs,
    depth: nat,
    n: nat,
)
    requires
        0 <= i <= items.len(),
        items.len() <= usize::MAX,
        items.len() < i64::MAX,
        done == items.take(i),
        vs.len() == items.len(),
        forall|k: int|
            0 <= k < items.len() ==> lua_of_proxied(items[k], regs, false) == Ok::<
                LuauView,
                Seq<char>,
            >(#[trigger] vs[k]),
        forall|k: int| 0 <= k < items.len() ==> at_home(#[trigger] items[k], regs, depth as int),
        all_extend(regs, later),
        all_spare(later, extent_of_array(items, i) + n),
    ensures
        ({
            let r = elements_of_lua(
                numbered(vs),
                vs.len() as usize,
                i,
                done,
                later,
                true,
                depth,
            );
            back(r.res, items, regs, r.regs, n)
        }),
    decreases items, items.len() - i,
{
    if i < items.len() {
        lemma_place(vs, i, 0);
        assert(numbered(vs)[i].1 == vs[i]);
        assert(lua_of_proxied(items[i], regs, false) == Ok::<LuauView, Seq<char>>(vs[i]));
        lemma_back(items[i], regs, later, depth, extent_of_array(items, i + 1) + n);
        let one = proxied_of_lua(vs[i], later, true, depth);
        assert(items.take(i).push(items[i]) =~= items.take(i + 1));
        lemma_back_array(items, vs, i + 1, items.take(i + 1), regs, one.regs, depth, n);
    } else {
        assert(items.take(i) =~= items);
    }
}

/// A proxied value is a Luau value in the state that it came from, and that value is proxied as
/// the same value again, with the entries of tables in the order in which they were set.
pub proof fn law_luau_value_comes_back(p: LuaView, regs: LuaRegs, later: LuaRegs, depth: nat)
    requires
        at_home(p, regs, depth as int),
        all_extend(regs, later),
        all_spare(later, extent(p)),
    ensures
        lua_of_proxied(p, regs, false) is Ok,
        proxied_of_lua(lua_of_proxied(p, regs, false)->Ok_0, later, true, depth).res == Ok::<
            LuaView,
            Seq<char>,
        >(p),
{
    lemma_back(p, regs, later, depth, 0);
}

} // verus!
