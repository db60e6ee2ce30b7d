//! Arrays, tables and lists of values keep what they hold on their way to and from the base bridge.

use vstd::prelude::*;

use crate::base::deno::{
    copied_in_luau, copied_of_js, items_in_luau, items_of_js, pushed, CopyRegs, CopyStep, CopyView,
};
use crate::base::luau::{
    array_of_proxied, elements_of_lua, entries_of_lua, lua_of_proxied, place_of, proxied_of_lua,
    table_of_proxied, LuaRegs, LuaStep, LuaView,
};
use crate::base::proxy_bridge::{
    all_in_parallel, all_of_lua, args_in_luau, lua_args, v8_args, ArgsView,
};
use crate::deno::ops::args_of_js;
use crate::denobridge::jsvalue::JsView;
use crate::luau::value::{LuauView, Metatable, FRESH};
use crate::text::decimal;
use crate::MAX_PROXY_DEPTH;

verus! {

/// What one value more adds to those that are converted already.
proof fn lemma_array_of_proxied(
    s: Seq<LuaView>,
    x: LuaView,
    i: int,
    done: Seq<LuauView>,
    regs: LuaRegs,
    parallel: bool,
)
    requires
        0 <= i <= s.len(),
    ensures
        array_of_proxied(s.push(x), i, done, regs, parallel)
            == (match array_of_proxied(s, i, done, regs, parallel) {
            Err(e) => Err(e),
            Ok(all) => match lua_of_proxied(x, regs, parallel) {
                Err(e) => Err(e),
                Ok(p) => Ok(all.push(p)),
            },
        }),
    decreases s.len() - i,
{
    let more = s.push(x);
    if i == s.len() {
        reveal_with_fuel(array_of_proxied, 2);
    } else {
        assert(more[i] == s[i]);
        let one = lua_of_proxied(s[i], regs, parallel);
        if one is Ok {
            lemma_array_of_proxied(s, x, i + 1, done.push(one->Ok_0), regs, parallel);
        }
    }
}

/// One item more of an array is converted after the others, and stands behind them.
pub proof fn law_array_to_luau_one_more(
    s: Seq<LuaView>,
    x: LuaView,
    regs: LuaRegs,
    parallel: bool,
)
    ensures
        array_of_proxied(s.push(x), 0, Seq::empty(), regs, parallel)
            == (match array_of_proxied(s, 0, Seq::empty(), regs, parallel) {
            Err(e) => Err(e),
            Ok(all) => match lua_of_proxied(x, regs, parallel) {
                Err(e) => Err(e),
                Ok(p) => Ok(all.push(p)),
            },
        }),
{
    lemma_array_of_proxied(s, x, 0, Seq::empty(), regs, parallel);
}

/// Each item of an array becomes what it becomes on its own, and stands in its place.
pub proof fn law_array_to_luau_one_by_one(
    s: Seq<LuaView>,
    regs: LuaRegs,
    parallel: bool,
)
    ensures
        array_of_proxied(Seq::empty(), 0, Seq::empty(), regs, parallel)
            == Ok::<Seq<LuauView>, Seq<char>>(Seq::empty()),
        array_of_proxied(s, 0, Seq::empty(), regs, parallel) matches Ok(all) ==> all.len()
            == s.len() && forall|k: int|
            0 <= k < s.len() ==> lua_of_proxied(s[k], regs, parallel)
                == Ok::<LuauView, Seq<char>>(#[trigger] all[k]),
    decreases s.len(),
{
    if s.len() > 0 {
        let t = s.drop_last();
        assert(t.push(s.last()) =~= s);
        law_array_to_luau_one_more(t, s.last(), regs, parallel);
        law_array_to_luau_one_by_one(t, regs, parallel);
        let before = array_of_proxied(t, 0, Seq::empty(), regs, parallel);
        if array_of_proxied(s, 0, Seq::empty(), regs, parallel) is Ok {
            let all = array_of_proxied(s, 0, Seq::empty(), regs, parallel)->Ok_0;
            let first = before->Ok_0;
            assert(all.drop_last() =~= first);
            assert forall|k: int| 0 <= k < s.len() implies lua_of_proxied(s[k], regs, parallel)
                == Ok::<LuauView, Seq<char>>(#[trigger] all[k]) by {
                if k < t.len() {
                    assert(first[k] == all[k]);
                    assert(t[k] == s[k]);
                    }
            }
        }
    }
}

/// What one value more adds to those that are converted already.
proof fn lemma_table_of_proxied(
    s: Seq<(LuaView, LuaView)>,
    x: (LuaView, LuaView),
    i: int,
    done: Seq<(LuauView, LuauView)>,
    regs: LuaRegs,
    parallel: bool,
)
    requires
        0 <= i <= s.len(),
    ensures
        table_of_proxied(s.push(x), i, done, regs, parallel)
            == (match table_of_proxied(s, i, done, regs, parallel) {
            Err(e) => Err(e),
            Ok(all) => match lua_of_proxied(x.0, regs, parallel) {
                Err(e) => Err(e),
                Ok(k) => match lua_of_proxied(x.1, regs, parallel) {
                    Err(e) => Err(e),
                    Ok(p) => Ok(all.push((k, p))),
                },
            },
        }),
    decreases s.len() - i,
{
    let more = s.push(x);
    if i == s.len() {
        reveal_with_fuel(table_of_proxied, 2);
    } else {
        assert(more[i] == s[i]);
        let key = lua_of_proxied(s[i].0, regs, parallel);
        if key is Ok {
            let val = lua_of_proxied(s[i].1, regs, parallel);
            if val is Ok {
                lemma_table_of_proxied(s, x, i + 1, done.push((key->Ok_0, val->Ok_0)), regs,
                    parallel);
            }
        }
    }
}

/// One entry more of a table is converted after the others, the key first, and stands behind them.
pub proof fn law_table_to_luau_one_more(
    s: Seq<(LuaView, LuaView)>,
    x: (LuaView, LuaView),
    regs: LuaRegs,
    parallel: bool,
)
    ensures
        table_of_proxied(s.push(x), 0, Seq::empty(), regs, parallel)
            == (match table_of_proxied(s, 0, Seq::empty(), regs, parallel) {
            Err(e) => Err(e),
            Ok(all) => match lua_of_proxied(x.0, regs, parallel) {
                Err(e) => Err(e),
                Ok(k) => match lua_of_proxied(x.1, regs, parallel) {
                    Err(e) => Err(e),
                    Ok(p) => Ok(all.push((k, p))),
                },
            },
        }),
{
    lemma_table_of_proxied(s, x, 0, Seq::empty(), regs, parallel);
}

/// Each entry of a table becomes what its key and its value become on their own, and stands in its
/// place.
pub proof fn law_table_to_luau_one_by_one(
    s: Seq<(LuaView, LuaView)>,
    regs: LuaRegs,
    parallel: bool,
)
    ensures
        table_of_proxied(Seq::empty(), 0, Seq::empty(), regs, parallel)
            == Ok::<Seq<(LuauView, LuauView)>, Seq<char>>(Seq::empty()),
        table_of_proxied(s, 0, Seq::empty(), regs, parallel) matches Ok(all) ==> all.len()
            == s.len() && forall|k: int|
            0 <= k < s.len() ==> lua_of_proxied(s[k].0, regs, parallel)
                == Ok::<LuauView, Seq<char>>((#[trigger] all[k]).0)
                    && lua_of_proxied(s[k].1, regs, parallel)
                        == Ok::<LuauView, Seq<char>>(all[k].1),
    decreases s.len(),
{
    if s.len() > 0 {
        let t = s.drop_last();
        assert(t.push(s.last()) =~= s);
        law_table_to_luau_one_more(t, s.last(), regs, parallel);
        law_table_to_luau_one_by_one(t, regs, parallel);
        let before = table_of_proxied(t, 0, Seq::empty(), regs, parallel);
        if table_of_proxied(s, 0, Seq::empty(), regs, parallel) is Ok {
            let all = table_of_proxied(s, 0, Seq::empty(), regs, parallel)->Ok_0;
            let first = before->Ok_0;
            assert(all.drop_last() =~= first);
            assert forall|k: int| 0 <= k < s.len() implies lua_of_proxied(s[k].0, regs, parallel)
                == Ok::<LuauView, Seq<char>>((#[trigger] all[k]).0)
                    && lua_of_proxied(s[k].1, regs, parallel)
                        == Ok::<LuauView, Seq<char>>(all[k].1) by {
                if k < t.len() {
                    assert(first[k] == all[k]);
                    assert(t[k] == s[k]);
                    }
            }
        }
    }
}

/// What one value more adds to those that are converted already.
proof fn lemma_entries_of_lua(
    s: Seq<(LuauView, LuauView)>,
    x: (LuauView, LuauView),
    i: int,
    done: Seq<(LuaView, LuaView)>,
    regs: LuaRegs,
    alive: bool,
    depth: nat,
)
    requires
        0 <= i <= s.len(),
    ensures
        entries_of_lua(s.push(x), i, done, regs, alive, depth) == ({
            let before = entries_of_lua(s, i, done, regs, alive, depth);
            match before.res {
                Err(e) => before,
                Ok(all) => {
                    let key = proxied_of_lua(x.0, before.regs, alive, depth);
                    match key.res {
                        Err(e) => LuaStep { regs: key.regs,
                            res: Err("Failed to convert table key: "@ + e) },
                        Ok(k) => {
                            let val = proxied_of_lua(x.1, key.regs, alive, depth);
                            match val.res {
                                Err(e) => LuaStep { regs: val.regs,
                                    res: Err("Failed to convert table value: "@ + e) },
                                Ok(p) => LuaStep { regs: val.regs, res: Ok(all.push((k, p))) },
                            }
                        },
                    }
                },
            }
        }),
    decreases s.len() - i,
{
    let more = s.push(x);
    if i == s.len() {
        reveal_with_fuel(entries_of_lua, 2);
    } else {
        assert(more[i] == s[i]);
        let key = proxied_of_lua(s[i].0, regs, alive, depth);
        if key.res is Ok {
            let val = proxied_of_lua(s[i].1, key.regs, alive, depth);
            if val.res is Ok {
                lemma_entries_of_lua(s, x, i + 1, done.push((key.res->Ok_0, val.res->Ok_0)),
                    val.regs, alive, depth);
            }
        }
    }
}

/// One entry more of a table is converted after the others, the key first, and stands behind them.
pub proof fn law_table_from_luau_one_more(
    s: Seq<(LuauView, LuauView)>,
    x: (LuauView, LuauView),
    regs: LuaRegs,
    alive: bool,
    depth: nat,
)
    ensures
        entries_of_lua(s.push(x), 0, Seq::empty(), regs, alive, depth) == ({
            let before = entries_of_lua(s, 0, Seq::empty(), regs, alive, depth);
            match before.res {
                Err(e) => before,
                Ok(all) => {
                    let key = proxied_of_lua(x.0, before.regs, alive, depth);
                    match key.res {
                        Err(e) => LuaStep { regs: key.regs,
                            res: Err("Failed to convert table key: "@ + e) },
                        Ok(k) => {
                            let val = proxied_of_lua(x.1, key.regs, alive, depth);
                            match val.res {
                                Err(e) => LuaStep { regs: val.regs,
                                    res: Err("Failed to convert table value: "@ + e) },
                                Ok(p) => LuaStep { regs: val.regs, res: Ok(all.push((k, p))) },
                            }
                        },
                    }
                },
            }
        }),
{
    lemma_entries_of_lua(s, x, 0, Seq::empty(), regs, alive, depth);
}

/// Each entry of a table becomes what its key and its value become after those before it, and stands
/// in its place.
pub proof fn law_table_from_luau_one_by_one(
    s: Seq<(LuauView, LuauView)>,
    regs: LuaRegs,
    alive: bool,
    depth: nat,
)
    ensures
        entries_of_lua(Seq::empty(), 0, Seq::empty(), regs, alive, depth)
            == (LuaStep { regs, res: Ok(Seq::<(LuaView, LuaView)>::empty()) }),
        entries_of_lua(s, 0, Seq::empty(), regs, alive, depth).res matches Ok(all) ==> all.len()
            == s.len() && forall|k: int|
            0 <= k < s.len() ==> ({
                let before = entries_of_lua(s.take(k), 0, Seq::empty(), regs, alive, depth);
                let key = proxied_of_lua(s[k].0, before.regs, alive, depth);
                let val = proxied_of_lua(s[k].1, key.regs, alive, depth);
                &&& key.res == Ok::<LuaView, Seq<char>>((#[trigger] all[k]).0)
                &&& val.res == Ok::<LuaView, Seq<char>>(all[k].1)
            }),
    decreases s.len(),
{
    if s.len() > 0 {
        let t = s.drop_last();
        assert(t.push(s.last()) =~= s);
        law_table_from_luau_one_more(t, s.last(), regs, alive, depth);
        law_table_from_luau_one_by_one(t, regs, alive, depth);
        let before = entries_of_lua(t, 0, Seq::empty(), regs, alive, depth);
        if entries_of_lua(s, 0, Seq::empty(), regs, alive, depth).res is Ok {
            let all = entries_of_lua(s, 0, Seq::empty(), regs, alive, depth).res->Ok_0;
            let first = before.res->Ok_0;
            assert(s.take(t.len() as int) =~= t);
            assert(all.drop_last() =~= first);
            assert forall|k: int| 0 <= k < s.len() implies ({
                let before = entries_of_lua(s.take(k), 0, Seq::empty(), regs, alive, depth);
                let key = proxied_of_lua(s[k].0, before.regs, alive, depth);
                let val = proxied_of_lua(s[k].1, key.regs, alive, depth);
                &&& key.res == Ok::<LuaView, Seq<char>>((#[trigger] all[k]).0)
                &&& val.res == Ok::<LuaView, Seq<char>>(all[k].1)
            }) by {
                if k < t.len() {
                    assert(first[k] == all[k]);
                    assert(t[k] == s[k]);
                assert(s.take(k) =~= t.take(k));
                }
            }
        }
    }
}

/// What one value more adds to those that are converted already.
proof fn lemma_items_in_luau(
    s: Seq<CopyView>,
    x: CopyView,
    i: int,
    done: Seq<LuauView>,
)
    requires
        0 <= i <= s.len(),
    ensures
        items_in_luau(s.push(x), i, done) == (match items_in_luau(s, i, done) {
            Err(e) => Err(e),
            Ok(all) => match copied_in_luau(x) {
                Err(e) => Err(e),
                Ok(p) => Ok(all.push(p)),
            },
        }),
    decreases s.len() - i,
{
    let more = s.push(x);
    if i == s.len() {
        reveal_with_fuel(items_in_luau, 2);
    } else {
        assert(more[i] == s[i]);
        let one = copied_in_luau(s[i]);
        if one is Ok {
            lemma_items_in_luau(s, x, i + 1, done.push(one->Ok_0));
        }
    }
}

/// One item more of an array is converted after the others, and stands behind them.
pub proof fn law_js_array_to_luau_one_more(
    s: Seq<CopyView>,
    x: CopyView,
)
    ensures
        items_in_luau(s.push(x), 0, Seq::empty()) == (match items_in_luau(s, 0, Seq::empty()) {
            Err(e) => Err(e),
            Ok(all) => match copied_in_luau(x) {
                Err(e) => Err(e),
                Ok(p) => Ok(all.push(p)),
            },
        }),
{
    lemma_items_in_luau(s, x, 0, Seq::empty());
}

/// Each item of an array becomes what it becomes on its own, and stands in its place.
pub proof fn law_js_array_to_luau_one_by_one(
    s: Seq<CopyView>,
)
    ensures
        items_in_luau(Seq::empty(), 0, Seq::empty())
            == Ok::<Seq<LuauView>, Seq<char>>(Seq::empty()),
        items_in_luau(s, 0, Seq::empty()) matches Ok(all) ==> all.len() == s.len() && forall|k: int|
            0 <= k < s.len() ==> copied_in_luau(s[k])
                == Ok::<LuauView, Seq<char>>(#[trigger] all[k]),
    decreases s.len(),
{
    if s.len() > 0 {
        let t = s.drop_last();
        assert(t.push(s.last()) =~= s);
        law_js_array_to_luau_one_more(t, s.last());
        law_js_array_to_luau_one_by_one(t);
        let before = items_in_luau(t, 0, Seq::empty());
        if items_in_luau(s, 0, Seq::empty()) is Ok {
            let all = items_in_luau(s, 0, Seq::empty())->Ok_0;
            let first = before->Ok_0;
            assert(all.drop_last() =~= first);
            assert forall|k: int| 0 <= k < s.len() implies copied_in_luau(s[k])
                == Ok::<LuauView, Seq<char>>(#[trigger] all[k]) by {
                if k < t.len() {
                    assert(first[k] == all[k]);
                    assert(t[k] == s[k]);
                    }
            }
        }
    }
}

/// What one value more adds to those that are converted already.
proof fn lemma_items_of_js(
    s: Seq<JsView>,
    x: JsView,
    i: int,
    done: Seq<CopyView>,
    regs: CopyRegs,
    depth: nat,
)
    requires
        0 <= i <= s.len(),
    ensures
        items_of_js(s.push(x), i, done, regs, depth) == ({
            let before = items_of_js(s, i, done, regs, depth);
            match before.res {
                Err(e) => before,
                Ok(all) => {
                    let one = copied_of_js(x, before.regs, depth);
                    match one.res {
                        Err(e) => CopyStep { regs: one.regs, res: Err(e) },
                        Ok(p) => CopyStep { regs: one.regs, res: Ok(all.push(p)) },
                    }
                },
            }
        }),
    decreases s.len() - i,
{
    let more = s.push(x);
    if i == s.len() {
        reveal_with_fuel(items_of_js, 2);
    } else {
        assert(more[i] == s[i]);
        let one = copied_of_js(s[i], regs, depth);
        if one.res is Ok {
            lemma_items_of_js(s, x, i + 1, done.push(one.res->Ok_0), one.regs, depth);
        }
    }
}

/// One element more of an array is copied after the others, and stands behind them.
pub proof fn law_js_array_from_v8_one_more(
    s: Seq<JsView>,
    x: JsView,
    regs: CopyRegs,
    depth: nat,
)
    ensures
        items_of_js(s.push(x), 0, Seq::empty(), regs, depth) == ({
            let before = items_of_js(s, 0, Seq::empty(), regs, depth);
            match before.res {
                Err(e) => before,
                Ok(all) => {
                    let one = copied_of_js(x, before.regs, depth);
                    match one.res {
                        Err(e) => CopyStep { regs: one.regs, res: Err(e) },
                        Ok(p) => CopyStep { regs: one.regs, res: Ok(all.push(p)) },
                    }
                },
            }
        }),
{
    lemma_items_of_js(s, x, 0, Seq::empty(), regs, depth);
}

/// Each element of an array becomes what it becomes after those before it, and stands in its place.
pub proof fn law_js_array_from_v8_one_by_one(
    s: Seq<JsView>,
    regs: CopyRegs,
    depth: nat,
)
    ensures
        items_of_js(Seq::empty(), 0, Seq::empty(), regs, depth)
            == (CopyStep { regs, res: Ok(Seq::<CopyView>::empty()) }),
        items_of_js(s, 0, Seq::empty(), regs, depth).res matches Ok(all) ==> all.len() == s.len()
            && forall|k: int|
            0 <= k < s.len() ==> ({
                let before = items_of_js(s.take(k), 0, Seq::empty(), regs, depth);
                copied_of_js(s[k], before.regs, depth).res
                    == Ok::<CopyView, Seq<char>>(#[trigger] all[k])
            }),
    decreases s.len(),
{
    if s.len() > 0 {
        let t = s.drop_last();
        assert(t.push(s.last()) =~= s);
        law_js_array_from_v8_one_more(t, s.last(), regs, depth);
        law_js_array_from_v8_one_by_one(t, regs, depth);
        let before = items_of_js(t, 0, Seq::empty(), regs, depth);
        if items_of_js(s, 0, Seq::empty(), regs, depth).res is Ok {
            let all = items_of_js(s, 0, Seq::empty(), regs, depth).res->Ok_0;
            let first = before.res->Ok_0;
            assert(s.take(t.len() as int) =~= t);
            assert(all.drop_last() =~= first);
            assert forall|k: int| 0 <= k < s.len() implies ({
                let before = items_of_js(s.take(k), 0, Seq::empty(), regs, depth);
                copied_of_js(s[k], before.regs, depth).res
                    == Ok::<CopyView, Seq<char>>(#[trigger] all[k])
            }) by {
                if k < t.len() {
                    assert(first[k] == all[k]);
                    assert(t[k] == s[k]);
                assert(s.take(k) =~= t.take(k));
                }
            }
        }
    }
}

/// What one value more adds to those that are converted already.
proof fn lemma_args_of_js(
    s: Seq<JsView>,
    x: JsView,
    i: int,
    done: Seq<CopyView>,
    regs: CopyRegs,
)
    requires
        0 <= i <= s.len(),
    ensures
        args_of_js(s.push(x), i, done, regs) == ({
            let before = args_of_js(s, i, done, regs);
            match before.res {
                Err(e) => before,
                Ok(all) => {
                    let one = copied_of_js(x, before.regs, 0);
                    match one.res {
                        Err(e) => CopyStep { regs: one.regs,
                            res: Err("Failed to convert argument "@ + decimal(s.len()) + ": "@ + e) },
                        Ok(p) => CopyStep { regs: one.regs, res: Ok(all.push(p)) },
                    }
                },
            }
        }),
    decreases s.len() - i,
{
    let more = s.push(x);
    if i == s.len() {
        reveal_with_fuel(args_of_js, 2);
    } else {
        assert(more[i] == s[i]);
        let one = copied_of_js(s[i], regs, 0);
        if one.res is Ok {
            lemma_args_of_js(s, x, i + 1, done.push(one.res->Ok_0), one.regs);
        }
    }
}

/// One argument more from v8 is copied after the others, whatever it is, and stands behind them; the
/// text says which it is where it cannot be.
pub proof fn law_js_arguments_one_more(
    s: Seq<JsView>,
    x: JsView,
    regs: CopyRegs,
)
    ensures
        args_of_js(s.push(x), 0, Seq::empty(), regs) == ({
            let before = args_of_js(s, 0, Seq::empty(), regs);
            match before.res {
                Err(e) => before,
                Ok(all) => {
                    let one = copied_of_js(x, before.regs, 0);
                    match one.res {
                        Err(e) => CopyStep { regs: one.regs,
                            res: Err("Failed to convert argument "@ + decimal(s.len()) + ": "@ + e) },
                        Ok(p) => CopyStep { regs: one.regs, res: Ok(all.push(p)) },
                    }
                },
            }
        }),
{
    lemma_args_of_js(s, x, 0, Seq::empty(), regs);
}

/// Several arguments from v8 become as many values, and each of them, null and undefined like any
/// other, becomes what it becomes after those before it and stands in its place.
pub proof fn law_js_arguments_one_by_one(
    s: Seq<JsView>,
    regs: CopyRegs,
)
    ensures
        args_of_js(Seq::empty(), 0, Seq::empty(), regs)
            == (CopyStep { regs, res: Ok(Seq::<CopyView>::empty()) }),
        args_of_js(s, 0, Seq::empty(), regs).res matches Ok(all) ==> all.len() == s.len()
            && forall|k: int|
            0 <= k < s.len() ==> ({
                let before = args_of_js(s.take(k), 0, Seq::empty(), regs);
                copied_of_js(s[k], before.regs, 0).res
                    == Ok::<CopyView, Seq<char>>(#[trigger] all[k])
            }),
    decreases s.len(),
{
    if s.len() > 0 {
        let t = s.drop_last();
        assert(t.push(s.last()) =~= s);
        law_js_arguments_one_more(t, s.last(), regs);
        law_js_arguments_one_by_one(t, regs);
        let before = args_of_js(t, 0, Seq::empty(), regs);
        if args_of_js(s, 0, Seq::empty(), regs).res is Ok {
            let all = args_of_js(s, 0, Seq::empty(), regs).res->Ok_0;
            let first = before.res->Ok_0;
            assert(s.take(t.len() as int) =~= t);
            assert(all.drop_last() =~= first);
            assert forall|k: int| 0 <= k < s.len() implies ({
                let before = args_of_js(s.take(k), 0, Seq::empty(), regs);
                copied_of_js(s[k], before.regs, 0).res
                    == Ok::<CopyView, Seq<char>>(#[trigger] all[k])
            }) by {
                if k < t.len() {
                    assert(first[k] == all[k]);
                    assert(t[k] == s[k]);
                assert(s.take(k) =~= t.take(k));
                }
            }
        }
    }
}

/// What one value more adds to those that are converted already.
proof fn lemma_lua_args(
    s: Seq<LuaView>,
    x: LuaView,
    i: int,
    done: Seq<LuauView>,
    regs: LuaRegs,
)
    requires
        0 <= i <= s.len(),
    ensures
        lua_args(s.push(x), i, done, regs) == (match lua_args(s, i, done, regs) {
            Err(e) => Err(e),
            Ok(all) => match lua_of_proxied(x, regs, false) {
                Err(e) => Err(e),
                Ok(p) => Ok(all.push(p)),
            },
        }),
    decreases s.len() - i,
{
    let more = s.push(x);
    if i == s.len() {
        reveal_with_fuel(lua_args, 2);
    } else {
        assert(more[i] == s[i]);
        let one = lua_of_proxied(s[i], regs, false);
        if one is Ok {
            lemma_lua_args(s, x, i + 1, done.push(one->Ok_0), regs);
        }
    }
}

/// One argument more is converted after the others, whatever it is, and stands behind them.
pub proof fn law_luau_arguments_back_one_more(
    s: Seq<LuaView>,
    x: LuaView,
    regs: LuaRegs,
)
    ensures
        lua_args(s.push(x), 0, Seq::empty(), regs) == (match lua_args(s, 0, Seq::empty(), regs) {
            Err(e) => Err(e),
            Ok(all) => match lua_of_proxied(x, regs, false) {
                Err(e) => Err(e),
                Ok(p) => Ok(all.push(p)),
            },
        }),
{
    lemma_lua_args(s, x, 0, Seq::empty(), regs);
}

/// Several arguments become as many values of Luau, and each of them becomes what it becomes on its
/// own and stands in its place.
pub proof fn law_luau_arguments_back_one_by_one(
    s: Seq<LuaView>,
    regs: LuaRegs,
)
    ensures
        lua_args(Seq::empty(), 0, Seq::empty(), regs)
            == Ok::<Seq<LuauView>, Seq<char>>(Seq::empty()),
        lua_args(s, 0, Seq::empty(), regs) matches Ok(all) ==> all.len() == s.len()
            && forall|k: int|
            0 <= k < s.len() ==> lua_of_proxied(s[k], regs, false)
                == Ok::<LuauView, Seq<char>>(#[trigger] all[k]),
    decreases s.len(),
{
    if s.len() > 0 {
        let t = s.drop_last();
        assert(t.push(s.last()) =~= s);
        law_luau_arguments_back_one_more(t, s.last(), regs);
        law_luau_arguments_back_one_by_one(t, regs);
        let before = lua_args(t, 0, Seq::empty(), regs);
        if lua_args(s, 0, Seq::empty(), regs) is Ok {
            let all = lua_args(s, 0, Seq::empty(), regs)->Ok_0;
            let first = before->Ok_0;
            assert(all.drop_last() =~= first);
            assert forall|k: int| 0 <= k < s.len() implies lua_of_proxied(s[k], regs, false)
                == Ok::<LuauView, Seq<char>>(#[trigger] all[k]) by {
                if k < t.len() {
                    assert(first[k] == all[k]);
                    assert(t[k] == s[k]);
                    }
            }
        }
    }
}

/// What one value more adds to those that are converted already.
proof fn lemma_v8_args(
    s: Seq<CopyView>,
    x: CopyView,
    i: int,
    done: Seq<LuauView>,
)
    requires
        0 <= i <= s.len(),
    ensures
        v8_args(s.push(x), i, done) == (match v8_args(s, i, done) {
            Err(e) => Err(e),
            Ok(all) => match copied_in_luau(x) {
                Err(e) => Err(e),
                Ok(p) => Ok(all.push(p)),
            },
        }),
    decreases s.len() - i,
{
    let more = s.push(x);
    if i == s.len() {
        reveal_with_fuel(v8_args, 2);
    } else {
        assert(more[i] == s[i]);
        let one = copied_in_luau(s[i]);
        if one is Ok {
            lemma_v8_args(s, x, i + 1, done.push(one->Ok_0));
        }
    }
}

/// One argument more is converted after the others, whatever it is, and stands behind them.
pub proof fn law_v8_arguments_in_luau_one_more(
    s: Seq<CopyView>,
    x: CopyView,
)
    ensures
        v8_args(s.push(x), 0, Seq::empty()) == (match v8_args(s, 0, Seq::empty()) {
            Err(e) => Err(e),
            Ok(all) => match copied_in_luau(x) {
                Err(e) => Err(e),
                Ok(p) => Ok(all.push(p)),
            },
        }),
{
    lemma_v8_args(s, x, 0, Seq::empty());
}

/// Several arguments of v8 become as many values of Luau, and each of them becomes what it becomes on
/// its own and stands in its place.
pub proof fn law_v8_arguments_in_luau_one_by_one(
    s: Seq<CopyView>,
)
    ensures
        v8_args(Seq::empty(), 0, Seq::empty()) == Ok::<Seq<LuauView>, Seq<char>>(Seq::empty()),
        v8_args(s, 0, Seq::empty()) matches Ok(all) ==> all.len() == s.len() && forall|k: int|
            0 <= k < s.len() ==> copied_in_luau(s[k])
                == Ok::<LuauView, Seq<char>>(#[trigger] all[k]),
    decreases s.len(),
{
    if s.len() > 0 {
        let t = s.drop_last();
        assert(t.push(s.last()) =~= s);
        law_v8_arguments_in_luau_one_more(t, s.last());
        law_v8_arguments_in_luau_one_by_one(t);
        let before = v8_args(t, 0, Seq::empty());
        if v8_args(s, 0, Seq::empty()) is Ok {
            let all = v8_args(s, 0, Seq::empty())->Ok_0;
            let first = before->Ok_0;
            assert(all.drop_last() =~= first);
            assert forall|k: int| 0 <= k < s.len() implies copied_in_luau(s[k])
                == Ok::<LuauView, Seq<char>>(#[trigger] all[k]) by {
                if k < t.len() {
                    assert(first[k] == all[k]);
                    assert(t[k] == s[k]);
                    }
            }
        }
    }
}

/// What one value more adds to those that are converted already.
proof fn lemma_all_of_lua(
    s: Seq<LuauView>,
    x: LuauView,
    i: int,
    done: Seq<LuaView>,
    regs: LuaRegs,
    alive: bool,
    what: Seq<char>,
)
    requires
        0 <= i <= s.len(),
    ensures
        all_of_lua(s.push(x), i, done, regs, alive, what) == ({
            let before = all_of_lua(s, i, done, regs, alive, what);
            match before.res {
                Err(e) => before,
                Ok(all) => {
                    let one = proxied_of_lua(x, before.regs, alive, 0);
                    match one.res {
                        Err(e) => LuaStep { regs: one.regs, res: Err(what + e) },
                        Ok(p) => LuaStep { regs: one.regs, res: Ok(all.push(p)) },
                    }
                },
            }
        }),
    decreases s.len() - i,
{
    let more = s.push(x);
    if i == s.len() {
        reveal_with_fuel(all_of_lua, 2);
    } else {
        assert(more[i] == s[i]);
        let one = proxied_of_lua(s[i], regs, alive, 0);
        if one.res is Ok {
            lemma_all_of_lua(s, x, i + 1, done.push(one.res->Ok_0), one.regs, alive, what);
        }
    }
}

/// One value more from Luau is converted after the others, whatever it is, and stands behind them; the
/// text says what was being done where it cannot be.
pub proof fn law_luau_values_out_one_more(
    s: Seq<LuauView>,
    x: LuauView,
    regs: LuaRegs,
    alive: bool,
    what: Seq<char>,
)
    ensures
        all_of_lua(s.push(x), 0, Seq::empty(), regs, alive, what) == ({
            let before = all_of_lua(s, 0, Seq::empty(), regs, alive, what);
            match before.res {
                Err(e) => before,
                Ok(all) => {
                    let one = proxied_of_lua(x, before.regs, alive, 0);
                    match one.res {
                        Err(e) => LuaStep { regs: one.regs, res: Err(what + e) },
                        Ok(p) => LuaStep { regs: one.regs, res: Ok(all.push(p)) },
                    }
                },
            }
        }),
{
    lemma_all_of_lua(s, x, 0, Seq::empty(), regs, alive, what);
}

/// Several values from Luau become as many values, and each of them, nil like any other, becomes what
/// it becomes after those before it and stands in its place.
pub proof fn law_luau_values_out_one_by_one(
    s: Seq<LuauView>,
    regs: LuaRegs,
    alive: bool,
    what: Seq<char>,
)
    ensures
        all_of_lua(Seq::empty(), 0, Seq::empty(), regs, alive, what)
            == (LuaStep { regs, res: Ok(Seq::<LuaView>::empty()) }),
        all_of_lua(s, 0, Seq::empty(), regs, alive, what).res matches Ok(all) ==> all.len()
            == s.len() && forall|k: int|
            0 <= k < s.len() ==> ({
                let before = all_of_lua(s.take(k), 0, Seq::empty(), regs, alive, what);
                proxied_of_lua(s[k], before.regs, alive, 0).res
                    == Ok::<LuaView, Seq<char>>(#[trigger] all[k])
            }),
    decreases s.len(),
{
    if s.len() > 0 {
        let t = s.drop_last();
        assert(t.push(s.last()) =~= s);
        law_luau_values_out_one_more(t, s.last(), regs, alive, what);
        law_luau_values_out_one_by_one(t, regs, alive, what);
        let before = all_of_lua(t, 0, Seq::empty(), regs, alive, what);
        if all_of_lua(s, 0, Seq::empty(), regs, alive, what).res is Ok {
            let all = all_of_lua(s, 0, Seq::empty(), regs, alive, what).res->Ok_0;
            let first = before.res->Ok_0;
            assert(s.take(t.len() as int) =~= t);
            assert(all.drop_last() =~= first);
            assert forall|k: int| 0 <= k < s.len() implies ({
                let before = all_of_lua(s.take(k), 0, Seq::empty(), regs, alive, what);
                proxied_of_lua(s[k], before.regs, alive, 0).res
                    == Ok::<LuaView, Seq<char>>(#[trigger] all[k])
            }) by {
                if k < t.len() {
                    assert(first[k] == all[k]);
                    assert(t[k] == s[k]);
                assert(s.take(k) =~= t.take(k));
                }
            }
        }
    }
}

/// What one value more adds to those that are converted already.
proof fn lemma_all_in_parallel(
    s: Seq<LuaView>,
    x: LuaView,
    i: int,
    done: Seq<LuauView>,
    regs: LuaRegs,
    what: Seq<char>,
)
    requires
        0 <= i <= s.len(),
    ensures
        all_in_parallel(s.push(x), i, done, regs, what)
            == (match all_in_parallel(s, i, done, regs, what) {
            Err(e) => Err(e),
            Ok(all) => match lua_of_proxied(x, regs, true) {
                Err(e) => Err(what + e),
                Ok(p) => Ok(all.push(p)),
            },
        }),
    decreases s.len() - i,
{
    let more = s.push(x);
    if i == s.len() {
        reveal_with_fuel(all_in_parallel, 2);
    } else {
        assert(more[i] == s[i]);
        let one = lua_of_proxied(s[i], regs, true);
        if one is Ok {
            lemma_all_in_parallel(s, x, i + 1, done.push(one->Ok_0), regs, what);
        }
    }
}

/// One value more is converted after the others, whatever it is, and stands behind them; the text says
/// what was being done where it cannot be.
pub proof fn law_values_in_parallel_one_more(
    s: Seq<LuaView>,
    x: LuaView,
    regs: LuaRegs,
    what: Seq<char>,
)
    ensures
        all_in_parallel(s.push(x), 0, Seq::empty(), regs, what)
            == (match all_in_parallel(s, 0, Seq::empty(), regs, what) {
            Err(e) => Err(e),
            Ok(all) => match lua_of_proxied(x, regs, true) {
                Err(e) => Err(what + e),
                Ok(p) => Ok(all.push(p)),
            },
        }),
{
    lemma_all_in_parallel(s, x, 0, Seq::empty(), regs, what);
}

/// Several values become as many values of the parallel state, and each of them becomes what it
/// becomes on its own and stands in its place.
pub proof fn law_values_in_parallel_one_by_one(
    s: Seq<LuaView>,
    regs: LuaRegs,
    what: Seq<char>,
)
    ensures
        all_in_parallel(Seq::empty(), 0, Seq::empty(), regs, what)
            == Ok::<Seq<LuauView>, Seq<char>>(Seq::empty()),
        all_in_parallel(s, 0, Seq::empty(), regs, what) matches Ok(all) ==> all.len() == s.len()
            && forall|k: int|
            0 <= k < s.len() ==> lua_of_proxied(s[k], regs, true)
                == Ok::<LuauView, Seq<char>>(#[trigger] all[k]),
    decreases s.len(),
{
    if s.len() > 0 {
        let t = s.drop_last();
        assert(t.push(s.last()) =~= s);
        law_values_in_parallel_one_more(t, s.last(), regs, what);
        law_values_in_parallel_one_by_one(t, regs, what);
        let before = all_in_parallel(t, 0, Seq::empty(), regs, what);
        if all_in_parallel(s, 0, Seq::empty(), regs, what) is Ok {
            let all = all_in_parallel(s, 0, Seq::empty(), regs, what)->Ok_0;
            let first = before->Ok_0;
            assert(all.drop_last() =~= first);
            assert forall|k: int| 0 <= k < s.len() implies lua_of_proxied(s[k], regs, true)
                == Ok::<LuauView, Seq<char>>(#[trigger] all[k]) by {
                if k < t.len() {
                    assert(first[k] == all[k]);
                    assert(t[k] == s[k]);
                    }
            }
        }
    }
}

/// An array of `n` items becomes a new array in Luau, not frozen, that has the integer keys from 1 to
/// `n` and no other, and under the key `k + 1` what the item `k` becomes.
pub proof fn law_array_in_luau_is_keyed_from_one(items: Seq<LuaView>, regs: LuaRegs, parallel: bool)
    ensures
        lua_of_proxied(LuaView::Array(items), regs, parallel) matches Ok(t) ==> {
            &&& t matches LuauView::Table { handle, frozen, metatable, len, entries: all }
            &&& handle == FRESH && !frozen && metatable == Metatable::Array && len
                == items.len() as usize
            &&& all.len() == items.len()
            &&& forall|k: int|
                0 <= k < items.len() ==> (#[trigger] all[k]).0 == LuauView::Integer((k + 1) as i64)
                    && lua_of_proxied(items[k], regs, parallel) == Ok::<LuauView, Seq<char>>(
                    all[k].1,
                )
        },
{
    law_array_to_luau_one_by_one(items, regs, parallel);
    let done = array_of_proxied(items, 0, Seq::empty(), regs, parallel);
    if done is Ok {
        let vs = done->Ok_0;
        let all = (lua_of_proxied(LuaView::Array(items), regs, parallel)->Ok_0)->entries;
        assert forall|k: int| 0 <= k < items.len() implies (#[trigger] all[k]).0
            == LuauView::Integer((k + 1) as i64) && lua_of_proxied(items[k], regs, parallel)
                == Ok::<
            LuauView,
            Seq<char>,
        >(all[k].1) by {
            assert(all[k].1 == vs[k]);
        }
    }
}

/// A table becomes a new table in Luau, not frozen and without a metatable, with an entry for each of
/// its entries, in their order: what the key becomes, with what the value becomes.
pub proof fn law_table_in_luau_keeps_its_entries(
    items: Seq<(LuaView, LuaView)>,
    regs: LuaRegs,
    parallel: bool,
)
    ensures
        lua_of_proxied(LuaView::Table(items), regs, parallel) matches Ok(t) ==> {
            &&& t matches LuauView::Table { handle, frozen, metatable, entries: all, .. }
            &&& handle == FRESH && !frozen && metatable == Metatable::Absent
            &&& all.len() == items.len()
            &&& forall|k: int|
                0 <= k < items.len() ==> lua_of_proxied(items[k].0, regs, parallel) == Ok::<
                    LuauView,
                    Seq<char>,
                >((#[trigger] all[k]).0) && lua_of_proxied(items[k].1, regs, parallel) == Ok::<
                    LuauView,
                    Seq<char>,
                >(all[k].1)
        },
{
    law_table_to_luau_one_by_one(items, regs, parallel);
}

/// The search for an integer key finds the first entry under it.
proof fn lemma_place_of(s: Seq<(LuauView, LuauView)>, key: i64, k: int)
    requires
        0 <= k <= s.len(),
    ensures
        ({
            let at = place_of(s, key, k);
            &&& k <= at <= s.len()
            &&& at < s.len() ==> s[at].0 == LuauView::Integer(key)
            &&& forall|j: int| k <= j < at ==> (#[trigger] s[j]).0 != LuauView::Integer(key)
        }),
    decreases s.len() - k,
{
    if k < s.len() && s[k].0 != LuauView::Integer(key) {
        lemma_place_of(s, key, k + 1);
    }
}

/// Whether a value of Luau becomes that value at that depth.
pub open spec fn leaves_luau(v: LuauView, p: LuaView, alive: bool, depth: nat) -> bool {
    exists|regs: LuaRegs|
        (#[trigger] proxied_of_lua(v, regs, alive, depth)).res == Ok::<LuaView, Seq<char>>(p)
}

/// The elements of an array from the `i`th on, behind those that are there.
proof fn lemma_elements(
    s: Seq<(LuauView, LuauView)>,
    len: usize,
    i: int,
    done: Seq<LuaView>,
    regs: LuaRegs,
    alive: bool,
    depth: nat,
)
    requires
        0 <= i <= len,
        done.len() == i,
    ensures
        elements_of_lua(s, len, i, done, regs, alive, depth).res matches Ok(all) ==> {
            &&& all.len() == len
            &&& forall|k: int| 0 <= k < i ==> #[trigger] all[k] == done[k]
            &&& forall|k: int, j: int|
                i <= k < len && 0 <= j < s.len() && (#[trigger] s[j]).0 == LuauView::Integer(
                    (k + 1) as i64,
                ) && (forall|l: int| 0 <= l < j ==> (#[trigger] s[l]).0 != s[j].0) ==> leaves_luau(
                    s[j].1,
                    #[trigger] all[k],
                    alive,
                    depth,
                )
            &&& forall|k: int|
                i <= k < len && (forall|j: int|
                    0 <= j < s.len() ==> (#[trigger] s[j]).0 != LuauView::Integer((k + 1) as i64))
                    ==> #[trigger] all[k] is Nil
        },
    decreases len - i,
{
    if i < len {
        let at = place_of(s, (i + 1) as i64, 0);
        lemma_place_of(s, (i + 1) as i64, 0);
        let one = if at < s.len() {
            proxied_of_lua(s[at].1, regs, alive, depth)
        } else if depth > MAX_PROXY_DEPTH {
            LuaStep { regs, res: Err(Seq::empty()) }
        } else {
            LuaStep { regs, res: Ok(LuaView::Nil) }
        };
        if one.res is Ok {
            let p = one.res->Ok_0;
            lemma_elements(s, len, i + 1, done.push(p), one.regs, alive, depth);
            let r = elements_of_lua(s, len, i, done, regs, alive, depth).res;
            if r is Ok {
                let all = r->Ok_0;
                assert(done.push(p)[i] == p);
                assert(all[i] == p);
                assert forall|k: int| 0 <= k < i implies #[trigger] all[k] == done[k] by {
                    assert(all[k] == done.push(p)[k]);
                }
                assert forall|k: int, j: int|
                    i <= k < len && 0 <= j < s.len() && (#[trigger] s[j]).0 == LuauView::Integer(
                        (k + 1) as i64,
                    ) && (forall|l: int| 0 <= l < j ==> (#[trigger] s[l]).0
                        != s[j].0) implies leaves_luau(s[j].1, #[trigger] all[k], alive, depth) by {
                    if k == i {
                        assert(at == j) by {
                            if at < j {
                                assert(s[at].0 != s[j].0);
                            } else if j < at {
                                assert(s[j].0 != LuauView::Integer((i + 1) as i64));
                            }
                        }
                        assert(proxied_of_lua(s[j].1, regs, alive, depth).res == Ok::<
                            LuaView,
                            Seq<char>,
                        >(p));
                    }
                }
            }
        }
    }
}

/// An array of Luau becomes an array of as many items as it is long. The item `k` is what the value
/// under the key `k + 1` becomes, wherever that entry stands, and nil where there is none.
pub proof fn law_array_from_luau_goes_by_its_keys(
    handle: u64,
    frozen: bool,
    len: usize,
    s: Seq<(LuauView, LuauView)>,
    regs: LuaRegs,
    alive: bool,
    depth: nat,
)
    ensures
        ({
            let array = LuauView::Table {
                handle,
                frozen,
                metatable: Metatable::Array,
                len,
                entries: s,
            };
            proxied_of_lua(array, regs, alive, depth).res matches Ok(p) ==> {
                &&& p matches LuaView::Array(all)
                &&& all.len() == len
                &&& forall|k: int, j: int|
                    0 <= k < len && 0 <= j < s.len() && (#[trigger] s[j]).0 == LuauView::Integer(
                        (k + 1) as i64,
                    ) && (forall|l: int| 0 <= l < j ==> (#[trigger] s[l]).0 != s[j].0)
                        ==> leaves_luau(s[j].1, #[trigger] all[k], alive, depth + 1)
                &&& forall|k: int|
                    0 <= k < len && (forall|j: int|
                        0 <= j < s.len() ==> (#[trigger] s[j]).0 != LuauView::Integer(
                            (k + 1) as i64,
                        )) ==> #[trigger] all[k] is Nil
            }
        }),
{
    lemma_elements(s, len, 0, Seq::empty(), regs, alive, depth + 1);
}

/// A table of Luau that is no array becomes a table with an entry for each of its entries, in their
/// order: what the key becomes, with what the value becomes.
pub proof fn law_table_from_luau_keeps_its_entries(
    handle: u64,
    frozen: bool,
    metatable: Metatable,
    len: usize,
    s: Seq<(LuauView, LuauView)>,
    regs: LuaRegs,
    alive: bool,
    depth: nat,
)
    requires
        metatable != Metatable::Array,
    ensures
        ({
            let table = LuauView::Table { handle, frozen, metatable, len, entries: s };
            proxied_of_lua(table, regs, alive, depth).res matches Ok(p) ==> {
                &&& p matches LuaView::Table(all)
                &&& all.len() == s.len()
                &&& forall|k: int|
                    0 <= k < s.len() ==> leaves_luau(
                        s[k].0,
                        (#[trigger] all[k]).0,
                        alive,
                        depth + 1,
                    ) && leaves_luau(s[k].1, all[k].1, alive, depth + 1)
            }
        }),
{
    law_table_from_luau_one_by_one(s, regs, alive, depth + 1);
    let done = entries_of_lua(s, 0, Seq::empty(), regs, alive, depth + 1);
    if done.res is Ok {
        let all = done.res->Ok_0;
        assert forall|k: int| 0 <= k < s.len() implies leaves_luau(
            s[k].0,
            (#[trigger] all[k]).0,
            alive,
            depth + 1,
        ) && leaves_luau(s[k].1, all[k].1, alive, depth + 1) by {
            let before = entries_of_lua(s.take(k), 0, Seq::empty(), regs, alive, depth + 1);
            let key = proxied_of_lua(s[k].0, before.regs, alive, depth + 1);
            assert(key.res == Ok::<LuaView, Seq<char>>(all[k].0));
            assert(proxied_of_lua(s[k].1, key.regs, alive, depth + 1).res == Ok::<
                LuaView,
                Seq<char>,
            >(all[k].1));
        }
    }
}

/// What is put into a new table one after the other stands under the integer keys from 1 on. A nil
/// takes no key, and whatever else is put in takes the next.
pub proof fn law_pushed_values_are_keyed_from_one(items: Seq<LuauView>, x: LuauView)
    ensures
        pushed(Seq::empty()) == Seq::<(LuauView, LuauView)>::empty(),
        pushed(items.push(LuauView::Nil)) == pushed(items),
        !(x is Nil) ==> pushed(items.push(x)) == pushed(items).push(
            (LuauView::Integer((pushed(items).len() + 1) as i64), x),
        ),
        pushed(items).len() <= items.len(),
        forall|k: int|
            0 <= k < pushed(items).len() ==> (#[trigger] pushed(items)[k]).0 == LuauView::Integer(
                (k + 1) as i64,
            ) && !(pushed(items)[k].1 is Nil),
        (forall|k: int| 0 <= k < items.len() ==> !(#[trigger] items[k] is Nil)) ==> {
            &&& pushed(items).len() == items.len()
            &&& forall|k: int|
                0 <= k < items.len() ==> (#[trigger] pushed(items)[k]).1 == items[k]
        },
    decreases items.len(),
{
    assert(items.push(LuauView::Nil).drop_last() =~= items);
    assert(items.push(x).drop_last() =~= items);
    if items.len() > 0 {
        let before = items.drop_last();
        law_pushed_values_are_keyed_from_one(before, x);
        if forall|k: int| 0 <= k < items.len() ==> !(#[trigger] items[k] is Nil) {
            assert forall|k: int| 0 <= k < before.len() implies !(#[trigger] before[k] is Nil) by {
                assert(before[k] == items[k]);
            }
            assert(!(items[items.len() - 1] is Nil));
            assert forall|k: int| 0 <= k < items.len() implies (#[trigger] pushed(items)[k]).1
                == items[k] by {
                if k < before.len() {
                    assert(pushed(before)[k].1 == before[k]);
                }
            }
        }
    }
}

/// An array of v8 whose items become values other than nil becomes a new table in Luau that has the
/// integer keys from 1 to the number of its items and no other, and under the key `k + 1` what the
/// item `k` becomes. Where an item becomes nil, those after it move up.
pub proof fn law_js_array_in_luau_is_keyed_from_one(items: Seq<CopyView>)
    ensures
        copied_in_luau(CopyView::Array(items)) matches Ok(t) ==> {
            &&& t matches LuauView::Table { handle, frozen, metatable, len, entries: all }
            &&& handle == FRESH && !frozen && metatable == Metatable::Absent && len
                == all.len() as usize
            &&& all.len() <= items.len()
            &&& forall|k: int|
                0 <= k < all.len() ==> (#[trigger] all[k]).0 == LuauView::Integer((k + 1) as i64)
            &&& (forall|k: int|
                0 <= k < items.len() ==> copied_in_luau(#[trigger] items[k]) != Ok::<
                    LuauView,
                    Seq<char>,
                >(LuauView::Nil)) ==> {
                &&& all.len() == items.len()
                &&& forall|k: int|
                    0 <= k < items.len() ==> copied_in_luau(items[k]) == Ok::<LuauView, Seq<char>>(
                        (#[trigger] all[k]).1,
                    )
            }
        },
{
    law_js_array_to_luau_one_by_one(items);
    let done = items_in_luau(items, 0, Seq::empty());
    if done is Ok {
        let vs = done->Ok_0;
        law_pushed_values_are_keyed_from_one(vs, LuauView::Nil);
        if forall|k: int|
            0 <= k < items.len() ==> copied_in_luau(#[trigger] items[k]) != Ok::<
                LuauView,
                Seq<char>,
            >(LuauView::Nil) {
            assert forall|k: int| 0 <= k < vs.len() implies !(#[trigger] vs[k] is Nil) by {
                assert(copied_in_luau(items[k]) == Ok::<LuauView, Seq<char>>(vs[k]));
            }
            assert forall|k: int| 0 <= k < items.len() implies copied_in_luau(items[k]) == Ok::<
                LuauView,
                Seq<char>,
            >((#[trigger] pushed(vs)[k]).1) by {
                assert(pushed(vs)[k].1 == vs[k]);
            }
        }
    }
}

/// Whether a value of v8 becomes that value at that depth.
pub open spec fn leaves_v8(v: JsView, p: CopyView, depth: nat) -> bool {
    exists|regs: CopyRegs|
        (#[trigger] copied_of_js(v, regs, depth)).res == Ok::<CopyView, Seq<char>>(p)
}

/// An array of v8 becomes an array of as many items, the `k`th of which is what its element `k`
/// becomes.
pub proof fn law_js_array_keeps_its_elements(items: Seq<JsView>, regs: CopyRegs, depth: nat)
    ensures
        copied_of_js(JsView::Array(items), regs, depth).res matches Ok(p) ==> {
            &&& p matches CopyView::Array(all)
            &&& all.len() == items.len()
            &&& forall|k: int|
                0 <= k < items.len() ==> leaves_v8(items[k], #[trigger] all[k], depth + 1)
        },
{
    law_js_array_from_v8_one_by_one(items, regs, depth + 1);
    let done = items_of_js(items, 0, Seq::empty(), regs, depth + 1);
    if done.res is Ok {
        let all = done.res->Ok_0;
        assert forall|k: int| 0 <= k < items.len() implies leaves_v8(
            items[k],
            #[trigger] all[k],
            depth + 1,
        ) by {
            let before = items_of_js(items.take(k), 0, Seq::empty(), regs, depth + 1);
            assert(copied_of_js(items[k], before.regs, depth + 1).res == Ok::<CopyView, Seq<char>>(
                all[k],
            ));
        }
    }
}

/// An array and a table become one in Luau where all that they hold does, and nowhere else.
pub proof fn law_converts_where_its_contents_do(
    items: Seq<LuaView>,
    entries: Seq<(LuaView, LuaView)>,
    regs: LuaRegs,
    parallel: bool,
)
    ensures
        lua_of_proxied(LuaView::Array(items), regs, parallel) is Ok <==> forall|k: int|
            0 <= k < items.len() ==> lua_of_proxied(#[trigger] items[k], regs, parallel) is Ok,
        lua_of_proxied(LuaView::Table(entries), regs, parallel) is Ok <==> forall|k: int|
            0 <= k < entries.len()
                ==> lua_of_proxied((#[trigger] entries[k]).0, regs, parallel) is Ok
                && lua_of_proxied(entries[k].1, regs, parallel) is Ok,
{
    lemma_array_converts(items, regs, parallel);
    lemma_table_converts(entries, regs, parallel);
}

/// The items of an array are converted where each of them is.
proof fn lemma_array_converts(items: Seq<LuaView>, regs: LuaRegs, parallel: bool)
    ensures
        array_of_proxied(items, 0, Seq::empty(), regs, parallel) is Ok <==> forall|k: int|
            0 <= k < items.len() ==> lua_of_proxied(#[trigger] items[k], regs, parallel) is Ok,
    decreases items.len(),
{
    if items.len() > 0 {
        let t = items.drop_last();
        let x = items.last();
        lemma_array_converts(t, regs, parallel);
        law_array_to_luau_one_more(t, x, regs, parallel);
        assert(t.push(x) =~= items);
        assert(items[items.len() - 1] == x);
        assert forall|k: int| 0 <= k < t.len() implies #[trigger] t[k] == items[k] by {}
        if array_of_proxied(t, 0, Seq::empty(), regs, parallel) is Err {
            let k = choose|k: int|
                0 <= k < t.len() && !(lua_of_proxied(#[trigger] t[k], regs, parallel) is Ok);
            assert(!(lua_of_proxied(items[k], regs, parallel) is Ok));
        } else {
            assert forall|k: int| 0 <= k < t.len() implies lua_of_proxied(
                #[trigger] items[k],
                regs,
                parallel,
            ) is Ok by {
                assert(t[k] == items[k]);
            }
        }
    }
}

/// The entries of a table are converted where the key and the value of each of them are.
proof fn lemma_table_converts(items: Seq<(LuaView, LuaView)>, regs: LuaRegs, parallel: bool)
    ensures
        table_of_proxied(items, 0, Seq::empty(), regs, parallel) is Ok <==> forall|k: int|
            0 <= k < items.len() ==> lua_of_proxied((#[trigger] items[k]).0, regs, parallel) is Ok
                && lua_of_proxied(items[k].1, regs, parallel) is Ok,
    decreases items.len(),
{
    if items.len() > 0 {
        let t = items.drop_last();
        let x = items.last();
        lemma_table_converts(t, regs, parallel);
        law_table_to_luau_one_more(t, x, regs, parallel);
        assert(t.push(x) =~= items);
        assert(items[items.len() - 1] == x);
        assert forall|k: int| 0 <= k < t.len() implies #[trigger] t[k] == items[k] by {}
        if table_of_proxied(t, 0, Seq::empty(), regs, parallel) is Err {
            let k = choose|k: int|
                0 <= k < t.len() && !(lua_of_proxied((#[trigger] t[k]).0, regs, parallel) is Ok
                    && lua_of_proxied(t[k].1, regs, parallel) is Ok);
            assert(t[k] == items[k]);
        } else {
            assert forall|k: int| 0 <= k < t.len() implies lua_of_proxied(
                (#[trigger] items[k]).0,
                regs,
                parallel,
            ) is Ok && lua_of_proxied(items[k].1, regs, parallel) is Ok by {
                assert(t[k] == items[k]);
            }
        }
    }
}

/// A table of Luau is converted where the state is there, it is not nested too deeply and all that it
/// holds is converted one container further in; so is an array of v8.
pub proof fn law_taken_where_its_contents_are(
    handle: u64,
    frozen: bool,
    metatable: Metatable,
    len: usize,
    s: Seq<(LuauView, LuauView)>,
    regs: LuaRegs,
    alive: bool,
    elems: Seq<JsView>,
    copies: CopyRegs,
    depth: nat,
)
    ensures
        ({
            let table = LuauView::Table { handle, frozen, metatable, len, entries: s };
            &&& metatable == Metatable::Array
                ==> (proxied_of_lua(table, regs, alive, depth).res is Ok
                <==> alive && depth <= MAX_PROXY_DEPTH && elements_of_lua(
                s,
                len,
                0,
                Seq::empty(),
                regs,
                alive,
                depth + 1,
            ).res is Ok)
            &&& metatable != Metatable::Array
                ==> (proxied_of_lua(table, regs, alive, depth).res is Ok
                <==> alive && depth <= MAX_PROXY_DEPTH && entries_of_lua(
                s,
                0,
                Seq::empty(),
                regs,
                alive,
                depth + 1,
            ).res is Ok)
            &&& copied_of_js(JsView::Array(elems), copies, depth).res is Ok <==> depth
                <= MAX_PROXY_DEPTH && items_of_js(
                elems,
                0,
                Seq::empty(),
                copies,
                depth + 1,
            ).res is Ok
        }),
{
}

/// Arguments of either side become as many values of Luau, each in its place: those of Luau what they
/// become at home, and those of v8 what they become in Luau.
pub proof fn law_arguments_in_luau(a: Seq<LuaView>, b: Seq<CopyView>, regs: LuaRegs)
    ensures
        args_in_luau(ArgsView::Lua(a), regs) matches Ok(all) ==> all.len() == a.len()
            && forall|k: int|
            0 <= k < a.len() ==> lua_of_proxied(a[k], regs, false) == Ok::<LuauView, Seq<char>>(
                #[trigger] all[k],
            ),
        args_in_luau(ArgsView::V8(b), regs) matches Ok(all) ==> all.len() == b.len()
            && forall|k: int|
            0 <= k < b.len() ==> copied_in_luau(b[k]) == Ok::<LuauView, Seq<char>>(
                #[trigger] all[k],
            ),
{
    law_luau_arguments_back_one_by_one(a, regs);
    law_v8_arguments_in_luau_one_by_one(b);
}

} // verus!
