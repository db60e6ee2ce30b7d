//! Lists, maps and tables keep their items: each is converted in its place, after those before it.

use vstd::prelude::*;

use crate::denobridge::conv_luau::{
    dict_of_luau, dict_to_luau, key_refused, list_of_luau, list_to_luau, made_array,
    made_table, psuedo_of_luau, psuedo_to_luau, value_of_luau, value_to_luau,
};
use crate::denobridge::conv_v8::{
    dict_of_v8, dict_to_v8, list_of_v8, list_to_v8, psuedo_of_v8, psuedo_to_v8, value_of_v8,
    value_to_v8,
};
use crate::denobridge::jsvalue::JsView;
use crate::denobridge::value::V8View;
use crate::luau::embedder_api::EmbedderDataContext;
use crate::luau::value::{LuauView, Metatable, FRESH};
use crate::outcome::{Charged, Step};
use crate::registry::RegistryView;

verus! {

/// Whether a value becomes that value of Luau inside a container that is converted with that account.
pub open spec fn inside_luau(
    p: V8View,
    v: LuauView,
    reg: RegistryView,
    ed: EmbedderDataContext,
) -> bool {
    exists|e: EmbedderDataContext|
        e.ed == ed.ed && e.depth == ed.depth + 1 && (#[trigger] value_to_luau(p, reg, e)).res
            == Ok::<
            LuauView,
            Seq<char>,
        >(v)
}

/// Whether a value becomes that value of v8 inside a container that is converted with that account.
pub open spec fn inside_v8(p: V8View, v: JsView, reg: RegistryView,
    ed: EmbedderDataContext) -> bool {
    exists|e: EmbedderDataContext|
        e.ed == ed.ed && e.depth == ed.depth + 1 && (#[trigger] value_to_v8(p, reg, e)).res == Ok::<
            JsView,
            Seq<char>,
        >(v)
}

/// Whether a value of Luau becomes that value inside a container that is converted with that
/// account.
pub open spec fn from_luau_inside(v: LuauView, p: V8View, ed: EmbedderDataContext) -> bool {
    exists|reg: RegistryView, e: EmbedderDataContext|
        e.ed == ed.ed && e.depth == ed.depth + 1 && (#[trigger] value_of_luau(v, reg, e)).res
            == Ok::<
            V8View,
            Seq<char>,
        >(p)
}

/// Whether a value of v8 becomes that value inside a container that is converted with that account.
pub open spec fn from_v8_inside(v: JsView, p: V8View, ed: EmbedderDataContext) -> bool {
    exists|reg: RegistryView, e: EmbedderDataContext|
        e.ed == ed.ed && e.depth == ed.depth + 1 && (#[trigger] value_of_v8(v, reg, e)).res == Ok::<
            V8View,
            Seq<char>,
        >(p)
}

/// A conversion stays in its account, and as deep as it was.
pub(crate) proof fn lemma_value_to_luau_keeps_place(
    p: V8View,
    reg: RegistryView,
    ed: EmbedderDataContext,
)
    ensures
        value_to_luau(p, reg, ed).ed.ed == ed.ed,
        value_to_luau(p, reg, ed).ed.depth == ed.depth,
{
}

/// A conversion stays in its account, and as deep as it was.
pub(crate) proof fn lemma_value_of_luau_keeps_place(
    v: LuauView,
    reg: RegistryView,
    ed: EmbedderDataContext,
)
    ensures
        value_of_luau(v, reg, ed).ed.ed == ed.ed,
        value_of_luau(v, reg, ed).ed.depth == ed.depth,
{
}

/// A conversion stays in its account, and as deep as it was.
pub(crate) proof fn lemma_value_to_v8_keeps_place(
    p: V8View,
    reg: RegistryView,
    ed: EmbedderDataContext,
)
    ensures
        value_to_v8(p, reg, ed).ed.ed == ed.ed,
        value_to_v8(p, reg, ed).ed.depth == ed.depth,
{
}

/// A conversion stays in its account, and as deep as it was.
pub(crate) proof fn lemma_value_of_v8_keeps_place(
    v: JsView,
    reg: RegistryView,
    ed: EmbedderDataContext,
)
    ensures
        value_of_v8(v, reg, ed).ed.ed == ed.ed,
        value_of_v8(v, reg, ed).ed.depth == ed.depth,
{
}

/// What one value more adds to those that are converted already.
proof fn lemma_list_to_luau(
    s: Seq<V8View>,
    x: V8View,
    i: int,
    done: Seq<LuauView>,
    reg: RegistryView,
    ed: EmbedderDataContext,
)
    requires
        0 <= i <= s.len(),
    ensures
        list_to_luau(s.push(x), i, done, reg, ed) == ({
            let before = list_to_luau(s, i, done, reg, ed);
            match before.res {
                Err(e) => before,
                Ok(all) => {
                    let one = value_to_luau(x, reg, before.ed);
                    match one.res {
                        Err(e) => Charged { ed: one.ed,
                            res: Err("Failed to convert value to Lua: "@ + e) },
                        Ok(p) => Charged { ed: one.ed, res: Ok(all.push(p)) },
                    }
                },
            }
        }),
    decreases s.len() - i,
{
    let more = s.push(x);
    if i == s.len() {
        reveal_with_fuel(list_to_luau, 2);
    } else {
        assert(more[i] == s[i]);
        let one = value_to_luau(s[i], reg, ed);
        if one.res is Ok {
            lemma_list_to_luau(s, x, i + 1, done.push(one.res->Ok_0), reg, one.ed);
        }
    }
}

/// One item more of a list is converted after the others, and stands behind them.
pub proof fn law_items_in_luau_one_more(
    s: Seq<V8View>,
    x: V8View,
    reg: RegistryView,
    ed: EmbedderDataContext,
)
    ensures
        list_to_luau(s.push(x), 0, Seq::empty(), reg, ed) == ({
            let before = list_to_luau(s, 0, Seq::empty(), reg, ed);
            match before.res {
                Err(e) => before,
                Ok(all) => {
                    let one = value_to_luau(x, reg, before.ed);
                    match one.res {
                        Err(e) => Charged { ed: one.ed,
                            res: Err("Failed to convert value to Lua: "@ + e) },
                        Ok(p) => Charged { ed: one.ed, res: Ok(all.push(p)) },
                    }
                },
            }
        }),
{
    lemma_list_to_luau(s, x, 0, Seq::empty(), reg, ed);
}

/// Each item of a list becomes what it becomes after those before it, and stands in its place.
pub proof fn law_items_in_luau_one_by_one(
    s: Seq<V8View>,
    reg: RegistryView,
    ed: EmbedderDataContext,
)
    ensures
        list_to_luau(Seq::empty(), 0, Seq::empty(), reg, ed)
            == (Charged { ed, res: Ok(Seq::<LuauView>::empty()) }),
        list_to_luau(s, 0, Seq::empty(), reg, ed).res matches Ok(all) ==> all.len() == s.len()
            && forall|k: int|
            0 <= k < s.len() ==> ({
                let before = list_to_luau(s.take(k), 0, Seq::empty(), reg, ed);
                value_to_luau(s[k], reg, before.ed).res
                    == Ok::<LuauView, Seq<char>>(#[trigger] all[k])
            }),
        list_to_luau(s, 0, Seq::empty(), reg, ed).ed.ed == ed.ed,
        list_to_luau(s, 0, Seq::empty(), reg, ed).ed.depth == ed.depth,
    decreases s.len(),
{
    if s.len() > 0 {
        let t = s.drop_last();
        assert(t.push(s.last()) =~= s);
        law_items_in_luau_one_more(t, s.last(), reg, ed);
        law_items_in_luau_one_by_one(t, reg, ed);
        let before = list_to_luau(t, 0, Seq::empty(), reg, ed);
        lemma_value_to_luau_keeps_place(s.last(), reg, before.ed);
        if list_to_luau(s, 0, Seq::empty(), reg, ed).res is Ok {
            let all = list_to_luau(s, 0, Seq::empty(), reg, ed).res->Ok_0;
            let first = before.res->Ok_0;
            assert(s.take(t.len() as int) =~= t);
            assert(all.drop_last() =~= first);
            assert forall|k: int| 0 <= k < s.len() implies ({
                let before = list_to_luau(s.take(k), 0, Seq::empty(), reg, ed);
                value_to_luau(s[k], reg, before.ed).res
                    == Ok::<LuauView, Seq<char>>(#[trigger] all[k])
            }) by {
                if k < t.len() {
                    assert(first[k] == all[k]);
                    assert(t[k] == s[k]);
                assert(s.take(k) =~= t.take(k));
                }
            }
        }
    }
}

/// What one value more adds to those that are converted already.
proof fn lemma_dict_to_luau(
    s: Seq<(V8View, V8View)>,
    x: (V8View, V8View),
    i: int,
    done: Seq<(LuauView, LuauView)>,
    reg: RegistryView,
    ed: EmbedderDataContext,
)
    requires
        0 <= i <= s.len(),
    ensures
        dict_to_luau(s.push(x), i, done, reg, ed) == ({
            let before = dict_to_luau(s, i, done, reg, ed);
            match before.res {
                Err(e) => before,
                Ok(all) => {
                    let key = value_to_luau(x.0, reg, before.ed);
                    match key.res {
                        Err(e) => Charged { ed: key.ed, res: Err(e) },
                        Ok(k) => {
                            let val = value_to_luau(x.1, reg, key.ed);
                            match val.res {
                                Err(e) => Charged { ed: val.ed,
                                    res: Err("Failed to convert value to Lua: "@ + e) },
                                Ok(p) => Charged { ed: val.ed, res: Ok(all.push((k, p))) },
                            }
                        },
                    }
                },
            }
        }),
    decreases s.len() - i,
{
    let more = s.push(x);
    if i == s.len() {
        reveal_with_fuel(dict_to_luau, 2);
    } else {
        assert(more[i] == s[i]);
        let key = value_to_luau(s[i].0, reg, ed);
        if key.res is Ok {
            let val = value_to_luau(s[i].1, reg, key.ed);
            if val.res is Ok {
                lemma_dict_to_luau(s, x, i + 1, done.push((key.res->Ok_0, val.res->Ok_0)), reg,
                    val.ed);
            }
        }
    }
}

/// One entry more of a map is converted after the others, the key first, and stands behind them.
pub proof fn law_entries_in_luau_one_more(
    s: Seq<(V8View, V8View)>,
    x: (V8View, V8View),
    reg: RegistryView,
    ed: EmbedderDataContext,
)
    ensures
        dict_to_luau(s.push(x), 0, Seq::empty(), reg, ed) == ({
            let before = dict_to_luau(s, 0, Seq::empty(), reg, ed);
            match before.res {
                Err(e) => before,
                Ok(all) => {
                    let key = value_to_luau(x.0, reg, before.ed);
                    match key.res {
                        Err(e) => Charged { ed: key.ed, res: Err(e) },
                        Ok(k) => {
                            let val = value_to_luau(x.1, reg, key.ed);
                            match val.res {
                                Err(e) => Charged { ed: val.ed,
                                    res: Err("Failed to convert value to Lua: "@ + e) },
                                Ok(p) => Charged { ed: val.ed, res: Ok(all.push((k, p))) },
                            }
                        },
                    }
                },
            }
        }),
{
    lemma_dict_to_luau(s, x, 0, Seq::empty(), reg, ed);
}

/// Each entry of a map becomes what its key and its value become
/// after those before it, and stands in its place.
pub proof fn law_entries_in_luau_one_by_one(
    s: Seq<(V8View, V8View)>,
    reg: RegistryView,
    ed: EmbedderDataContext,
)
    ensures
        dict_to_luau(Seq::empty(), 0, Seq::empty(), reg, ed)
            == (Charged { ed, res: Ok(Seq::<(LuauView, LuauView)>::empty()) }),
        dict_to_luau(s, 0, Seq::empty(), reg, ed).res matches Ok(all) ==> all.len() == s.len()
            && forall|k: int|
            0 <= k < s.len() ==> ({
                let before = dict_to_luau(s.take(k), 0, Seq::empty(), reg, ed);
                let key = value_to_luau(s[k].0, reg, before.ed);
                let val = value_to_luau(s[k].1, reg, key.ed);
                &&& key.res == Ok::<LuauView, Seq<char>>((#[trigger] all[k]).0)
                &&& val.res == Ok::<LuauView, Seq<char>>(all[k].1)
            }),
        dict_to_luau(s, 0, Seq::empty(), reg, ed).ed.ed == ed.ed,
        dict_to_luau(s, 0, Seq::empty(), reg, ed).ed.depth == ed.depth,
    decreases s.len(),
{
    if s.len() > 0 {
        let t = s.drop_last();
        assert(t.push(s.last()) =~= s);
        law_entries_in_luau_one_more(t, s.last(), reg, ed);
        law_entries_in_luau_one_by_one(t, reg, ed);
        let before = dict_to_luau(t, 0, Seq::empty(), reg, ed);
        let key = value_to_luau(s.last().0, reg, before.ed);
        lemma_value_to_luau_keeps_place(s.last().0, reg, before.ed);
        lemma_value_to_luau_keeps_place(s.last().1, reg, key.ed);
        if dict_to_luau(s, 0, Seq::empty(), reg, ed).res is Ok {
            let all = dict_to_luau(s, 0, Seq::empty(), reg, ed).res->Ok_0;
            let first = before.res->Ok_0;
            assert(s.take(t.len() as int) =~= t);
            assert(all.drop_last() =~= first);
            assert forall|k: int| 0 <= k < s.len() implies ({
                let before = dict_to_luau(s.take(k), 0, Seq::empty(), reg, ed);
                let key = value_to_luau(s[k].0, reg, before.ed);
                let val = value_to_luau(s[k].1, reg, key.ed);
                &&& key.res == Ok::<LuauView, Seq<char>>((#[trigger] all[k]).0)
                &&& val.res == Ok::<LuauView, Seq<char>>(all[k].1)
            }) by {
                if k < t.len() {
                    assert(first[k] == all[k]);
                    assert(t[k] == s[k]);
                assert(s.take(k) =~= t.take(k));
                }
            }
        }
    }
}

/// What one value more adds to those that are converted already.
proof fn lemma_list_of_luau(
    s: Seq<(LuauView, LuauView)>,
    x: (LuauView, LuauView),
    i: int,
    done: Seq<V8View>,
    reg: RegistryView,
    ed: EmbedderDataContext,
)
    requires
        0 <= i <= s.len(),
    ensures
        list_of_luau(s.push(x), i, done, reg, ed) == ({
            let before = list_of_luau(s, i, done, reg, ed);
            match before.res {
                Err(e) => before,
                Ok(all) => {
                    let one = value_of_luau(x.1, before.reg, before.ed);
                    match one.res {
                        Err(e) => Step { reg: one.reg, ed: one.ed, res: Err(e) },
                        Ok(p) => Step { reg: one.reg, ed: one.ed, res: Ok(all.push(p)) },
                    }
                },
            }
        }),
    decreases s.len() - i,
{
    let more = s.push(x);
    if i == s.len() {
        reveal_with_fuel(list_of_luau, 2);
    } else {
        assert(more[i] == s[i]);
        let one = value_of_luau(s[i].1, reg, ed);
        if one.res is Ok {
            lemma_list_of_luau(s, x, i + 1, done.push(one.res->Ok_0), one.reg, one.ed);
        }
    }
}

/// One element more of an array is converted after the others, and stands behind them.
pub proof fn law_elements_of_luau_one_more(
    s: Seq<(LuauView, LuauView)>,
    x: (LuauView, LuauView),
    reg: RegistryView,
    ed: EmbedderDataContext,
)
    ensures
        list_of_luau(s.push(x), 0, Seq::empty(), reg, ed) == ({
            let before = list_of_luau(s, 0, Seq::empty(), reg, ed);
            match before.res {
                Err(e) => before,
                Ok(all) => {
                    let one = value_of_luau(x.1, before.reg, before.ed);
                    match one.res {
                        Err(e) => Step { reg: one.reg, ed: one.ed, res: Err(e) },
                        Ok(p) => Step { reg: one.reg, ed: one.ed, res: Ok(all.push(p)) },
                    }
                },
            }
        }),
{
    lemma_list_of_luau(s, x, 0, Seq::empty(), reg, ed);
}

/// Each element of an array becomes what it becomes after those before it, and stands in its place.
pub proof fn law_elements_of_luau_one_by_one(
    s: Seq<(LuauView, LuauView)>,
    reg: RegistryView,
    ed: EmbedderDataContext,
)
    ensures
        list_of_luau(Seq::empty(), 0, Seq::empty(), reg, ed)
            == (Step { reg, ed, res: Ok(Seq::<V8View>::empty()) }),
        list_of_luau(s, 0, Seq::empty(), reg, ed).res matches Ok(all) ==> all.len() == s.len()
            && forall|k: int|
            0 <= k < s.len() ==> ({
                let before = list_of_luau(s.take(k), 0, Seq::empty(), reg, ed);
                value_of_luau(s[k].1, before.reg, before.ed).res
                    == Ok::<V8View, Seq<char>>(#[trigger] all[k])
            }),
        list_of_luau(s, 0, Seq::empty(), reg, ed).ed.ed == ed.ed,
        list_of_luau(s, 0, Seq::empty(), reg, ed).ed.depth == ed.depth,
    decreases s.len(),
{
    if s.len() > 0 {
        let t = s.drop_last();
        assert(t.push(s.last()) =~= s);
        law_elements_of_luau_one_more(t, s.last(), reg, ed);
        law_elements_of_luau_one_by_one(t, reg, ed);
        let before = list_of_luau(t, 0, Seq::empty(), reg, ed);
        lemma_value_of_luau_keeps_place(s.last().1, before.reg, before.ed);
        if list_of_luau(s, 0, Seq::empty(), reg, ed).res is Ok {
            let all = list_of_luau(s, 0, Seq::empty(), reg, ed).res->Ok_0;
            let first = before.res->Ok_0;
            assert(s.take(t.len() as int) =~= t);
            assert(all.drop_last() =~= first);
            assert forall|k: int| 0 <= k < s.len() implies ({
                let before = list_of_luau(s.take(k), 0, Seq::empty(), reg, ed);
                value_of_luau(s[k].1, before.reg, before.ed).res
                    == Ok::<V8View, Seq<char>>(#[trigger] all[k])
            }) by {
                if k < t.len() {
                    assert(first[k] == all[k]);
                    assert(t[k] == s[k]);
                assert(s.take(k) =~= t.take(k));
                }
            }
        }
    }
}

/// What one value more adds to those that are converted already.
proof fn lemma_dict_of_luau(
    s: Seq<(LuauView, LuauView)>,
    x: (LuauView, LuauView),
    i: int,
    done: Seq<(V8View, V8View)>,
    reg: RegistryView,
    ed: EmbedderDataContext,
)
    requires
        0 <= i <= s.len(),
    ensures
        dict_of_luau(s.push(x), i, done, reg, ed) == ({
            let before = dict_of_luau(s, i, done, reg, ed);
            match before.res {
                Err(e) => before,
                Ok(all) => {
                    let key = value_of_luau(x.0, before.reg, before.ed);
                    match key.res {
                        Err(e) => Step { reg: key.reg, ed: key.ed, res: Err(e) },
                        Ok(k) => if !k.is_primitive() {
                            Step { reg: key.reg, ed: key.ed, res: Err(key_refused()) }
                        } else {
                            let val = value_of_luau(x.1, key.reg, key.ed);
                            match val.res {
                                Err(e) => Step { reg: val.reg, ed: val.ed, res: Err(e) },
                                Ok(p) => Step { reg: val.reg, ed: val.ed,
                                    res: Ok(all.push((k, p))) },
                            }
                        },
                    }
                },
            }
        }),
    decreases s.len() - i,
{
    let more = s.push(x);
    if i == s.len() {
        reveal_with_fuel(dict_of_luau, 2);
    } else {
        assert(more[i] == s[i]);
        let key = value_of_luau(s[i].0, reg, ed);
        if key.res is Ok && key.res->Ok_0.is_primitive() {
            let val = value_of_luau(s[i].1, key.reg, key.ed);
            if val.res is Ok {
                lemma_dict_of_luau(s, x, i + 1, done.push((key.res->Ok_0, val.res->Ok_0)), val.reg,
                    val.ed);
            }
        }
    }
}

/// One entry more of a table is converted after the others, the key first, and stands behind them;
/// a key that is no primitive is refused.
pub proof fn law_entries_of_luau_one_more(
    s: Seq<(LuauView, LuauView)>,
    x: (LuauView, LuauView),
    reg: RegistryView,
    ed: EmbedderDataContext,
)
    ensures
        dict_of_luau(s.push(x), 0, Seq::empty(), reg, ed) == ({
            let before = dict_of_luau(s, 0, Seq::empty(), reg, ed);
            match before.res {
                Err(e) => before,
                Ok(all) => {
                    let key = value_of_luau(x.0, before.reg, before.ed);
                    match key.res {
                        Err(e) => Step { reg: key.reg, ed: key.ed, res: Err(e) },
                        Ok(k) => if !k.is_primitive() {
                            Step { reg: key.reg, ed: key.ed, res: Err(key_refused()) }
                        } else {
                            let val = value_of_luau(x.1, key.reg, key.ed);
                            match val.res {
                                Err(e) => Step { reg: val.reg, ed: val.ed, res: Err(e) },
                                Ok(p) => Step { reg: val.reg, ed: val.ed,
                                    res: Ok(all.push((k, p))) },
                            }
                        },
                    }
                },
            }
        }),
{
    lemma_dict_of_luau(s, x, 0, Seq::empty(), reg, ed);
}

/// Each entry of a table becomes what its key and its value become after those before it, and stands
/// in its place. Every key is a primitive.
pub proof fn law_entries_of_luau_one_by_one(
    s: Seq<(LuauView, LuauView)>,
    reg: RegistryView,
    ed: EmbedderDataContext,
)
    ensures
        dict_of_luau(Seq::empty(), 0, Seq::empty(), reg, ed)
            == (Step { reg, ed, res: Ok(Seq::<(V8View, V8View)>::empty()) }),
        dict_of_luau(s, 0, Seq::empty(), reg, ed).res matches Ok(all) ==> all.len() == s.len()
            && forall|k: int|
            0 <= k < s.len() ==> ({
                let before = dict_of_luau(s.take(k), 0, Seq::empty(), reg, ed);
                let key = value_of_luau(s[k].0, before.reg, before.ed);
                let val = value_of_luau(s[k].1, key.reg, key.ed);
                &&& key.res == Ok::<V8View, Seq<char>>((#[trigger] all[k]).0)
                &&& val.res == Ok::<V8View, Seq<char>>(all[k].1)
                &&& all[k].0.is_primitive()
            }),
        dict_of_luau(s, 0, Seq::empty(), reg, ed).ed.ed == ed.ed,
        dict_of_luau(s, 0, Seq::empty(), reg, ed).ed.depth == ed.depth,
    decreases s.len(),
{
    if s.len() > 0 {
        let t = s.drop_last();
        assert(t.push(s.last()) =~= s);
        law_entries_of_luau_one_more(t, s.last(), reg, ed);
        law_entries_of_luau_one_by_one(t, reg, ed);
        let before = dict_of_luau(t, 0, Seq::empty(), reg, ed);
        let key = value_of_luau(s.last().0, before.reg, before.ed);
        lemma_value_of_luau_keeps_place(s.last().0, before.reg, before.ed);
        lemma_value_of_luau_keeps_place(s.last().1, key.reg, key.ed);
        if dict_of_luau(s, 0, Seq::empty(), reg, ed).res is Ok {
            let all = dict_of_luau(s, 0, Seq::empty(), reg, ed).res->Ok_0;
            let first = before.res->Ok_0;
            assert(s.take(t.len() as int) =~= t);
            assert(all.drop_last() =~= first);
            assert forall|k: int| 0 <= k < s.len() implies ({
                let before = dict_of_luau(s.take(k), 0, Seq::empty(), reg, ed);
                let key = value_of_luau(s[k].0, before.reg, before.ed);
                let val = value_of_luau(s[k].1, key.reg, key.ed);
                &&& key.res == Ok::<V8View, Seq<char>>((#[trigger] all[k]).0)
                &&& val.res == Ok::<V8View, Seq<char>>(all[k].1)
                &&& all[k].0.is_primitive()
            }) by {
                if k < t.len() {
                    assert(first[k] == all[k]);
                    assert(t[k] == s[k]);
                assert(s.take(k) =~= t.take(k));
                }
            }
        }
    }
}

/// What one value more adds to those that are converted already.
proof fn lemma_list_to_v8(
    s: Seq<V8View>,
    x: V8View,
    i: int,
    done: Seq<JsView>,
    reg: RegistryView,
    ed: EmbedderDataContext,
)
    requires
        0 <= i <= s.len(),
    ensures
        list_to_v8(s.push(x), i, done, reg, ed) == ({
            let before = list_to_v8(s, i, done, reg, ed);
            match before.res {
                Err(e) => before,
                Ok(all) => {
                    let one = value_to_v8(x, reg, before.ed);
                    match one.res {
                        Err(e) => Charged { ed: one.ed, res: Err(e) },
                        Ok(p) => Charged { ed: one.ed, res: Ok(all.push(p)) },
                    }
                },
            }
        }),
    decreases s.len() - i,
{
    let more = s.push(x);
    if i == s.len() {
        reveal_with_fuel(list_to_v8, 2);
    } else {
        assert(more[i] == s[i]);
        let one = value_to_v8(s[i], reg, ed);
        if one.res is Ok {
            lemma_list_to_v8(s, x, i + 1, done.push(one.res->Ok_0), reg, one.ed);
        }
    }
}

/// One item more of a list is converted after the others, and stands behind them.
pub proof fn law_items_in_v8_one_more(
    s: Seq<V8View>,
    x: V8View,
    reg: RegistryView,
    ed: EmbedderDataContext,
)
    ensures
        list_to_v8(s.push(x), 0, Seq::empty(), reg, ed) == ({
            let before = list_to_v8(s, 0, Seq::empty(), reg, ed);
            match before.res {
                Err(e) => before,
                Ok(all) => {
                    let one = value_to_v8(x, reg, before.ed);
                    match one.res {
                        Err(e) => Charged { ed: one.ed, res: Err(e) },
                        Ok(p) => Charged { ed: one.ed, res: Ok(all.push(p)) },
                    }
                },
            }
        }),
{
    lemma_list_to_v8(s, x, 0, Seq::empty(), reg, ed);
}

/// Each item of a list becomes what it becomes after those before it, and stands in its place.
pub proof fn law_items_in_v8_one_by_one(
    s: Seq<V8View>,
    reg: RegistryView,
    ed: EmbedderDataContext,
)
    ensures
        list_to_v8(Seq::empty(), 0, Seq::empty(), reg, ed)
            == (Charged { ed, res: Ok(Seq::<JsView>::empty()) }),
        list_to_v8(s, 0, Seq::empty(), reg, ed).res matches Ok(all) ==> all.len() == s.len()
            && forall|k: int|
            0 <= k < s.len() ==> ({
                let before = list_to_v8(s.take(k), 0, Seq::empty(), reg, ed);
                value_to_v8(s[k], reg, before.ed).res == Ok::<JsView, Seq<char>>(#[trigger] all[k])
            }),
        list_to_v8(s, 0, Seq::empty(), reg, ed).ed.ed == ed.ed,
        list_to_v8(s, 0, Seq::empty(), reg, ed).ed.depth == ed.depth,
    decreases s.len(),
{
    if s.len() > 0 {
        let t = s.drop_last();
        assert(t.push(s.last()) =~= s);
        law_items_in_v8_one_more(t, s.last(), reg, ed);
        law_items_in_v8_one_by_one(t, reg, ed);
        let before = list_to_v8(t, 0, Seq::empty(), reg, ed);
        lemma_value_to_v8_keeps_place(s.last(), reg, before.ed);
        if list_to_v8(s, 0, Seq::empty(), reg, ed).res is Ok {
            let all = list_to_v8(s, 0, Seq::empty(), reg, ed).res->Ok_0;
            let first = before.res->Ok_0;
            assert(s.take(t.len() as int) =~= t);
            assert(all.drop_last() =~= first);
            assert forall|k: int| 0 <= k < s.len() implies ({
                let before = list_to_v8(s.take(k), 0, Seq::empty(), reg, ed);
                value_to_v8(s[k], reg, before.ed).res == Ok::<JsView, Seq<char>>(#[trigger] all[k])
            }) by {
                if k < t.len() {
                    assert(first[k] == all[k]);
                    assert(t[k] == s[k]);
                assert(s.take(k) =~= t.take(k));
                }
            }
        }
    }
}

/// What one value more adds to those that are converted already.
proof fn lemma_dict_to_v8(
    s: Seq<(V8View, V8View)>,
    x: (V8View, V8View),
    i: int,
    done: Seq<(JsView, JsView)>,
    reg: RegistryView,
    ed: EmbedderDataContext,
)
    requires
        0 <= i <= s.len(),
    ensures
        dict_to_v8(s.push(x), i, done, reg, ed) == ({
            let before = dict_to_v8(s, i, done, reg, ed);
            match before.res {
                Err(e) => before,
                Ok(all) => {
                    let key = value_to_v8(x.0, reg, before.ed);
                    match key.res {
                        Err(e) => Charged { ed: key.ed, res: Err(e) },
                        Ok(k) => {
                            let val = value_to_v8(x.1, reg, key.ed);
                            match val.res {
                                Err(e) => Charged { ed: val.ed, res: Err(e) },
                                Ok(p) => Charged { ed: val.ed, res: Ok(all.push((k, p))) },
                            }
                        },
                    }
                },
            }
        }),
    decreases s.len() - i,
{
    let more = s.push(x);
    if i == s.len() {
        reveal_with_fuel(dict_to_v8, 2);
    } else {
        assert(more[i] == s[i]);
        let key = value_to_v8(s[i].0, reg, ed);
        if key.res is Ok {
            let val = value_to_v8(s[i].1, reg, key.ed);
            if val.res is Ok {
                lemma_dict_to_v8(s, x, i + 1, done.push((key.res->Ok_0, val.res->Ok_0)), reg,
                    val.ed);
            }
        }
    }
}

/// One entry more of a map is converted after the others, the key first, and stands behind them.
pub proof fn law_entries_in_v8_one_more(
    s: Seq<(V8View, V8View)>,
    x: (V8View, V8View),
    reg: RegistryView,
    ed: EmbedderDataContext,
)
    ensures
        dict_to_v8(s.push(x), 0, Seq::empty(), reg, ed) == ({
            let before = dict_to_v8(s, 0, Seq::empty(), reg, ed);
            match before.res {
                Err(e) => before,
                Ok(all) => {
                    let key = value_to_v8(x.0, reg, before.ed);
                    match key.res {
                        Err(e) => Charged { ed: key.ed, res: Err(e) },
                        Ok(k) => {
                            let val = value_to_v8(x.1, reg, key.ed);
                            match val.res {
                                Err(e) => Charged { ed: val.ed, res: Err(e) },
                                Ok(p) => Charged { ed: val.ed, res: Ok(all.push((k, p))) },
                            }
                        },
                    }
                },
            }
        }),
{
    lemma_dict_to_v8(s, x, 0, Seq::empty(), reg, ed);
}

/// Each entry of a map becomes what its key and its value become after those before it, and stands
/// in its place.
pub proof fn law_entries_in_v8_one_by_one(
    s: Seq<(V8View, V8View)>,
    reg: RegistryView,
    ed: EmbedderDataContext,
)
    ensures
        dict_to_v8(Seq::empty(), 0, Seq::empty(), reg, ed)
            == (Charged { ed, res: Ok(Seq::<(JsView, JsView)>::empty()) }),
        dict_to_v8(s, 0, Seq::empty(), reg, ed).res matches Ok(all) ==> all.len() == s.len()
            && forall|k: int|
            0 <= k < s.len() ==> ({
                let before = dict_to_v8(s.take(k), 0, Seq::empty(), reg, ed);
                let key = value_to_v8(s[k].0, reg, before.ed);
                let val = value_to_v8(s[k].1, reg, key.ed);
                &&& key.res == Ok::<JsView, Seq<char>>((#[trigger] all[k]).0)
                &&& val.res == Ok::<JsView, Seq<char>>(all[k].1)
            }),
        dict_to_v8(s, 0, Seq::empty(), reg, ed).ed.ed == ed.ed,
        dict_to_v8(s, 0, Seq::empty(), reg, ed).ed.depth == ed.depth,
    decreases s.len(),
{
    if s.len() > 0 {
        let t = s.drop_last();
        assert(t.push(s.last()) =~= s);
        law_entries_in_v8_one_more(t, s.last(), reg, ed);
        law_entries_in_v8_one_by_one(t, reg, ed);
        let before = dict_to_v8(t, 0, Seq::empty(), reg, ed);
        let key = value_to_v8(s.last().0, reg, before.ed);
        lemma_value_to_v8_keeps_place(s.last().0, reg, before.ed);
        lemma_value_to_v8_keeps_place(s.last().1, reg, key.ed);
        if dict_to_v8(s, 0, Seq::empty(), reg, ed).res is Ok {
            let all = dict_to_v8(s, 0, Seq::empty(), reg, ed).res->Ok_0;
            let first = before.res->Ok_0;
            assert(s.take(t.len() as int) =~= t);
            assert(all.drop_last() =~= first);
            assert forall|k: int| 0 <= k < s.len() implies ({
                let before = dict_to_v8(s.take(k), 0, Seq::empty(), reg, ed);
                let key = value_to_v8(s[k].0, reg, before.ed);
                let val = value_to_v8(s[k].1, reg, key.ed);
                &&& key.res == Ok::<JsView, Seq<char>>((#[trigger] all[k]).0)
                &&& val.res == Ok::<JsView, Seq<char>>(all[k].1)
            }) by {
                if k < t.len() {
                    assert(first[k] == all[k]);
                    assert(t[k] == s[k]);
                assert(s.take(k) =~= t.take(k));
                }
            }
        }
    }
}

/// What one value more adds to those that are converted already.
proof fn lemma_list_of_v8(
    s: Seq<JsView>,
    x: JsView,
    i: int,
    done: Seq<V8View>,
    reg: RegistryView,
    ed: EmbedderDataContext,
)
    requires
        0 <= i <= s.len(),
    ensures
        list_of_v8(s.push(x), i, done, reg, ed) == ({
            let before = list_of_v8(s, i, done, reg, ed);
            match before.res {
                Err(e) => before,
                Ok(all) => {
                    let one = value_of_v8(x, before.reg, before.ed);
                    match one.res {
                        Err(e) => Step { reg: one.reg, ed: one.ed, res: Err(e) },
                        Ok(p) => Step { reg: one.reg, ed: one.ed, res: Ok(all.push(p)) },
                    }
                },
            }
        }),
    decreases s.len() - i,
{
    let more = s.push(x);
    if i == s.len() {
        reveal_with_fuel(list_of_v8, 2);
    } else {
        assert(more[i] == s[i]);
        let one = value_of_v8(s[i], reg, ed);
        if one.res is Ok {
            lemma_list_of_v8(s, x, i + 1, done.push(one.res->Ok_0), one.reg, one.ed);
        }
    }
}

/// One element more of an array is converted after the others, and stands behind them.
pub proof fn law_elements_of_v8_one_more(
    s: Seq<JsView>,
    x: JsView,
    reg: RegistryView,
    ed: EmbedderDataContext,
)
    ensures
        list_of_v8(s.push(x), 0, Seq::empty(), reg, ed) == ({
            let before = list_of_v8(s, 0, Seq::empty(), reg, ed);
            match before.res {
                Err(e) => before,
                Ok(all) => {
                    let one = value_of_v8(x, before.reg, before.ed);
                    match one.res {
                        Err(e) => Step { reg: one.reg, ed: one.ed, res: Err(e) },
                        Ok(p) => Step { reg: one.reg, ed: one.ed, res: Ok(all.push(p)) },
                    }
                },
            }
        }),
{
    lemma_list_of_v8(s, x, 0, Seq::empty(), reg, ed);
}

/// Each element of an array becomes what it becomes after those before it, and stands in its place.
pub proof fn law_elements_of_v8_one_by_one(
    s: Seq<JsView>,
    reg: RegistryView,
    ed: EmbedderDataContext,
)
    ensures
        list_of_v8(Seq::empty(), 0, Seq::empty(), reg, ed)
            == (Step { reg, ed, res: Ok(Seq::<V8View>::empty()) }),
        list_of_v8(s, 0, Seq::empty(), reg, ed).res matches Ok(all) ==> all.len() == s.len()
            && forall|k: int|
            0 <= k < s.len() ==> ({
                let before = list_of_v8(s.take(k), 0, Seq::empty(), reg, ed);
                value_of_v8(s[k], before.reg, before.ed).res
                    == Ok::<V8View, Seq<char>>(#[trigger] all[k])
            }),
        list_of_v8(s, 0, Seq::empty(), reg, ed).ed.ed == ed.ed,
        list_of_v8(s, 0, Seq::empty(), reg, ed).ed.depth == ed.depth,
    decreases s.len(),
{
    if s.len() > 0 {
        let t = s.drop_last();
        assert(t.push(s.last()) =~= s);
        law_elements_of_v8_one_more(t, s.last(), reg, ed);
        law_elements_of_v8_one_by_one(t, reg, ed);
        let before = list_of_v8(t, 0, Seq::empty(), reg, ed);
        lemma_value_of_v8_keeps_place(s.last(), before.reg, before.ed);
        if list_of_v8(s, 0, Seq::empty(), reg, ed).res is Ok {
            let all = list_of_v8(s, 0, Seq::empty(), reg, ed).res->Ok_0;
            let first = before.res->Ok_0;
            assert(s.take(t.len() as int) =~= t);
            assert(all.drop_last() =~= first);
            assert forall|k: int| 0 <= k < s.len() implies ({
                let before = list_of_v8(s.take(k), 0, Seq::empty(), reg, ed);
                value_of_v8(s[k], before.reg, before.ed).res
                    == Ok::<V8View, Seq<char>>(#[trigger] all[k])
            }) by {
                if k < t.len() {
                    assert(first[k] == all[k]);
                    assert(t[k] == s[k]);
                assert(s.take(k) =~= t.take(k));
                }
            }
        }
    }
}

/// What one value more adds to those that are converted already.
proof fn lemma_dict_of_v8(
    s: Seq<(JsView, JsView)>,
    x: (JsView, JsView),
    i: int,
    done: Seq<(V8View, V8View)>,
    reg: RegistryView,
    ed: EmbedderDataContext,
)
    requires
        0 <= i <= s.len(),
    ensures
        dict_of_v8(s.push(x), i, done, reg, ed) == ({
            let before = dict_of_v8(s, i, done, reg, ed);
            match before.res {
                Err(e) => before,
                Ok(all) => {
                    let key = value_of_v8(x.0, before.reg, before.ed);
                    match key.res {
                        Err(e) => Step { reg: key.reg, ed: key.ed, res: Err(e) },
                        Ok(k) => if !k.is_primitive() {
                            Step { reg: key.reg, ed: key.ed, res: Err(key_refused()) }
                        } else {
                            let val = value_of_v8(x.1, key.reg, key.ed);
                            match val.res {
                                Err(e) => Step { reg: val.reg, ed: val.ed, res: Err(e) },
                                Ok(p) => Step { reg: val.reg, ed: val.ed,
                                    res: Ok(all.push((k, p))) },
                            }
                        },
                    }
                },
            }
        }),
    decreases s.len() - i,
{
    let more = s.push(x);
    if i == s.len() {
        reveal_with_fuel(dict_of_v8, 2);
    } else {
        assert(more[i] == s[i]);
        let key = value_of_v8(s[i].0, reg, ed);
        if key.res is Ok && key.res->Ok_0.is_primitive() {
            let val = value_of_v8(s[i].1, key.reg, key.ed);
            if val.res is Ok {
                lemma_dict_of_v8(s, x, i + 1, done.push((key.res->Ok_0, val.res->Ok_0)), val.reg,
                    val.ed);
            }
        }
    }
}

/// One entry more of a map is converted after the others, the key first, and stands behind them;
/// a key that is no primitive is refused.
pub proof fn law_entries_of_v8_one_more(
    s: Seq<(JsView, JsView)>,
    x: (JsView, JsView),
    reg: RegistryView,
    ed: EmbedderDataContext,
)
    ensures
        dict_of_v8(s.push(x), 0, Seq::empty(), reg, ed) == ({
            let before = dict_of_v8(s, 0, Seq::empty(), reg, ed);
            match before.res {
                Err(e) => before,
                Ok(all) => {
                    let key = value_of_v8(x.0, before.reg, before.ed);
                    match key.res {
                        Err(e) => Step { reg: key.reg, ed: key.ed, res: Err(e) },
                        Ok(k) => if !k.is_primitive() {
                            Step { reg: key.reg, ed: key.ed, res: Err(key_refused()) }
                        } else {
                            let val = value_of_v8(x.1, key.reg, key.ed);
                            match val.res {
                                Err(e) => Step { reg: val.reg, ed: val.ed, res: Err(e) },
                                Ok(p) => Step { reg: val.reg, ed: val.ed,
                                    res: Ok(all.push((k, p))) },
                            }
                        },
                    }
                },
            }
        }),
{
    lemma_dict_of_v8(s, x, 0, Seq::empty(), reg, ed);
}

/// Each entry of a map becomes what its key and its value become after those before it, and stands
/// in its place. Every key is a primitive.
pub proof fn law_entries_of_v8_one_by_one(
    s: Seq<(JsView, JsView)>,
    reg: RegistryView,
    ed: EmbedderDataContext,
)
    ensures
        dict_of_v8(Seq::empty(), 0, Seq::empty(), reg, ed)
            == (Step { reg, ed, res: Ok(Seq::<(V8View, V8View)>::empty()) }),
        dict_of_v8(s, 0, Seq::empty(), reg, ed).res matches Ok(all) ==> all.len() == s.len()
            && forall|k: int|
            0 <= k < s.len() ==> ({
                let before = dict_of_v8(s.take(k), 0, Seq::empty(), reg, ed);
                let key = value_of_v8(s[k].0, before.reg, before.ed);
                let val = value_of_v8(s[k].1, key.reg, key.ed);
                &&& key.res == Ok::<V8View, Seq<char>>((#[trigger] all[k]).0)
                &&& val.res == Ok::<V8View, Seq<char>>(all[k].1)
                &&& all[k].0.is_primitive()
            }),
        dict_of_v8(s, 0, Seq::empty(), reg, ed).ed.ed == ed.ed,
        dict_of_v8(s, 0, Seq::empty(), reg, ed).ed.depth == ed.depth,
    decreases s.len(),
{
    if s.len() > 0 {
        let t = s.drop_last();
        assert(t.push(s.last()) =~= s);
        law_entries_of_v8_one_more(t, s.last(), reg, ed);
        law_entries_of_v8_one_by_one(t, reg, ed);
        let before = dict_of_v8(t, 0, Seq::empty(), reg, ed);
        let key = value_of_v8(s.last().0, before.reg, before.ed);
        lemma_value_of_v8_keeps_place(s.last().0, before.reg, before.ed);
        lemma_value_of_v8_keeps_place(s.last().1, key.reg, key.ed);
        if dict_of_v8(s, 0, Seq::empty(), reg, ed).res is Ok {
            let all = dict_of_v8(s, 0, Seq::empty(), reg, ed).res->Ok_0;
            let first = before.res->Ok_0;
            assert(s.take(t.len() as int) =~= t);
            assert(all.drop_last() =~= first);
            assert forall|k: int| 0 <= k < s.len() implies ({
                let before = dict_of_v8(s.take(k), 0, Seq::empty(), reg, ed);
                let key = value_of_v8(s[k].0, before.reg, before.ed);
                let val = value_of_v8(s[k].1, key.reg, key.ed);
                &&& key.res == Ok::<V8View, Seq<char>>((#[trigger] all[k]).0)
                &&& val.res == Ok::<V8View, Seq<char>>(all[k].1)
                &&& all[k].0.is_primitive()
            }) by {
                if k < t.len() {
                    assert(first[k] == all[k]);
                    assert(t[k] == s[k]);
                assert(s.take(k) =~= t.take(k));
                }
            }
        }
    }
}

/// What is converted inside a container, and where.
proof fn lemma_inside_list_in_luau_is_keyed_from_one(items: Seq<V8View>, reg: RegistryView,
    ed: EmbedderDataContext) -> (c:
    EmbedderDataContext)
    ensures
        value_to_luau(V8View::List(items), reg, ed).res matches Ok(t) ==> {
            &&& c.ed == ed.ed
            &&& c.depth == ed.depth + 1
            &&& list_to_luau(items, 0, Seq::empty(), reg, c).res matches Ok(vs)
            &&& t == made_array(vs)
        },
{
    let p = V8View::List(items);
    let e1 = ed.after(1, "ProxiedV8Value -> <base overhead>"@)->Ok_0;
    let e2 = e1.after(1, "ProxiedV8PsuedoPrimitive -> <base overhead>"@)->Ok_0;
    let e3 = e2.after(items.len() as usize, "ProxiedV8PsuedoPrimitive -> LuaArray"@)->Ok_0;
    let c = e3.child();
    assert(value_to_luau(p, reg, ed).res is Ok ==> psuedo_to_luau(p, reg, e1).res
        == value_to_luau(p, reg, ed).res);
    c
}

/// A list of `n` items becomes a new frozen array in Luau that has the integer keys from 1 to `n` and no
/// other, and under the key `k + 1` what the item `k` becomes.
pub proof fn law_list_in_luau_is_keyed_from_one(items: Seq<V8View>, reg: RegistryView,
    ed: EmbedderDataContext)
    ensures
        value_to_luau(V8View::List(items), reg, ed).res matches Ok(t) ==> {
            &&& t matches LuauView::Table { handle, frozen, metatable, len, entries: all }
            &&& handle == FRESH && frozen && metatable == Metatable::Array && len
                == items.len() as usize
            &&& all.len() == items.len()
            &&& forall|k: int|
                0 <= k < items.len() ==> (#[trigger] all[k]).0 == LuauView::Integer((k + 1) as i64)
                    && inside_luau(items[k], all[k].1, reg, ed)
        },
{
    let t = value_to_luau(V8View::List(items), reg, ed);
    let c = lemma_inside_list_in_luau_is_keyed_from_one(items, reg, ed);
    if t.res is Ok {
        let t = t.res->Ok_0;
        let vs = list_to_luau(items, 0, Seq::empty(), reg, c).res->Ok_0;
        law_items_in_luau_one_by_one(items, reg, c);
        let all = t->entries;
        assert forall|k: int| 0 <= k < items.len() implies (#[trigger] all[k]).0
            == LuauView::Integer((k + 1) as i64) && inside_luau(items[k], all[k].1, reg, ed) by {
            let before = list_to_luau(items.take(k), 0, Seq::empty(), reg, c);
            law_items_in_luau_one_by_one(items.take(k), reg, c);
            assert(value_to_luau(items[k], reg, before.ed).res == Ok::<LuauView, Seq<char>>(vs[k]));
            assert(all[k].1 == vs[k]);
        }
    }
}

/// What is converted inside a container, and where.
proof fn lemma_inside_map_in_luau_keeps_its_entries(items: Seq<(V8View, V8View)>,
    reg: RegistryView, ed: EmbedderDataContext) -> (c:
    EmbedderDataContext)
    ensures
        value_to_luau(V8View::Dict(items), reg, ed).res matches Ok(t) ==> {
            &&& c.ed == ed.ed
            &&& c.depth == ed.depth + 1
            &&& dict_to_luau(items, 0, Seq::empty(), reg, c).res matches Ok(vs)
            &&& t == made_table(vs)
        },
{
    let p = V8View::Dict(items);
    let e1 = ed.after(1, "ProxiedV8Value -> <base overhead>"@)->Ok_0;
    let e2 = e1.after(1, "ProxiedV8PsuedoPrimitive -> <base overhead>"@)->Ok_0;
    let e3 = e2.after(items.len() as usize, "ProxiedV8PsuedoPrimitive -> LuaMap"@)->Ok_0;
    let c = e3.child();
    assert(value_to_luau(p, reg, ed).res is Ok ==> psuedo_to_luau(p, reg, e1).res
        == value_to_luau(p, reg, ed).res);
    c
}

/// A map becomes a new frozen table in Luau without a metatable, with an entry for each of its
/// entries, in their order: what the key becomes, with what the value becomes.
pub proof fn law_map_in_luau_keeps_its_entries(items: Seq<(V8View, V8View)>, reg: RegistryView,
    ed: EmbedderDataContext)
    ensures
        value_to_luau(V8View::Dict(items), reg, ed).res matches Ok(t) ==> {
            &&& t matches LuauView::Table { handle, frozen, metatable, entries: all, .. }
            &&& handle == FRESH && frozen && metatable == Metatable::Absent
            &&& all.len() == items.len()
            &&& forall|k: int|
                0 <= k < items.len() ==> inside_luau(items[k].0, (#[trigger] all[k]).0, reg, ed)
                    && inside_luau(items[k].1, all[k].1, reg, ed)
        },
{
    let t = value_to_luau(V8View::Dict(items), reg, ed);
    let c = lemma_inside_map_in_luau_keeps_its_entries(items, reg, ed);
    if t.res is Ok {
        let t = t.res->Ok_0;
        let vs = dict_to_luau(items, 0, Seq::empty(), reg, c).res->Ok_0;
        law_entries_in_luau_one_by_one(items, reg, c);
        let all = t->entries;
        assert forall|k: int| 0 <= k < items.len() implies inside_luau(items[k].0,
            (#[trigger] all[k]).0, reg, ed) && inside_luau(items[k].1, all[k].1, reg, ed) by {
            let before = dict_to_luau(items.take(k), 0, Seq::empty(), reg, c);
            let key = value_to_luau(items[k].0, reg, before.ed);
            law_entries_in_luau_one_by_one(items.take(k), reg, c);
            lemma_value_to_luau_keeps_place(items[k].0, reg, before.ed);
            assert(value_to_luau(items[k].0, reg, before.ed).res
                == Ok::<LuauView, Seq<char>>(vs[k].0));
            assert(value_to_luau(items[k].1, reg, key.ed).res
                == Ok::<LuauView, Seq<char>>(vs[k].1));
            assert(all[k] == vs[k]);
        }
    }
}

/// What is converted inside a container, and where.
proof fn lemma_inside_list_in_v8_keeps_its_items(items: Seq<V8View>, reg: RegistryView,
    ed: EmbedderDataContext) -> (c:
    EmbedderDataContext)
    ensures
        value_to_v8(V8View::List(items), reg, ed).res matches Ok(t) ==> {
            &&& c.ed == ed.ed
            &&& c.depth == ed.depth + 1
            &&& list_to_v8(items, 0, Seq::empty(), reg, c).res matches Ok(vs)
            &&& t == JsView::Array(vs)
        },
{
    let p = V8View::List(items);
    let e1 = ed.after(1, "ProxiedV8Value -> <base overhead>"@)->Ok_0;
    let e2 = e1.after(1, "ProxiedV8PsuedoPrimitive -> <base overhead>"@)->Ok_0;
    let e3 = e2.after(items.len() as usize, "ProxiedV8PsuedoPrimitive -> V8Array"@)->Ok_0;
    let c = e3.child();
    assert(value_to_v8(p, reg, ed).res is Ok ==> psuedo_to_v8(p, reg, e1).res
        == value_to_v8(p, reg, ed).res);
    c
}

/// A list becomes an array in v8 of as many elements, the `k`th of which is what the item `k` becomes.
pub proof fn law_list_in_v8_keeps_its_items(items: Seq<V8View>, reg: RegistryView,
    ed: EmbedderDataContext)
    ensures
        value_to_v8(V8View::List(items), reg, ed).res matches Ok(t) ==> {
            &&& t matches JsView::Array(all)
            &&& all.len() == items.len()
            &&& forall|k: int|
                0 <= k < items.len() ==> inside_v8(items[k], #[trigger] all[k], reg, ed)
        },
{
    let t = value_to_v8(V8View::List(items), reg, ed);
    let c = lemma_inside_list_in_v8_keeps_its_items(items, reg, ed);
    if t.res is Ok {
        let t = t.res->Ok_0;
        let vs = list_to_v8(items, 0, Seq::empty(), reg, c).res->Ok_0;
        law_items_in_v8_one_by_one(items, reg, c);
        let all = t->Array_0;
        assert forall|k: int| 0 <= k < items.len() implies inside_v8(items[k], #[trigger] all[k],
            reg, ed) by {
            let before = list_to_v8(items.take(k), 0, Seq::empty(), reg, c);
            law_items_in_v8_one_by_one(items.take(k), reg, c);
            assert(value_to_v8(items[k], reg, before.ed).res == Ok::<JsView, Seq<char>>(vs[k]));
            assert(all[k] == vs[k]);
        }
    }
}

/// What is converted inside a container, and where.
proof fn lemma_inside_map_in_v8_keeps_its_entries(items: Seq<(V8View, V8View)>, reg: RegistryView,
    ed: EmbedderDataContext) -> (c:
    EmbedderDataContext)
    ensures
        value_to_v8(V8View::Dict(items), reg, ed).res matches Ok(t) ==> {
            &&& c.ed == ed.ed
            &&& c.depth == ed.depth + 1
            &&& dict_to_v8(items, 0, Seq::empty(), reg, c).res matches Ok(vs)
            &&& t == JsView::MapObject(vs)
        },
{
    let p = V8View::Dict(items);
    let e1 = ed.after(1, "ProxiedV8Value -> <base overhead>"@)->Ok_0;
    let e2 = e1.after(1, "ProxiedV8PsuedoPrimitive -> <base overhead>"@)->Ok_0;
    let e3 = e2.after(items.len() as usize, "ProxiedV8PsuedoPrimitive -> V8Map"@)->Ok_0;
    let c = e3.child();
    assert(value_to_v8(p, reg, ed).res is Ok ==> psuedo_to_v8(p, reg, e1).res
        == value_to_v8(p, reg, ed).res);
    c
}

/// A map becomes a map in v8 with an entry for each of its entries, in their order: what the key
/// becomes, with what the value becomes.
pub proof fn law_map_in_v8_keeps_its_entries(items: Seq<(V8View, V8View)>, reg: RegistryView,
    ed: EmbedderDataContext)
    ensures
        value_to_v8(V8View::Dict(items), reg, ed).res matches Ok(t) ==> {
            &&& t matches JsView::MapObject(all)
            &&& all.len() == items.len()
            &&& forall|k: int|
                0 <= k < items.len() ==> inside_v8(items[k].0, (#[trigger] all[k]).0, reg, ed)
                    && inside_v8(items[k].1, all[k].1, reg, ed)
        },
{
    let t = value_to_v8(V8View::Dict(items), reg, ed);
    let c = lemma_inside_map_in_v8_keeps_its_entries(items, reg, ed);
    if t.res is Ok {
        let t = t.res->Ok_0;
        let vs = dict_to_v8(items, 0, Seq::empty(), reg, c).res->Ok_0;
        law_entries_in_v8_one_by_one(items, reg, c);
        let all = t->MapObject_0;
        assert forall|k: int| 0 <= k < items.len() implies inside_v8(items[k].0,
            (#[trigger] all[k]).0, reg, ed) && inside_v8(items[k].1, all[k].1, reg, ed) by {
            let before = dict_to_v8(items.take(k), 0, Seq::empty(), reg, c);
            let key = value_to_v8(items[k].0, reg, before.ed);
            law_entries_in_v8_one_by_one(items.take(k), reg, c);
            lemma_value_to_v8_keeps_place(items[k].0, reg, before.ed);
            assert(value_to_v8(items[k].0, reg, before.ed).res == Ok::<JsView, Seq<char>>(vs[k].0));
            assert(value_to_v8(items[k].1, reg, key.ed).res == Ok::<JsView, Seq<char>>(vs[k].1));
            assert(all[k] == vs[k]);
        }
    }
}

/// What is converted inside a container, and where.
proof fn lemma_inside_frozen_array_keeps_its_elements(
    handle: u64,
    metatable: Metatable,
    len: usize,
    items: Seq<(LuauView, LuauView)>,
    reg: RegistryView,
    ed: EmbedderDataContext,
) -> (c: EmbedderDataContext)
    requires
        metatable == Metatable::Array,
    ensures
        value_of_luau(LuauView::Table { handle, frozen: true, metatable, len, entries: items },
            reg, ed).res matches Ok(p) ==> {
            &&& c.ed == ed.ed
            &&& c.depth == ed.depth + 1
            &&& list_of_luau(items, 0, Seq::empty(), reg, c).res matches Ok(vs)
            &&& p == V8View::List(vs)
        },
{
    let v = LuauView::Table { handle, frozen: true, metatable, len, entries: items };
    let e1 = ed.sibling().after(1, "ProxiedV8PsuedoPrimitive -> <base overhead>"@)->Ok_0;
    let e2 = e1.after(len, "ProxiedV8PsuedoPrimitive -> LuaArray"@)->Ok_0;
    let c = e2.child();
    assert(value_of_luau(v, reg, ed).res is Ok ==> psuedo_of_luau(v, reg, ed.sibling()).res == Ok::<
        Option<V8View>,
        Seq<char>,
    >(Some(value_of_luau(v, reg, ed).res->Ok_0)));
    c
}

/// A frozen array of Luau becomes a list of as many items, the `k`th of which is what its element `k`
/// becomes.
pub proof fn law_frozen_array_keeps_its_elements(
    handle: u64,
    metatable: Metatable,
    len: usize,
    items: Seq<(LuauView, LuauView)>,
    reg: RegistryView,
    ed: EmbedderDataContext,
)
    requires
        metatable == Metatable::Array,
    ensures
        value_of_luau(LuauView::Table { handle, frozen: true, metatable, len, entries: items },
            reg, ed).res matches Ok(p) ==> {
            &&& p matches V8View::List(all)
            &&& all.len() == items.len()
            &&& forall|k: int|
                0 <= k < items.len() ==> from_luau_inside(items[k].1, #[trigger] all[k], ed)
        },
{
    let t = value_of_luau(LuauView::Table { handle, frozen: true, metatable, len, entries: items },
        reg, ed);
    let c = lemma_inside_frozen_array_keeps_its_elements(handle, metatable, len, items, reg, ed);
    if t.res is Ok {
        law_elements_of_luau_one_by_one(items, reg, c);
        let all = t.res->Ok_0->List_0;
        assert forall|k: int| 0 <= k < items.len() implies from_luau_inside(items[k].1,
            #[trigger] all[k], ed) by {
            let before = list_of_luau(items.take(k), 0, Seq::empty(), reg, c);
            law_elements_of_luau_one_by_one(items.take(k), reg, c);
            assert(value_of_luau(items[k].1, before.reg, before.ed).res
                == Ok::<V8View, Seq<char>>(all[k]));
        }
    }
}

/// What is converted inside a container, and where.
proof fn lemma_inside_frozen_table_keeps_its_entries(
    handle: u64,
    metatable: Metatable,
    len: usize,
    items: Seq<(LuauView, LuauView)>,
    reg: RegistryView,
    ed: EmbedderDataContext,
) -> (c: EmbedderDataContext)
    requires
        metatable != Metatable::Array,
    ensures
        value_of_luau(LuauView::Table { handle, frozen: true, metatable, len, entries: items },
            reg, ed).res matches Ok(p) ==> {
            &&& c.ed == ed.ed
            &&& c.depth == ed.depth + 1
            &&& dict_of_luau(items, 0, Seq::empty(), reg, c).res matches Ok(vs)
            &&& p == V8View::Dict(vs)
        },
{
    let v = LuauView::Table { handle, frozen: true, metatable, len, entries: items };
    let e1 = ed.sibling().after(1, "ProxiedV8PsuedoPrimitive -> <base overhead>"@)->Ok_0;
    let c = e1.child();
    assert(value_of_luau(v, reg, ed).res is Ok ==> psuedo_of_luau(v, reg, ed.sibling()).res == Ok::<
        Option<V8View>,
        Seq<char>,
    >(Some(value_of_luau(v, reg, ed).res->Ok_0)));
    c
}

/// A frozen table of Luau that is no array becomes a map with an entry for each of its entries, in
/// their order: what the key becomes, with what the value becomes.
pub proof fn law_frozen_table_keeps_its_entries(
    handle: u64,
    metatable: Metatable,
    len: usize,
    items: Seq<(LuauView, LuauView)>,
    reg: RegistryView,
    ed: EmbedderDataContext,
)
    requires
        metatable != Metatable::Array,
    ensures
        value_of_luau(LuauView::Table { handle, frozen: true, metatable, len, entries: items },
            reg, ed).res matches Ok(p) ==> {
            &&& p matches V8View::Dict(all)
            &&& all.len() == items.len()
            &&& forall|k: int|
                0 <= k < items.len() ==> from_luau_inside(items[k].0, (#[trigger] all[k]).0, ed)
                    && from_luau_inside(items[k].1, all[k].1, ed)
        },
{
    let t = value_of_luau(LuauView::Table { handle, frozen: true, metatable, len, entries: items },
        reg, ed);
    let c = lemma_inside_frozen_table_keeps_its_entries(handle, metatable, len, items, reg, ed);
    if t.res is Ok {
        law_entries_of_luau_one_by_one(items, reg, c);
        let all = t.res->Ok_0->Dict_0;
        assert forall|k: int| 0 <= k < items.len() implies from_luau_inside(items[k].0,
            (#[trigger] all[k]).0, ed) && from_luau_inside(items[k].1, all[k].1, ed) by {
            let before = dict_of_luau(items.take(k), 0, Seq::empty(), reg, c);
            let key = value_of_luau(items[k].0, before.reg, before.ed);
            law_entries_of_luau_one_by_one(items.take(k), reg, c);
            lemma_value_of_luau_keeps_place(items[k].0, before.reg, before.ed);
            assert(value_of_luau(items[k].0, before.reg, before.ed).res
                == Ok::<V8View, Seq<char>>(all[k].0));
            assert(value_of_luau(items[k].1, key.reg, key.ed).res
                == Ok::<V8View, Seq<char>>(all[k].1));
        }
    }
}

/// What is converted inside a container, and where.
proof fn lemma_inside_v8_array_keeps_its_elements(
    items: Seq<JsView>,
    reg: RegistryView,
    ed: EmbedderDataContext,
) -> (c: EmbedderDataContext)
    requires
        items.len() != 3 || exists|j: int|
            0 <= j < 3 && !(#[trigger] items[j] is Int32 || items[j] is Number),
    ensures
        value_of_v8(JsView::Array(items), reg, ed).res matches Ok(p) ==> {
            &&& c.ed == ed.ed
            &&& c.depth == ed.depth + 1
            &&& list_of_v8(items, 0, Seq::empty(), reg, c).res matches Ok(vs)
            &&& p == V8View::List(vs)
        },
{
    let v = JsView::Array(items);
    let e1 = ed.after(1, "ProxiedV8Value -> <base overhead>"@)->Ok_0;
    let e2 = e1.after(1, "ProxiedV8Primitive -> <base overhead>"@)->Ok_0;
    let e3 = e2.after(1, "ProxiedV8PsuedoPrimitive -> <base overhead>"@)->Ok_0;
    let e4 = e3.after(items.len() as usize, "ProxiedV8Primitive -> V8Array"@)->Ok_0;
    let c = e4.child();
    assert(items.len() == 3 ==> items[0].as_number() is None || items[1].as_number() is None
        || items[2].as_number() is None);
    assert(value_of_v8(v, reg, ed).res is Ok ==> psuedo_of_v8(v, reg, e2).res == Ok::<
        Option<V8View>,
        Seq<char>,
    >(Some(value_of_v8(v, reg, ed).res->Ok_0)));
    c
}

/// An array of v8 that has not three elements becomes a list of as many items, the `k`th of which is
/// what its element `k` becomes. One with three elements does too, unless all are numbers.
pub proof fn law_v8_array_keeps_its_elements(
    items: Seq<JsView>,
    reg: RegistryView,
    ed: EmbedderDataContext,
)
    requires
        items.len() != 3 || exists|j: int|
            0 <= j < 3 && !(#[trigger] items[j] is Int32 || items[j] is Number),
    ensures
        value_of_v8(JsView::Array(items), reg, ed).res matches Ok(p) ==> {
            &&& p matches V8View::List(all)
            &&& all.len() == items.len()
            &&& forall|k: int|
                0 <= k < items.len() ==> from_v8_inside(items[k], #[trigger] all[k], ed)
        },
{
    let t = value_of_v8(JsView::Array(items), reg, ed);
    let c = lemma_inside_v8_array_keeps_its_elements(items, reg, ed);
    if t.res is Ok {
        law_elements_of_v8_one_by_one(items, reg, c);
        let all = t.res->Ok_0->List_0;
        assert forall|k: int| 0 <= k < items.len() implies from_v8_inside(items[k],
            #[trigger] all[k], ed) by {
            let before = list_of_v8(items.take(k), 0, Seq::empty(), reg, c);
            law_elements_of_v8_one_by_one(items.take(k), reg, c);
            assert(value_of_v8(items[k], before.reg, before.ed).res
                == Ok::<V8View, Seq<char>>(all[k]));
        }
    }
}

/// What is converted inside a container, and where.
proof fn lemma_inside_v8_map_keeps_its_entries(
    items: Seq<(JsView, JsView)>,
    reg: RegistryView,
    ed: EmbedderDataContext,
) -> (c: EmbedderDataContext)
    ensures
        value_of_v8(JsView::MapObject(items), reg, ed).res matches Ok(p) ==> {
            &&& c.ed == ed.ed
            &&& c.depth == ed.depth + 1
            &&& dict_of_v8(items, 0, Seq::empty(), reg, c).res matches Ok(vs)
            &&& p == V8View::Dict(vs)
        },
{
    let v = JsView::MapObject(items);
    let e1 = ed.after(1, "ProxiedV8Value -> <base overhead>"@)->Ok_0;
    let e2 = e1.after(1, "ProxiedV8Primitive -> <base overhead>"@)->Ok_0;
    let e3 = e2.after(1, "ProxiedV8PsuedoPrimitive -> <base overhead>"@)->Ok_0;
    let e4 = e3.after(
        crate::luau::embedder_api::grown(items.len() as usize, items.len() as usize),
        "ProxiedV8Primitive -> V8Map"@,
    )->Ok_0;
    let c = e4.child();
    assert(value_of_v8(v, reg, ed).res is Ok ==> psuedo_of_v8(v, reg, e2).res == Ok::<
        Option<V8View>,
        Seq<char>,
    >(Some(value_of_v8(v, reg, ed).res->Ok_0)));
    c
}

/// A map of v8 becomes a map with an entry for each of its entries, in their order: what the key
/// becomes, with what the value becomes.
pub proof fn law_v8_map_keeps_its_entries(
    items: Seq<(JsView, JsView)>,
    reg: RegistryView,
    ed: EmbedderDataContext,
)
    ensures
        value_of_v8(JsView::MapObject(items), reg, ed).res matches Ok(p) ==> {
            &&& p matches V8View::Dict(all)
            &&& all.len() == items.len()
            &&& forall|k: int|
                0 <= k < items.len() ==> from_v8_inside(items[k].0, (#[trigger] all[k]).0, ed)
                    && from_v8_inside(items[k].1, all[k].1, ed)
        },
{
    let t = value_of_v8(JsView::MapObject(items), reg, ed);
    let c = lemma_inside_v8_map_keeps_its_entries(items, reg, ed);
    if t.res is Ok {
        law_entries_of_v8_one_by_one(items, reg, c);
        let all = t.res->Ok_0->Dict_0;
        assert forall|k: int| 0 <= k < items.len() implies from_v8_inside(items[k].0,
            (#[trigger] all[k]).0, ed) && from_v8_inside(items[k].1, all[k].1, ed) by {
            let before = dict_of_v8(items.take(k), 0, Seq::empty(), reg, c);
            let key = value_of_v8(items[k].0, before.reg, before.ed);
            law_entries_of_v8_one_by_one(items.take(k), reg, c);
            lemma_value_of_v8_keeps_place(items[k].0, before.reg, before.ed);
            assert(value_of_v8(items[k].0, before.reg, before.ed).res
                == Ok::<V8View, Seq<char>>(all[k].0));
            assert(value_of_v8(items[k].1, key.reg, key.ed).res
                == Ok::<V8View, Seq<char>>(all[k].1));
        }
    }
}

} // verus!
