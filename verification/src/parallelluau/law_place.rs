//! Arrays and tables that are copied to another state keep what they hold: each element and each
//! entry is copied in its place, after those before it.

use vstd::prelude::*;

use crate::luau::embedder_api::{EmbedderData, EmbedderDataContext};
use crate::luau::value::{LuauView, Metatable, FRESH};
use crate::outcome::{Charged, Step};
use crate::parallelluau::convert::{
    dict_of_state, dict_to_state, list_of_state, list_to_state, psuedo_of_state, psuedo_to_state,
    unfrozen_array, unfrozen_table, value_of_state, value_to_state,
};
use crate::parallelluau::many::{all_of_state, all_to_state, each_to_state};
use crate::parallelluau::value::PLuauView;
use crate::registry::RegistryView;

verus! {

/// Whether a value becomes that value in a state inside a container that is converted with that
/// account.
pub open spec fn inside_state(
    p: PLuauView,
    v: LuauView,
    host: bool,
    reg: RegistryView,
    ed: EmbedderDataContext,
) -> bool {
    exists|e: EmbedderDataContext|
        e.ed == ed.ed && e.depth == ed.depth + 1 && (#[trigger] value_to_state(p, host, reg, e)).res
            == Ok::<LuauView, Seq<char>>(v)
}

/// Whether a value of a state becomes that value inside a container that is converted with that
/// account.
pub open spec fn from_state_inside(
    v: LuauView,
    p: PLuauView,
    host: bool,
    ed: EmbedderDataContext,
) -> bool {
    exists|reg: RegistryView, e: EmbedderDataContext|
        e.ed == ed.ed && e.depth == ed.depth + 1 && (#[trigger] value_of_state(v, host, reg, e)).res
            == Ok::<PLuauView, Seq<char>>(p)
}

/// A conversion stays in its account, and as deep as it was.
proof fn lemma_value_to_state_keeps_place(
    p: PLuauView,
    host: bool,
    reg: RegistryView,
    ed: EmbedderDataContext,
)
    ensures
        value_to_state(p, host, reg, ed).ed.ed == ed.ed,
        value_to_state(p, host, reg, ed).ed.depth == ed.depth,
{
}

/// A conversion stays in its account, and as deep as it was.
proof fn lemma_value_of_state_keeps_place(
    v: LuauView,
    host: bool,
    reg: RegistryView,
    ed: EmbedderDataContext,
)
    ensures
        value_of_state(v, host, reg, ed).ed.ed == ed.ed,
        value_of_state(v, host, reg, ed).ed.depth == ed.depth,
{
}

/// What one value more adds to those that are converted already.
proof fn lemma_list_to_state(
    s: Seq<PLuauView>,
    x: PLuauView,
    i: int,
    done: Seq<LuauView>,
    host: bool,
    reg: RegistryView,
    ed: EmbedderDataContext,
)
    requires
        0 <= i <= s.len(),
    ensures
        list_to_state(s.push(x), i, done, host, reg, ed) == ({
            let before = list_to_state(s, i, done, host, reg, ed);
            match before.res {
                Err(e) => before,
                Ok(all) => {
                    let one = value_to_state(x, host, reg, before.ed);
                    match one.res {
                        Err(e) => Charged { ed: one.ed,
                            res: Err("Failed to convert value to Lua: "@ + e) },
                        Ok(p) => Charged { ed: one.ed, res: Ok(all.push(p)) },
                    }
                },
            }
        }),
    decreases s.len() - i,
{
    let more = s.push(x);
    if i == s.len() {
        reveal_with_fuel(list_to_state, 2);
    } else {
        assert(more[i] == s[i]);
        let one = value_to_state(s[i], host, reg, ed);
        if one.res is Ok {
            lemma_list_to_state(s, x, i + 1, done.push(one.res->Ok_0), host, reg, one.ed);
        }
    }
}

/// One item more of a list is converted after the others, and stands behind them.
pub proof fn law_items_to_state_one_more(
    s: Seq<PLuauView>,
    x: PLuauView,
    host: bool,
    reg: RegistryView,
    ed: EmbedderDataContext,
)
    ensures
        list_to_state(s.push(x), 0, Seq::empty(), host, reg, ed) == ({
            let before = list_to_state(s, 0, Seq::empty(), host, reg, ed);
            match before.res {
                Err(e) => before,
                Ok(all) => {
                    let one = value_to_state(x, host, reg, before.ed);
                    match one.res {
                        Err(e) => Charged { ed: one.ed,
                            res: Err("Failed to convert value to Lua: "@ + e) },
                        Ok(p) => Charged { ed: one.ed, res: Ok(all.push(p)) },
                    }
                },
            }
        }),
{
    lemma_list_to_state(s, x, 0, Seq::empty(), host, reg, ed);
}

/// Each item of a list becomes what it becomes after those before it, and stands in its place.
pub proof fn law_items_to_state_one_by_one(
    s: Seq<PLuauView>,
    host: bool,
    reg: RegistryView,
    ed: EmbedderDataContext,
)
    ensures
        list_to_state(Seq::empty(), 0, Seq::empty(), host, reg, ed)
            == (Charged { ed, res: Ok(Seq::<LuauView>::empty()) }),
        list_to_state(s, 0, Seq::empty(), host, reg, ed).res matches Ok(all) ==> all.len()
            == s.len() && forall|k: int|
            0 <= k < s.len() ==> ({
                let before = list_to_state(s.take(k), 0, Seq::empty(), host, reg, ed);
                value_to_state(s[k], host, reg, before.ed).res
                    == Ok::<LuauView, Seq<char>>(#[trigger] all[k])
            }),
        list_to_state(s, 0, Seq::empty(), host, reg, ed).ed.ed == ed.ed,
        list_to_state(s, 0, Seq::empty(), host, reg, ed).ed.depth == ed.depth,
    decreases s.len(),
{
    if s.len() > 0 {
        let t = s.drop_last();
        assert(t.push(s.last()) =~= s);
        law_items_to_state_one_more(t, s.last(), host, reg, ed);
        law_items_to_state_one_by_one(t, host, reg, ed);
        let before = list_to_state(t, 0, Seq::empty(), host, reg, ed);
        lemma_value_to_state_keeps_place(s.last(), host, reg, before.ed);
        if list_to_state(s, 0, Seq::empty(), host, reg, ed).res is Ok {
            let all = list_to_state(s, 0, Seq::empty(), host, reg, ed).res->Ok_0;
            let first = before.res->Ok_0;
            assert(s.take(t.len() as int) =~= t);
            assert(all.drop_last() =~= first);
            assert forall|k: int| 0 <= k < s.len() implies ({
                let before = list_to_state(s.take(k), 0, Seq::empty(), host, reg, ed);
                value_to_state(s[k], host, reg, before.ed).res
                    == Ok::<LuauView, Seq<char>>(#[trigger] all[k])
            }) by {
                if k < t.len() {
                    assert(first[k] == all[k]);
                    assert(t[k] == s[k]);
                assert(s.take(k) =~= t.take(k));
                }
            }
        }
    }
}

/// What one value more adds to those that are converted already.
proof fn lemma_dict_to_state(
    s: Seq<(PLuauView, PLuauView)>,
    x: (PLuauView, PLuauView),
    i: int,
    done: Seq<(LuauView, LuauView)>,
    host: bool,
    reg: RegistryView,
    ed: EmbedderDataContext,
)
    requires
        0 <= i <= s.len(),
    ensures
        dict_to_state(s.push(x), i, done, host, reg, ed) == ({
            let before = dict_to_state(s, i, done, host, reg, ed);
            match before.res {
                Err(e) => before,
                Ok(all) => {
                    let key = value_to_state(x.0, host, reg, before.ed);
                    match key.res {
                        Err(e) => Charged { ed: key.ed, res: Err(e) },
                        Ok(k) => {
                            let val = value_to_state(x.1, host, reg, key.ed);
                            match val.res {
                                Err(e) => Charged { ed: val.ed,
                                    res: Err("Failed to convert value to Lua: "@ + e) },
                                Ok(p) => Charged { ed: val.ed, res: Ok(all.push((k, p))) },
                            }
                        },
                    }
                },
            }
        }),
    decreases s.len() - i,
{
    let more = s.push(x);
    if i == s.len() {
        reveal_with_fuel(dict_to_state, 2);
    } else {
        assert(more[i] == s[i]);
        let key = value_to_state(s[i].0, host, reg, ed);
        if key.res is Ok {
            let val = value_to_state(s[i].1, host, reg, key.ed);
            if val.res is Ok {
                lemma_dict_to_state(s, x, i + 1, done.push((key.res->Ok_0, val.res->Ok_0)), host,
                    reg, val.ed);
            }
        }
    }
}

/// One entry more of a map is converted after the others, the key first, and stands behind them.
pub proof fn law_entries_to_state_one_more(
    s: Seq<(PLuauView, PLuauView)>,
    x: (PLuauView, PLuauView),
    host: bool,
    reg: RegistryView,
    ed: EmbedderDataContext,
)
    ensures
        dict_to_state(s.push(x), 0, Seq::empty(), host, reg, ed) == ({
            let before = dict_to_state(s, 0, Seq::empty(), host, reg, ed);
            match before.res {
                Err(e) => before,
                Ok(all) => {
                    let key = value_to_state(x.0, host, reg, before.ed);
                    match key.res {
                        Err(e) => Charged { ed: key.ed, res: Err(e) },
                        Ok(k) => {
                            let val = value_to_state(x.1, host, reg, key.ed);
                            match val.res {
                                Err(e) => Charged { ed: val.ed,
                                    res: Err("Failed to convert value to Lua: "@ + e) },
                                Ok(p) => Charged { ed: val.ed, res: Ok(all.push((k, p))) },
                            }
                        },
                    }
                },
            }
        }),
{
    lemma_dict_to_state(s, x, 0, Seq::empty(), host, reg, ed);
}

/// Each entry of a map becomes what its key and its value become after those before it, and stands
/// in its place.
pub proof fn law_entries_to_state_one_by_one(
    s: Seq<(PLuauView, PLuauView)>,
    host: bool,
    reg: RegistryView,
    ed: EmbedderDataContext,
)
    ensures
        dict_to_state(Seq::empty(), 0, Seq::empty(), host, reg, ed)
            == (Charged { ed, res: Ok(Seq::<(LuauView, LuauView)>::empty()) }),
        dict_to_state(s, 0, Seq::empty(), host, reg, ed).res matches Ok(all) ==> all.len()
            == s.len() && forall|k: int|
            0 <= k < s.len() ==> ({
                let before = dict_to_state(s.take(k), 0, Seq::empty(), host, reg, ed);
                let key = value_to_state(s[k].0, host, reg, before.ed);
                let val = value_to_state(s[k].1, host, reg, key.ed);
                &&& key.res == Ok::<LuauView, Seq<char>>((#[trigger] all[k]).0)
                &&& val.res == Ok::<LuauView, Seq<char>>(all[k].1)
            }),
        dict_to_state(s, 0, Seq::empty(), host, reg, ed).ed.ed == ed.ed,
        dict_to_state(s, 0, Seq::empty(), host, reg, ed).ed.depth == ed.depth,
    decreases s.len(),
{
    if s.len() > 0 {
        let t = s.drop_last();
        assert(t.push(s.last()) =~= s);
        law_entries_to_state_one_more(t, s.last(), host, reg, ed);
        law_entries_to_state_one_by_one(t, host, reg, ed);
        let before = dict_to_state(t, 0, Seq::empty(), host, reg, ed);
        let key = value_to_state(s.last().0, host, reg, before.ed);
        lemma_value_to_state_keeps_place(s.last().0, host, reg, before.ed);
        lemma_value_to_state_keeps_place(s.last().1, host, reg, key.ed);
        if dict_to_state(s, 0, Seq::empty(), host, reg, ed).res is Ok {
            let all = dict_to_state(s, 0, Seq::empty(), host, reg, ed).res->Ok_0;
            let first = before.res->Ok_0;
            assert(s.take(t.len() as int) =~= t);
            assert(all.drop_last() =~= first);
            assert forall|k: int| 0 <= k < s.len() implies ({
                let before = dict_to_state(s.take(k), 0, Seq::empty(), host, reg, ed);
                let key = value_to_state(s[k].0, host, reg, before.ed);
                let val = value_to_state(s[k].1, host, reg, key.ed);
                &&& key.res == Ok::<LuauView, Seq<char>>((#[trigger] all[k]).0)
                &&& val.res == Ok::<LuauView, Seq<char>>(all[k].1)
            }) by {
                if k < t.len() {
                    assert(first[k] == all[k]);
                    assert(t[k] == s[k]);
                assert(s.take(k) =~= t.take(k));
                }
            }
        }
    }
}

/// What one value more adds to those that are converted already.
proof fn lemma_list_of_state(
    s: Seq<(LuauView, LuauView)>,
    x: (LuauView, LuauView),
    i: int,
    done: Seq<PLuauView>,
    host: bool,
    reg: RegistryView,
    ed: EmbedderDataContext,
)
    requires
        0 <= i <= s.len(),
    ensures
        list_of_state(s.push(x), i, done, host, reg, ed) == ({
            let before = list_of_state(s, i, done, host, reg, ed);
            match before.res {
                Err(e) => before,
                Ok(all) => {
                    let one = value_of_state(x.1, host, before.reg, before.ed);
                    match one.res {
                        Err(e) => Step { reg: one.reg, ed: one.ed, res: Err(e) },
                        Ok(p) => Step { reg: one.reg, ed: one.ed, res: Ok(all.push(p)) },
                    }
                },
            }
        }),
    decreases s.len() - i,
{
    let more = s.push(x);
    if i == s.len() {
        reveal_with_fuel(list_of_state, 2);
    } else {
        assert(more[i] == s[i]);
        let one = value_of_state(s[i].1, host, reg, ed);
        if one.res is Ok {
            lemma_list_of_state(s, x, i + 1, done.push(one.res->Ok_0), host, one.reg, one.ed);
        }
    }
}

/// One element more of an array is converted after the others, and stands behind them.
pub proof fn law_elements_of_state_one_more(
    s: Seq<(LuauView, LuauView)>,
    x: (LuauView, LuauView),
    host: bool,
    reg: RegistryView,
    ed: EmbedderDataContext,
)
    ensures
        list_of_state(s.push(x), 0, Seq::empty(), host, reg, ed) == ({
            let before = list_of_state(s, 0, Seq::empty(), host, reg, ed);
            match before.res {
                Err(e) => before,
                Ok(all) => {
                    let one = value_of_state(x.1, host, before.reg, before.ed);
                    match one.res {
                        Err(e) => Step { reg: one.reg, ed: one.ed, res: Err(e) },
                        Ok(p) => Step { reg: one.reg, ed: one.ed, res: Ok(all.push(p)) },
                    }
                },
            }
        }),
{
    lemma_list_of_state(s, x, 0, Seq::empty(), host, reg, ed);
}

/// Each element of an array becomes what it becomes after those before it, and stands in its place.
pub proof fn law_elements_of_state_one_by_one(
    s: Seq<(LuauView, LuauView)>,
    host: bool,
    reg: RegistryView,
    ed: EmbedderDataContext,
)
    ensures
        list_of_state(Seq::empty(), 0, Seq::empty(), host, reg, ed)
            == (Step { reg, ed, res: Ok(Seq::<PLuauView>::empty()) }),
        list_of_state(s, 0, Seq::empty(), host, reg, ed).res matches Ok(all) ==> all.len()
            == s.len() && forall|k: int|
            0 <= k < s.len() ==> ({
                let before = list_of_state(s.take(k), 0, Seq::empty(), host, reg, ed);
                value_of_state(s[k].1, host, before.reg, before.ed).res
                    == Ok::<PLuauView, Seq<char>>(#[trigger] all[k])
            }),
        list_of_state(s, 0, Seq::empty(), host, reg, ed).ed.ed == ed.ed,
        list_of_state(s, 0, Seq::empty(), host, reg, ed).ed.depth == ed.depth,
    decreases s.len(),
{
    if s.len() > 0 {
        let t = s.drop_last();
        assert(t.push(s.last()) =~= s);
        law_elements_of_state_one_more(t, s.last(), host, reg, ed);
        law_elements_of_state_one_by_one(t, host, reg, ed);
        let before = list_of_state(t, 0, Seq::empty(), host, reg, ed);
        lemma_value_of_state_keeps_place(s.last().1, host, before.reg, before.ed);
        if list_of_state(s, 0, Seq::empty(), host, reg, ed).res is Ok {
            let all = list_of_state(s, 0, Seq::empty(), host, reg, ed).res->Ok_0;
            let first = before.res->Ok_0;
            assert(s.take(t.len() as int) =~= t);
            assert(all.drop_last() =~= first);
            assert forall|k: int| 0 <= k < s.len() implies ({
                let before = list_of_state(s.take(k), 0, Seq::empty(), host, reg, ed);
                value_of_state(s[k].1, host, before.reg, before.ed).res
                    == Ok::<PLuauView, Seq<char>>(#[trigger] all[k])
            }) by {
                if k < t.len() {
                    assert(first[k] == all[k]);
                    assert(t[k] == s[k]);
                assert(s.take(k) =~= t.take(k));
                }
            }
        }
    }
}

/// What one value more adds to those that are converted already.
proof fn lemma_dict_of_state(
    s: Seq<(LuauView, LuauView)>,
    x: (LuauView, LuauView),
    i: int,
    done: Seq<(PLuauView, PLuauView)>,
    host: bool,
    reg: RegistryView,
    ed: EmbedderDataContext,
)
    requires
        0 <= i <= s.len(),
    ensures
        dict_of_state(s.push(x), i, done, host, reg, ed) == ({
            let before = dict_of_state(s, i, done, host, reg, ed);
            match before.res {
                Err(e) => before,
                Ok(all) => {
                    let key = value_of_state(x.0, host, before.reg, before.ed);
                    match key.res {
                        Err(e) => Step { reg: key.reg, ed: key.ed, res: Err(e) },
                        Ok(k) => {
                            let val = value_of_state(x.1, host, key.reg, key.ed);
                            match val.res {
                                Err(e) => Step { reg: val.reg, ed: val.ed, res: Err(e) },
                                Ok(p) => Step { reg: val.reg, ed: val.ed,
                                    res: Ok(all.push((k, p))) },
                            }
                        },
                    }
                },
            }
        }),
    decreases s.len() - i,
{
    let more = s.push(x);
    if i == s.len() {
        reveal_with_fuel(dict_of_state, 2);
    } else {
        assert(more[i] == s[i]);
        let key = value_of_state(s[i].0, host, reg, ed);
        if key.res is Ok {
            let val = value_of_state(s[i].1, host, key.reg, key.ed);
            if val.res is Ok {
                lemma_dict_of_state(s, x, i + 1, done.push((key.res->Ok_0, val.res->Ok_0)), host,
                    val.reg, val.ed);
            }
        }
    }
}

/// One entry more of a table is converted after the others, the key first, and stands behind them.
pub proof fn law_entries_of_state_one_more(
    s: Seq<(LuauView, LuauView)>,
    x: (LuauView, LuauView),
    host: bool,
    reg: RegistryView,
    ed: EmbedderDataContext,
)
    ensures
        dict_of_state(s.push(x), 0, Seq::empty(), host, reg, ed) == ({
            let before = dict_of_state(s, 0, Seq::empty(), host, reg, ed);
            match before.res {
                Err(e) => before,
                Ok(all) => {
                    let key = value_of_state(x.0, host, before.reg, before.ed);
                    match key.res {
                        Err(e) => Step { reg: key.reg, ed: key.ed, res: Err(e) },
                        Ok(k) => {
                            let val = value_of_state(x.1, host, key.reg, key.ed);
                            match val.res {
                                Err(e) => Step { reg: val.reg, ed: val.ed, res: Err(e) },
                                Ok(p) => Step { reg: val.reg, ed: val.ed,
                                    res: Ok(all.push((k, p))) },
                            }
                        },
                    }
                },
            }
        }),
{
    lemma_dict_of_state(s, x, 0, Seq::empty(), host, reg, ed);
}

/// Each entry of a table becomes what its key and its value become after those before it, and stands
/// in its place.
pub proof fn law_entries_of_state_one_by_one(
    s: Seq<(LuauView, LuauView)>,
    host: bool,
    reg: RegistryView,
    ed: EmbedderDataContext,
)
    ensures
        dict_of_state(Seq::empty(), 0, Seq::empty(), host, reg, ed)
            == (Step { reg, ed, res: Ok(Seq::<(PLuauView, PLuauView)>::empty()) }),
        dict_of_state(s, 0, Seq::empty(), host, reg, ed).res matches Ok(all) ==> all.len()
            == s.len() && forall|k: int|
            0 <= k < s.len() ==> ({
                let before = dict_of_state(s.take(k), 0, Seq::empty(), host, reg, ed);
                let key = value_of_state(s[k].0, host, before.reg, before.ed);
                let val = value_of_state(s[k].1, host, key.reg, key.ed);
                &&& key.res == Ok::<PLuauView, Seq<char>>((#[trigger] all[k]).0)
                &&& val.res == Ok::<PLuauView, Seq<char>>(all[k].1)
            }),
        dict_of_state(s, 0, Seq::empty(), host, reg, ed).ed.ed == ed.ed,
        dict_of_state(s, 0, Seq::empty(), host, reg, ed).ed.depth == ed.depth,
    decreases s.len(),
{
    if s.len() > 0 {
        let t = s.drop_last();
        assert(t.push(s.last()) =~= s);
        law_entries_of_state_one_more(t, s.last(), host, reg, ed);
        law_entries_of_state_one_by_one(t, host, reg, ed);
        let before = dict_of_state(t, 0, Seq::empty(), host, reg, ed);
        let key = value_of_state(s.last().0, host, before.reg, before.ed);
        lemma_value_of_state_keeps_place(s.last().0, host, before.reg, before.ed);
        lemma_value_of_state_keeps_place(s.last().1, host, key.reg, key.ed);
        if dict_of_state(s, 0, Seq::empty(), host, reg, ed).res is Ok {
            let all = dict_of_state(s, 0, Seq::empty(), host, reg, ed).res->Ok_0;
            let first = before.res->Ok_0;
            assert(s.take(t.len() as int) =~= t);
            assert(all.drop_last() =~= first);
            assert forall|k: int| 0 <= k < s.len() implies ({
                let before = dict_of_state(s.take(k), 0, Seq::empty(), host, reg, ed);
                let key = value_of_state(s[k].0, host, before.reg, before.ed);
                let val = value_of_state(s[k].1, host, key.reg, key.ed);
                &&& key.res == Ok::<PLuauView, Seq<char>>((#[trigger] all[k]).0)
                &&& val.res == Ok::<PLuauView, Seq<char>>(all[k].1)
            }) by {
                if k < t.len() {
                    assert(first[k] == all[k]);
                    assert(t[k] == s[k]);
                assert(s.take(k) =~= t.take(k));
                }
            }
        }
    }
}

/// What one value more adds to those that are converted already.
proof fn lemma_all_of_state(
    s: Seq<LuauView>,
    x: LuauView,
    i: int,
    done: Seq<PLuauView>,
    host: bool,
    reg: RegistryView,
    ed: EmbedderDataContext,
    what: Seq<char>,
)
    requires
        0 <= i <= s.len(),
    ensures
        all_of_state(s.push(x), i, done, host, reg, ed, what) == ({
            let before = all_of_state(s, i, done, host, reg, ed, what);
            match before.res {
                Err(e) => before,
                Ok(all) => {
                    let one = value_of_state(x, host, before.reg, before.ed);
                    match one.res {
                        Err(e) => Step { reg: one.reg, ed: one.ed, res: Err(what + e) },
                        Ok(p) => Step { reg: one.reg, ed: one.ed, res: Ok(all.push(p)) },
                    }
                },
            }
        }),
    decreases s.len() - i,
{
    let more = s.push(x);
    if i == s.len() {
        reveal_with_fuel(all_of_state, 2);
    } else {
        assert(more[i] == s[i]);
        let one = value_of_state(s[i], host, reg, ed);
        if one.res is Ok {
            lemma_all_of_state(s, x, i + 1, done.push(one.res->Ok_0), host, one.reg, one.ed, what);
        }
    }
}

/// One value more from a state is converted after the others, whatever it is, and stands behind them;
/// the text says what was being done where it cannot be.
pub proof fn law_values_from_state_one_more(
    s: Seq<LuauView>,
    x: LuauView,
    host: bool,
    reg: RegistryView,
    ed: EmbedderDataContext,
    what: Seq<char>,
)
    ensures
        all_of_state(s.push(x), 0, Seq::empty(), host, reg, ed, what) == ({
            let before = all_of_state(s, 0, Seq::empty(), host, reg, ed, what);
            match before.res {
                Err(e) => before,
                Ok(all) => {
                    let one = value_of_state(x, host, before.reg, before.ed);
                    match one.res {
                        Err(e) => Step { reg: one.reg, ed: one.ed, res: Err(what + e) },
                        Ok(p) => Step { reg: one.reg, ed: one.ed, res: Ok(all.push(p)) },
                    }
                },
            }
        }),
{
    lemma_all_of_state(s, x, 0, Seq::empty(), host, reg, ed, what);
}

/// Several values from a state become as many values, and each of them, nil like any other, becomes
/// what it becomes after those before it and stands in its place.
pub proof fn law_values_from_state_one_by_one(
    s: Seq<LuauView>,
    host: bool,
    reg: RegistryView,
    ed: EmbedderDataContext,
    what: Seq<char>,
)
    ensures
        all_of_state(Seq::empty(), 0, Seq::empty(), host, reg, ed, what)
            == (Step { reg, ed, res: Ok(Seq::<PLuauView>::empty()) }),
        all_of_state(s, 0, Seq::empty(), host, reg, ed, what).res matches Ok(all) ==> all.len()
            == s.len() && forall|k: int|
            0 <= k < s.len() ==> ({
                let before = all_of_state(s.take(k), 0, Seq::empty(), host, reg, ed, what);
                value_of_state(s[k], host, before.reg, before.ed).res
                    == Ok::<PLuauView, Seq<char>>(#[trigger] all[k])
            }),
        all_of_state(s, 0, Seq::empty(), host, reg, ed, what).ed.ed == ed.ed,
        all_of_state(s, 0, Seq::empty(), host, reg, ed, what).ed.depth == ed.depth,
    decreases s.len(),
{
    if s.len() > 0 {
        let t = s.drop_last();
        assert(t.push(s.last()) =~= s);
        law_values_from_state_one_more(t, s.last(), host, reg, ed, what);
        law_values_from_state_one_by_one(t, host, reg, ed, what);
        let before = all_of_state(t, 0, Seq::empty(), host, reg, ed, what);
        lemma_value_of_state_keeps_place(s.last(), host, before.reg, before.ed);
        if all_of_state(s, 0, Seq::empty(), host, reg, ed, what).res is Ok {
            let all = all_of_state(s, 0, Seq::empty(), host, reg, ed, what).res->Ok_0;
            let first = before.res->Ok_0;
            assert(s.take(t.len() as int) =~= t);
            assert(all.drop_last() =~= first);
            assert forall|k: int| 0 <= k < s.len() implies ({
                let before = all_of_state(s.take(k), 0, Seq::empty(), host, reg, ed, what);
                value_of_state(s[k], host, before.reg, before.ed).res
                    == Ok::<PLuauView, Seq<char>>(#[trigger] all[k])
            }) by {
                if k < t.len() {
                    assert(first[k] == all[k]);
                    assert(t[k] == s[k]);
                assert(s.take(k) =~= t.take(k));
                }
            }
        }
    }
}

/// What one value more adds to those that are converted already.
proof fn lemma_all_to_state(
    s: Seq<PLuauView>,
    x: PLuauView,
    i: int,
    done: Seq<LuauView>,
    host: bool,
    reg: RegistryView,
    ed: EmbedderDataContext,
    what: Seq<char>,
)
    requires
        0 <= i <= s.len(),
    ensures
        all_to_state(s.push(x), i, done, host, reg, ed, what) == ({
            let before = all_to_state(s, i, done, host, reg, ed, what);
            match before.res {
                Err(e) => before,
                Ok(all) => {
                    let one = value_to_state(x, host, reg, before.ed);
                    match one.res {
                        Err(e) => Charged { ed: one.ed, res: Err(what + e) },
                        Ok(p) => Charged { ed: one.ed, res: Ok(all.push(p)) },
                    }
                },
            }
        }),
    decreases s.len() - i,
{
    let more = s.push(x);
    if i == s.len() {
        reveal_with_fuel(all_to_state, 2);
    } else {
        assert(more[i] == s[i]);
        let one = value_to_state(s[i], host, reg, ed);
        if one.res is Ok {
            lemma_all_to_state(s, x, i + 1, done.push(one.res->Ok_0), host, reg, one.ed, what);
        }
    }
}

/// One value more to a state is converted after the others, whatever it is, and stands behind them;
/// the text says what was being done where it cannot be.
pub proof fn law_values_to_state_one_more(
    s: Seq<PLuauView>,
    x: PLuauView,
    host: bool,
    reg: RegistryView,
    ed: EmbedderDataContext,
    what: Seq<char>,
)
    ensures
        all_to_state(s.push(x), 0, Seq::empty(), host, reg, ed, what) == ({
            let before = all_to_state(s, 0, Seq::empty(), host, reg, ed, what);
            match before.res {
                Err(e) => before,
                Ok(all) => {
                    let one = value_to_state(x, host, reg, before.ed);
                    match one.res {
                        Err(e) => Charged { ed: one.ed, res: Err(what + e) },
                        Ok(p) => Charged { ed: one.ed, res: Ok(all.push(p)) },
                    }
                },
            }
        }),
{
    lemma_all_to_state(s, x, 0, Seq::empty(), host, reg, ed, what);
}

/// Several values become as many values in a state, and each of them becomes what it becomes after
/// those before it and stands in its place.
pub proof fn law_values_to_state_one_by_one(
    s: Seq<PLuauView>,
    host: bool,
    reg: RegistryView,
    ed: EmbedderDataContext,
    what: Seq<char>,
)
    ensures
        all_to_state(Seq::empty(), 0, Seq::empty(), host, reg, ed, what)
            == (Charged { ed, res: Ok(Seq::<LuauView>::empty()) }),
        all_to_state(s, 0, Seq::empty(), host, reg, ed, what).res matches Ok(all) ==> all.len()
            == s.len() && forall|k: int|
            0 <= k < s.len() ==> ({
                let before = all_to_state(s.take(k), 0, Seq::empty(), host, reg, ed, what);
                value_to_state(s[k], host, reg, before.ed).res
                    == Ok::<LuauView, Seq<char>>(#[trigger] all[k])
            }),
        all_to_state(s, 0, Seq::empty(), host, reg, ed, what).ed.ed == ed.ed,
        all_to_state(s, 0, Seq::empty(), host, reg, ed, what).ed.depth == ed.depth,
    decreases s.len(),
{
    if s.len() > 0 {
        let t = s.drop_last();
        assert(t.push(s.last()) =~= s);
        law_values_to_state_one_more(t, s.last(), host, reg, ed, what);
        law_values_to_state_one_by_one(t, host, reg, ed, what);
        let before = all_to_state(t, 0, Seq::empty(), host, reg, ed, what);
        lemma_value_to_state_keeps_place(s.last(), host, reg, before.ed);
        if all_to_state(s, 0, Seq::empty(), host, reg, ed, what).res is Ok {
            let all = all_to_state(s, 0, Seq::empty(), host, reg, ed, what).res->Ok_0;
            let first = before.res->Ok_0;
            assert(s.take(t.len() as int) =~= t);
            assert(all.drop_last() =~= first);
            assert forall|k: int| 0 <= k < s.len() implies ({
                let before = all_to_state(s.take(k), 0, Seq::empty(), host, reg, ed, what);
                value_to_state(s[k], host, reg, before.ed).res
                    == Ok::<LuauView, Seq<char>>(#[trigger] all[k])
            }) by {
                if k < t.len() {
                    assert(first[k] == all[k]);
                    assert(t[k] == s[k]);
                assert(s.take(k) =~= t.take(k));
                }
            }
        }
    }
}

/// What one value more adds to those that are converted already.
proof fn lemma_each_to_state(
    s: Seq<PLuauView>,
    x: PLuauView,
    i: int,
    done: Seq<LuauView>,
    host: bool,
    reg: RegistryView,
    ed: EmbedderData,
    what: Seq<char>,
)
    requires
        0 <= i <= s.len(),
    ensures
        each_to_state(s.push(x), i, done, host, reg, ed, what)
            == (match each_to_state(s, i, done, host, reg, ed, what) {
            Err(e) => Err(e),
            Ok(all) => match value_to_state(x, host, reg,
                (EmbedderDataContext { ed, depth: 0, size: 0 })).res {
                Err(e) => Err(what + e),
                Ok(p) => Ok(all.push(p)),
            },
        }),
    decreases s.len() - i,
{
    let more = s.push(x);
    if i == s.len() {
        reveal_with_fuel(each_to_state, 2);
    } else {
        assert(more[i] == s[i]);
        let one = value_to_state(s[i], host, reg,
            (EmbedderDataContext { ed, depth: 0, size: 0 })).res;
        if one is Ok {
            lemma_each_to_state(s, x, i + 1, done.push(one->Ok_0), host, reg, ed, what);
        }
    }
}

/// One value more is converted with an account of its own, whatever it is, and stands behind the
/// others; the text says what was being done where it cannot be.
pub proof fn law_values_to_state_apart_one_more(
    s: Seq<PLuauView>,
    x: PLuauView,
    host: bool,
    reg: RegistryView,
    ed: EmbedderData,
    what: Seq<char>,
)
    ensures
        each_to_state(s.push(x), 0, Seq::empty(), host, reg, ed, what)
            == (match each_to_state(s, 0, Seq::empty(), host, reg, ed, what) {
            Err(e) => Err(e),
            Ok(all) => match value_to_state(x, host, reg,
                (EmbedderDataContext { ed, depth: 0, size: 0 })).res {
                Err(e) => Err(what + e),
                Ok(p) => Ok(all.push(p)),
            },
        }),
{
    lemma_each_to_state(s, x, 0, Seq::empty(), host, reg, ed, what);
}

/// Several values become as many values in a state, and each of them becomes what it becomes on its
/// own, with a new account, and stands in its place.
pub proof fn law_values_to_state_apart_one_by_one(
    s: Seq<PLuauView>,
    host: bool,
    reg: RegistryView,
    ed: EmbedderData,
    what: Seq<char>,
)
    ensures
        each_to_state(Seq::empty(), 0, Seq::empty(), host, reg, ed, what)
            == Ok::<Seq<LuauView>, Seq<char>>(Seq::empty()),
        each_to_state(s, 0, Seq::empty(), host, reg, ed, what) matches Ok(all) ==> all.len()
            == s.len() && forall|k: int|
            0 <= k < s.len() ==> value_to_state(s[k], host, reg,
                (EmbedderDataContext { ed, depth: 0, size: 0 })).res
                    == Ok::<LuauView, Seq<char>>(#[trigger] all[k]),
    decreases s.len(),
{
    if s.len() > 0 {
        let t = s.drop_last();
        assert(t.push(s.last()) =~= s);
        law_values_to_state_apart_one_more(t, s.last(), host, reg, ed, what);
        law_values_to_state_apart_one_by_one(t, host, reg, ed, what);
        let before = each_to_state(t, 0, Seq::empty(), host, reg, ed, what);
        if each_to_state(s, 0, Seq::empty(), host, reg, ed, what) is Ok {
            let all = each_to_state(s, 0, Seq::empty(), host, reg, ed, what)->Ok_0;
            let first = before->Ok_0;
            assert(all.drop_last() =~= first);
            assert forall|k: int| 0 <= k < s.len() implies value_to_state(s[k], host, reg,
                (EmbedderDataContext { ed, depth: 0, size: 0 })).res
                    == Ok::<LuauView, Seq<char>>(#[trigger] all[k]) by {
                if k < t.len() {
                    assert(first[k] == all[k]);
                    assert(t[k] == s[k]);
                    }
            }
        }
    }
}

/// What is converted inside a container, and where.
proof fn lemma_inside_list_in_state_is_keyed_from_one(items: Seq<PLuauView>, host: bool,
    reg: RegistryView, ed: EmbedderDataContext) -> (c: EmbedderDataContext)
    ensures
        value_to_state(PLuauView::List(items), host, reg, ed).res matches Ok(t) ==> {
            &&& c.ed == ed.ed
            &&& c.depth == ed.depth + 1
            &&& list_to_state(items, 0, Seq::empty(), host, reg, c).res matches Ok(vs)
            &&& t == unfrozen_array(vs)
        },
{
    let p = PLuauView::List(items);
    let e1 = ed.after(1, "ProxiedLuauValue -> <base overhead>"@)->Ok_0;
    let e2 = e1.after(1, "ProxiedLuauPsuedoPrimitive -> <base overhead>"@)->Ok_0;
    let e3 = e2.after(items.len() as usize, "ProxiedLuauPsuedoPrimitive -> LuaArray"@)->Ok_0;
    let c = e3.child();
    assert(value_to_state(p, host, reg, ed).res is Ok ==> psuedo_to_state(p, host, reg, e1).res
        == value_to_state(p, host, reg, ed).res);
    c
}

/// A list of `n` items becomes a new array in a state, not frozen, that has the integer keys from 1 to
/// `n` and no other, and under the key `k + 1` what the item `k` becomes.
pub proof fn law_list_in_state_is_keyed_from_one(items: Seq<PLuauView>, host: bool,
    reg: RegistryView, ed: EmbedderDataContext)
    ensures
        value_to_state(PLuauView::List(items), host, reg, ed).res matches Ok(t) ==> {
            &&& t matches LuauView::Table { handle, frozen, metatable, len, entries: all }
            &&& handle == FRESH && !frozen && metatable == Metatable::Array && len
                == items.len() as usize
            &&& all.len() == items.len()
            &&& forall|k: int|
                0 <= k < items.len() ==> (#[trigger] all[k]).0 == LuauView::Integer((k + 1) as i64)
                    && inside_state(items[k], all[k].1, host, reg, ed)
        },
{
    let t = value_to_state(PLuauView::List(items), host, reg, ed);
    let c = lemma_inside_list_in_state_is_keyed_from_one(items, host, reg, ed);
    if t.res is Ok {
        let t = t.res->Ok_0;
        let vs = list_to_state(items, 0, Seq::empty(), host, reg, c).res->Ok_0;
        law_items_to_state_one_by_one(items, host, reg, c);
        let all = t->entries;
        assert forall|k: int| 0 <= k < items.len() implies (#[trigger] all[k]).0
            == LuauView::Integer((k + 1) as i64)
                && inside_state(items[k], all[k].1, host, reg, ed) by {
            let before = list_to_state(items.take(k), 0, Seq::empty(), host, reg, c);
            law_items_to_state_one_by_one(items.take(k), host, reg, c);
            assert(value_to_state(items[k], host, reg, before.ed).res
                == Ok::<LuauView, Seq<char>>(vs[k]));
            assert(all[k].1 == vs[k]);
        }
    }
}

/// What is converted inside a container, and where.
proof fn lemma_inside_map_in_state_keeps_its_entries(items: Seq<(PLuauView, PLuauView)>,
    host: bool, reg: RegistryView, ed: EmbedderDataContext) -> (c: EmbedderDataContext)
    ensures
        value_to_state(PLuauView::Dict(items), host, reg, ed).res matches Ok(t) ==> {
            &&& c.ed == ed.ed
            &&& c.depth == ed.depth + 1
            &&& dict_to_state(items, 0, Seq::empty(), host, reg, c).res matches Ok(vs)
            &&& t == unfrozen_table(vs)
        },
{
    let p = PLuauView::Dict(items);
    let e1 = ed.after(1, "ProxiedLuauValue -> <base overhead>"@)->Ok_0;
    let e2 = e1.after(1, "ProxiedLuauPsuedoPrimitive -> <base overhead>"@)->Ok_0;
    let e3 = e2.after(items.len() as usize, "ProxiedLuauPsuedoPrimitive -> LuaMap"@)->Ok_0;
    let c = e3.child();
    assert(value_to_state(p, host, reg, ed).res is Ok ==> psuedo_to_state(p, host, reg, e1).res
        == value_to_state(p, host, reg, ed).res);
    c
}

/// A map becomes a new table in a state, not frozen and without a metatable, with an entry for each of
/// its entries, in their order: what the key becomes, with what the value becomes.
pub proof fn law_map_in_state_keeps_its_entries(items: Seq<(PLuauView, PLuauView)>, host: bool,
    reg: RegistryView, ed: EmbedderDataContext)
    ensures
        value_to_state(PLuauView::Dict(items), host, reg, ed).res matches Ok(t) ==> {
            &&& t matches LuauView::Table { handle, frozen, metatable, entries: all, .. }
            &&& handle == FRESH && !frozen && metatable == Metatable::Absent
            &&& all.len() == items.len()
            &&& forall|k: int|
                0 <= k < items.len()
                    ==> inside_state(items[k].0, (#[trigger] all[k]).0, host, reg, ed)
                        && inside_state(items[k].1, all[k].1, host, reg, ed)
        },
{
    let t = value_to_state(PLuauView::Dict(items), host, reg, ed);
    let c = lemma_inside_map_in_state_keeps_its_entries(items, host, reg, ed);
    if t.res is Ok {
        let t = t.res->Ok_0;
        let vs = dict_to_state(items, 0, Seq::empty(), host, reg, c).res->Ok_0;
        law_entries_to_state_one_by_one(items, host, reg, c);
        let all = t->entries;
        assert forall|k: int| 0 <= k < items.len() implies inside_state(items[k].0,
            (#[trigger] all[k]).0, host, reg, ed)
                && inside_state(items[k].1, all[k].1, host, reg, ed) by {
            let before = dict_to_state(items.take(k), 0, Seq::empty(), host, reg, c);
            law_entries_to_state_one_by_one(items.take(k), host, reg, c);
            let key = value_to_state(items[k].0, host, reg, before.ed);
            lemma_value_to_state_keeps_place(items[k].0, host, reg, before.ed);
            assert(value_to_state(items[k].0, host, reg, before.ed).res
                == Ok::<LuauView, Seq<char>>(vs[k].0));
            assert(value_to_state(items[k].1, host, reg, key.ed).res
                == Ok::<LuauView, Seq<char>>(vs[k].1));
            assert(all[k] == vs[k]);
        }
    }
}

/// What is converted inside a container, and where.
proof fn lemma_inside_array_of_state_keeps_its_elements(
    handle: u64,
    frozen: bool,
    metatable: Metatable,
    len: usize,
    items: Seq<(LuauView, LuauView)>,
    host: bool,
    reg: RegistryView,
    ed: EmbedderDataContext,
) -> (c: EmbedderDataContext)
    requires
        metatable == Metatable::Array,
    ensures
        value_of_state(LuauView::Table { handle, frozen, metatable, len, entries: items }, host,
            reg, ed).res matches Ok(p) ==> {
            &&& c.ed == ed.ed
            &&& c.depth == ed.depth + 1
            &&& list_of_state(items, 0, Seq::empty(), host, reg, c).res matches Ok(vs)
            &&& p == PLuauView::List(vs)
        },
{
    let v = LuauView::Table { handle, frozen, metatable, len, entries: items };
    let e1 = ed.sibling().after(1, "ProxiedLuauPsuedoPrimitive -> <base overhead>"@)->Ok_0;
    let e2 = e1.after(len, "ProxiedLuauPsuedoPrimitive -> LuaArray"@)->Ok_0;
    let c = e2.child();
    assert(value_of_state(v, host, reg, ed).res is Ok
        ==> psuedo_of_state(v, host, reg, ed.sibling()).res
        == Ok::<Option<PLuauView>, Seq<char>>(Some(value_of_state(v, host, reg, ed).res->Ok_0)));
    c
}

/// An array of a state, frozen or not, becomes a list of as many items, the `k`th of which is what its
/// element `k` becomes.
pub proof fn law_array_of_state_keeps_its_elements(
    handle: u64,
    frozen: bool,
    metatable: Metatable,
    len: usize,
    items: Seq<(LuauView, LuauView)>,
    host: bool,
    reg: RegistryView,
    ed: EmbedderDataContext,
)
    requires
        metatable == Metatable::Array,
    ensures
        value_of_state(LuauView::Table { handle, frozen, metatable, len, entries: items }, host,
            reg, ed).res matches Ok(p) ==> {
            &&& p matches PLuauView::List(all)
            &&& all.len() == items.len()
            &&& forall|k: int|
                0 <= k < items.len() ==> from_state_inside(items[k].1, #[trigger] all[k], host, ed)
        },
{
    let t = value_of_state(LuauView::Table { handle, frozen, metatable, len, entries: items },
        host, reg, ed);
    let c = lemma_inside_array_of_state_keeps_its_elements(handle, frozen, metatable, len, items,
        host, reg, ed);
    if t.res is Ok {
        law_elements_of_state_one_by_one(items, host, reg, c);
        let all = t.res->Ok_0->List_0;
        assert forall|k: int| 0 <= k < items.len() implies from_state_inside(items[k].1,
            #[trigger] all[k], host, ed) by {
            let before = list_of_state(items.take(k), 0, Seq::empty(), host, reg, c);
            law_elements_of_state_one_by_one(items.take(k), host, reg, c);
            assert(value_of_state(items[k].1, host, before.reg, before.ed).res
                == Ok::<PLuauView, Seq<char>>(all[k]));
        }
    }
}

/// What is converted inside a container, and where.
proof fn lemma_inside_table_of_state_keeps_its_entries(
    handle: u64,
    frozen: bool,
    metatable: Metatable,
    len: usize,
    items: Seq<(LuauView, LuauView)>,
    host: bool,
    reg: RegistryView,
    ed: EmbedderDataContext,
) -> (c: EmbedderDataContext)
    requires
        metatable == Metatable::Absent,
    ensures
        value_of_state(LuauView::Table { handle, frozen, metatable, len, entries: items }, host,
            reg, ed).res matches Ok(p) ==> {
            &&& c.ed == ed.ed
            &&& c.depth == ed.depth + 1
            &&& dict_of_state(items, 0, Seq::empty(), host, reg, c).res matches Ok(vs)
            &&& p == PLuauView::Dict(vs)
        },
{
    let v = LuauView::Table { handle, frozen, metatable, len, entries: items };
    let e1 = ed.sibling().after(1, "ProxiedLuauPsuedoPrimitive -> <base overhead>"@)->Ok_0;
    let c = e1.child();
    assert(value_of_state(v, host, reg, ed).res is Ok
        ==> psuedo_of_state(v, host, reg, ed.sibling()).res
        == Ok::<Option<PLuauView>, Seq<char>>(Some(value_of_state(v, host, reg, ed).res->Ok_0)));
    c
}

/// A table of a state without a metatable, frozen or not, becomes a map with an entry for each of its
/// entries, in their order: what the key becomes, with what the value becomes.
pub proof fn law_table_of_state_keeps_its_entries(
    handle: u64,
    frozen: bool,
    metatable: Metatable,
    len: usize,
    items: Seq<(LuauView, LuauView)>,
    host: bool,
    reg: RegistryView,
    ed: EmbedderDataContext,
)
    requires
        metatable == Metatable::Absent,
    ensures
        value_of_state(LuauView::Table { handle, frozen, metatable, len, entries: items }, host,
            reg, ed).res matches Ok(p) ==> {
            &&& p matches PLuauView::Dict(all)
            &&& all.len() == items.len()
            &&& forall|k: int|
                0 <= k < items.len()
                    ==> from_state_inside(items[k].0, (#[trigger] all[k]).0, host, ed)
                        && from_state_inside(items[k].1, all[k].1, host, ed)
        },
{
    let t = value_of_state(LuauView::Table { handle, frozen, metatable, len, entries: items },
        host, reg, ed);
    let c = lemma_inside_table_of_state_keeps_its_entries(handle, frozen, metatable, len, items,
        host, reg, ed);
    if t.res is Ok {
        law_entries_of_state_one_by_one(items, host, reg, c);
        let all = t.res->Ok_0->Dict_0;
        assert forall|k: int| 0 <= k < items.len() implies from_state_inside(items[k].0,
            (#[trigger] all[k]).0, host, ed)
                && from_state_inside(items[k].1, all[k].1, host, ed) by {
            let before = dict_of_state(items.take(k), 0, Seq::empty(), host, reg, c);
            law_entries_of_state_one_by_one(items.take(k), host, reg, c);
            let key = value_of_state(items[k].0, host, before.reg, before.ed);
            lemma_value_of_state_keeps_place(items[k].0, host, before.reg, before.ed);
            assert(value_of_state(items[k].0, host, before.reg, before.ed).res
                == Ok::<PLuauView, Seq<char>>(all[k].0));
            assert(value_of_state(items[k].1, host, key.reg, key.ed).res
                == Ok::<PLuauView, Seq<char>>(all[k].1));
        }
    }
}

/// An array of `n` elements that is copied to the other state arrives as a new array, not frozen, that
/// has the integer keys from 1 to `n` and no other: under the key `k + 1` stands the copy of the
/// element `k`, that is what the element becomes on its way and then in the other state.
pub proof fn law_copied_array_is_keyed_from_one(
    handle: u64,
    frozen: bool,
    len: usize,
    items: Seq<(LuauView, LuauView)>,
    host: bool,
    reg: RegistryView,
    ed: EmbedderDataContext,
    other: RegistryView,
    at: EmbedderDataContext,
)
    ensures
        ({
            let array = LuauView::Table {
                handle,
                frozen,
                metatable: Metatable::Array,
                len,
                entries: items,
            };
            value_of_state(array, host, reg, ed).res matches Ok(p) ==> value_to_state(
                p,
                !host,
                other,
                at,
            ).res matches Ok(t) ==> {
                &&& t matches LuauView::Table { handle, frozen, metatable, len, entries: all }
                &&& handle == FRESH && !frozen && metatable == Metatable::Array && len
                    == items.len() as usize
                &&& all.len() == items.len()
                &&& forall|k: int|
                    0 <= k < items.len() ==> (#[trigger] all[k]).0 == LuauView::Integer(
                        (k + 1) as i64,
                    ) && copied_inside(items[k].1, all[k].1, host, ed, other, at)
            }
        }),
{
    let array = LuauView::Table {
        handle,
        frozen,
        metatable: Metatable::Array,
        len,
        entries: items,
    };
    let sent = value_of_state(array, host, reg, ed);
    law_array_of_state_keeps_its_elements(handle, frozen, Metatable::Array, len, items, host, reg,
        ed);
    if sent.res is Ok {
        let vs = sent.res->Ok_0->List_0;
        law_list_in_state_is_keyed_from_one(vs, !host, other, at);
        let got = value_to_state(sent.res->Ok_0, !host, other, at);
        if got.res is Ok {
            let all = got.res->Ok_0->entries;
            assert forall|k: int| 0 <= k < items.len() implies (#[trigger] all[k]).0
                == LuauView::Integer((k + 1) as i64) && copied_inside(
                items[k].1,
                all[k].1,
                host,
                ed,
                other,
                at,
            ) by {
                assert(from_state_inside(items[k].1, vs[k], host, ed));
                assert(inside_state(vs[k], all[k].1, !host, other, at));
            }
        }
    }
}

/// Whether a value of a state becomes that value of the other state, where it is inside a container
/// that is copied with those accounts.
pub open spec fn copied_inside(
    v: LuauView,
    w: LuauView,
    host: bool,
    ed: EmbedderDataContext,
    other: RegistryView,
    at: EmbedderDataContext,
) -> bool {
    exists|p: PLuauView|
        #[trigger] from_state_inside(v, p, host, ed) && inside_state(p, w, !host, other, at)
}

/// A table without a metatable that is copied to the other state arrives as a new table without
/// one, not frozen, with an entry for each of its entries, in their order: the copy of the key, with
/// the copy of the value.
pub proof fn law_copied_table_keeps_its_entries(
    handle: u64,
    frozen: bool,
    len: usize,
    items: Seq<(LuauView, LuauView)>,
    host: bool,
    reg: RegistryView,
    ed: EmbedderDataContext,
    other: RegistryView,
    at: EmbedderDataContext,
)
    ensures
        ({
            let table = LuauView::Table {
                handle,
                frozen,
                metatable: Metatable::Absent,
                len,
                entries: items,
            };
            value_of_state(table, host, reg, ed).res matches Ok(p) ==> value_to_state(
                p,
                !host,
                other,
                at,
            ).res matches Ok(t) ==> {
                &&& t matches LuauView::Table { handle, frozen, metatable, entries: all, .. }
                &&& handle == FRESH && !frozen && metatable == Metatable::Absent
                &&& all.len() == items.len()
                &&& forall|k: int|
                    0 <= k < items.len() ==> copied_inside(
                        items[k].0,
                        (#[trigger] all[k]).0,
                        host,
                        ed,
                        other,
                        at,
                    ) && copied_inside(items[k].1, all[k].1, host, ed, other, at)
            }
        }),
{
    let table = LuauView::Table {
        handle,
        frozen,
        metatable: Metatable::Absent,
        len,
        entries: items,
    };
    let sent = value_of_state(table, host, reg, ed);
    law_table_of_state_keeps_its_entries(handle, frozen, Metatable::Absent, len, items, host, reg,
        ed);
    if sent.res is Ok {
        let vs = sent.res->Ok_0->Dict_0;
        law_map_in_state_keeps_its_entries(vs, !host, other, at);
        let got = value_to_state(sent.res->Ok_0, !host, other, at);
        if got.res is Ok {
            let all = got.res->Ok_0->entries;
            assert forall|k: int| 0 <= k < items.len() implies copied_inside(
                items[k].0,
                (#[trigger] all[k]).0,
                host,
                ed,
                other,
                at,
            ) && copied_inside(items[k].1, all[k].1, host, ed, other, at) by {
                assert(from_state_inside(items[k].0, vs[k].0, host, ed));
                assert(from_state_inside(items[k].1, vs[k].1, host, ed));
                assert(inside_state(vs[k].0, all[k].0, !host, other, at));
            }
        }
    }
}

/// How much was charged before does not change what a value becomes, as long as there is enough left.
proof fn lemma_value_of_state_with_less_charged(
    v: LuauView,
    host: bool,
    reg: RegistryView,
    ed: EmbedderDataContext,
    less: EmbedderDataContext,
)
    requires
        less.ed == ed.ed,
        less.depth == ed.depth,
        less.size <= ed.size,
        value_of_state(v, host, reg, ed).res is Ok,
    ensures
        value_of_state(v, host, reg, less).res == value_of_state(v, host, reg, ed).res,
        value_of_state(v, host, reg, less).reg == value_of_state(v, host, reg, ed).reg,
{
    assert(ed.sibling() == less.sibling());
}

/// Each of several values from a state becomes what it becomes on its own, with an account of its own and
/// the objects that were handed out before it; nil becomes nil.
pub proof fn law_values_from_state_on_their_own(
    s: Seq<LuauView>,
    host: bool,
    reg: RegistryView,
    ed: EmbedderDataContext,
    what: Seq<char>,
)
    ensures
        all_of_state(s, 0, Seq::empty(), host, reg, ed, what).res matches Ok(all) ==> all.len()
            == s.len()
            && forall|k: int|
            0 <= k < s.len() ==> ({
                let alone = EmbedderDataContext { ed: ed.ed, depth: ed.depth, size: 0 };
                let before = all_of_state(s.take(k), 0, Seq::empty(), host, reg, ed, what).reg;
                &&& value_of_state(s[k], host, before, alone).res
                    == Ok::<PLuauView, Seq<char>>(#[trigger] all[k])
                &&& s[k] is Nil ==> all[k] is Nil
            }),
{
    law_values_from_state_one_by_one(s, host, reg, ed, what);
    let done = all_of_state(s, 0, Seq::empty(), host, reg, ed, what);
    if done.res is Ok {
        let all = done.res->Ok_0;
        let alone = EmbedderDataContext { ed: ed.ed, depth: ed.depth, size: 0 };
        assert forall|k: int| 0 <= k < s.len() implies ({
            let before = all_of_state(s.take(k), 0, Seq::empty(), host, reg, ed, what).reg;
            &&& value_of_state(s[k], host, before, alone).res
                == Ok::<PLuauView, Seq<char>>(#[trigger] all[k])
            &&& s[k] is Nil ==> all[k] is Nil
        }) by {
            let before = all_of_state(s.take(k), 0, Seq::empty(), host, reg, ed, what);
            law_values_from_state_one_by_one(s.take(k), host, reg, ed, what);
            lemma_value_of_state_with_less_charged(s[k], host, before.reg, before.ed, alone);
        }
    }
}

} // verus!
