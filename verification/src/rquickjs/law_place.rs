//! Values keep what they hold on their way into and out of QuickJS.

use vstd::prelude::*;
use vstd::utf8::encode_utf8;

use crate::base::deno::pushed;
use crate::base::law_place::law_pushed_values_are_keyed_from_one;
use crate::luau::value::{LuauView, Metatable, PayloadView, FRESH};
use crate::rquickjs::runtime::{all_of_qjs, returned_to_qjs};
use crate::rquickjs::value::{
    all_in_qjs, entries_in_qjs, in_qjs, items_of_qjs, of_qjs, props_of_qjs, QjsStep, QjsTreeView,
    QjsView, StoresView,
};

verus! {

/// What one value more adds to those that are converted already.
proof fn lemma_entries_in_qjs(
    s: Seq<(LuauView, LuauView)>,
    x: (LuauView, LuauView),
    i: int,
    done: Seq<(QjsTreeView, QjsTreeView)>,
)
    requires
        0 <= i <= s.len(),
    ensures
        entries_in_qjs(s.push(x), i, done) == (match entries_in_qjs(s, i, done) {
            Err(e) => Err(e),
            Ok(all) => match in_qjs(x.0) {
                Err(e) => Err("Failed to proxy key: "@ + e),
                Ok(k) => match in_qjs(x.1) {
                    Err(e) => Err("Failed to proxy value: "@ + e),
                    Ok(p) => Ok(all.push((k, p))),
                },
            },
        }),
    decreases s.len() - i,
{
    let more = s.push(x);
    if i == s.len() {
        reveal_with_fuel(entries_in_qjs, 2);
    } else {
        assert(more[i] == s[i]);
        let key = in_qjs(s[i].0);
        if key is Ok {
            let val = in_qjs(s[i].1);
            if val is Ok {
                lemma_entries_in_qjs(s, x, i + 1, done.push((key->Ok_0, val->Ok_0)));
            }
        }
    }
}

/// One entry more of a table is converted after the others, the key first, and stands behind them.
pub proof fn law_entries_in_qjs_one_more(
    s: Seq<(LuauView, LuauView)>,
    x: (LuauView, LuauView),
)
    ensures
        entries_in_qjs(s.push(x), 0, Seq::empty()) == (match entries_in_qjs(s, 0, Seq::empty()) {
            Err(e) => Err(e),
            Ok(all) => match in_qjs(x.0) {
                Err(e) => Err("Failed to proxy key: "@ + e),
                Ok(k) => match in_qjs(x.1) {
                    Err(e) => Err("Failed to proxy value: "@ + e),
                    Ok(p) => Ok(all.push((k, p))),
                },
            },
        }),
{
    lemma_entries_in_qjs(s, x, 0, Seq::empty());
}

/// Each entry of a table becomes what its key and its value become on their own, and stands in its
/// place.
pub proof fn law_entries_in_qjs_one_by_one(
    s: Seq<(LuauView, LuauView)>,
)
    ensures
        entries_in_qjs(Seq::empty(), 0, Seq::empty())
            == Ok::<Seq<(QjsTreeView, QjsTreeView)>, Seq<char>>(Seq::empty()),
        entries_in_qjs(s, 0, Seq::empty()) matches Ok(all) ==> all.len() == s.len()
            && forall|k: int|
            0 <= k < s.len() ==> in_qjs(s[k].0)
                == Ok::<QjsTreeView, Seq<char>>((#[trigger] all[k]).0) && in_qjs(s[k].1)
                    == Ok::<QjsTreeView, Seq<char>>(all[k].1),
    decreases s.len(),
{
    if s.len() > 0 {
        let t = s.drop_last();
        assert(t.push(s.last()) =~= s);
        law_entries_in_qjs_one_more(t, s.last());
        law_entries_in_qjs_one_by_one(t);
        let before = entries_in_qjs(t, 0, Seq::empty());
        if entries_in_qjs(s, 0, Seq::empty()) is Ok {
            let all = entries_in_qjs(s, 0, Seq::empty())->Ok_0;
            let first = before->Ok_0;
            assert(all.drop_last() =~= first);
            assert forall|k: int| 0 <= k < s.len() implies in_qjs(s[k].0)
                == Ok::<QjsTreeView, Seq<char>>((#[trigger] all[k]).0) && in_qjs(s[k].1)
                    == Ok::<QjsTreeView, Seq<char>>(all[k].1) by {
                if k < t.len() {
                    assert(first[k] == all[k]);
                    assert(t[k] == s[k]);
                    }
            }
        }
    }
}

/// What one value more adds to those that are converted already.
proof fn lemma_all_in_qjs(
    s: Seq<LuauView>,
    x: LuauView,
    i: int,
    done: Seq<QjsTreeView>,
    what: Seq<char>,
)
    requires
        0 <= i <= s.len(),
    ensures
        all_in_qjs(s.push(x), i, done, what) == (match all_in_qjs(s, i, done, what) {
            Err(e) => Err(e),
            Ok(all) => match in_qjs(x) {
                Err(e) => Err(what + e),
                Ok(p) => Ok(all.push(p)),
            },
        }),
    decreases s.len() - i,
{
    let more = s.push(x);
    if i == s.len() {
        reveal_with_fuel(all_in_qjs, 2);
    } else {
        assert(more[i] == s[i]);
        let one = in_qjs(s[i]);
        if one is Ok {
            lemma_all_in_qjs(s, x, i + 1, done.push(one->Ok_0), what);
        }
    }
}

/// One value more is converted after the others, whatever it is, and stands behind them; the text says
/// what was being done where it cannot be.
pub proof fn law_values_in_qjs_one_more(
    s: Seq<LuauView>,
    x: LuauView,
    what: Seq<char>,
)
    ensures
        all_in_qjs(s.push(x), 0, Seq::empty(), what)
            == (match all_in_qjs(s, 0, Seq::empty(), what) {
            Err(e) => Err(e),
            Ok(all) => match in_qjs(x) {
                Err(e) => Err(what + e),
                Ok(p) => Ok(all.push(p)),
            },
        }),
{
    lemma_all_in_qjs(s, x, 0, Seq::empty(), what);
}

/// Several values become as many values of QuickJS, and each of them, nil like any other, becomes what
/// it becomes on its own and stands in its place.
pub proof fn law_values_in_qjs_one_by_one(
    s: Seq<LuauView>,
    what: Seq<char>,
)
    ensures
        all_in_qjs(Seq::empty(), 0, Seq::empty(), what)
            == Ok::<Seq<QjsTreeView>, Seq<char>>(Seq::empty()),
        all_in_qjs(s, 0, Seq::empty(), what) matches Ok(all) ==> all.len() == s.len()
            && forall|k: int|
            0 <= k < s.len() ==> in_qjs(s[k]) == Ok::<QjsTreeView, Seq<char>>(#[trigger] all[k]),
    decreases s.len(),
{
    if s.len() > 0 {
        let t = s.drop_last();
        assert(t.push(s.last()) =~= s);
        law_values_in_qjs_one_more(t, s.last(), what);
        law_values_in_qjs_one_by_one(t, what);
        let before = all_in_qjs(t, 0, Seq::empty(), what);
        if all_in_qjs(s, 0, Seq::empty(), what) is Ok {
            let all = all_in_qjs(s, 0, Seq::empty(), what)->Ok_0;
            let first = before->Ok_0;
            assert(all.drop_last() =~= first);
            assert forall|k: int| 0 <= k < s.len() implies in_qjs(s[k])
                == Ok::<QjsTreeView, Seq<char>>(#[trigger] all[k]) by {
                if k < t.len() {
                    assert(first[k] == all[k]);
                    assert(t[k] == s[k]);
                    }
            }
        }
    }
}

/// What one value more adds to those that are converted already.
proof fn lemma_items_of_qjs(
    s: Seq<QjsView>,
    x: QjsView,
    i: int,
    done: Seq<LuauView>,
    stores: StoresView,
)
    requires
        0 <= i <= s.len(),
    ensures
        items_of_qjs(s.push(x), i, done, stores) == ({
            let before = items_of_qjs(s, i, done, stores);
            match before.res {
                Err(e) => before,
                Ok(all) => {
                    let one = of_qjs(x, before.stores);
                    match one.res {
                        Err(e) => QjsStep { stores: one.stores, res: Err(e) },
                        Ok(p) => QjsStep { stores: one.stores, res: Ok(all.push(p)) },
                    }
                },
            }
        }),
    decreases s.len() - i,
{
    let more = s.push(x);
    if i == s.len() {
        reveal_with_fuel(items_of_qjs, 2);
    } else {
        assert(more[i] == s[i]);
        let one = of_qjs(s[i], stores);
        if one.res is Ok {
            lemma_items_of_qjs(s, x, i + 1, done.push(one.res->Ok_0), one.stores);
        }
    }
}

/// One element more of an array is converted after the others, and stands behind them.
pub proof fn law_items_of_qjs_one_more(
    s: Seq<QjsView>,
    x: QjsView,
    stores: StoresView,
)
    ensures
        items_of_qjs(s.push(x), 0, Seq::empty(), stores) == ({
            let before = items_of_qjs(s, 0, Seq::empty(), stores);
            match before.res {
                Err(e) => before,
                Ok(all) => {
                    let one = of_qjs(x, before.stores);
                    match one.res {
                        Err(e) => QjsStep { stores: one.stores, res: Err(e) },
                        Ok(p) => QjsStep { stores: one.stores, res: Ok(all.push(p)) },
                    }
                },
            }
        }),
{
    lemma_items_of_qjs(s, x, 0, Seq::empty(), stores);
}

/// Each element of an array becomes what it becomes after those before it, and stands in its place.
pub proof fn law_items_of_qjs_one_by_one(
    s: Seq<QjsView>,
    stores: StoresView,
)
    ensures
        items_of_qjs(Seq::empty(), 0, Seq::empty(), stores)
            == (QjsStep { stores, res: Ok(Seq::<LuauView>::empty()) }),
        items_of_qjs(s, 0, Seq::empty(), stores).res matches Ok(all) ==> all.len() == s.len()
            && forall|k: int|
            0 <= k < s.len() ==> ({
                let before = items_of_qjs(s.take(k), 0, Seq::empty(), stores);
                of_qjs(s[k], before.stores).res == Ok::<LuauView, Seq<char>>(#[trigger] all[k])
            }),
    decreases s.len(),
{
    if s.len() > 0 {
        let t = s.drop_last();
        assert(t.push(s.last()) =~= s);
        law_items_of_qjs_one_more(t, s.last(), stores);
        law_items_of_qjs_one_by_one(t, stores);
        let before = items_of_qjs(t, 0, Seq::empty(), stores);
        if items_of_qjs(s, 0, Seq::empty(), stores).res is Ok {
            let all = items_of_qjs(s, 0, Seq::empty(), stores).res->Ok_0;
            let first = before.res->Ok_0;
            assert(s.take(t.len() as int) =~= t);
            assert(all.drop_last() =~= first);
            assert forall|k: int| 0 <= k < s.len() implies ({
                let before = items_of_qjs(s.take(k), 0, Seq::empty(), stores);
                of_qjs(s[k], before.stores).res == Ok::<LuauView, Seq<char>>(#[trigger] all[k])
            }) by {
                if k < t.len() {
                    assert(first[k] == all[k]);
                    assert(t[k] == s[k]);
                assert(s.take(k) =~= t.take(k));
                }
            }
        }
    }
}

/// What one value more adds to those that are converted already.
proof fn lemma_props_of_qjs(
    s: Seq<(QjsView, QjsView)>,
    x: (QjsView, QjsView),
    i: int,
    done: Seq<(LuauView, LuauView)>,
    stores: StoresView,
)
    requires
        0 <= i <= s.len(),
    ensures
        props_of_qjs(s.push(x), i, done, stores) == ({
            let before = props_of_qjs(s, i, done, stores);
            match before.res {
                Err(e) => before,
                Ok(all) => {
                    let key = of_qjs(x.0, before.stores);
                    match key.res {
                        Err(e) => QjsStep { stores: key.stores, res: Err(e) },
                        Ok(k) => {
                            let val = of_qjs(x.1, key.stores);
                            match val.res {
                                Err(e) => QjsStep { stores: val.stores, res: Err(e) },
                                Ok(p) => QjsStep { stores: val.stores, res: Ok(all.push((k, p))) },
                            }
                        },
                    }
                },
            }
        }),
    decreases s.len() - i,
{
    let more = s.push(x);
    if i == s.len() {
        reveal_with_fuel(props_of_qjs, 2);
    } else {
        assert(more[i] == s[i]);
        let key = of_qjs(s[i].0, stores);
        if key.res is Ok {
            let val = of_qjs(s[i].1, key.stores);
            if val.res is Ok {
                lemma_props_of_qjs(s, x, i + 1, done.push((key.res->Ok_0, val.res->Ok_0)),
                    val.stores);
            }
        }
    }
}

/// One property more of an object is converted after the others, the key first, and stands behind them.
pub proof fn law_props_of_qjs_one_more(
    s: Seq<(QjsView, QjsView)>,
    x: (QjsView, QjsView),
    stores: StoresView,
)
    ensures
        props_of_qjs(s.push(x), 0, Seq::empty(), stores) == ({
            let before = props_of_qjs(s, 0, Seq::empty(), stores);
            match before.res {
                Err(e) => before,
                Ok(all) => {
                    let key = of_qjs(x.0, before.stores);
                    match key.res {
                        Err(e) => QjsStep { stores: key.stores, res: Err(e) },
                        Ok(k) => {
                            let val = of_qjs(x.1, key.stores);
                            match val.res {
                                Err(e) => QjsStep { stores: val.stores, res: Err(e) },
                                Ok(p) => QjsStep { stores: val.stores, res: Ok(all.push((k, p))) },
                            }
                        },
                    }
                },
            }
        }),
{
    lemma_props_of_qjs(s, x, 0, Seq::empty(), stores);
}

/// Each property of an object becomes what its key and its value become after those before it, and
/// stands in its place.
pub proof fn law_props_of_qjs_one_by_one(
    s: Seq<(QjsView, QjsView)>,
    stores: StoresView,
)
    ensures
        props_of_qjs(Seq::empty(), 0, Seq::empty(), stores)
            == (QjsStep { stores, res: Ok(Seq::<(LuauView, LuauView)>::empty()) }),
        props_of_qjs(s, 0, Seq::empty(), stores).res matches Ok(all) ==> all.len() == s.len()
            && forall|k: int|
            0 <= k < s.len() ==> ({
                let before = props_of_qjs(s.take(k), 0, Seq::empty(), stores);
                let key = of_qjs(s[k].0, before.stores);
                let val = of_qjs(s[k].1, key.stores);
                &&& key.res == Ok::<LuauView, Seq<char>>((#[trigger] all[k]).0)
                &&& val.res == Ok::<LuauView, Seq<char>>(all[k].1)
            }),
    decreases s.len(),
{
    if s.len() > 0 {
        let t = s.drop_last();
        assert(t.push(s.last()) =~= s);
        law_props_of_qjs_one_more(t, s.last(), stores);
        law_props_of_qjs_one_by_one(t, stores);
        let before = props_of_qjs(t, 0, Seq::empty(), stores);
        if props_of_qjs(s, 0, Seq::empty(), stores).res is Ok {
            let all = props_of_qjs(s, 0, Seq::empty(), stores).res->Ok_0;
            let first = before.res->Ok_0;
            assert(s.take(t.len() as int) =~= t);
            assert(all.drop_last() =~= first);
            assert forall|k: int| 0 <= k < s.len() implies ({
                let before = props_of_qjs(s.take(k), 0, Seq::empty(), stores);
                let key = of_qjs(s[k].0, before.stores);
                let val = of_qjs(s[k].1, key.stores);
                &&& key.res == Ok::<LuauView, Seq<char>>((#[trigger] all[k]).0)
                &&& val.res == Ok::<LuauView, Seq<char>>(all[k].1)
            }) by {
                if k < t.len() {
                    assert(first[k] == all[k]);
                    assert(t[k] == s[k]);
                assert(s.take(k) =~= t.take(k));
                }
            }
        }
    }
}

/// What one value more adds to those that are converted already.
proof fn lemma_all_of_qjs(
    s: Seq<QjsView>,
    x: QjsView,
    i: int,
    done: Seq<LuauView>,
    stores: StoresView,
)
    requires
        0 <= i <= s.len(),
    ensures
        all_of_qjs(s.push(x), i, done, stores) == ({
            let before = all_of_qjs(s, i, done, stores);
            match before.res {
                Err(e) => before,
                Ok(all) => {
                    let one = of_qjs(x, before.stores);
                    match one.res {
                        Err(e) => QjsStep { stores: one.stores, res: Err(e) },
                        Ok(p) => QjsStep { stores: one.stores, res: Ok(all.push(p)) },
                    }
                },
            }
        }),
    decreases s.len() - i,
{
    let more = s.push(x);
    if i == s.len() {
        reveal_with_fuel(all_of_qjs, 2);
    } else {
        assert(more[i] == s[i]);
        let one = of_qjs(s[i], stores);
        if one.res is Ok {
            lemma_all_of_qjs(s, x, i + 1, done.push(one.res->Ok_0), one.stores);
        }
    }
}

/// One value more is converted after the others, whatever it is, and stands behind them.
pub proof fn law_values_of_qjs_one_more(
    s: Seq<QjsView>,
    x: QjsView,
    stores: StoresView,
)
    ensures
        all_of_qjs(s.push(x), 0, Seq::empty(), stores) == ({
            let before = all_of_qjs(s, 0, Seq::empty(), stores);
            match before.res {
                Err(e) => before,
                Ok(all) => {
                    let one = of_qjs(x, before.stores);
                    match one.res {
                        Err(e) => QjsStep { stores: one.stores, res: Err(e) },
                        Ok(p) => QjsStep { stores: one.stores, res: Ok(all.push(p)) },
                    }
                },
            }
        }),
{
    lemma_all_of_qjs(s, x, 0, Seq::empty(), stores);
}

/// Several values of QuickJS become as many values of Luau, and each of them, null and undefined like
/// any other, becomes what it becomes after those before it and stands in its place.
pub proof fn law_values_of_qjs_one_by_one(
    s: Seq<QjsView>,
    stores: StoresView,
)
    ensures
        all_of_qjs(Seq::empty(), 0, Seq::empty(), stores)
            == (QjsStep { stores, res: Ok(Seq::<LuauView>::empty()) }),
        all_of_qjs(s, 0, Seq::empty(), stores).res matches Ok(all) ==> all.len() == s.len()
            && forall|k: int|
            0 <= k < s.len() ==> ({
                let before = all_of_qjs(s.take(k), 0, Seq::empty(), stores);
                of_qjs(s[k], before.stores).res == Ok::<LuauView, Seq<char>>(#[trigger] all[k])
            }),
    decreases s.len(),
{
    if s.len() > 0 {
        let t = s.drop_last();
        assert(t.push(s.last()) =~= s);
        law_values_of_qjs_one_more(t, s.last(), stores);
        law_values_of_qjs_one_by_one(t, stores);
        let before = all_of_qjs(t, 0, Seq::empty(), stores);
        if all_of_qjs(s, 0, Seq::empty(), stores).res is Ok {
            let all = all_of_qjs(s, 0, Seq::empty(), stores).res->Ok_0;
            let first = before.res->Ok_0;
            assert(s.take(t.len() as int) =~= t);
            assert(all.drop_last() =~= first);
            assert forall|k: int| 0 <= k < s.len() implies ({
                let before = all_of_qjs(s.take(k), 0, Seq::empty(), stores);
                of_qjs(s[k], before.stores).res == Ok::<LuauView, Seq<char>>(#[trigger] all[k])
            }) by {
                if k < t.len() {
                    assert(first[k] == all[k]);
                    assert(t[k] == s[k]);
                assert(s.take(k) =~= t.take(k));
                }
            }
        }
    }
}

/// A table becomes an object of QuickJS with an entry for each of its entries, in their order: what
/// the key becomes, with what the value becomes.
pub proof fn law_table_in_qjs_keeps_its_entries(
    handle: u64,
    frozen: bool,
    metatable: Metatable,
    len: usize,
    items: Seq<(LuauView, LuauView)>,
)
    ensures
        in_qjs(LuauView::Table { handle, frozen, metatable, len, entries: items }) matches Ok(t)
            ==> {
            &&& t matches QjsTreeView::Object(all)
            &&& all.len() == items.len()
            &&& forall|k: int|
                0 <= k < items.len() ==> in_qjs(items[k].0) == Ok::<QjsTreeView, Seq<char>>(
                    (#[trigger] all[k]).0,
                ) && in_qjs(items[k].1) == Ok::<QjsTreeView, Seq<char>>(all[k].1)
        },
{
    law_entries_in_qjs_one_by_one(items);
}

/// What a function of Luau returns becomes undefined where it is nothing, what it becomes on its own
/// where it is one value, and else an array of as many elements, the `k`th of which is what the value
/// `k` becomes.
pub proof fn law_results_in_qjs(vs: Seq<LuauView>)
    ensures
        vs.len() == 0 ==> returned_to_qjs(vs) == Ok::<QjsTreeView, Seq<char>>(
            QjsTreeView::Undefined,
        ),
        vs.len() == 1 ==> returned_to_qjs(vs) == in_qjs(vs[0]),
        vs.len() > 1 ==> (returned_to_qjs(vs) matches Ok(t) ==> {
            &&& t matches QjsTreeView::Array(all)
            &&& all.len() == vs.len()
            &&& forall|k: int|
                0 <= k < vs.len() ==> in_qjs(vs[k]) == Ok::<QjsTreeView, Seq<char>>(
                    #[trigger] all[k],
                )
        }),
{
    law_values_in_qjs_one_by_one(vs, Seq::empty());
}

/// Whether a value of QuickJS becomes that value of Luau.
pub open spec fn leaves_qjs(v: QjsView, w: LuauView) -> bool {
    exists|stores: StoresView|
        (#[trigger] of_qjs(v, stores)).res == Ok::<LuauView, Seq<char>>(w)
}

/// An array of QuickJS that has not three elements becomes a new table in Luau with the integer keys
/// from 1 on and no other. Where none of its elements is null, undefined or else becomes nil, there
/// are as many keys as elements, and under the key `k + 1` stands what the element `k` becomes.
pub proof fn law_array_of_qjs_is_keyed_from_one(items: Seq<QjsView>, stores: StoresView)
    requires
        items.len() != 3,
    ensures
        of_qjs(QjsView::Array(items), stores).res matches Ok(t) ==> {
            &&& t matches LuauView::Table { handle, frozen, metatable, len, entries: all }
            &&& handle == FRESH && !frozen && metatable == Metatable::Absent && len
                == all.len() as usize
            &&& all.len() <= items.len()
            &&& forall|k: int|
                0 <= k < all.len() ==> (#[trigger] all[k]).0 == LuauView::Integer((k + 1) as i64)
            &&& (forall|k: int|
                0 <= k < items.len() ==> !leaves_qjs(#[trigger] items[k], LuauView::Nil)) ==> {
                &&& all.len() == items.len()
                &&& forall|k: int|
                    0 <= k < items.len() ==> leaves_qjs(items[k], (#[trigger] all[k]).1)
            }
        },
{
    law_items_of_qjs_one_by_one(items, stores);
    let done = items_of_qjs(items, 0, Seq::empty(), stores);
    if done.res is Ok {
        let vs = done.res->Ok_0;
        law_pushed_values_are_keyed_from_one(vs, LuauView::Nil);
        assert forall|k: int| 0 <= k < vs.len() implies leaves_qjs(items[k], #[trigger] vs[k]) by {
            let before = items_of_qjs(items.take(k), 0, Seq::empty(), stores);
            assert(of_qjs(items[k], before.stores).res == Ok::<LuauView, Seq<char>>(vs[k]));
        }
        if forall|k: int|
            0 <= k < items.len() ==> !leaves_qjs(#[trigger] items[k], LuauView::Nil) {
            assert forall|k: int| 0 <= k < vs.len() implies !(#[trigger] vs[k] is Nil) by {
                assert(leaves_qjs(items[k], vs[k]));
            }
            assert forall|k: int| 0 <= k < items.len() implies leaves_qjs(
                items[k],
                (#[trigger] pushed(vs)[k]).1,
            ) by {
                assert(pushed(vs)[k].1 == vs[k]);
            }
        }
    }
}

/// An object of QuickJS becomes a new table in Luau with an entry for each of its properties, in
/// their order, and one more, named `proxy`, which stands for the object itself.
pub proof fn law_object_of_qjs_keeps_its_properties(
    handle: u64,
    exception: bool,
    props: Seq<(QjsView, QjsView)>,
    stores: StoresView,
)
    ensures
        of_qjs(QjsView::Object { handle, exception, props }, stores).res matches Ok(t) ==> {
            &&& t matches LuauView::Table { handle, frozen, metatable, entries: all, .. }
            &&& handle == FRESH && !frozen && metatable == Metatable::Absent
            &&& all.len() == props.len() + 1
            &&& forall|k: int|
                0 <= k < props.len() ==> leaves_qjs(props[k].0, (#[trigger] all[k]).0)
                    && leaves_qjs(props[k].1, all[k].1)
            &&& all[props.len() as int].0 == LuauView::String(encode_utf8("proxy"@))
            &&& all[props.len() as int].1 matches LuauView::UserData {
                payload: PayloadView::JsObject(_),
                ..
            }
        },
{
    law_props_of_qjs_one_by_one(props, stores);
    let done = props_of_qjs(props, 0, Seq::empty(), stores);
    if done.res is Ok {
        let vs = done.res->Ok_0;
        assert forall|k: int| 0 <= k < vs.len() implies leaves_qjs(props[k].0, (#[trigger] vs[k]).0)
            && leaves_qjs(props[k].1, vs[k].1) by {
            let before = props_of_qjs(props.take(k), 0, Seq::empty(), stores);
            let key = of_qjs(props[k].0, before.stores);
            assert(key.res == Ok::<LuauView, Seq<char>>(vs[k].0));
            assert(of_qjs(props[k].1, key.stores).res == Ok::<LuauView, Seq<char>>(vs[k].1));
        }
        let t = of_qjs(QjsView::Object { handle, exception, props }, stores).res->Ok_0;
        let all = t->entries;
        assert forall|k: int| 0 <= k < props.len() implies leaves_qjs(
            props[k].0,
            (#[trigger] all[k]).0,
        ) && leaves_qjs(props[k].1, all[k].1) by {
            assert(all[k] == vs[k]);
        }
    }
}

/// A table becomes an object of QuickJS where all that it holds can be sent, and nowhere else.
pub proof fn law_converts_where_its_contents_do(
    handle: u64,
    frozen: bool,
    metatable: Metatable,
    len: usize,
    items: Seq<(LuauView, LuauView)>,
)
    ensures
        in_qjs(LuauView::Table { handle, frozen, metatable, len,
            entries: items }) is Ok <==> forall|
            k: int,
        |
            0 <= k < items.len() ==> in_qjs((#[trigger] items[k]).0) is Ok && in_qjs(
                items[k].1,
            ) is Ok,
{
    lemma_entries_convert(items);
}

/// The entries of a table are converted where the key and the value of each of them are.
proof fn lemma_entries_convert(items: Seq<(LuauView, LuauView)>)
    ensures
        entries_in_qjs(items, 0, Seq::empty()) is Ok <==> forall|k: int|
            0 <= k < items.len() ==> in_qjs((#[trigger] items[k]).0) is Ok && in_qjs(
                items[k].1,
            ) is Ok,
    decreases items.len(),
{
    if items.len() > 0 {
        let t = items.drop_last();
        let x = items.last();
        lemma_entries_convert(t);
        law_entries_in_qjs_one_more(t, x);
        assert(t.push(x) =~= items);
        assert(items[items.len() - 1] == x);
        assert forall|k: int| 0 <= k < t.len() implies #[trigger] t[k] == items[k] by {}
        if entries_in_qjs(t, 0, Seq::empty()) is Err {
            let k = choose|k: int|
                0 <= k < t.len() && !(in_qjs((#[trigger] t[k]).0) is Ok && in_qjs(t[k].1) is Ok);
            assert(t[k] == items[k]);
        } else {
            assert forall|k: int| 0 <= k < t.len() implies in_qjs((#[trigger] items[k]).0) is Ok
                && in_qjs(items[k].1) is Ok by {
                assert(t[k] == items[k]);
            }
        }
    }
}

/// An object and an array that has not three elements are converted where all that they hold is.
pub proof fn law_taken_where_its_contents_are(
    handle: u64,
    exception: bool,
    props: Seq<(QjsView, QjsView)>,
    items: Seq<QjsView>,
    stores: StoresView,
)
    ensures
        of_qjs(QjsView::Object { handle, exception, props }, stores).res is Ok <==> props_of_qjs(
            props,
            0,
            Seq::empty(),
            stores,
        ).res is Ok,
        items.len() != 3 ==> (of_qjs(QjsView::Array(items), stores).res is Ok <==> items_of_qjs(
            items,
            0,
            Seq::empty(),
            stores,
        ).res is Ok),
{
}

} // verus!
