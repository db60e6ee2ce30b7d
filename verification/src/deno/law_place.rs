//! Values of Luau keep what they hold on their way into v8.

use vstd::prelude::*;

use crate::base::luau::LuaView;
use crate::deno::tree::{tree_entries_of, tree_of, trees_of, LuaRef, TreeStep, TreeView};
use crate::MAX_PROXY_DEPTH;

verus! {

/// Whether a value becomes that value of v8 at that depth.
pub open spec fn enters_v8(v: LuaView, t: TreeView, depth: nat) -> bool {
    exists|held: Seq<LuaRef>|
        (#[trigger] tree_of(v, held, depth)).res == Ok::<TreeView, Seq<char>>(t)
}

/// What one value more adds to those that are converted already.
proof fn lemma_trees_of(
    s: Seq<LuaView>,
    x: LuaView,
    i: int,
    done: Seq<TreeView>,
    held: Seq<LuaRef>,
    depth: nat,
)
    requires
        0 <= i <= s.len(),
    ensures
        trees_of(s.push(x), i, done, held, depth) == ({
            let before = trees_of(s, i, done, held, depth);
            match before.res {
                Err(e) => before,
                Ok(all) => {
                    let one = tree_of(x, before.held, depth);
                    match one.res {
                        Err(e) => TreeStep { held: one.held, res: Err(e) },
                        Ok(p) => TreeStep { held: one.held, res: Ok(all.push(p)) },
                    }
                },
            }
        }),
    decreases s.len() - i,
{
    let more = s.push(x);
    if i == s.len() {
        reveal_with_fuel(trees_of, 2);
    } else {
        assert(more[i] == s[i]);
        let one = tree_of(s[i], held, depth);
        if one.res is Ok {
            lemma_trees_of(s, x, i + 1, done.push(one.res->Ok_0), one.held, depth);
        }
    }
}

/// One value more is converted after the others, whatever it is, and stands behind them.
pub proof fn law_trees_one_more(
    s: Seq<LuaView>,
    x: LuaView,
    held: Seq<LuaRef>,
    depth: nat,
)
    ensures
        trees_of(s.push(x), 0, Seq::empty(), held, depth) == ({
            let before = trees_of(s, 0, Seq::empty(), held, depth);
            match before.res {
                Err(e) => before,
                Ok(all) => {
                    let one = tree_of(x, before.held, depth);
                    match one.res {
                        Err(e) => TreeStep { held: one.held, res: Err(e) },
                        Ok(p) => TreeStep { held: one.held, res: Ok(all.push(p)) },
                    }
                },
            }
        }),
{
    lemma_trees_of(s, x, 0, Seq::empty(), held, depth);
}

/// Several values become as many values of v8, and each of them, nil like any other, becomes what it
/// becomes after those before it and stands in its place.
pub proof fn law_trees_one_by_one(
    s: Seq<LuaView>,
    held: Seq<LuaRef>,
    depth: nat,
)
    ensures
        trees_of(Seq::empty(), 0, Seq::empty(), held, depth)
            == (TreeStep { held, res: Ok(Seq::<TreeView>::empty()) }),
        trees_of(s, 0, Seq::empty(), held, depth).res matches Ok(all) ==> all.len() == s.len()
            && forall|k: int|
            0 <= k < s.len() ==> ({
                let before = trees_of(s.take(k), 0, Seq::empty(), held, depth);
                tree_of(s[k], before.held, depth).res
                    == Ok::<TreeView, Seq<char>>(#[trigger] all[k])
            }),
    decreases s.len(),
{
    if s.len() > 0 {
        let t = s.drop_last();
        assert(t.push(s.last()) =~= s);
        law_trees_one_more(t, s.last(), held, depth);
        law_trees_one_by_one(t, held, depth);
        let before = trees_of(t, 0, Seq::empty(), held, depth);
        if trees_of(s, 0, Seq::empty(), held, depth).res is Ok {
            let all = trees_of(s, 0, Seq::empty(), held, depth).res->Ok_0;
            let first = before.res->Ok_0;
            assert(s.take(t.len() as int) =~= t);
            assert(all.drop_last() =~= first);
            assert forall|k: int| 0 <= k < s.len() implies ({
                let before = trees_of(s.take(k), 0, Seq::empty(), held, depth);
                tree_of(s[k], before.held, depth).res
                    == Ok::<TreeView, Seq<char>>(#[trigger] all[k])
            }) by {
                if k < t.len() {
                    assert(first[k] == all[k]);
                    assert(t[k] == s[k]);
                assert(s.take(k) =~= t.take(k));
                }
            }
        }
    }
}

/// What one value more adds to those that are converted already.
proof fn lemma_tree_entries_of(
    s: Seq<(LuaView, LuaView)>,
    x: (LuaView, LuaView),
    i: int,
    done: Seq<(TreeView, TreeView)>,
    held: Seq<LuaRef>,
    depth: nat,
)
    requires
        0 <= i <= s.len(),
    ensures
        tree_entries_of(s.push(x), i, done, held, depth) == ({
            let before = tree_entries_of(s, i, done, held, depth);
            match before.res {
                Err(e) => before,
                Ok(all) => {
                    let key = tree_of(x.0, before.held, depth);
                    match key.res {
                        Err(e) => TreeStep { held: key.held, res: Err(e) },
                        Ok(k) => {
                            let val = tree_of(x.1, key.held, depth);
                            match val.res {
                                Err(e) => TreeStep { held: val.held, res: Err(e) },
                                Ok(p) => TreeStep { held: val.held, res: Ok(all.push((k, p))) },
                            }
                        },
                    }
                },
            }
        }),
    decreases s.len() - i,
{
    let more = s.push(x);
    if i == s.len() {
        reveal_with_fuel(tree_entries_of, 2);
    } else {
        assert(more[i] == s[i]);
        let key = tree_of(s[i].0, held, depth);
        if key.res is Ok {
            let val = tree_of(s[i].1, key.held, depth);
            if val.res is Ok {
                lemma_tree_entries_of(s, x, i + 1, done.push((key.res->Ok_0, val.res->Ok_0)),
                    val.held, depth);
            }
        }
    }
}

/// One entry more of a table is converted after the others, the key first, and stands behind them.
pub proof fn law_tree_entries_one_more(
    s: Seq<(LuaView, LuaView)>,
    x: (LuaView, LuaView),
    held: Seq<LuaRef>,
    depth: nat,
)
    ensures
        tree_entries_of(s.push(x), 0, Seq::empty(), held, depth) == ({
            let before = tree_entries_of(s, 0, Seq::empty(), held, depth);
            match before.res {
                Err(e) => before,
                Ok(all) => {
                    let key = tree_of(x.0, before.held, depth);
                    match key.res {
                        Err(e) => TreeStep { held: key.held, res: Err(e) },
                        Ok(k) => {
                            let val = tree_of(x.1, key.held, depth);
                            match val.res {
                                Err(e) => TreeStep { held: val.held, res: Err(e) },
                                Ok(p) => TreeStep { held: val.held, res: Ok(all.push((k, p))) },
                            }
                        },
                    }
                },
            }
        }),
{
    lemma_tree_entries_of(s, x, 0, Seq::empty(), held, depth);
}

/// Each entry of a table becomes what its key and its value become after those before it, and stands
/// in its place.
pub proof fn law_tree_entries_one_by_one(
    s: Seq<(LuaView, LuaView)>,
    held: Seq<LuaRef>,
    depth: nat,
)
    ensures
        tree_entries_of(Seq::empty(), 0, Seq::empty(), held, depth)
            == (TreeStep { held, res: Ok(Seq::<(TreeView, TreeView)>::empty()) }),
        tree_entries_of(s, 0, Seq::empty(), held, depth).res matches Ok(all) ==> all.len()
            == s.len() && forall|k: int|
            0 <= k < s.len() ==> ({
                let before = tree_entries_of(s.take(k), 0, Seq::empty(), held, depth);
                let key = tree_of(s[k].0, before.held, depth);
                let val = tree_of(s[k].1, key.held, depth);
                &&& key.res == Ok::<TreeView, Seq<char>>((#[trigger] all[k]).0)
                &&& val.res == Ok::<TreeView, Seq<char>>(all[k].1)
            }),
    decreases s.len(),
{
    if s.len() > 0 {
        let t = s.drop_last();
        assert(t.push(s.last()) =~= s);
        law_tree_entries_one_more(t, s.last(), held, depth);
        law_tree_entries_one_by_one(t, held, depth);
        let before = tree_entries_of(t, 0, Seq::empty(), held, depth);
        if tree_entries_of(s, 0, Seq::empty(), held, depth).res is Ok {
            let all = tree_entries_of(s, 0, Seq::empty(), held, depth).res->Ok_0;
            let first = before.res->Ok_0;
            assert(s.take(t.len() as int) =~= t);
            assert(all.drop_last() =~= first);
            assert forall|k: int| 0 <= k < s.len() implies ({
                let before = tree_entries_of(s.take(k), 0, Seq::empty(), held, depth);
                let key = tree_of(s[k].0, before.held, depth);
                let val = tree_of(s[k].1, key.held, depth);
                &&& key.res == Ok::<TreeView, Seq<char>>((#[trigger] all[k]).0)
                &&& val.res == Ok::<TreeView, Seq<char>>(all[k].1)
            }) by {
                if k < t.len() {
                    assert(first[k] == all[k]);
                    assert(t[k] == s[k]);
                assert(s.take(k) =~= t.take(k));
                }
            }
        }
    }
}

/// An array becomes an array in v8 of as many elements, the `k`th of which is what the item `k`
/// becomes.
pub proof fn law_array_in_v8_keeps_its_items(items: Seq<LuaView>, held: Seq<LuaRef>, depth: nat)
    ensures
        tree_of(LuaView::Array(items), held, depth).res matches Ok(t) ==> {
            &&& t matches TreeView::Array(all)
            &&& all.len() == items.len()
            &&& forall|k: int|
                0 <= k < items.len() ==> enters_v8(items[k], #[trigger] all[k], depth + 1)
        },
{
    law_trees_one_by_one(items, held, depth + 1);
    let done = trees_of(items, 0, Seq::empty(), held, depth + 1);
    if done.res is Ok {
        let all = done.res->Ok_0;
        assert forall|k: int| 0 <= k < items.len() implies enters_v8(
            items[k],
            #[trigger] all[k],
            depth + 1,
        ) by {
            let before = trees_of(items.take(k), 0, Seq::empty(), held, depth + 1);
            assert(tree_of(items[k], before.held, depth + 1).res == Ok::<TreeView, Seq<char>>(
                all[k],
            ));
        }
    }
}

/// A table becomes an object in v8 with an entry for each of its entries, in their order: what the key
/// becomes, with what the value becomes.
pub proof fn law_table_in_v8_keeps_its_entries(
    items: Seq<(LuaView, LuaView)>,
    held: Seq<LuaRef>,
    depth: nat,
)
    ensures
        tree_of(LuaView::Table(items), held, depth).res matches Ok(t) ==> {
            &&& t matches TreeView::Object(all)
            &&& all.len() == items.len()
            &&& forall|k: int|
                0 <= k < items.len() ==> enters_v8(items[k].0, (#[trigger] all[k]).0, depth + 1)
                    && enters_v8(items[k].1, all[k].1, depth + 1)
        },
{
    law_tree_entries_one_by_one(items, held, depth + 1);
    let done = tree_entries_of(items, 0, Seq::empty(), held, depth + 1);
    if done.res is Ok {
        let all = done.res->Ok_0;
        assert forall|k: int| 0 <= k < items.len() implies enters_v8(
            items[k].0,
            (#[trigger] all[k]).0,
            depth + 1,
        ) && enters_v8(items[k].1, all[k].1, depth + 1) by {
            let before = tree_entries_of(items.take(k), 0, Seq::empty(), held, depth + 1);
            let key = tree_of(items[k].0, before.held, depth + 1);
            assert(key.res == Ok::<TreeView, Seq<char>>(all[k].0));
            assert(tree_of(items[k].1, key.held, depth + 1).res == Ok::<TreeView, Seq<char>>(
                all[k].1,
            ));
        }
    }
}

/// An array that is not too long and a table are converted where they are not nested too deeply and
/// all that they hold is converted one container further in.
pub proof fn law_converts_where_its_contents_do(
    items: Seq<LuaView>,
    entries: Seq<(LuaView, LuaView)>,
    held: Seq<LuaRef>,
    depth: nat,
)
    ensures
        tree_of(LuaView::Array(items), held, depth).res is Ok <==> depth <= MAX_PROXY_DEPTH
            && items.len() <= 0x7fff_ffff && trees_of(
            items,
            0,
            Seq::empty(),
            held,
            depth + 1,
        ).res is Ok,
        tree_of(LuaView::Table(entries), held, depth).res is Ok <==> depth <= MAX_PROXY_DEPTH
            && tree_entries_of(entries, 0, Seq::empty(), held, depth + 1).res is Ok,
{
}

} // verus!
