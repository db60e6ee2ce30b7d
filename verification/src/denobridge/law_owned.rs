//! Which objects a value refers to.

use vstd::prelude::*;

use crate::denobridge::bridgeops::{flattened, RefIdDropGuard};
use crate::denobridge::jsvalue::JsView;
use crate::denobridge::owned::{
    luau_numbers, owned_luau, owned_luau_list, owned_luau_pairs, owned_v8, owned_v8_list,
        owned_v8_pairs,
    v8_numbers,
};
use crate::denobridge::value::V8View;

verus! {

/// What a list owns does not depend on what stands behind it.
proof fn lemma_owned_v8_list(s: Seq<V8View>, x: V8View, n: nat)
    requires
        n <= s.len(),
    ensures
        owned_v8_list(s.push(x), n) == owned_v8_list(s, n),
    decreases n,
{
    if n > 0 {
        assert(s.push(x)[n - 1] == s[n - 1]);
        lemma_owned_v8_list(s, x, (n - 1) as nat);
    }
}

/// What a map owns does not depend on what stands behind it.
proof fn lemma_owned_v8_pairs(s: Seq<(V8View, V8View)>, x: (V8View, V8View), n: nat)
    requires
        n <= s.len(),
    ensures
        owned_v8_pairs(s.push(x), n) == owned_v8_pairs(s, n),
    decreases n,
{
    if n > 0 {
        assert(s.push(x)[n - 1] == s[n - 1]);
        lemma_owned_v8_pairs(s, x, (n - 1) as nat);
    }
}

/// The objects of v8 in a value: a reference to one is one, whatever its sort; nothing else is one by
/// itself, and a list and a map hold those of what they hold, in order, a key before its value.
pub proof fn law_v8_objects_in_a_value(
    p: V8View,
    items: Seq<V8View>,
    entries: Seq<(V8View, V8View)>,
    x: V8View,
    y: V8View,
)
    ensures
        p matches V8View::V8Owned(_, id) ==> owned_v8(p) == seq![id],
        !(p is V8Owned || p is List || p is Dict) ==> owned_v8(p) == Seq::<i64>::empty(),
        owned_v8(V8View::List(Seq::empty())) == Seq::<i64>::empty(),
        owned_v8(V8View::Dict(Seq::empty())) == Seq::<i64>::empty(),
        owned_v8(V8View::List(items.push(x))) == owned_v8(V8View::List(items)) + owned_v8(x),
        owned_v8(V8View::Dict(entries.push((x, y))))
            == owned_v8(V8View::Dict(entries)) + owned_v8(x) + owned_v8(
            y,
        ),
        owned_v8_list(items.push(x), items.len() + 1)
            == owned_v8_list(items, items.len()) + owned_v8(x),
        owned_v8_list(items, 0) == Seq::<i64>::empty(),
{
    lemma_owned_v8_list(items, x, items.len());
    lemma_owned_v8_pairs(entries, (x, y), entries.len());
    let l = V8View::List(items.push(x));
    let d = V8View::Dict(entries.push((x, y)));
    assert(owned_v8(l) == owned_v8_list(items.push(x), items.len() + 1));
    assert(owned_v8(d) == owned_v8_pairs(entries.push((x, y)), entries.len() + 1));
    assert(owned_v8(V8View::List(items)) == owned_v8_list(items, items.len()));
    assert(owned_v8(V8View::Dict(entries)) == owned_v8_pairs(entries, entries.len()));
    assert(owned_v8(V8View::List(Seq::empty())) == owned_v8_list(Seq::empty(), 0));
    assert(owned_v8(V8View::Dict(Seq::empty())) == owned_v8_pairs(Seq::empty(), 0));
}

/// What a list owns does not depend on what stands behind it.
proof fn lemma_owned_luau_list(s: Seq<V8View>, x: V8View, n: nat)
    requires
        n <= s.len(),
    ensures
        owned_luau_list(s.push(x), n) == owned_luau_list(s, n),
    decreases n,
{
    if n > 0 {
        assert(s.push(x)[n - 1] == s[n - 1]);
        lemma_owned_luau_list(s, x, (n - 1) as nat);
    }
}

/// What a map owns does not depend on what stands behind it.
proof fn lemma_owned_luau_pairs(s: Seq<(V8View, V8View)>, x: (V8View, V8View), n: nat)
    requires
        n <= s.len(),
    ensures
        owned_luau_pairs(s.push(x), n) == owned_luau_pairs(s, n),
    decreases n,
{
    if n > 0 {
        assert(s.push(x)[n - 1] == s[n - 1]);
        lemma_owned_luau_pairs(s, x, (n - 1) as nat);
    }
}

/// The objects of Luau in a value: a reference to one is one, whatever its sort; nothing else is one by
/// itself, and a list and a map hold those of what they hold, in order, a key before its value.
pub proof fn law_luau_objects_in_a_value(
    p: V8View,
    items: Seq<V8View>,
    entries: Seq<(V8View, V8View)>,
    x: V8View,
    y: V8View,
)
    ensures
        p matches V8View::SourceOwned(_, id) ==> owned_luau(p) == seq![id],
        !(p is SourceOwned || p is List || p is Dict) ==> owned_luau(p) == Seq::<i64>::empty(),
        owned_luau(V8View::List(Seq::empty())) == Seq::<i64>::empty(),
        owned_luau(V8View::Dict(Seq::empty())) == Seq::<i64>::empty(),
        owned_luau(V8View::List(items.push(x))) == owned_luau(V8View::List(items)) + owned_luau(x),
        owned_luau(V8View::Dict(entries.push((x, y))))
            == owned_luau(V8View::Dict(entries)) + owned_luau(x) + owned_luau(
            y,
        ),
        owned_luau_list(items.push(x), items.len() + 1)
            == owned_luau_list(items, items.len()) + owned_luau(x),
        owned_luau_list(items, 0) == Seq::<i64>::empty(),
{
    lemma_owned_luau_list(items, x, items.len());
    lemma_owned_luau_pairs(entries, (x, y), entries.len());
    let l = V8View::List(items.push(x));
    let d = V8View::Dict(entries.push((x, y)));
    assert(owned_luau(l) == owned_luau_list(items.push(x), items.len() + 1));
    assert(owned_luau(d) == owned_luau_pairs(entries.push((x, y)), entries.len() + 1));
    assert(owned_luau(V8View::List(items)) == owned_luau_list(items, items.len()));
    assert(owned_luau(V8View::Dict(entries)) == owned_luau_pairs(entries, entries.len()));
    assert(owned_luau(V8View::List(Seq::empty())) == owned_luau_list(Seq::empty(), 0));
    assert(owned_luau(V8View::Dict(Seq::empty())) == owned_luau_pairs(Seq::empty(), 0));
}

/// Results become undefined where there is none, the result where there is one, and else an array of
/// all of them, in order.
pub proof fn law_results_in_v8(results: Seq<JsView>, x: JsView)
    ensures
        flattened(Seq::empty()) == JsView::Undefined,
        flattened(seq![x]) == x,
        results.len() > 1 ==> (flattened(results) matches JsView::Array(all) && all.len()
            == results.len() && forall|k: int|
            0 <= k < results.len() ==> #[trigger] all[k] == results[k]),
{
}

/// What one of several values owns is among what they own together.
proof fn lemma_owned_v8_of_one(s: Seq<V8View>, k: int, n: nat, id: i64)
    requires
        0 <= k < n <= s.len(),
        owned_v8(s[k]).contains(id),
    ensures
        owned_v8_list(s, n).contains(id),
    decreases n,
{
    let before = owned_v8_list(s, (n - 1) as nat);
    let last = owned_v8(s[n - 1]);
    if k == n - 1 {
        let j = choose|j: int| 0 <= j < last.len() && last[j] == id;
        assert((before + last)[before.len() + j] == id);
    } else {
        lemma_owned_v8_of_one(s, k, (n - 1) as nat, id);
        let j = choose|j: int| 0 <= j < before.len() && before[j] == id;
        assert((before + last)[j] == id);
    }
}

/// What one of several values owns is among what they own together.
proof fn lemma_owned_luau_of_one(s: Seq<V8View>, k: int, n: nat, id: i64)
    requires
        0 <= k < n <= s.len(),
        owned_luau(s[k]).contains(id),
    ensures
        owned_luau_list(s, n).contains(id),
    decreases n,
{
    let before = owned_luau_list(s, (n - 1) as nat);
    let last = owned_luau(s[n - 1]);
    if k == n - 1 {
        let j = choose|j: int| 0 <= j < last.len() && last[j] == id;
        assert((before + last)[before.len() + j] == id);
    } else {
        lemma_owned_luau_of_one(s, k, (n - 1) as nat, id);
        let j = choose|j: int| 0 <= j < before.len() && before[j] == id;
        assert((before + last)[j] == id);
    }
}

/// When values are no longer held, every object of Luau among them is given back by its number, and so
/// is every object of v8 unless that is switched off. Where there are none, nothing is.
pub proof fn law_guard_gives_back_every_object(
    g: RefIdDropGuard,
    args: Seq<V8View>,
    disposal_enabled: bool,
    k: int,
)
    requires
        g.covers(args, disposal_enabled),
        0 <= k < args.len(),
    ensures
        args[k] matches V8View::SourceOwned(_, id) ==> (g.lua_refs matches Some(ids)
            && exists|j: int| 0 <= j < ids@.len() && (#[trigger] ids@[j])@ == id),
        args[k] matches V8View::V8Owned(_, id) ==> (disposal_enabled ==> (
        g.v8_refs matches Some(ids) && exists|j: int|
            0 <= j < ids@.len() && (#[trigger] ids@[j])@ == id)),
        !disposal_enabled ==> g.v8_refs is None,
        args.len() == 1 && !(args[0] is List || args[0] is Dict || args[0] is V8Owned)
            ==> g.v8_refs is None,
        args.len() == 1 && !(args[0] is List || args[0] is Dict || args[0] is SourceOwned)
            ==> g.lua_refs is None,
{
    reveal_with_fuel(owned_v8_list, 2);
    reveal_with_fuel(owned_luau_list, 2);
    let v8 = owned_v8_list(args, args.len());
    let lua = owned_luau_list(args, args.len());
    if let V8View::SourceOwned(_, id) = args[k] {
        assert(owned_luau(args[k])[0] == id);
        lemma_owned_luau_of_one(args, k, args.len(), id);
        let j = choose|j: int| 0 <= j < lua.len() && lua[j] == id;
        let ids = g.lua_refs->0;
        assert(luau_numbers(ids@)[j] == ids@[j]@);
    }
    if let V8View::V8Owned(_, id) = args[k] {
        assert(owned_v8(args[k])[0] == id);
        lemma_owned_v8_of_one(args, k, args.len(), id);
        if disposal_enabled {
            let j = choose|j: int| 0 <= j < v8.len() && v8[j] == id;
            let ids = g.v8_refs->0;
            assert(v8_numbers(ids@)[j] == ids@[j]@);
        }
    }
}

} // verus!
