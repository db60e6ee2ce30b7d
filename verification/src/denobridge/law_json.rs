//! What JSON becomes for v8: an array keeps its items in place, and an object keeps each of its
//! names once, with the last value of that name.

use vstd::prelude::*;

use crate::denobridge::embedder_api::{
    json_entries, json_items, json_to_v8, place_of, with_entry, JsonView,
};
use crate::denobridge::value::V8View;
use crate::luau::value::Number;
use crate::MAX_PROXY_DEPTH;

verus! {

/// The search for a name finds the first entry of that name.
proof fn lemma_place_of(s: Seq<(V8View, V8View)>, name: Seq<char>, k: int)
    requires
        0 <= k <= s.len(),
    ensures
        ({
            let at = place_of(s, name, k);
            &&& k <= at <= s.len()
            &&& at < s.len() ==> s[at].0 == V8View::String(name)
            &&& forall|j: int| k <= j < at ==> (#[trigger] s[j]).0 != V8View::String(name)
        }),
    decreases s.len() - k,
{
    if k < s.len() && s[k].0 != V8View::String(name) {
        lemma_place_of(s, name, k + 1);
    }
}

/// An entry that is put among others stands there under its name with its value. The entries under
/// other names stay as and where they were, and there is no entry more than that: where the name was
/// there, its place is kept, and else the entry stands behind the others. Names that stand there
/// once still do.
pub proof fn law_put_entry_keeps_other_names(
    s: Seq<(V8View, V8View)>,
    name: Seq<char>,
    p: V8View,
)
    ensures
        ({
            let there = exists|k: int| 0 <= k < s.len() && (#[trigger] s[k]).0
                == V8View::String(name);
            let after = with_entry(s, name, p);
            &&& after.len() == if there {
                s.len()
            } else {
                s.len() + 1
            }
            &&& exists|k: int|
                0 <= k < after.len() && #[trigger] after[k] == (V8View::String(name), p)
            &&& forall|k: int|
                0 <= k < s.len() && (#[trigger] s[k]).0 != V8View::String(name) ==> after[k] == s[k]
            &&& forall|k: int| 0 <= k < s.len() ==> (#[trigger] after[k]).0 == s[k].0
            &&& !there ==> after[s.len() as int] == (V8View::String(name), p)
            &&& (forall|i: int, j: int|
                0 <= i < j < s.len() ==> (#[trigger] s[i]).0 != (#[trigger] s[j]).0) ==> {
                &&& forall|k: int|
                    0 <= k < after.len() && (#[trigger] after[k]).0 == V8View::String(name)
                        ==> after[k].1 == p
                &&& forall|i: int, j: int|
                    0 <= i < j < after.len() ==> (#[trigger] after[i]).0 != (#[trigger] after[j]).0
            }
        }),
{
    lemma_place_of(s, name, 0);
    let at = place_of(s, name, 0);
    let after = with_entry(s, name, p);
    assert(after[at] == (V8View::String(name), p));
    if at < s.len() {
        assert(s[at].0 == V8View::String(name));
    }
    assert forall|k: int| 0 <= k < s.len() implies (#[trigger] after[k]).0 == s[k].0 by {
        assert(s[k] == s[k]);
    }
    if forall|i: int, j: int| 0 <= i < j < s.len() ==> (#[trigger] s[i]).0 != (#[trigger] s[j]).0 {
        assert forall|i: int, j: int| 0 <= i < j < after.len() implies (#[trigger] after[i]).0 != (
        #[trigger] after[j]).0 by {
            assert(s[i].0 == after[i].0);
            if j < s.len() {
                assert(s[j].0 == after[j].0);
            }
        }
        assert forall|k: int|
            0 <= k < after.len() && (#[trigger] after[k]).0 == V8View::String(
                name,
            ) implies after[k].1 == p by {
            if k < at {
                assert(s[k].0 == after[k].0);
            } else if at < k {
                assert(after[at].0 != after[k].0);
            }
        }
    }
}

/// The items of an array with one more are those without it and then that one.
proof fn lemma_items_append(s: Seq<JsonView>, x: JsonView, i: int, done: Seq<V8View>, depth: nat)
    requires
        0 <= i <= s.len(),
    ensures
        json_items(s.push(x), i, done, depth) == match json_items(s, i, done, depth) {
            Err(e) => Err(e),
            Ok(all) => match json_to_v8(x, depth) {
                Err(e) => Err(e),
                Ok(p) => Ok(all.push(p)),
            },
        },
    decreases s.len() - i,
{
    let more = s.push(x);
    if i == s.len() {
        reveal_with_fuel(json_items, 2);
    } else {
        assert(more[i] == s[i]);
        match json_to_v8(s[i], depth) {
            Err(e) => {},
            Ok(p) => lemma_items_append(s, x, i + 1, done.push(p), depth),
        }
    }
}

/// The items of an array come out in place, or the first that cannot be converted is what the
/// array fails with.
proof fn lemma_items_each(s: Seq<JsonView>, depth: nat)
    ensures
        match json_items(s, 0, Seq::empty(), depth) {
            Ok(all) => {
                &&& all.len() == s.len()
                &&& forall|k: int|
                    0 <= k < s.len() ==> json_to_v8(s[k], depth) == Ok::<V8View, Seq<char>>(
                        #[trigger] all[k],
                    )
            },
            Err(e) => exists|k: int|
                0 <= k < s.len() && json_to_v8(#[trigger] s[k], depth) == Err::<V8View, Seq<char>>(
                    e,
                ) && forall|j: int| 0 <= j < k ==> json_to_v8(#[trigger] s[j], depth) is Ok,
        },
    decreases s.len(),
{
    if s.len() > 0 {
        let t = s.drop_last();
        lemma_items_each(t, depth);
        lemma_items_append(t, s.last(), 0, Seq::empty(), depth);
        assert(t.push(s.last()) =~= s);
        assert forall|j: int| 0 <= j < t.len() implies t[j] == #[trigger] s[j] by {}
        match json_items(t, 0, Seq::empty(), depth) {
            Err(e) => {
                let k = choose|k: int|
                    0 <= k < t.len() && json_to_v8(#[trigger] t[k], depth) == Err::<
                        V8View,
                        Seq<char>,
                    >(e) && forall|j: int| 0 <= j < k ==> json_to_v8(#[trigger] t[j], depth) is Ok;
                assert(json_to_v8(s[k], depth) == Err::<V8View, Seq<char>>(e));
                assert forall|j: int| 0 <= j < k implies json_to_v8(#[trigger] s[j],
                    depth) is Ok by {
                    assert(t[j] == s[j]);
                }
            },
            Ok(all) => {
                assert forall|j: int| 0 <= j < t.len() implies json_to_v8(
                    #[trigger] s[j],
                    depth,
                ) is Ok by {
                    assert(json_to_v8(t[j], depth) == Ok::<V8View, Seq<char>>(all[j]));
                }
                assert(s[s.len() - 1] == s.last());
            },
        }
    }
}

/// A JSON array becomes a list of as many items, the `k`th of which is what the `k`th item of the
/// array becomes. It fails where it is nested too deeply or where an item fails, with the error of
/// the first that does.
pub proof fn law_json_array_keeps_its_items(items: Seq<JsonView>, depth: nat)
    ensures
        match json_to_v8(JsonView::Array(items), depth) {
            Ok(p) => {
                &&& depth < MAX_PROXY_DEPTH
                &&& p matches V8View::List(all)
                &&& all.len() == items.len()
                &&& forall|k: int|
                    0 <= k < items.len() ==> json_to_v8(items[k], depth + 1) == Ok::<
                        V8View,
                        Seq<char>,
                    >(#[trigger] all[k])
            },
            Err(e) => {
                ||| depth >= MAX_PROXY_DEPTH && e
                    == "Maximum proxy depth exceeded when converting JSON to ProxiedV8Value"@
                ||| depth < MAX_PROXY_DEPTH && exists|k: int|
                    0 <= k < items.len() && json_to_v8(#[trigger] items[k], depth + 1) == Err::<
                        V8View,
                        Seq<char>,
                    >(e) && forall|j: int|
                        0 <= j < k ==> json_to_v8(#[trigger] items[j], depth + 1) is Ok
            },
        },
{
    lemma_items_each(items, depth + 1);
}

/// The entries of an object with one more are those without it and then that one put among them.
proof fn lemma_entries_append(
    s: Seq<(Seq<char>, JsonView)>,
    x: (Seq<char>, JsonView),
    i: int,
    done: Seq<(V8View, V8View)>,
    depth: nat,
)
    requires
        0 <= i <= s.len(),
    ensures
        json_entries(s.push(x), i, done, depth) == match json_entries(s, i, done, depth) {
            Err(e) => Err(e),
            Ok(all) => match json_to_v8(x.1, depth) {
                Err(e) => Err(e),
                Ok(p) => Ok(with_entry(all, x.0, p)),
            },
        },
    decreases s.len() - i,
{
    let more = s.push(x);
    if i == s.len() {
        reveal_with_fuel(json_entries, 2);
    } else {
        assert(more[i] == s[i]);
        match json_to_v8(s[i].1, depth) {
            Err(e) => {},
            Ok(p) => lemma_entries_append(s, x, i + 1, with_entry(done, s[i].0, p), depth),
        }
    }
}

/// Whether the `j`th entry of an object is the last of its name.
pub open spec fn last_of_its_name(s: Seq<(Seq<char>, JsonView)>, j: int) -> bool {
    &&& 0 <= j < s.len()
    &&& forall|l: int| j < l < s.len() ==> (#[trigger] s[l]).0 != s[j].0
}

/// The map that the entries of an object make.
proof fn lemma_entries_each(s: Seq<(Seq<char>, JsonView)>, depth: nat)
    ensures
        match json_entries(s, 0, Seq::empty(), depth) {
            Ok(all) => {
                &&& forall|j: int| 0 <= j < s.len() ==> json_to_v8((#[trigger] s[j]).1, depth) is Ok
                &&& forall|i: int, j: int|
                    0 <= i < j < all.len() ==> (#[trigger] all[i]).0 != (#[trigger] all[j]).0
                &&& forall|k: int|
                    0 <= k < all.len() ==> exists|j: int|
                        0 <= j < s.len() && V8View::String((#[trigger] s[j]).0) == (
                        #[trigger] all[k]).0
                &&& forall|j: int|
                    #![trigger last_of_its_name(s, j)]
                    last_of_its_name(s, j) ==> exists|k: int|
                        0 <= k < all.len() && (#[trigger] all[k]).0 == V8View::String(s[j].0)
                            && json_to_v8(s[j].1, depth) == Ok::<V8View, Seq<char>>(all[k].1)
            },
            Err(e) => exists|k: int|
                0 <= k < s.len() && json_to_v8((#[trigger] s[k]).1, depth) == Err::<
                    V8View,
                    Seq<char>,
                >(e) && forall|j: int| 0 <= j < k ==> json_to_v8((#[trigger] s[j]).1, depth) is Ok,
        },
    decreases s.len(),
{
    if s.len() > 0 {
        let t = s.drop_last();
        let x = s.last();
        lemma_entries_each(t, depth);
        lemma_entries_append(t, x, 0, Seq::empty(), depth);
        assert(t.push(x) =~= s);
        assert forall|j: int| 0 <= j < t.len() implies t[j] == #[trigger] s[j] by {}
        match json_entries(t, 0, Seq::empty(), depth) {
            Err(e) => {
                let k = choose|k: int|
                    0 <= k < t.len() && json_to_v8((#[trigger] t[k]).1, depth) == Err::<
                        V8View,
                        Seq<char>,
                    >(e) && forall|j: int|
                        0 <= j < k ==> json_to_v8((#[trigger] t[j]).1, depth) is Ok;
                assert(json_to_v8(s[k].1, depth) == Err::<V8View, Seq<char>>(e));
                assert forall|j: int| 0 <= j < k implies json_to_v8(
                    (#[trigger] s[j]).1,
                    depth,
                ) is Ok by {
                    assert(t[j] == s[j]);
                }
            },
            Ok(before) => {
                assert forall|j: int| 0 <= j < t.len() implies json_to_v8(
                    (#[trigger] s[j]).1,
                    depth,
                ) is Ok by {
                    assert(t[j] == s[j]);
                }
                assert(s[s.len() - 1] == x);
                match json_to_v8(x.1, depth) {
                    Err(e) => {},
                    Ok(p) => lemma_entry_more(s, before, p, depth),
                }
            },
        }
    }
}

/// What holds of the map that all entries of an object but the last make holds with the last too.
proof fn lemma_entry_more(
    s: Seq<(Seq<char>, JsonView)>,
    before: Seq<(V8View, V8View)>,
    p: V8View,
    depth: nat,
)
    requires
        s.len() > 0,
        json_to_v8(s.last().1, depth) == Ok::<V8View, Seq<char>>(p),
        forall|i: int, j: int|
            0 <= i < j < before.len() ==> (#[trigger] before[i]).0 != (#[trigger] before[j]).0,
        forall|k: int|
            0 <= k < before.len() ==> exists|j: int|
                0 <= j < s.len() - 1 && V8View::String((#[trigger] s.drop_last()[j]).0) == (
                #[trigger] before[k]).0,
        forall|j: int|
            #![trigger last_of_its_name(s.drop_last(), j)]
            last_of_its_name(s.drop_last(), j) ==> exists|k: int|
                0 <= k < before.len() && (#[trigger] before[k]).0 == V8View::String(
                    s.drop_last()[j].0,
                ) && json_to_v8(s.drop_last()[j].1, depth) == Ok::<V8View, Seq<char>>(before[k].1),
    ensures
        ({
            let all = with_entry(before, s.last().0, p);
            &&& forall|i: int, j: int|
                0 <= i < j < all.len() ==> (#[trigger] all[i]).0 != (#[trigger] all[j]).0
            &&& forall|k: int|
                0 <= k < all.len() ==> exists|j: int|
                    0 <= j < s.len() && V8View::String((#[trigger] s[j]).0) == (
                    #[trigger] all[k]).0
            &&& forall|j: int|
                #![trigger last_of_its_name(s, j)]
                last_of_its_name(s, j) ==> exists|k: int|
                    0 <= k < all.len() && (#[trigger] all[k]).0 == V8View::String(s[j].0)
                        && json_to_v8(s[j].1, depth) == Ok::<V8View, Seq<char>>(all[k].1)
        }),
{
    let t = s.drop_last();
    let x = s.last();
    let all = with_entry(before, x.0, p);
    law_put_entry_keeps_other_names(before, x.0, p);
    assert(s[s.len() - 1] == x);
    assert forall|k: int| 0 <= k < all.len() implies exists|j: int|
        0 <= j < s.len() && V8View::String((#[trigger] s[j]).0) == (#[trigger] all[k]).0 by {
        if k < before.len() {
            assert(all[k].0 == before[k].0);
            let j = choose|j: int|
                0 <= j < s.len() - 1 && V8View::String((#[trigger] t[j]).0) == before[k].0;
            assert(s[j] == t[j]);
        } else {
            assert(V8View::String(s[s.len() - 1].0) == all[k].0);
        }
    }
    assert forall|j: int|
        #![trigger last_of_its_name(s, j)]
        last_of_its_name(s, j) implies exists|k: int|
        0 <= k < all.len() && (#[trigger] all[k]).0 == V8View::String(s[j].0) && json_to_v8(
            s[j].1,
            depth,
        ) == Ok::<V8View, Seq<char>>(all[k].1) by {
        if j == s.len() - 1 {
            let k = choose|k: int|
                0 <= k < all.len() && #[trigger] all[k] == (V8View::String(x.0), p);
            assert(all[k].0 == V8View::String(s[j].0));
        } else {
            assert(t[j] == s[j]);
            assert(s[s.len() - 1].0 != s[j].0);
            assert(last_of_its_name(t, j)) by {
                assert forall|l: int| j < l < t.len() implies (#[trigger] t[l]).0 != t[j].0 by {
                    assert(s[l] == t[l]);
                }
            }
            let k = choose|k: int|
                0 <= k < before.len() && (#[trigger] before[k]).0 == V8View::String(t[j].0)
                    && json_to_v8(t[j].1, depth) == Ok::<V8View, Seq<char>>(before[k].1);
            assert(before[k].0 != V8View::String(x.0));
            assert(all[k] == before[k]);
        }
    }
}

/// A JSON object becomes a map that has exactly the names of the object as keys, each once, and
/// under each name what the last value of that name becomes. It fails where it is nested too deeply
/// or where a value fails, with the error of the first that does.
pub proof fn law_json_object_keeps_its_names(entries: Seq<(Seq<char>, JsonView)>, depth: nat)
    ensures
        match json_to_v8(JsonView::Object(entries), depth) {
            Ok(p) => {
                &&& depth < MAX_PROXY_DEPTH
                &&& p matches V8View::Dict(all)
                &&& forall|i: int, j: int|
                    0 <= i < j < all.len() ==> (#[trigger] all[i]).0 != (#[trigger] all[j]).0
                &&& forall|k: int|
                    0 <= k < all.len() ==> exists|j: int|
                        0 <= j < entries.len() && V8View::String((#[trigger] entries[j]).0) == (
                        #[trigger] all[k]).0
                &&& forall|j: int|
                    0 <= j < entries.len() ==> exists|k: int|
                        0 <= k < all.len() && (#[trigger] all[k]).0 == V8View::String(
                            (#[trigger] entries[j]).0,
                        )
                &&& forall|j: int, k: int|
                    0 <= j < entries.len() && 0 <= k < all.len() && (#[trigger] all[k]).0
                        == V8View::String((#[trigger] entries[j]).0) && (forall|l: int|
                        j < l < entries.len() ==> (#[trigger] entries[l]).0 != entries[j].0)
                        ==> json_to_v8(entries[j].1, depth + 1) == Ok::<V8View, Seq<char>>(all[k].1)
            },
            Err(e) => {
                ||| depth >= MAX_PROXY_DEPTH && e
                    == "Maximum proxy depth exceeded when converting JSON to ProxiedV8Value"@
                ||| depth < MAX_PROXY_DEPTH && exists|k: int|
                    0 <= k < entries.len() && json_to_v8((#[trigger] entries[k]).1, depth + 1)
                        == Err::<V8View, Seq<char>>(e) && forall|j: int|
                        0 <= j < k ==> json_to_v8((#[trigger] entries[j]).1, depth + 1) is Ok
            },
        },
{
    lemma_entries_each(entries, depth + 1);
    match json_to_v8(JsonView::Object(entries), depth) {
        Err(e) => {},
        Ok(p) => {
            let all = p->Dict_0;
            assert forall|j: int| 0 <= j < entries.len() implies exists|k: int|
                0 <= k < all.len() && (#[trigger] all[k]).0 == V8View::String(
                    (#[trigger] entries[j]).0,
                ) by {
                let l = lemma_some_last(entries, j);
                assert(last_of_its_name(entries, l));
            }
            assert forall|j: int, k: int|
                0 <= j < entries.len() && 0 <= k < all.len() && (#[trigger] all[k]).0
                    == V8View::String((#[trigger] entries[j]).0) && (forall|l: int|
                    j < l < entries.len() ==> (#[trigger] entries[l]).0
                        != entries[j].0) implies json_to_v8(entries[j].1, depth + 1) == Ok::<
                V8View,
                Seq<char>,
            >(all[k].1) by {
                assert(last_of_its_name(entries, j));
                let m = choose|m: int|
                    0 <= m < all.len() && (#[trigger] all[m]).0 == V8View::String(entries[j].0)
                        && json_to_v8(entries[j].1, depth + 1) == Ok::<V8View, Seq<char>>(all[m].1);
                if m < k {
                    assert(all[m].0 != all[k].0);
                } else if k < m {
                    assert(all[k].0 != all[m].0);
                }
            }
        },
    }
}

/// Every name of an object has a last entry.
proof fn lemma_some_last(s: Seq<(Seq<char>, JsonView)>, j: int) -> (l: int)
    requires
        0 <= j < s.len(),
    ensures
        last_of_its_name(s, l),
        s[l].0 == s[j].0,
    decreases s.len() - j,
{
    if exists|l: int| j < l < s.len() && (#[trigger] s[l]).0 == s[j].0 {
        let l = choose|l: int| j < l < s.len() && (#[trigger] s[l]).0 == s[j].0;
        lemma_some_last(s, l)
    } else {
        j
    }
}

/// What the other kinds of JSON become: a number that is a 64-bit integer becomes the 32-bit
/// integer or, where it is none, the bigint of its value; another number becomes the number
/// nearest to it; a text stays the same.
pub proof fn law_json_kinds(j: JsonView, depth: nat)
    requires
        depth < MAX_PROXY_DEPTH,
    ensures
        j is Null ==> json_to_v8(j, depth) == Ok::<V8View, Seq<char>>(V8View::Nil),
        j matches JsonView::Bool(b) ==> json_to_v8(j, depth) == Ok::<V8View, Seq<char>>(
            V8View::Boolean(b),
        ),
        j matches JsonView::String(s) ==> json_to_v8(j, depth) == Ok::<V8View, Seq<char>>(
            V8View::String(s),
        ),
        j matches JsonView::Number(n) ==> match n.int {
            Some(i) => json_to_v8(j, depth) == Ok::<V8View, Seq<char>>(
                if -0x8000_0000 <= i <= 0x7fff_ffff {
                    V8View::Integer(i as i32)
                } else {
                    V8View::BigInt(i)
                },
            ),
            None => match n.float {
                Some(bits) => json_to_v8(j, depth) == Ok::<V8View, Seq<char>>(
                    V8View::Number(Number::Bits(bits)),
                ),
                None => json_to_v8(j, depth) is Err,
            },
        },
{
}

} // verus!
