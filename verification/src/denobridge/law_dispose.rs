//! Giving back what a value refers to undoes the sending of it.

use vstd::prelude::*;

use crate::denobridge::conv_luau::{
    dict_of_luau, list_of_luau, psuedo_of_luau, reference_of_luau, value_of_luau,
};
use crate::denobridge::owned::{owned_luau, owned_luau_list, owned_luau_pairs};
use crate::denobridge::primitives::primitive_of_luau;
use crate::denobridge::value::V8View;
use crate::luau::embedder_api::EmbedderDataContext;
use crate::luau::value::{LuauView, PayloadView};
use crate::registry::{law_added_wf, law_dropped_wf, ObjectRef, RegistryView};

verus! {

/// How often a number occurs.
pub open spec fn occurs(ids: Seq<i64>, id: i64) -> nat
    decreases ids.len(),
{
    if ids.len() == 0 {
        0
    } else {
        occurs(ids.drop_last(), id) + if ids.last() == id {
            1nat
        } else {
            0nat
        }
    }
}

/// How often an object is handed out.
pub open spec fn refs_of(reg: RegistryView, id: i64) -> nat {
    if reg.live.dom().contains(id) {
        reg.live[id].refs as nat
    } else {
        0
    }
}

/// The registry after each of the numbers was dropped once.
pub open spec fn disposed(reg: RegistryView, ids: Seq<i64>) -> RegistryView
    decreases ids.len(),
{
    if ids.len() == 0 {
        reg
    } else {
        disposed(reg, ids.drop_last()).dropped(ids.last())
    }
}

/// Whether no value that is handed over as it is refers to a Luau object.
pub open spec fn untransferred(v: LuauView) -> bool
    decreases v,
{
    match v {
        LuauView::UserData { payload: PayloadView::V8Transfer(p), .. } => owned_luau(p).len() == 0,
        LuauView::Table { entries, .. } => forall|i: int|
            0 <= i < entries.len() ==> untransferred((#[trigger] entries[i]).0) && untransferred(
                entries[i].1,
            ),
        _ => true,
    }
}

/// Whether every object of the first registry is in the second.
pub open spec fn keeps(a: RegistryView, b: RegistryView) -> bool {
    forall|id: i64| #[trigger]
        a.live.dom().contains(id) ==> b.live.dom().contains(id) && b.live[id].obj
            == a.live[id].obj
}

/// Whether the second registry has handed out more by just the numbers that `more` has over `less`.
pub open spec fn gained(a: RegistryView, b: RegistryView, less: Seq<i64>, more: Seq<i64>) -> bool {
    &&& b.wf()
    &&& keeps(a, b)
    &&& forall|id: i64|
        #![trigger refs_of(b, id)]
        #![trigger occurs(more, id)]
        refs_of(b, id) + occurs(less, id) == refs_of(a, id) + occurs(more, id)
}

pub(crate) proof fn lemma_occurs_append(a: Seq<i64>, b: Seq<i64>, id: i64)
    ensures
        occurs(a + b, id) == occurs(a, id) + occurs(b, id),
    decreases b.len(),
{
    if b.len() == 0 {
        assert(a + b =~= a);
    } else {
        assert((a + b).drop_last() =~= a + b.drop_last());
        assert((a + b).last() == b.last());
        lemma_occurs_append(a, b.drop_last(), id);
    }
}

proof fn lemma_list_prefix(s: Seq<V8View>, x: V8View, n: nat)
    requires
        n <= s.len(),
    ensures
        owned_luau_list(s.push(x), n) == owned_luau_list(s, n),
    decreases n,
{
    if n > 0 {
        lemma_list_prefix(s, x, (n - 1) as nat);
        assert(s.push(x)[n - 1] == s[n - 1]);
    }
}

proof fn lemma_pairs_prefix(s: Seq<(V8View, V8View)>, x: (V8View, V8View), n: nat)
    requires
        n <= s.len(),
    ensures
        owned_luau_pairs(s.push(x), n) == owned_luau_pairs(s, n),
    decreases n,
{
    if n > 0 {
        lemma_pairs_prefix(s, x, (n - 1) as nat);
        assert(s.push(x)[n - 1] == s[n - 1]);
    }
}

proof fn lemma_one_id(id: i64)
    ensures
        forall|k: i64|
            #![trigger occurs(seq![id], k)]
            occurs(seq![id], k) == if k == id {
                1nat
            } else {
                0nat
            },
        forall|k: i64| #[trigger] occurs(Seq::empty(), k) == 0,
{
    assert forall|k: i64|
        #![trigger occurs(seq![id], k)]
        occurs(seq![id], k) == if k == id {
            1nat
        } else {
            0nat
        } by {
        assert(seq![id].drop_last() =~= Seq::empty());
        assert(occurs(Seq::empty(), k) == 0);
    }
}

pub(crate) proof fn lemma_added_gains(reg: RegistryView, obj: ObjectRef)
    requires
        reg.wf(),
        reg.admits(obj),
    ensures
        gained(reg, reg.added(obj), Seq::empty(), seq![reg.id_for(obj)]),
{
    law_added_wf(reg, obj);
    lemma_one_id(reg.id_for(obj));
    if reg.holds(obj) {
        assert(reg.live.dom().contains(reg.number_of(obj)));
    } else {
        assert(!reg.live.dom().contains(reg.next));
    }
}

pub(crate) proof fn lemma_unchanged(reg: RegistryView)
    requires
        reg.wf(),
    ensures
        gained(reg, reg, Seq::empty(), Seq::empty()),
{
}

proof fn lemma_value(v: LuauView, reg: RegistryView, ed: EmbedderDataContext)
    requires
        reg.wf(),
        untransferred(v),
    ensures
        ({
            let r = value_of_luau(v, reg, ed);
            r.res matches Ok(p) ==> gained(reg, r.reg, Seq::empty(), owned_luau(p))
        }),
    decreases v, 1nat,
{
    lemma_unchanged(reg);
    let prim = primitive_of_luau(v, ed.sibling());
    if let Ok(None) = prim.res {
        lemma_psuedo(v, reg, ed.sibling());
        let psuedo = psuedo_of_luau(v, reg, ed.sibling());
        if let Ok(None) = psuedo.res {
            let r = reference_of_luau(v, psuedo.reg, ed);
            if let Some(obj) = crate::luau::bridge::object_of(v) {
                if psuedo.reg.admits(obj) {
                    lemma_added_gains(psuedo.reg, obj);
                }
            }
            if let Ok(p) = r.res {
                if let LuauView::UserData { payload: PayloadView::V8Transfer(q), .. } = v {
                    assert(owned_luau(p) =~= Seq::empty());
                }
            }
        }
    }
}

proof fn lemma_psuedo(v: LuauView, reg: RegistryView, ed: EmbedderDataContext)
    requires
        reg.wf(),
        untransferred(v),
    ensures
        ({
            let r = psuedo_of_luau(v, reg, ed);
            &&& r.res matches Ok(Some(p)) ==> gained(reg, r.reg, Seq::empty(), owned_luau(p))
            &&& r.res matches Ok(None) ==> r.reg == reg
        }),
    decreases v, 0nat,
{
    lemma_unchanged(reg);
    if let LuauView::Table { frozen, metatable, len, entries, .. } = v {
        assert(owned_luau_list(Seq::empty(), 0) =~= Seq::empty());
        assert(owned_luau_pairs(Seq::empty(), 0) =~= Seq::empty());
        let ed1 = ed.charged(1);
        let ed2 = ed1.charged(len);
        lemma_list(entries, 0, Seq::empty(), reg, ed2.child());
        lemma_dict(entries, 0, Seq::empty(), reg, ed1.child());
    }
}

proof fn lemma_list(
    s: Seq<(LuauView, LuauView)>,
    i: int,
    done: Seq<V8View>,
    reg: RegistryView,
    ed: EmbedderDataContext,
)
    requires
        reg.wf(),
        0 <= i <= s.len(),
        forall|j: int|
            0 <= j < s.len() ==> untransferred((#[trigger] s[j]).0) && untransferred(s[j].1),
    ensures
        ({
            let r = list_of_luau(s, i, done, reg, ed);
            r.res matches Ok(all) ==> gained(
                reg,
                r.reg,
                owned_luau_list(done, done.len()),
                owned_luau_list(all, all.len()),
            )
        }),
    decreases s, s.len() - i,
{
    if i < s.len() {
        lemma_value(s[i].1, reg, ed);
        let one = value_of_luau(s[i].1, reg, ed);
        if let Ok(p) = one.res {
            let next = done.push(p);
            lemma_list(s, i + 1, next, one.reg, one.ed);
            lemma_list_prefix(done, p, done.len());
            assert(owned_luau_list(next, next.len()) == owned_luau_list(done, done.len())
                + owned_luau(p));
            let r = list_of_luau(s, i, done, reg, ed);
            if let Ok(all) = r.res {
                assert forall|id: i64|
                    refs_of(r.reg, id) + occurs(owned_luau_list(done, done.len()), id) == refs_of(
                        reg,
                        id,
                    ) + #[trigger] occurs(owned_luau_list(all, all.len()), id) by {
                    lemma_occurs_append(owned_luau_list(done, done.len()), owned_luau(p), id);
                    assert(refs_of(one.reg, id) + occurs(Seq::empty(), id) == refs_of(reg, id)
                        + occurs(owned_luau(p), id));
                }
            }
        }
    }
}

proof fn lemma_dict(
    s: Seq<(LuauView, LuauView)>,
    i: int,
    done: Seq<(V8View, V8View)>,
    reg: RegistryView,
    ed: EmbedderDataContext,
)
    requires
        reg.wf(),
        0 <= i <= s.len(),
        forall|j: int|
            0 <= j < s.len() ==> untransferred((#[trigger] s[j]).0) && untransferred(s[j].1),
    ensures
        ({
            let r = dict_of_luau(s, i, done, reg, ed);
            r.res matches Ok(all) ==> gained(
                reg,
                r.reg,
                owned_luau_pairs(done, done.len()),
                owned_luau_pairs(all, all.len()),
            )
        }),
    decreases s, s.len() - i,
{
    if i < s.len() {
        lemma_value(s[i].0, reg, ed);
        let key = value_of_luau(s[i].0, reg, ed);
        if let Ok(k) = key.res {
            lemma_value(s[i].1, key.reg, key.ed);
            let val = value_of_luau(s[i].1, key.reg, key.ed);
            if let Ok(p) = val.res {
                let next = done.push((k, p));
                lemma_dict(s, i + 1, next, val.reg, val.ed);
                lemma_pairs_prefix(done, (k, p), done.len());
                let before = owned_luau_pairs(done, done.len());
                assert(owned_luau_pairs(next, next.len()) == before + owned_luau(k) + owned_luau(
                    p,
                ));
                let r = dict_of_luau(s, i, done, reg, ed);
                if let Ok(all) = r.res {
                    assert forall|id: i64|
                        refs_of(r.reg, id) + occurs(before, id) == refs_of(reg, id)
                            + #[trigger] occurs(owned_luau_pairs(all, all.len()), id) by {
                        lemma_occurs_append(before, owned_luau(k), id);
                        lemma_occurs_append(before + owned_luau(k), owned_luau(p), id);
                        assert(refs_of(key.reg, id) + occurs(Seq::empty(), id) == refs_of(reg, id)
                            + occurs(owned_luau(k), id));
                        assert(refs_of(val.reg, id) + occurs(Seq::empty(), id) == refs_of(
                            key.reg,
                            id,
                        ) + occurs(owned_luau(p), id));
                    }
                }
            }
        }
    }
}

pub(crate) proof fn lemma_disposed(reg: RegistryView, ids: Seq<i64>)
    requires
        reg.wf(),
        forall|id: i64| #[trigger] occurs(ids, id) <= refs_of(reg, id),
    ensures
        disposed(reg, ids).wf(),
        keeps(disposed(reg, ids), reg),
        forall|id: i64| #[trigger]
            refs_of(disposed(reg, ids), id) + occurs(ids, id) == refs_of(reg, id),
    decreases ids.len(),
{
    if ids.len() > 0 {
        let head = ids.drop_last();
        assert forall|id: i64| #[trigger] occurs(head, id) <= refs_of(reg, id) by {
            assert(occurs(ids, id) <= refs_of(reg, id));
        }
        lemma_disposed(reg, head);
        let mid = disposed(reg, head);
        let last = ids.last();
        law_dropped_wf(mid, last);
        assert(occurs(ids, last) <= refs_of(reg, last));
        assert(refs_of(mid, last) + occurs(head, last) == refs_of(reg, last));
        assert forall|id: i64| #[trigger]
            refs_of(disposed(reg, ids), id) + occurs(ids, id) == refs_of(reg, id) by {
            assert(refs_of(mid, id) + occurs(head, id) == refs_of(reg, id));
        }
    }
}

/// Dropping what a registry has gained leaves what it held before.
pub(crate) proof fn lemma_dispose_gained(reg: RegistryView, after: RegistryView, ids: Seq<i64>)
    requires
        reg.wf(),
        gained(reg, after, Seq::empty(), ids),
    ensures
        disposed(after, ids).live == reg.live,
{
    assert forall|id: i64| #[trigger] occurs(ids, id) <= refs_of(after, id) by {
        assert(refs_of(after, id) + occurs(Seq::empty(), id) == refs_of(reg, id) + occurs(ids, id));
    }
    lemma_disposed(after, ids);
    let back = disposed(after, ids);
    assert forall|id: i64| refs_of(back, id) == refs_of(reg, id) by {
        assert(refs_of(back, id) + occurs(ids, id) == refs_of(after, id));
        assert(refs_of(after, id) + occurs(Seq::empty(), id) == refs_of(reg, id) + occurs(ids, id));
    }
    assert forall|id: i64| back.live.dom().contains(id) <==> reg.live.dom().contains(id) by {
        assert(refs_of(back, id) == refs_of(reg, id));
    }
    assert forall|id: i64| reg.live.dom().contains(id) implies back.live[id] == reg.live[id] by {
        assert(refs_of(back, id) == refs_of(reg, id));
        assert(back.live.dom().contains(id));
        assert(after.live[id].obj == reg.live[id].obj);
    }
    assert(back.live =~= reg.live);
}

/// Dropping every Luau object that a sent value refers to leaves the registry holding what it
/// held before the value was sent.
pub proof fn law_disposing_undoes_sending(v: LuauView, reg: RegistryView, ed: EmbedderDataContext)
    requires
        reg.wf(),
        untransferred(v),
    ensures
        ({
            let r = value_of_luau(v, reg, ed);
            r.res matches Ok(p) ==> disposed(r.reg, owned_luau(p)).live == reg.live
        }),
{
    lemma_value(v, reg, ed);
    let r = value_of_luau(v, reg, ed);
    if let Ok(p) = r.res {
        lemma_dispose_gained(reg, r.reg, owned_luau(p));
    }
}

/// Every Luau object that a sent value refers to can be looked up.
pub proof fn law_sent_objects_are_held(
    v: LuauView,
    reg: RegistryView,
    ed: EmbedderDataContext,
    id: i64,
)
    requires
        reg.wf(),
        untransferred(v),
    ensures
        ({
            let r = value_of_luau(v, reg, ed);
            r.res matches Ok(p) ==> (occurs(owned_luau(p), id) > 0 ==> r.reg.live.dom().contains(
                id,
            ))
        }),
{
    lemma_value(v, reg, ed);
}

} // verus!
