//! Giving back the v8 objects that a value refers to undoes the sending of it to Luau.

use vstd::prelude::*;

use crate::denobridge::conv_v8::{dict_of_v8, list_of_v8, psuedo_of_v8, value_of_v8};
use crate::denobridge::jsvalue::JsView;
use crate::denobridge::law_dispose::{
    disposed, gained, lemma_added_gains, lemma_dispose_gained, lemma_occurs_append, lemma_unchanged,
    occurs, refs_of,
};
use crate::denobridge::owned::{owned_v8, owned_v8_list, owned_v8_pairs};
use crate::denobridge::primitives::primitive_of_v8;
use crate::denobridge::value::V8View;
use crate::luau::embedder_api::EmbedderDataContext;
use crate::registry::{ObjectRef, RefKind, RegistryView};

verus! {

proof fn lemma_list_prefix(s: Seq<V8View>, x: V8View, n: nat)
    requires
        n <= s.len(),
    ensures
        owned_v8_list(s.push(x), n) == owned_v8_list(s, n),
    decreases n,
{
    if n > 0 {
        lemma_list_prefix(s, x, (n - 1) as nat);
        assert(s.push(x)[n - 1] == s[n - 1]);
    }
}

proof fn lemma_pairs_prefix(s: Seq<(V8View, V8View)>, x: (V8View, V8View), n: nat)
    requires
        n <= s.len(),
    ensures
        owned_v8_pairs(s.push(x), n) == owned_v8_pairs(s, n),
    decreases n,
{
    if n > 0 {
        lemma_pairs_prefix(s, x, (n - 1) as nat);
        assert(s.push(x)[n - 1] == s[n - 1]);
    }
}

proof fn lemma_value(v: JsView, reg: RegistryView, ed: EmbedderDataContext)
    requires
        reg.wf(),
    ensures
        ({
            let r = value_of_v8(v, reg, ed);
            r.res matches Ok(p) ==> gained(reg, r.reg, Seq::empty(), owned_v8(p))
        }),
    decreases v, 1nat,
{
    lemma_unchanged(reg);
    let ed1 = ed.charged(1);
    let prim = primitive_of_v8(v, ed1);
    if ed.affords(1) {
        if let Ok(None) = prim.res {
            lemma_psuedo(v, reg, prim.ed);
            let psuedo = psuedo_of_v8(v, reg, prim.ed);
            if let Ok(None) = psuedo.res {
                let obj = match v {
                    JsView::Ref(obj) => obj,
                    JsView::ArrayBuffer { handle, .. } => ObjectRef {
                        kind: RefKind::ArrayBuffer,
                        handle,
                    },
                    _ => arbitrary(),
                };
                if psuedo.reg.admits(obj) {
                    lemma_added_gains(psuedo.reg, obj);
                }
            }
        }
    }
}

proof fn lemma_psuedo(v: JsView, reg: RegistryView, ed: EmbedderDataContext)
    requires
        reg.wf(),
    ensures
        ({
            let r = psuedo_of_v8(v, reg, ed);
            &&& r.res matches Ok(Some(p)) ==> gained(reg, r.reg, Seq::empty(), owned_v8(p))
            &&& r.res matches Ok(None) ==> r.reg == reg
        }),
    decreases v, 0nat,
{
    lemma_unchanged(reg);
    assert(owned_v8_list(Seq::empty(), 0) =~= Seq::empty());
    assert(owned_v8_pairs(Seq::empty(), 0) =~= Seq::empty());
    let ed1 = ed.charged(1);
    match v {
        JsView::Array(elems) => {
            let ed2 = ed1.charged(elems.len() as usize);
            lemma_list(elems, 0, Seq::empty(), reg, ed2.child());
        },
        JsView::MapObject(entries) => {
            let n = crate::luau::embedder_api::grown(
                entries.len() as usize,
                entries.len() as usize,
            );
            lemma_dict(entries, 0, Seq::empty(), reg, ed1.charged(n).child());
        },
        _ => {},
    }
}

proof fn lemma_list(
    s: Seq<JsView>,
    i: int,
    done: Seq<V8View>,
    reg: RegistryView,
    ed: EmbedderDataContext,
)
    requires
        reg.wf(),
        0 <= i <= s.len(),
    ensures
        ({
            let r = list_of_v8(s, i, done, reg, ed);
            r.res matches Ok(all) ==> gained(
                reg,
                r.reg,
                owned_v8_list(done, done.len()),
                owned_v8_list(all, all.len()),
            )
        }),
    decreases s, s.len() - i,
{
    if i < s.len() {
        lemma_value(s[i], reg, ed);
        let one = value_of_v8(s[i], reg, ed);
        if let Ok(p) = one.res {
            let next = done.push(p);
            lemma_list(s, i + 1, next, one.reg, one.ed);
            lemma_list_prefix(done, p, done.len());
            assert(owned_v8_list(next, next.len()) == owned_v8_list(done, done.len())
                + owned_v8(p));
            let r = list_of_v8(s, i, done, reg, ed);
            if let Ok(all) = r.res {
                assert forall|id: i64|
                    refs_of(r.reg, id) + occurs(owned_v8_list(done, done.len()), id) == refs_of(
                        reg,
                        id,
                    ) + #[trigger] occurs(owned_v8_list(all, all.len()), id) by {
                    lemma_occurs_append(owned_v8_list(done, done.len()), owned_v8(p), id);
                    assert(refs_of(one.reg, id) + occurs(Seq::empty(), id) == refs_of(reg, id)
                        + occurs(owned_v8(p), id));
                }
            }
        }
    }
}

proof fn lemma_dict(
    s: Seq<(JsView, JsView)>,
    i: int,
    done: Seq<(V8View, V8View)>,
    reg: RegistryView,
    ed: EmbedderDataContext,
)
    requires
        reg.wf(),
        0 <= i <= s.len(),
    ensures
        ({
            let r = dict_of_v8(s, i, done, reg, ed);
            r.res matches Ok(all) ==> gained(
                reg,
                r.reg,
                owned_v8_pairs(done, done.len()),
                owned_v8_pairs(all, all.len()),
            )
        }),
    decreases s, s.len() - i,
{
    if i < s.len() {
        assert(decreases_to!(s => s[i]));
        assert(decreases_to!(s[i] => s[i].0));
        assert(decreases_to!(s[i] => s[i].1));
        lemma_value(s[i].0, reg, ed);
        let key = value_of_v8(s[i].0, reg, ed);
        if let Ok(k) = key.res {
            lemma_value(s[i].1, key.reg, key.ed);
            let val = value_of_v8(s[i].1, key.reg, key.ed);
            if let Ok(p) = val.res {
                let next = done.push((k, p));
                lemma_dict(s, i + 1, next, val.reg, val.ed);
                lemma_pairs_prefix(done, (k, p), done.len());
                let before = owned_v8_pairs(done, done.len());
                assert(owned_v8_pairs(next, next.len()) == before + owned_v8(k) + owned_v8(
                    p,
                ));
                let r = dict_of_v8(s, i, done, reg, ed);
                if let Ok(all) = r.res {
                    assert forall|id: i64|
                        refs_of(r.reg, id) + occurs(before, id) == refs_of(reg, id)
                            + #[trigger] occurs(owned_v8_pairs(all, all.len()), id) by {
                        lemma_occurs_append(before, owned_v8(k), id);
                        lemma_occurs_append(before + owned_v8(k), owned_v8(p), id);
                        assert(refs_of(key.reg, id) + occurs(Seq::empty(), id) == refs_of(reg, id)
                            + occurs(owned_v8(k), id));
                        assert(refs_of(val.reg, id) + occurs(Seq::empty(), id) == refs_of(
                            key.reg,
                            id,
                        ) + occurs(owned_v8(p), id));
                    }
                }
            }
        }
    }
}

/// Dropping every v8 object that a value sent to Luau refers to leaves the registry holding what
/// it held before the value was sent.
pub proof fn law_disposing_undoes_sending_to_luau(
    v: JsView,
    reg: RegistryView,
    ed: EmbedderDataContext,
)
    requires
        reg.wf(),
    ensures
        ({
            let r = value_of_v8(v, reg, ed);
            r.res matches Ok(p) ==> disposed(r.reg, owned_v8(p)).live == reg.live
        }),
{
    lemma_value(v, reg, ed);
    let r = value_of_v8(v, reg, ed);
    if let Ok(p) = r.res {
        lemma_dispose_gained(reg, r.reg, owned_v8(p));
    }
}

/// Every v8 object that a value sent to Luau refers to can be looked up.
pub proof fn law_objects_sent_to_luau_are_held(
    v: JsView,
    reg: RegistryView,
    ed: EmbedderDataContext,
    id: i64,
)
    requires
        reg.wf(),
    ensures
        ({
            let r = value_of_v8(v, reg, ed);
            r.res matches Ok(p) ==> (occurs(owned_v8(p), id) > 0 ==> r.reg.live.dom().contains(id))
        }),
{
    lemma_value(v, reg, ed);
}

} // verus!
