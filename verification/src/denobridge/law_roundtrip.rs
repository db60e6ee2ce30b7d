//! A value that comes back is the value that was sent.

use vstd::prelude::*;
use vstd::utf8::*;

use crate::denobridge::conv_luau::{
    dict_of_luau, dict_to_luau, list_of_luau, list_to_luau, made_array, made_table, psuedo_to_luau,
    value_of_luau, value_to_luau,
};
use crate::denobridge::conv_v8::{
    dict_of_v8, dict_to_v8, list_of_v8, list_to_v8, made_vector, psuedo_to_v8, v8_type_of,
    value_of_v8, value_to_v8, vector_of,
};
use crate::denobridge::jsvalue::JsView;
use crate::denobridge::objreg::v8_number;
use crate::denobridge::value::V8View;
use crate::luau::bridge::ObjectRegistryType;
use crate::luau::embedder_api::EmbedderDataContext;
use crate::luau::value::{LuauView, PayloadView, FRESH};
use crate::registry::{law_add_leaves_others, law_added_wf, RegistryView};

verus! {

/// What a proxied value is in Luau, with the entries of tables in the order in which they are set.
pub open spec fn in_luau(p: V8View, reg: RegistryView) -> LuauView
    decreases p,
{
    match p {
        V8View::Nil => LuauView::Nil,
        V8View::Undefined => LuauView::Nil,
        V8View::Boolean(b) => LuauView::Boolean(b),
        V8View::Integer(i) => LuauView::Integer(i as i64),
        V8View::BigInt(i) => LuauView::Integer(i),
        V8View::String(s) => LuauView::String(encode_utf8(s)),
        V8View::Number(n) => LuauView::Number(n),
        V8View::Vector(v) => LuauView::Vector(v),
        V8View::Bytes(bytes) => LuauView::String(bytes),
        V8View::List(items) => made_array(
            Seq::new(
                items.len(),
                |i: int|
                    if 0 <= i < items.len() {
                        in_luau(items[i], reg)
                    } else {
                        arbitrary()
                    },
            ),
        ),
        V8View::Dict(items) => made_table(
            Seq::new(
                items.len(),
                |i: int|
                    if 0 <= i < items.len() {
                        (in_luau(items[i].0, reg), in_luau(items[i].1, reg))
                    } else {
                        arbitrary()
                    },
            ),
        ),
        V8View::V8Owned(typ, id) => LuauView::UserData {
            handle: FRESH,
            payload: PayloadView::V8Ref(typ, id),
        },
        V8View::SourceOwned(_, id) => LuauView::Ref(reg.live[id].obj),
    }
}

/// What a proxied value is in v8.
pub open spec fn in_v8(p: V8View, reg: RegistryView) -> JsView
    decreases p,
{
    match p {
        V8View::Nil => JsView::Null,
        V8View::Undefined => JsView::Undefined,
        V8View::Boolean(b) => JsView::Boolean(b),
        V8View::Integer(i) => JsView::Int32(i),
        V8View::BigInt(i) => JsView::BigInt(i),
        V8View::String(s) => JsView::String(s),
        V8View::Number(n) => JsView::Number(n),
        V8View::Vector(v) => made_vector(v),
        V8View::Bytes(bytes) => JsView::Uint8Array(bytes),
        V8View::List(items) => JsView::Array(
            Seq::new(
                items.len(),
                |i: int|
                    if 0 <= i < items.len() {
                        in_v8(items[i], reg)
                    } else {
                        arbitrary()
                    },
            ),
        ),
        V8View::Dict(items) => JsView::MapObject(
            Seq::new(
                items.len(),
                |i: int|
                    if 0 <= i < items.len() {
                        (in_v8(items[i].0, reg), in_v8(items[i].1, reg))
                    } else {
                        arbitrary()
                    },
            ),
        ),
        V8View::V8Owned(_, id) => if reg.live.dom().contains(v8_number(id)) {
            JsView::Ref(reg.live[v8_number(id)].obj)
        } else {
            JsView::Undefined
        },
        V8View::SourceOwned(typ, id) => JsView::LuaObject(typ, id),
    }
}

/// What a proxied value becomes in Luau, when it becomes anything, depends on nothing but the
/// value and the registry.
pub proof fn law_what_luau_gets(p: V8View, reg: RegistryView, ed: EmbedderDataContext)
    ensures
        value_to_luau(p, reg, ed).res matches Ok(v) ==> v == in_luau(p, reg),
    decreases p, 1nat,
{
    let r = value_to_luau(p, reg, ed);
    if r.res is Ok && !p.is_primitive() {
        if !(p is V8Owned) && !(p is SourceOwned) {
            lemma_luau_gets_psuedo(p, reg, ed.charged(1));
        }
    }
}

proof fn lemma_luau_gets_psuedo(p: V8View, reg: RegistryView, ed: EmbedderDataContext)
    requires
        !p.is_primitive(),
        !(p is V8Owned),
        !(p is SourceOwned),
    ensures
        psuedo_to_luau(p, reg, ed).res matches Ok(v) ==> v == in_luau(p, reg),
    decreases p, 0nat,
{
    let r = psuedo_to_luau(p, reg, ed);
    if let Ok(v) = r.res {
        match p {
            V8View::List(items) => {
                let ed2 = ed.charged(1).charged(items.len() as usize);
                lemma_luau_gets_list(items, 0, Seq::empty(), reg, ed2.child());
                assert(v->Table_entries =~= in_luau(p, reg)->Table_entries);
            },
            V8View::Dict(items) => {
                let ed2 = ed.charged(1).charged(items.len() as usize);
                lemma_luau_gets_dict(items, 0, Seq::empty(), reg, ed2.child());
                assert(v->Table_entries =~= in_luau(p, reg)->Table_entries);
            },
            _ => {},
        }
    }
}

proof fn lemma_luau_gets_list(
    s: Seq<V8View>,
    i: int,
    done: Seq<LuauView>,
    reg: RegistryView,
    ed: EmbedderDataContext,
)
    requires
        0 <= i <= s.len(),
        done.len() == i,
        forall|k: int| 0 <= k < i ==> #[trigger] done[k] == in_luau(s[k], reg),
    ensures
        list_to_luau(s, i, done, reg, ed).res matches Ok(all) ==> {
            &&& all.len() == s.len()
            &&& forall|k: int| 0 <= k < s.len() ==> #[trigger] all[k] == in_luau(s[k], reg)
        },
    decreases s, s.len() - i,
{
    if i < s.len() {
        law_what_luau_gets(s[i], reg, ed);
        let one = value_to_luau(s[i], reg, ed);
        if let Ok(v) = one.res {
            lemma_luau_gets_list(s, i + 1, done.push(v), reg, one.ed);
        }
    }
}

proof fn lemma_luau_gets_dict(
    s: Seq<(V8View, V8View)>,
    i: int,
    done: Seq<(LuauView, LuauView)>,
    reg: RegistryView,
    ed: EmbedderDataContext,
)
    requires
        0 <= i <= s.len(),
        done.len() == i,
        forall|k: int|
            0 <= k < i ==> #[trigger] done[k] == (in_luau(s[k].0, reg), in_luau(s[k].1, reg)),
    ensures
        dict_to_luau(s, i, done, reg, ed).res matches Ok(all) ==> {
            &&& all.len() == s.len()
            &&& forall|k: int|
                0 <= k < s.len() ==> #[trigger] all[k] == (
                    in_luau(s[k].0, reg),
                    in_luau(s[k].1, reg),
                )
        },
    decreases s, s.len() - i,
{
    if i < s.len() {
        law_what_luau_gets(s[i].0, reg, ed);
        let key = value_to_luau(s[i].0, reg, ed);
        if let Ok(k) = key.res {
            law_what_luau_gets(s[i].1, reg, key.ed);
            let val = value_to_luau(s[i].1, reg, key.ed);
            if let Ok(v) = val.res {
                lemma_luau_gets_dict(s, i + 1, done.push((k, v)), reg, val.ed);
            }
        }
    }
}

/// What a proxied value becomes in v8, when it becomes anything, depends on nothing but the
/// value and the registry.
pub proof fn law_what_v8_gets(p: V8View, reg: RegistryView, ed: EmbedderDataContext)
    ensures
        value_to_v8(p, reg, ed).res matches Ok(v) ==> v == in_v8(p, reg),
    decreases p, 1nat,
{
    let r = value_to_v8(p, reg, ed);
    if r.res is Ok && !p.is_primitive() {
        if !(p is V8Owned) && !(p is SourceOwned) {
            lemma_v8_gets_psuedo(p, reg, ed.charged(1));
        }
    }
}

proof fn lemma_v8_gets_psuedo(p: V8View, reg: RegistryView, ed: EmbedderDataContext)
    requires
        !p.is_primitive(),
        !(p is V8Owned),
        !(p is SourceOwned),
    ensures
        psuedo_to_v8(p, reg, ed).res matches Ok(v) ==> v == in_v8(p, reg),
    decreases p, 0nat,
{
    let r = psuedo_to_v8(p, reg, ed);
    if let Ok(v) = r.res {
        match p {
            V8View::List(items) => {
                let ed2 = ed.charged(1).charged(items.len() as usize);
                lemma_v8_gets_list(items, 0, Seq::empty(), reg, ed2.child());
                assert(v->Array_0 =~= in_v8(p, reg)->Array_0);
            },
            V8View::Dict(items) => {
                let ed2 = ed.charged(1).charged(items.len() as usize);
                lemma_v8_gets_dict(items, 0, Seq::empty(), reg, ed2.child());
                assert(v->MapObject_0 =~= in_v8(p, reg)->MapObject_0);
            },
            _ => {},
        }
    }
}

proof fn lemma_v8_gets_list(
    s: Seq<V8View>,
    i: int,
    done: Seq<JsView>,
    reg: RegistryView,
    ed: EmbedderDataContext,
)
    requires
        0 <= i <= s.len(),
        done.len() == i,
        forall|k: int| 0 <= k < i ==> #[trigger] done[k] == in_v8(s[k], reg),
    ensures
        list_to_v8(s, i, done, reg, ed).res matches Ok(all) ==> {
            &&& all.len() == s.len()
            &&& forall|k: int| 0 <= k < s.len() ==> #[trigger] all[k] == in_v8(s[k], reg)
        },
    decreases s, s.len() - i,
{
    if i < s.len() {
        law_what_v8_gets(s[i], reg, ed);
        let one = value_to_v8(s[i], reg, ed);
        if let Ok(v) = one.res {
            lemma_v8_gets_list(s, i + 1, done.push(v), reg, one.ed);
        }
    }
}

proof fn lemma_v8_gets_dict(
    s: Seq<(V8View, V8View)>,
    i: int,
    done: Seq<(JsView, JsView)>,
    reg: RegistryView,
    ed: EmbedderDataContext,
)
    requires
        0 <= i <= s.len(),
        done.len() == i,
        forall|k: int|
            0 <= k < i ==> #[trigger] done[k] == (in_v8(s[k].0, reg), in_v8(s[k].1, reg)),
    ensures
        dict_to_v8(s, i, done, reg, ed).res matches Ok(all) ==> {
            &&& all.len() == s.len()
            &&& forall|k: int|
                0 <= k < s.len() ==> #[trigger] all[k] == (in_v8(s[k].0, reg), in_v8(s[k].1, reg))
        },
    decreases s, s.len() - i,
{
    if i < s.len() {
        law_what_v8_gets(s[i].0, reg, ed);
        let key = value_to_v8(s[i].0, reg, ed);
        if let Ok(k) = key.res {
            law_what_v8_gets(s[i].1, reg, key.ed);
            let val = value_to_v8(s[i].1, reg, key.ed);
            if let Ok(v) = val.res {
                lemma_v8_gets_dict(s, i + 1, done.push((k, v)), reg, val.ed);
            }
        }
    }
}

/// Whether no two entries have the same key.
pub open spec fn distinct_keys(items: Seq<(V8View, V8View)>) -> bool {
    forall|i: int, j: int|
        #![trigger items[i], items[j]]
        0 <= i < j < items.len() ==> items[i].0 != items[j].0
}

/// Whether a proxied value keeps its sort in Luau: Luau has no undefined, one sort of integer
/// and one sort of string, its tables hold no nil and each key once, and the Luau objects that the
/// value refers to must be in the registry.
pub open spec fn at_home_in_luau(p: V8View, reg: RegistryView) -> bool
    decreases p,
{
    match p {
        V8View::Undefined => false,
        V8View::BigInt(i) => i < i32::MIN || i > i32::MAX,
        V8View::Bytes(bytes) => !valid_utf8(bytes),
        V8View::List(items) => forall|i: int|
            0 <= i < items.len() ==> !(#[trigger] items[i] is Nil) && at_home_in_luau(
                items[i],
                reg,
            ),
        V8View::Dict(items) => distinct_keys(items) && forall|i: int|
            0 <= i < items.len() ==> (#[trigger] items[i]).0.is_primitive() && !(items[i].0 is Nil)
                && !(items[i].1 is Nil) && at_home_in_luau(items[i].0, reg) && at_home_in_luau(
                items[i].1,
                reg,
            ),
        V8View::SourceOwned(typ, id) => reg.live.dom().contains(id)
            && ObjectRegistryType::of_kind(reg.live[id].obj.kind) == Some(typ),
        _ => true,
    }
}

/// Whether a proxied value keeps its sort in v8: an array of three numbers is a vector there, a map
/// holds each key once, and the v8 objects that the value refers to must be in the registry.
pub open spec fn at_home_in_v8(p: V8View, reg: RegistryView) -> bool
    decreases p,
{
    match p {
        V8View::List(items) => {
            &&& forall|i: int| 0 <= i < items.len() ==> at_home_in_v8(#[trigger] items[i], reg)
            &&& items.len() == 3 ==> !(is_number(items[0]) && is_number(items[1]) && is_number(
                items[2],
            ))
        },
        V8View::Dict(items) => distinct_keys(items) && forall|i: int|
            0 <= i < items.len() ==> (#[trigger] items[i]).0.is_primitive() && at_home_in_v8(
                items[i].0,
                reg,
            ) && at_home_in_v8(items[i].1, reg),
        V8View::V8Owned(typ, id) => v8_number(id) == id && reg.live.dom().contains(id)
            && v8_type_of(reg.live[id].obj.kind) == typ,
        _ => true,
    }
}

/// Whether a proxied value is a number in v8.
pub open spec fn is_number(p: V8View) -> bool {
    p is Integer || p is Number
}

/// Whether the second registry holds what the first does, under the same numbers.
pub open spec fn extends(a: RegistryView, b: RegistryView) -> bool {
    &&& b.wf()
    &&& forall|id: i64| #[trigger]
        a.live.dom().contains(id) ==> b.live.dom().contains(id) && b.live[id].obj
            == a.live[id].obj
}

pub(crate) proof fn lemma_id_of_held(a: RegistryView, b: RegistryView, id: i64)
    requires
        extends(a, b),
        a.live.dom().contains(id),
    ensures
        b.holds(a.live[id].obj),
        b.id_for(a.live[id].obj) == id,
        b.admits(a.live[id].obj) ==> extends(a, b.added(a.live[id].obj)),
{
    let obj = a.live[id].obj;
    assert(b.live.dom().contains(id) && b.live[id].obj == obj);
    let n = b.number_of(obj);
    assert(b.live.dom().contains(n) && b.live[n].obj == obj);
    assert(b.live[n].obj == b.live[id].obj);
    if b.admits(obj) {
        law_added_wf(b, obj);
        assert forall|k: i64| #[trigger] a.live.dom().contains(k) implies b.added(
            obj,
        ).live.dom().contains(k) && b.added(obj).live[k].obj == a.live[k].obj by {
            law_add_leaves_others(b, obj, k);
        }
    }
}

/// A proxied value that Luau was given is the same value when it is sent from Luau again, as
/// long as its sort exists there.
pub proof fn law_back_from_luau(
    p: V8View,
    reg: RegistryView,
    later: RegistryView,
    ed: EmbedderDataContext,
)
    requires
        at_home_in_luau(p, reg),
        extends(reg, later),
    ensures
        value_of_luau(in_luau(p, reg), later, ed).res matches Ok(q) ==> q == p,
        value_of_luau(in_luau(p, reg), later, ed).res is Ok ==> extends(
            reg,
            value_of_luau(in_luau(p, reg), later, ed).reg,
        ),
    decreases p, 1nat,
{
    let v = in_luau(p, reg);
    match p {
        V8View::String(s) => {
            encode_utf8_valid_utf8(s);
            encode_utf8_decode_utf8(s);
        },
        V8View::SourceOwned(_, id) => {
            lemma_id_of_held(reg, later, id);
        },
        V8View::List(items) => {
            let len = v->Table_len;
            let ed2 = ed.sibling().charged(1).charged(len);
            lemma_back_list(items, v->Table_entries, 0, reg, later, ed2.child());
            assert(items.take(0) =~= Seq::empty());
        },
        V8View::Dict(items) => {
            let ed1 = ed.sibling().charged(1);
            lemma_back_dict(items, v->Table_entries, 0, reg, later, ed1.child());
            assert(items.take(0) =~= Seq::empty());
        },
        _ => {},
    }
}

proof fn lemma_back_list(
    items: Seq<V8View>,
    entries: Seq<(LuauView, LuauView)>,
    i: int,
    reg: RegistryView,
    later: RegistryView,
    ed: EmbedderDataContext,
)
    requires
        0 <= i <= items.len(),
        entries.len() == items.len(),
        forall|k: int|
            0 <= k < items.len() ==> (#[trigger] entries[k]).1 == in_luau(items[k], reg),
        forall|k: int| 0 <= k < items.len() ==> at_home_in_luau(#[trigger] items[k], reg),
        extends(reg, later),
    ensures
        ({
            let r = list_of_luau(entries, i, items.take(i), later, ed);
            r.res matches Ok(all) ==> all == items && extends(reg, r.reg)
        }),
    decreases items, items.len() - i,
{
    if i < items.len() {
        law_back_from_luau(items[i], reg, later, ed);
        let one = value_of_luau(entries[i].1, later, ed);
        if one.res is Ok {
            assert(items.take(i).push(items[i]) =~= items.take(i + 1));
            lemma_back_list(items, entries, i + 1, reg, one.reg, one.ed);
        }
    } else {
        assert(items.take(i) =~= items);
    }
}

proof fn lemma_back_dict(
    items: Seq<(V8View, V8View)>,
    entries: Seq<(LuauView, LuauView)>,
    i: int,
    reg: RegistryView,
    later: RegistryView,
    ed: EmbedderDataContext,
)
    requires
        0 <= i <= items.len(),
        entries.len() == items.len(),
        forall|k: int|
            0 <= k < items.len() ==> #[trigger] entries[k] == (
                in_luau(items[k].0, reg),
                in_luau(items[k].1, reg),
            ),
        forall|k: int|
            0 <= k < items.len() ==> (#[trigger] items[k]).0.is_primitive() && at_home_in_luau(
                items[k].0,
                reg,
            ) && at_home_in_luau(items[k].1, reg),
        extends(reg, later),
    ensures
        ({
            let r = dict_of_luau(entries, i, items.take(i), later, ed);
            r.res matches Ok(all) ==> all == items && extends(reg, r.reg)
        }),
    decreases items, items.len() - i,
{
    if i < items.len() {
        law_back_from_luau(items[i].0, reg, later, ed);
        let key = value_of_luau(entries[i].0, later, ed);
        if key.res is Ok {
            law_back_from_luau(items[i].1, reg, key.reg, key.ed);
            let val = value_of_luau(entries[i].1, key.reg, key.ed);
            if val.res is Ok {
                assert(items.take(i).push((items[i].0, items[i].1)) =~= items.take(i + 1));
                lemma_back_dict(items, entries, i + 1, reg, val.reg, val.ed);
            }
        }
    } else {
        assert(items.take(i) =~= items);
    }
}

/// A proxied value that v8 was given is the same value when v8 hands it back, as long as its
/// sort exists there.
#[verifier::rlimit(40)]
#[verifier::spinoff_prover]
pub proof fn law_back_from_v8(
    p: V8View,
    reg: RegistryView,
    later: RegistryView,
    ed: EmbedderDataContext,
)
    requires
        at_home_in_v8(p, reg),
        extends(reg, later),
    ensures
        value_of_v8(in_v8(p, reg), later, ed).res matches Ok(q) ==> q == p,
        value_of_v8(in_v8(p, reg), later, ed).res is Ok ==> extends(
            reg,
            value_of_v8(in_v8(p, reg), later, ed).reg,
        ),
    decreases p, 1nat,
{
    let v = in_v8(p, reg);
    match p {
        V8View::V8Owned(_, id) => {
            lemma_id_of_held(reg, later, id);
        },
        V8View::Vector(x) => {
            let elems = v->Array_0;
            assert(elems[0].as_number() is Some && elems[1].as_number() is Some
                && elems[2].as_number() is Some);
            assert(vector_of(elems) == Some(x));
        },
        V8View::List(items) => {
            let elems = v->Array_0;
            if items.len() == 3 {
                lemma_number(items[0], reg);
                lemma_number(items[1], reg);
                lemma_number(items[2], reg);
            }
            assert(vector_of(elems) is None);
            let ed2 = ed.charged(1).charged(1).charged(1).charged(elems.len() as usize);
            lemma_back_elems(items, elems, 0, reg, later, ed2.child());
            assert(items.take(0) =~= Seq::empty());
        },
        V8View::Dict(items) => {
            let entries = v->MapObject_0;
            let n = entries.len() as usize;
            let ed2 = ed.charged(1).charged(1).charged(1).charged(
                crate::luau::embedder_api::grown(n, n),
            );
            lemma_back_entries(items, entries, 0, reg, later, ed2.child());
            assert(items.take(0) =~= Seq::empty());
        },
        _ => {},
    }
}

proof fn lemma_number(p: V8View, reg: RegistryView)
    ensures
        in_v8(p, reg).as_number() is Some <==> is_number(p),
{
}

proof fn lemma_back_elems(
    items: Seq<V8View>,
    elems: Seq<JsView>,
    i: int,
    reg: RegistryView,
    later: RegistryView,
    ed: EmbedderDataContext,
)
    requires
        0 <= i <= items.len(),
        elems.len() == items.len(),
        forall|k: int| 0 <= k < items.len() ==> #[trigger] elems[k] == in_v8(items[k], reg),
        forall|k: int| 0 <= k < items.len() ==> at_home_in_v8(#[trigger] items[k], reg),
        extends(reg, later),
    ensures
        ({
            let r = list_of_v8(elems, i, items.take(i), later, ed);
            r.res matches Ok(all) ==> all == items && extends(reg, r.reg)
        }),
    decreases items, items.len() - i,
{
    if i < items.len() {
        law_back_from_v8(items[i], reg, later, ed);
        let one = value_of_v8(elems[i], later, ed);
        if one.res is Ok {
            assert(items.take(i).push(items[i]) =~= items.take(i + 1));
            lemma_back_elems(items, elems, i + 1, reg, one.reg, one.ed);
        }
    } else {
        assert(items.take(i) =~= items);
    }
}

proof fn lemma_back_entries(
    items: Seq<(V8View, V8View)>,
    entries: Seq<(JsView, JsView)>,
    i: int,
    reg: RegistryView,
    later: RegistryView,
    ed: EmbedderDataContext,
)
    requires
        0 <= i <= items.len(),
        entries.len() == items.len(),
        forall|k: int|
            0 <= k < items.len() ==> #[trigger] entries[k] == (
                in_v8(items[k].0, reg),
                in_v8(items[k].1, reg),
            ),
        forall|k: int|
            0 <= k < items.len() ==> (#[trigger] items[k]).0.is_primitive() && at_home_in_v8(
                items[k].0,
                reg,
            ) && at_home_in_v8(items[k].1, reg),
        extends(reg, later),
    ensures
        ({
            let r = dict_of_v8(entries, i, items.take(i), later, ed);
            r.res matches Ok(all) ==> all == items && extends(reg, r.reg)
        }),
    decreases items, items.len() - i,
{
    if i < items.len() {
        law_back_from_v8(items[i].0, reg, later, ed);
        let key = value_of_v8(entries[i].0, later, ed);
        if key.res is Ok {
            law_back_from_v8(items[i].1, reg, key.reg, key.ed);
            let val = value_of_v8(entries[i].1, key.reg, key.ed);
            if val.res is Ok {
                assert(items.take(i).push((items[i].0, items[i].1)) =~= items.take(i + 1));
                lemma_back_entries(items, entries, i + 1, reg, val.reg, val.ed);
            }
        }
    } else {
        assert(items.take(i) =~= items);
    }
}

} // verus!
