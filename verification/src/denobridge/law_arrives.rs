//! Where no payload limit is set, a value arrives unless it nests too deeply.

use vstd::prelude::*;
use vstd::utf8::*;

use crate::denobridge::conv_luau::{
    dict_to_luau, list_to_luau, psuedo_to_luau, value_of_luau, value_to_luau,
};
use crate::denobridge::conv_v8::{
    dict_of_v8, dict_to_v8, list_of_v8, list_to_v8, psuedo_of_v8, psuedo_to_v8, value_of_v8,
    value_to_v8, vector_of,
};
use crate::denobridge::jsvalue::JsView;
use crate::denobridge::law_charge::{
    keyable, law_sent_when_it_fits, room, sendable, sendable_dict, sendable_list, weight_of_luau,
};
use crate::denobridge::law_roundtrip::{
    at_home_in_luau, at_home_in_v8, extends, in_luau, in_v8, law_back_from_luau, law_back_from_v8,
    law_what_luau_gets, law_what_v8_gets,
};
use crate::denobridge::objreg::{fits_v8, law_registered_object_is_found};
use crate::denobridge::value::V8View;
use crate::luau::embedder_api::EmbedderDataContext;
use crate::luau::value::LuauView;
use crate::registry::{ObjectRef, RefKind, RegistryView};
use crate::MAX_PROXY_DEPTH;

verus! {

/// Whether no payload is too large.
pub open spec fn unlimited(ed: EmbedderDataContext) -> bool {
    ed.ed.max_payload_size is None
}

/// Whether a proxied value, `depth` containers in, does not nest too deeply.
pub open spec fn fits(p: V8View, depth: int) -> bool
    decreases p,
{
    match p {
        V8View::List(items) => depth < MAX_PROXY_DEPTH && forall|i: int|
            0 <= i < items.len() ==> fits(#[trigger] items[i], depth + 1),
        V8View::Dict(items) => depth < MAX_PROXY_DEPTH && forall|i: int|
            0 <= i < items.len() ==> fits((#[trigger] items[i]).0, depth + 1) && fits(
                items[i].1,
                depth + 1,
            ),
        _ => true,
    }
}

/// Whether the Luau objects that a proxied value refers to are in the registry.
pub open spec fn known_to_luau(p: V8View, reg: RegistryView) -> bool
    decreases p,
{
    match p {
        V8View::List(items) => forall|i: int|
            0 <= i < items.len() ==> known_to_luau(#[trigger] items[i], reg),
        V8View::Dict(items) => forall|i: int|
            0 <= i < items.len() ==> known_to_luau((#[trigger] items[i]).0, reg) && known_to_luau(
                items[i].1,
                reg,
            ),
        V8View::SourceOwned(_, id) => reg.live.dom().contains(id),
        _ => true,
    }
}

/// Every proxied value whose Luau objects are known reaches Luau, as long as it does not nest too
/// deeply and no limit is set.
pub proof fn law_reaches_luau(p: V8View, reg: RegistryView, ed: EmbedderDataContext)
    requires
        unlimited(ed),
        fits(p, ed.depth as int),
        known_to_luau(p, reg),
    ensures
        value_to_luau(p, reg, ed).res == Ok::<LuauView, Seq<char>>(in_luau(p, reg)),
        value_to_luau(p, reg, ed).ed.ed == ed.ed,
        value_to_luau(p, reg, ed).ed.depth == ed.depth,
    decreases p, 1nat,
{
    law_what_luau_gets(p, reg, ed);
    if !p.is_primitive() && !(p is V8Owned) && !(p is SourceOwned) {
        lemma_psuedo_reaches_luau(p, reg, ed.charged(1));
    }
}

proof fn lemma_psuedo_reaches_luau(p: V8View, reg: RegistryView, ed: EmbedderDataContext)
    requires
        unlimited(ed),
        fits(p, ed.depth as int),
        known_to_luau(p, reg),
        !p.is_primitive(),
        !(p is V8Owned),
        !(p is SourceOwned),
    ensures
        psuedo_to_luau(p, reg, ed).res is Ok,
        psuedo_to_luau(p, reg, ed).ed.ed == ed.ed,
        psuedo_to_luau(p, reg, ed).ed.depth == ed.depth,
    decreases p, 0nat,
{
    match p {
        V8View::List(items) => {
            let ed2 = ed.charged(1).charged(items.len() as usize);
            lemma_list_reaches_luau(items, 0, Seq::empty(), reg, ed2.child());
        },
        V8View::Dict(items) => {
            let ed2 = ed.charged(1).charged(items.len() as usize);
            lemma_dict_reaches_luau(items, 0, Seq::empty(), reg, ed2.child());
        },
        _ => {},
    }
}

proof fn lemma_list_reaches_luau(
    s: Seq<V8View>,
    i: int,
    done: Seq<LuauView>,
    reg: RegistryView,
    ed: EmbedderDataContext,
)
    requires
        0 <= i <= s.len(),
        unlimited(ed),
        forall|k: int| 0 <= k < s.len() ==> fits(#[trigger] s[k], ed.depth as int),
        forall|k: int| 0 <= k < s.len() ==> known_to_luau(#[trigger] s[k], reg),
    ensures
        list_to_luau(s, i, done, reg, ed).res is Ok,
    decreases s, s.len() - i,
{
    if i < s.len() {
        law_reaches_luau(s[i], reg, ed);
        let one = value_to_luau(s[i], reg, ed);
        lemma_list_reaches_luau(s, i + 1, done.push(one.res->Ok_0), reg, one.ed);
    }
}

proof fn lemma_dict_reaches_luau(
    s: Seq<(V8View, V8View)>,
    i: int,
    done: Seq<(LuauView, LuauView)>,
    reg: RegistryView,
    ed: EmbedderDataContext,
)
    requires
        0 <= i <= s.len(),
        unlimited(ed),
        forall|k: int|
            0 <= k < s.len() ==> fits((#[trigger] s[k]).0, ed.depth as int) && fits(
                s[k].1,
                ed.depth as int,
            ),
        forall|k: int|
            0 <= k < s.len() ==> known_to_luau((#[trigger] s[k]).0, reg) && known_to_luau(
                s[k].1,
                reg,
            ),
    ensures
        dict_to_luau(s, i, done, reg, ed).res is Ok,
    decreases s, s.len() - i,
{
    if i < s.len() {
        law_reaches_luau(s[i].0, reg, ed);
        let key = value_to_luau(s[i].0, reg, ed);
        law_reaches_luau(s[i].1, reg, key.ed);
        let val = value_to_luau(s[i].1, reg, key.ed);
        lemma_dict_reaches_luau(
            s,
            i + 1,
            done.push((key.res->Ok_0, val.res->Ok_0)),
            reg,
            val.ed,
        );
    }
}

/// Every proxied value reaches v8, as long as it does not nest too deeply and no limit is set.
pub proof fn law_reaches_v8(p: V8View, reg: RegistryView, ed: EmbedderDataContext)
    requires
        unlimited(ed),
        fits(p, ed.depth as int),
    ensures
        value_to_v8(p, reg, ed).res == Ok::<JsView, Seq<char>>(in_v8(p, reg)),
        value_to_v8(p, reg, ed).ed.ed == ed.ed,
        value_to_v8(p, reg, ed).ed.depth == ed.depth,
    decreases p, 1nat,
{
    law_what_v8_gets(p, reg, ed);
    if !p.is_primitive() && !(p is V8Owned) && !(p is SourceOwned) {
        lemma_psuedo_reaches_v8(p, reg, ed.charged(1));
    }
}

proof fn lemma_psuedo_reaches_v8(p: V8View, reg: RegistryView, ed: EmbedderDataContext)
    requires
        unlimited(ed),
        fits(p, ed.depth as int),
        !p.is_primitive(),
        !(p is V8Owned),
        !(p is SourceOwned),
    ensures
        psuedo_to_v8(p, reg, ed).res is Ok,
        psuedo_to_v8(p, reg, ed).ed.ed == ed.ed,
        psuedo_to_v8(p, reg, ed).ed.depth == ed.depth,
    decreases p, 0nat,
{
    match p {
        V8View::List(items) => {
            let ed2 = ed.charged(1).charged(items.len() as usize);
            lemma_list_reaches_v8(items, 0, Seq::empty(), reg, ed2.child());
        },
        V8View::Dict(items) => {
            let ed2 = ed.charged(1).charged(items.len() as usize);
            lemma_dict_reaches_v8(items, 0, Seq::empty(), reg, ed2.child());
        },
        _ => {},
    }
}

proof fn lemma_list_reaches_v8(
    s: Seq<V8View>,
    i: int,
    done: Seq<JsView>,
    reg: RegistryView,
    ed: EmbedderDataContext,
)
    requires
        0 <= i <= s.len(),
        unlimited(ed),
        forall|k: int| 0 <= k < s.len() ==> fits(#[trigger] s[k], ed.depth as int),
    ensures
        list_to_v8(s, i, done, reg, ed).res is Ok,
    decreases s, s.len() - i,
{
    if i < s.len() {
        law_reaches_v8(s[i], reg, ed);
        let one = value_to_v8(s[i], reg, ed);
        lemma_list_reaches_v8(s, i + 1, done.push(one.res->Ok_0), reg, one.ed);
    }
}

proof fn lemma_dict_reaches_v8(
    s: Seq<(V8View, V8View)>,
    i: int,
    done: Seq<(JsView, JsView)>,
    reg: RegistryView,
    ed: EmbedderDataContext,
)
    requires
        0 <= i <= s.len(),
        unlimited(ed),
        forall|k: int|
            0 <= k < s.len() ==> fits((#[trigger] s[k]).0, ed.depth as int) && fits(
                s[k].1,
                ed.depth as int,
            ),
    ensures
        dict_to_v8(s, i, done, reg, ed).res is Ok,
    decreases s, s.len() - i,
{
    if i < s.len() {
        law_reaches_v8(s[i].0, reg, ed);
        let key = value_to_v8(s[i].0, reg, ed);
        law_reaches_v8(s[i].1, reg, key.ed);
        let val = value_to_v8(s[i].1, reg, key.ed);
        lemma_dict_reaches_v8(
            s,
            i + 1,
            done.push((key.res->Ok_0, val.res->Ok_0)),
            reg,
            val.ed,
        );
    }
}

proof fn lemma_sendable(p: V8View, reg: RegistryView, depth: int)
    requires
        at_home_in_luau(p, reg),
        fits(p, depth),
    ensures
        sendable(in_luau(p, reg), depth),
        p.is_primitive() ==> keyable(in_luau(p, reg)),
    decreases p, 1nat,
{
    match p {
        V8View::String(s) => encode_utf8_valid_utf8(s),
        V8View::List(items) => {
            let entries = in_luau(p, reg)->Table_entries;
            lemma_sendable_list(items, entries, 0, reg, depth + 1);
        },
        V8View::Dict(items) => {
            let entries = in_luau(p, reg)->Table_entries;
            lemma_sendable_dict(items, entries, 0, reg, depth + 1);
        },
        _ => {},
    }
}

proof fn lemma_sendable_list(
    items: Seq<V8View>,
    entries: Seq<(LuauView, LuauView)>,
    i: int,
    reg: RegistryView,
    depth: int,
)
    requires
        0 <= i <= items.len(),
        entries.len() == items.len(),
        forall|k: int| 0 <= k < items.len() ==> (#[trigger] entries[k]).1 == in_luau(items[k], reg),
        forall|k: int|
            0 <= k < items.len() ==> at_home_in_luau(#[trigger] items[k], reg) && fits(
                items[k],
                depth,
            ),
    ensures
        sendable_list(entries, i, depth),
    decreases items, items.len() - i,
{
    if i < items.len() {
        lemma_sendable(items[i], reg, depth);
        assert(entries[i].1 == in_luau(items[i], reg));
        lemma_sendable_list(items, entries, i + 1, reg, depth);
    }
}

proof fn lemma_sendable_dict(
    items: Seq<(V8View, V8View)>,
    entries: Seq<(LuauView, LuauView)>,
    i: int,
    reg: RegistryView,
    depth: int,
)
    requires
        0 <= i <= items.len(),
        entries.len() == items.len(),
        forall|k: int|
            0 <= k < items.len() ==> #[trigger] entries[k] == (
                in_luau(items[k].0, reg),
                in_luau(items[k].1, reg),
            ),
        forall|k: int|
            0 <= k < items.len() ==> (#[trigger] items[k]).0.is_primitive() && at_home_in_luau(
                items[k].0,
                reg,
            ) && at_home_in_luau(items[k].1, reg) && fits(items[k].0, depth) && fits(
                items[k].1,
                depth,
            ),
    ensures
        sendable_dict(entries, i, depth),
    decreases items, items.len() - i,
{
    if i < items.len() {
        lemma_sendable(items[i].0, reg, depth);
        lemma_sendable(items[i].1, reg, depth);
        assert(entries[i] == (in_luau(items[i].0, reg), in_luau(items[i].1, reg)));
        lemma_sendable_dict(items, entries, i + 1, reg, depth);
    }
}

/// A proxied value that Luau was given comes back from Luau: it is sent, and is the same value, as
/// long as its sort exists there, the registry has room, and it stays within the limits.
pub proof fn law_comes_back_from_luau(
    p: V8View,
    reg: RegistryView,
    later: RegistryView,
    ed: EmbedderDataContext,
)
    requires
        at_home_in_luau(p, reg),
        extends(reg, later),
        fits(p, ed.depth as int),
        room(later, weight_of_luau(in_luau(p, reg))),
        ed.covers(weight_of_luau(in_luau(p, reg))),
    ensures
        value_of_luau(in_luau(p, reg), later, ed).res == Ok::<V8View, Seq<char>>(p),
{
    lemma_sendable(p, reg, ed.depth as int);
    law_sent_when_it_fits(in_luau(p, reg), later, ed);
    law_back_from_luau(p, reg, later, ed);
}

/// How many v8 objects a proxied value refers to, each as often as it does.
pub open spec fn references(p: V8View) -> nat
    decreases p, 0nat,
{
    match p {
        V8View::V8Owned(_, _) => 1,
        V8View::List(items) => references_in_list(items, 0),
        V8View::Dict(items) => references_in_dict(items, 0),
        _ => 0,
    }
}

/// How many v8 objects the items from the `i`th on refer to.
pub open spec fn references_in_list(s: Seq<V8View>, i: int) -> nat
    decreases s, s.len() - i,
{
    if i < 0 || i >= s.len() {
        0
    } else {
        references(s[i]) + references_in_list(s, i + 1)
    }
}

/// How many v8 objects the keys and values from the `i`th on refer to.
pub open spec fn references_in_dict(s: Seq<(V8View, V8View)>, i: int) -> nat
    decreases s, s.len() - i,
{
    if i < 0 || i >= s.len() {
        0
    } else {
        references(s[i].0) + references(s[i].1) + references_in_dict(s, i + 1)
    }
}

/// Whether every object that is held can be handed out `n` more times.
pub open spec fn spare(reg: RegistryView, n: nat) -> bool {
    forall|id: i64| #[trigger] reg.live.dom().contains(id) ==> reg.live[id].refs + n <= u64::MAX
}

/// A proxied value that v8 was given comes back from v8, as long as its sort exists there, it does
/// not nest too deeply, no limit is set, and its objects can be handed out that often.
pub proof fn law_comes_back_from_v8(
    p: V8View,
    reg: RegistryView,
    later: RegistryView,
    ed: EmbedderDataContext,
)
    requires
        at_home_in_v8(p, reg),
        extends(reg, later),
        unlimited(ed),
        fits(p, ed.depth as int),
        spare(later, references(p)),
    ensures
        value_of_v8(in_v8(p, reg), later, ed).res == Ok::<V8View, Seq<char>>(p),
{
    lemma_taken(p, reg, later, ed, 0);
    law_back_from_v8(p, reg, later, ed);
}

/// What is known of the state after a value was taken from v8.
spec fn goes_on(
    reg: RegistryView,
    ed: EmbedderDataContext,
    reg1: RegistryView,
    ed1: EmbedderDataContext,
    n: nat,
) -> bool {
    &&& extends(reg, reg1)
    &&& spare(reg1, n)
    &&& ed1.ed == ed.ed
    &&& ed1.depth == ed.depth
}

proof fn lemma_taken(
    p: V8View,
    reg: RegistryView,
    later: RegistryView,
    ed: EmbedderDataContext,
    n: nat,
)
    requires
        at_home_in_v8(p, reg),
        extends(reg, later),
        unlimited(ed),
        fits(p, ed.depth as int),
        spare(later, references(p) + n),
    ensures
        ({
            let r = value_of_v8(in_v8(p, reg), later, ed);
            r.res is Ok && goes_on(reg, ed, r.reg, r.ed, n)
        }),
    decreases p, 1nat,
{
    law_back_from_v8(p, reg, later, ed);
    let v = in_v8(p, reg);
    match p {
        V8View::V8Owned(_, id) => {
            let obj = reg.live[id].obj;
            assert(later.live.dom().contains(id) && later.live[id].obj == obj);
            assert(later.holds(obj));
            let k = later.number_of(obj);
            assert(later.live.dom().contains(k) && later.live[k].obj == obj);
        },
        V8View::List(_) | V8View::Dict(_) => {
            lemma_taken_psuedo(p, reg, later, ed.charged(1).charged(1), n);
        },
        _ => {},
    }
}

proof fn lemma_taken_psuedo(
    p: V8View,
    reg: RegistryView,
    later: RegistryView,
    ed: EmbedderDataContext,
    n: nat,
)
    requires
        p is List || p is Dict,
        at_home_in_v8(p, reg),
        extends(reg, later),
        unlimited(ed),
        fits(p, ed.depth as int),
        spare(later, references(p) + n),
    ensures
        ({
            let r = psuedo_of_v8(in_v8(p, reg), later, ed);
            r.res is Ok && (r.res->Ok_0 is Some) && goes_on(reg, ed, r.reg, r.ed, n)
        }),
    decreases p, 0nat,
{
    let v = in_v8(p, reg);
    match p {
        V8View::List(items) => {
            let elems = v->Array_0;
            if items.len() == 3 {
                assert(in_v8(items[0], reg).as_number() is Some
                    ==> crate::denobridge::law_roundtrip::is_number(items[0]));
                assert(in_v8(items[1], reg).as_number() is Some
                    ==> crate::denobridge::law_roundtrip::is_number(items[1]));
                assert(in_v8(items[2], reg).as_number() is Some
                    ==> crate::denobridge::law_roundtrip::is_number(items[2]));
            }
            assert(vector_of(elems) is None);
            let ed2 = ed.charged(1).charged(elems.len() as usize);
            lemma_taken_list(items, elems, 0, Seq::empty(), reg, later, ed2.child(), n);
        },
        V8View::Dict(items) => {
            let entries = v->MapObject_0;
            let len = entries.len() as usize;
            let ed2 = ed.charged(1).charged(crate::luau::embedder_api::grown(len, len));
            lemma_taken_dict(items, entries, 0, Seq::empty(), reg, later, ed2.child(), n);
        },
        _ => {},
    }
}

proof fn lemma_taken_list(
    items: Seq<V8View>,
    elems: Seq<JsView>,
    i: int,
    done: Seq<V8View>,
    reg: RegistryView,
    later: RegistryView,
    ed: EmbedderDataContext,
    n: nat,
)
    requires
        0 <= i <= items.len(),
        elems.len() == items.len(),
        forall|k: int| 0 <= k < items.len() ==> #[trigger] elems[k] == in_v8(items[k], reg),
        forall|k: int|
            0 <= k < items.len() ==> at_home_in_v8(#[trigger] items[k], reg) && fits(
                items[k],
                ed.depth as int,
            ),
        extends(reg, later),
        unlimited(ed),
        spare(later, references_in_list(items, i) + n),
    ensures
        ({
            let r = list_of_v8(elems, i, done, later, ed);
            r.res is Ok && goes_on(reg, ed, r.reg, r.ed, n)
        }),
    decreases items, items.len() - i,
{
    if i < items.len() {
        let rest = references_in_list(items, i + 1);
        lemma_taken(items[i], reg, later, ed, rest + n);
        assert(elems[i] == in_v8(items[i], reg));
        let one = value_of_v8(elems[i], later, ed);
        lemma_taken_list(items, elems, i + 1, done.push(one.res->Ok_0), reg, one.reg, one.ed, n);
    }
}

proof fn lemma_taken_dict(
    items: Seq<(V8View, V8View)>,
    entries: Seq<(JsView, JsView)>,
    i: int,
    done: Seq<(V8View, V8View)>,
    reg: RegistryView,
    later: RegistryView,
    ed: EmbedderDataContext,
    n: nat,
)
    requires
        0 <= i <= items.len(),
        entries.len() == items.len(),
        forall|k: int|
            0 <= k < items.len() ==> #[trigger] entries[k] == (
                in_v8(items[k].0, reg),
                in_v8(items[k].1, reg),
            ),
        forall|k: int|
            0 <= k < items.len() ==> (#[trigger] items[k]).0.is_primitive() && at_home_in_v8(
                items[k].0,
                reg,
            ) && at_home_in_v8(items[k].1, reg) && fits(items[k].0, ed.depth as int) && fits(
                items[k].1,
                ed.depth as int,
            ),
        extends(reg, later),
        unlimited(ed),
        spare(later, references_in_dict(items, i) + n),
    ensures
        ({
            let r = dict_of_v8(entries, i, done, later, ed);
            r.res is Ok && goes_on(reg, ed, r.reg, r.ed, n)
        }),
    decreases items, items.len() - i,
{
    if i < items.len() {
        let rest = references_in_dict(items, i + 1);
        let (k, v) = items[i];
        assert(entries[i] == (in_v8(k, reg), in_v8(v, reg)));
        lemma_taken(k, reg, later, ed, references(v) + rest + n);
        law_back_from_v8(k, reg, later, ed);
        let key = value_of_v8(entries[i].0, later, ed);
        lemma_taken(v, reg, key.reg, key.ed, rest + n);
        let val = value_of_v8(entries[i].1, key.reg, key.ed);
        lemma_taken_dict(
            items,
            entries,
            i + 1,
            done.push((key.res->Ok_0, val.res->Ok_0)),
            reg,
            val.reg,
            val.ed,
            n,
        );
    }
}

/// The v8 object that a JavaScript value is a reference to, where it is one.
pub open spec fn object_behind(v: JsView) -> Option<ObjectRef> {
    match v {
        JsView::Ref(obj) => Some(obj),
        JsView::ArrayBuffer { handle, .. } => Some(
            ObjectRef { kind: RefKind::ArrayBuffer, handle },
        ),
        _ => None,
    }
}

/// A v8 object that was handed to Luau is that object when Luau hands it back, in every state in
/// which it is still held. It is handed over whenever the registry takes it and no limit is set.
pub proof fn law_v8_object_comes_back(
    v: JsView,
    reg: RegistryView,
    ed: EmbedderDataContext,
    later: RegistryView,
    back: EmbedderDataContext,
)
    requires
        fits_v8(reg),
        object_behind(v) is Some,
        extends(value_of_v8(v, reg, ed).reg, later),
    ensures
        unlimited(ed) && reg.admits(object_behind(v)->0) ==> value_of_v8(v, reg, ed).res is Ok,
        value_of_v8(v, reg, ed).res matches Ok(p) ==> if back.affords(1) {
            value_to_v8(p, later, back).res == Ok::<JsView, Seq<char>>(
                JsView::Ref(object_behind(v)->0),
            )
        } else {
            value_to_v8(p, later, back).res is Err
        },
{
    let obj = object_behind(v)->0;
    if value_of_v8(v, reg, ed).res is Ok {
        law_registered_object_is_found(reg, obj);
    }
}

} // verus!
