//! When a Luau value can be sent to v8, and what is charged for it.

use vstd::prelude::*;
use vstd::utf8::*;

use crate::denobridge::conv_luau::{
    dict_of_luau, list_of_luau, psuedo_of_luau, reference_of_luau, value_of_luau,
};
use crate::denobridge::primitives::{primitive_of_luau, unknown_text};
use crate::denobridge::value::V8View;
use crate::luau::bridge::ObjectRegistryType;
use crate::luau::embedder_api::{capped, EmbedderDataContext};
use crate::luau::value::{LuauView, Metatable, PayloadView};
use crate::registry::RegistryView;
use crate::MAX_PROXY_DEPTH;

verus! {

/// What is charged for a Luau value: one for every value in it, and its bytes and entries.
pub open spec fn weight_of_luau(v: LuauView) -> nat
    decreases v, 0nat,
{
    match v {
        LuauView::String(bytes) => 1 + (bytes.len() as usize) as nat,
        LuauView::Other(text) => 1 + (encode_utf8(unknown_text(text)).len() as usize) as nat,
        LuauView::Table { frozen, metatable, len, entries, .. } => if !frozen {
            1
        } else if metatable == Metatable::Array {
            1 + len as nat + weight_of_list(entries, 0)
        } else {
            1 + (entries.len() as usize) as nat + weight_of_dict(entries, 0)
        },
        _ => 1,
    }
}

/// What is charged for the values from the `i`th entry on.
pub open spec fn weight_of_list(s: Seq<(LuauView, LuauView)>, i: int) -> nat
    decreases s, s.len() - i,
{
    if i < 0 || i >= s.len() {
        0
    } else {
        weight_of_luau(s[i].1) + weight_of_list(s, i + 1)
    }
}

/// What is charged for the keys and values from the `i`th entry on.
pub open spec fn weight_of_dict(s: Seq<(LuauView, LuauView)>, i: int) -> nat
    decreases s, s.len() - i,
{
    if i < 0 || i >= s.len() {
        0
    } else {
        weight_of_luau(s[i].0) + weight_of_luau(s[i].1) + weight_of_dict(s, i + 1)
    }
}

/// Whether a Luau value can be a key: whether it becomes a primitive.
pub open spec fn keyable(v: LuauView) -> bool {
    match v {
        LuauView::Nil => true,
        LuauView::Boolean(_) => true,
        LuauView::LightUserData(_) => true,
        LuauView::Integer(_) => true,
        LuauView::String(bytes) => valid_utf8(bytes),
        LuauView::Other(_) => true,
        LuauView::UserData { payload: PayloadView::V8Transfer(p), .. } => p.is_primitive(),
        _ => false,
    }
}

/// Whether there is something that a Luau value can become, `depth` containers in: it holds no
/// error and no function that is still to be made, only primitives as keys of maps, and does not nest too deeply.
pub open spec fn sendable(v: LuauView, depth: int) -> bool
    decreases v, 0nat,
{
    match v {
        LuauView::Error(_) => false,
        LuauView::Stub(_) => false,
        LuauView::Ref(r) => ObjectRegistryType::of_kind(r.kind) is Some,
        LuauView::Table { frozen, metatable, entries, .. } => if !frozen {
            true
        } else if metatable == Metatable::Array {
            depth < MAX_PROXY_DEPTH && sendable_list(entries, 0, depth + 1)
        } else {
            depth < MAX_PROXY_DEPTH && sendable_dict(entries, 0, depth + 1)
        },
        _ => true,
    }
}

/// Whether the values from the `i`th entry on can be sent.
pub open spec fn sendable_list(s: Seq<(LuauView, LuauView)>, i: int, depth: int) -> bool
    decreases s, s.len() - i,
{
    if i < 0 || i >= s.len() {
        true
    } else {
        sendable(s[i].1, depth) && sendable_list(s, i + 1, depth)
    }
}

/// Whether the keys and values from the `i`th entry on can be sent.
pub open spec fn sendable_dict(s: Seq<(LuauView, LuauView)>, i: int, depth: int) -> bool
    decreases s, s.len() - i,
{
    if i < 0 || i >= s.len() {
        true
    } else {
        keyable(s[i].0) && sendable(s[i].1, depth) && sendable_dict(s, i + 1, depth)
    }
}

/// Whether `n` more objects can be handed out, whichever they are.
pub open spec fn room(reg: RegistryView, n: nat) -> bool {
    &&& reg.next + n <= reg.last + 1
    &&& reg.next + n <= i64::MAX
    &&& forall|id: i64| #[trigger] reg.live.dom().contains(id) ==> reg.live[id].refs + n <= u64::MAX
}

proof fn lemma_room_for_one(reg: RegistryView, obj: crate::registry::ObjectRef, n: nat)
    requires
        room(reg, n),
        n > 0,
    ensures
        reg.admits(obj),
        room(reg.added(obj), (n - 1) as nat),
{
    if reg.holds(obj) {
        assert(reg.live.dom().contains(reg.number_of(obj)));
    }
}

/// The two things that a conversion must do: succeed when it should, and charge what it should.
spec fn as_promised<T>(
    res: Result<T, Seq<char>>,
    reg: RegistryView,
    ed: EmbedderDataContext,
    reg1: RegistryView,
    ed1: EmbedderDataContext,
    ok: bool,
    weight: nat,
) -> bool {
    &&& res is Ok <==> ok && ed.covers(weight)
    &&& res is Ok ==> ed1 == ed.plus(weight)
    &&& res is Ok ==> forall|n: nat| room(reg, n + weight) ==> room(reg1, n)
}

proof fn lemma_reference(v: LuauView, reg: RegistryView, ed: EmbedderDataContext)
    requires
        room(reg, 1),
        weight_of_luau(v) >= 1,
        v !is Error && v !is Stub ==> (v is UserData || v is Buffer || v is Ref || v is Table),
    ensures
        ({
            let r = reference_of_luau(v, reg, ed);
            &&& r.res is Ok <==> ed.covers(1) && v !is Error && v !is Stub && (v matches LuauView::Ref(o)
                ==> ObjectRegistryType::of_kind(o.kind) is Some)
            &&& r.res is Ok ==> r.ed == ed.plus(1)
            &&& r.res is Ok ==> forall|n: nat| room(reg, n + 1) ==> room(r.reg, n)
        }),
{
    let r = reference_of_luau(v, reg, ed);
    if let Some(obj) = crate::luau::bridge::object_of(v) {
        lemma_room_for_one(reg, obj, 1);
        assert forall|n: nat| room(reg, n + 1) implies room(r.reg, n) by {
            if r.reg == reg.added(obj) {
                lemma_room_for_one(reg, obj, n + 1);
            }
        }
    }
}

proof fn lemma_value(v: LuauView, reg: RegistryView, ed: EmbedderDataContext)
    requires
        room(reg, weight_of_luau(v)),
    ensures
        ({
            let r = value_of_luau(v, reg, ed);
            as_promised(
                r.res,
                reg,
                ed,
                r.reg,
                r.ed,
                sendable(v, ed.depth as int),
                weight_of_luau(v),
            )
        }),
        value_of_luau(v, reg, ed).res matches Ok(p) ==> (p.is_primitive() <==> keyable(v)),
    decreases v, 2nat,
{
    let w = weight_of_luau(v);
    assert(w >= 1);
    let prim = primitive_of_luau(v, ed.sibling());
    if prim.res matches Ok(None) {
        lemma_psuedo(v, reg, ed.sibling());
        let psuedo = psuedo_of_luau(v, reg, ed.sibling());
        if psuedo.res matches Ok(None) {
            lemma_reference(v, reg, ed);
        }
    }
}

/// Whether a Luau value is copied as a psuedoprimitive.
spec fn is_psuedo(v: LuauView) -> bool {
    match v {
        LuauView::Number(_) => true,
        LuauView::Vector(_) => true,
        LuauView::String(_) => true,
        LuauView::Table { frozen, .. } => frozen,
        _ => false,
    }
}

proof fn lemma_psuedo(v: LuauView, reg: RegistryView, ed: EmbedderDataContext)
    requires
        room(reg, weight_of_luau(v)),
    ensures
        ({
            let r = psuedo_of_luau(v, reg, ed);
            &&& is_psuedo(v) ==> as_promised(
                r.res,
                reg,
                ed,
                r.reg,
                r.ed,
                sendable(v, ed.depth as int),
                weight_of_luau(v),
            )
            &&& !is_psuedo(v) ==> r.reg == reg && (r.res is Ok <==> ed.covers(1))
            &&& r.res matches Ok(p) ==> (p is Some <==> is_psuedo(v))
            &&& r.res matches Ok(Some(p)) ==> !p.is_primitive()
        }),
    decreases v, 1nat,
{
    match v {
        LuauView::Table { frozen, metatable, len, entries, .. } => {
            if frozen {
                if metatable == Metatable::Array {
                    lemma_psuedo_list(v, reg, ed);
                } else {
                    lemma_psuedo_dict(v, reg, ed);
                }
            }
        },
        _ => {},
    }
}

/// Charges one behind the other are one charge.
proof fn lemma_plus(ed: EmbedderDataContext, a: nat, b: nat)
    ensures
        ed.plus(a).plus(b) == ed.plus(a + b),
        ed.plus(a).covers(b) == ed.covers(a + b),
        ed.covers(a + b) ==> ed.covers(a),
{
}

proof fn lemma_psuedo_list(v: LuauView, reg: RegistryView, ed: EmbedderDataContext)
    requires
        room(reg, weight_of_luau(v)),
        v is Table,
        v->frozen,
        v->metatable == Metatable::Array,
    ensures
        ({
            let r = psuedo_of_luau(v, reg, ed);
            &&& as_promised(
                r.res,
                reg,
                ed,
                r.reg,
                r.ed,
                sendable(v, ed.depth as int),
                weight_of_luau(v),
            )
            &&& r.res matches Ok(p) ==> (p matches Some(q) && q is List)
        }),
    decreases v, 0nat,
{
    let len = v->Table_len;
    let entries = v->Table_entries;
    let inner = weight_of_list(entries, 0);
    let ed1 = ed.charged(1);
    let ed2 = ed1.charged(len);
    assert(ed1 == ed.plus(1));
    assert(ed2 == ed1.plus(len as nat));
    lemma_plus(ed, 1, len as nat);
    lemma_plus(ed, 1 + len as nat, inner);
    let all = list_of_luau(entries, 0, Seq::empty(), reg, ed2.child());
    if ed.covers(1 + len as nat) && ed.depth < MAX_PROXY_DEPTH {
        lemma_list(entries, 0, Seq::empty(), reg, ed2.child());
        assert(ed2.child().covers(inner) <== ed2.covers(inner));
        if all.res is Ok {
            assert(all.ed.size == capped(inner));
            assert(ed2.charged(all.ed.size) == ed2.plus(inner));
            assert(ed2.affords(all.ed.size) == ed2.covers(inner));
        }
    }
}

proof fn lemma_psuedo_dict(v: LuauView, reg: RegistryView, ed: EmbedderDataContext)
    requires
        room(reg, weight_of_luau(v)),
        v is Table,
        v->frozen,
        v->metatable != Metatable::Array,
    ensures
        ({
            let r = psuedo_of_luau(v, reg, ed);
            &&& as_promised(
                r.res,
                reg,
                ed,
                r.reg,
                r.ed,
                sendable(v, ed.depth as int),
                weight_of_luau(v),
            )
            &&& r.res matches Ok(p) ==> (p matches Some(q) && q is Dict)
        }),
    decreases v, 0nat,
{
    let entries = v->Table_entries;
    let n = entries.len() as usize;
    let inner = weight_of_dict(entries, 0);
    let ed1 = ed.charged(1);
    assert(ed1 == ed.plus(1));
    lemma_plus(ed, 1, inner);
    lemma_plus(ed, 1 + inner, n as nat);
    let all = dict_of_luau(entries, 0, Seq::empty(), reg, ed1.child());
    if ed.covers(1) && ed.depth < MAX_PROXY_DEPTH {
        lemma_dict(entries, 0, Seq::empty(), reg, ed1.child());
        assert(ed1.child().covers(inner) <== ed1.covers(inner));
        if all.res is Ok {
            let ed2 = ed1.charged(all.ed.size);
            assert(all.ed.size == capped(inner));
            assert(ed2 == ed1.plus(inner));
            assert(ed1.affords(all.ed.size) == ed1.covers(inner));
            assert(ed2.charged(n) == ed2.plus(n as nat));
            assert(ed2.affords(n) == ed2.covers(n as nat));
        }
    }
}

proof fn lemma_list(
    s: Seq<(LuauView, LuauView)>,
    i: int,
    done: Seq<V8View>,
    reg: RegistryView,
    ed: EmbedderDataContext,
)
    requires
        0 <= i <= s.len(),
        room(reg, weight_of_list(s, i)),
        ed.covers(0),
    ensures
        ({
            let r = list_of_luau(s, i, done, reg, ed);
            as_promised(
                r.res,
                reg,
                ed,
                r.reg,
                r.ed,
                sendable_list(s, i, ed.depth as int),
                weight_of_list(s, i),
            )
        }),
    decreases s, s.len() - i,
{
    if i < s.len() {
        let w = weight_of_luau(s[i].1);
        lemma_value(s[i].1, reg, ed);
        let one = value_of_luau(s[i].1, reg, ed);
        if let Ok(p) = one.res {
            lemma_list(s, i + 1, done.push(p), one.reg, one.ed);
        }
    }
}

proof fn lemma_dict(
    s: Seq<(LuauView, LuauView)>,
    i: int,
    done: Seq<(V8View, V8View)>,
    reg: RegistryView,
    ed: EmbedderDataContext,
)
    requires
        0 <= i <= s.len(),
        room(reg, weight_of_dict(s, i)),
        ed.covers(0),
    ensures
        ({
            let r = dict_of_luau(s, i, done, reg, ed);
            as_promised(
                r.res,
                reg,
                ed,
                r.reg,
                r.ed,
                sendable_dict(s, i, ed.depth as int),
                weight_of_dict(s, i),
            )
        }),
    decreases s, s.len() - i,
{
    if i < s.len() {
        let wk = weight_of_luau(s[i].0);
        let wv = weight_of_luau(s[i].1);
        let rest = weight_of_dict(s, i + 1);
        lemma_plus(ed, wk, wv);
        lemma_plus(ed, wk + wv, rest);
        lemma_value(s[i].0, reg, ed);
        let key = value_of_luau(s[i].0, reg, ed);
        if let Ok(k) = key.res {
            assert(room(reg, (wv + rest) + wk));
            assert(room(key.reg, wv + rest));
            if k.is_primitive() {
                lemma_value(s[i].1, key.reg, key.ed);
                let val = value_of_luau(s[i].1, key.reg, key.ed);
                if let Ok(p) = val.res {
                    assert(room(key.reg, rest + wv));
                    assert(room(val.reg, rest));
                    lemma_dict(s, i + 1, done.push((k, p)), val.reg, val.ed);
                    let r = dict_of_luau(s, i, done, reg, ed);
                    assert forall|n: nat| r.res is Ok && room(reg, n + (wk + wv + rest)) implies room(
                        r.reg,
                        n,
                    ) by {
                        assert(room(reg, (n + wv + rest) + wk));
                        assert(room(key.reg, (n + rest) + wv));
                        assert(room(val.reg, n + rest));
                    }
                }
            }
        }
    }
}

/// A Luau value is sent exactly when it can be and its weight stays within the limit, as long as
/// the registry has room; its weight is then what was charged.
pub proof fn law_sent_when_it_fits(v: LuauView, reg: RegistryView, ed: EmbedderDataContext)
    requires
        room(reg, weight_of_luau(v)),
    ensures
        value_of_luau(v, reg, ed).res is Ok <==> sendable(v, ed.depth as int) && ed.covers(
            weight_of_luau(v),
        ),
        value_of_luau(v, reg, ed).res is Ok ==> value_of_luau(v, reg, ed).ed == ed.plus(
            weight_of_luau(v),
        ),
{
    lemma_value(v, reg, ed);
}

} // verus!
