//! JavaScript values to proxied values, and back.

use vstd::prelude::*;

use crate::denobridge::bridge::V8ObjectRegistryType;
use crate::denobridge::conv_luau::{key_refused, settled};
use crate::denobridge::inner::CommonState;
use crate::denobridge::jsvalue::{js_pairs, js_views, JsValue, JsView};
use crate::denobridge::objreg::v8_number;
use crate::denobridge::primitives::{primitive_of_v8, primitive_to_v8, ProxiedV8Primitive};
use crate::denobridge::psuedoprimitive::ProxiedV8PsuedoPrimitive;
use crate::denobridge::value::{v8_pairs, v8_views, ProxiedV8Value, V8View};
use crate::luau::embedder_api::{grown, too_deep, EmbedderDataContext};
use crate::luau::objreg::registry_full;
use crate::luau::value::{Number, Vector3};
use crate::outcome::{Charged, Step};
use crate::registry::{ObjectRef, RefKind, RegistryView};
use crate::text::{copy_bytes, join};
use crate::MAX_PROXY_DEPTH;

verus! {

/// The sort of a v8 object.
pub open spec fn v8_type_of(kind: RefKind) -> V8ObjectRegistryType {
    match kind {
        RefKind::ArrayBuffer => V8ObjectRegistryType::ArrayBuffer,
        RefKind::Function => V8ObjectRegistryType::Function,
        RefKind::Promise => V8ObjectRegistryType::Promise,
        _ => V8ObjectRegistryType::Object,
    }
}

/// The sort of a v8 object.
fn v8_type(kind: RefKind) -> (r: V8ObjectRegistryType)
    ensures
        r == v8_type_of(kind),
{
    match kind {
        RefKind::ArrayBuffer => V8ObjectRegistryType::ArrayBuffer,
        RefKind::Function => V8ObjectRegistryType::Function,
        RefKind::Promise => V8ObjectRegistryType::Promise,
        _ => V8ObjectRegistryType::Object,
    }
}

/// The vector that three numbers make, and nothing for any other array.
pub open spec fn vector_of(elems: Seq<JsView>) -> Option<Vector3> {
    if elems.len() == 3 {
        match (elems[0].as_number(), elems[1].as_number(), elems[2].as_number()) {
            (Some(x), Some(y), Some(z)) => Some(
                Vector3 { x: x.rounded(), y: y.rounded(), z: z.rounded() },
            ),
            _ => None,
        }
    } else {
        None
    }
}

/// A v8 object that is handed out once more.
pub open spec fn v8_registered(
    reg: RegistryView,
    ed: EmbedderDataContext,
    obj: ObjectRef,
) -> Step<V8View> {
    if reg.admits(obj) {
        Step {
            reg: reg.added(obj),
            ed,
            res: Ok(V8View::V8Owned(v8_type_of(obj.kind), reg.id_for(obj))),
        }
    } else {
        Step { reg, ed, res: Err("Failed to register array: "@ + registry_full()) }
    }
}

/// A JavaScript value that is not copied: a reference to it, or to the Luau object that it is.
pub open spec fn reference_of_v8(v: JsView, reg: RegistryView, ed: EmbedderDataContext) -> Step<
    V8View,
> {
    match v {
        JsView::LuaObject(typ, id) => Step { reg, ed, res: Ok(V8View::SourceOwned(typ, id)) },
        JsView::Ref(obj) => v8_registered(reg, ed, obj),
        JsView::ArrayBuffer { handle, .. } => v8_registered(
            reg,
            ed,
            ObjectRef { kind: RefKind::ArrayBuffer, handle },
        ),
        _ => Step { reg, ed, res: Ok(V8View::Undefined) },
    }
}

/// What a JavaScript value becomes on its way to Luau.
pub open spec fn value_of_v8(v: JsView, reg: RegistryView, ed: EmbedderDataContext) -> Step<V8View>
    decreases v, 1nat,
{
    match ed.after(1, "ProxiedV8Value -> <base overhead>"@) {
        Err(e) => Step { reg, ed, res: Err(e) },
        Ok(ed1) => {
            let prim = primitive_of_v8(v, ed1);
            match prim.res {
                Err(e) => Step { reg, ed: prim.ed, res: Err(e) },
                Ok(Some(p)) => Step { reg, ed: prim.ed, res: Ok(p) },
                Ok(None) => {
                    let psuedo = psuedo_of_v8(v, reg, prim.ed);
                    match psuedo.res {
                        Err(e) => Step { reg: psuedo.reg, ed: psuedo.ed, res: Err(e) },
                        Ok(Some(p)) => Step { reg: psuedo.reg, ed: psuedo.ed, res: Ok(p) },
                        Ok(None) => reference_of_v8(v, psuedo.reg, psuedo.ed),
                    }
                },
            }
        },
    }
}

/// What a JavaScript value is as a psuedoprimitive, or nothing where it is none.
pub open spec fn psuedo_of_v8(v: JsView, reg: RegistryView, ed: EmbedderDataContext) -> Step<
    Option<V8View>,
>
    decreases v, 0nat,
{
    match ed.after(1, "ProxiedV8PsuedoPrimitive -> <base overhead>"@) {
        Err(e) => Step { reg, ed, res: Err(e) },
        Ok(ed1) => match v {
            JsView::Int32(i) => Step {
                reg,
                ed: ed1,
                res: Ok(Some(V8View::Number(Number::OfInt(i as i64)))),
            },
            JsView::Number(n) => Step { reg, ed: ed1, res: Ok(Some(V8View::Number(n))) },
            JsView::Uint8Array(bytes) => match ed1.after(
                bytes.len() as usize,
                "ProxiedV8Primitive -> V8Uint8Array"@,
            ) {
                Err(e) => Step { reg, ed: ed1, res: Err(e) },
                Ok(ed2) => Step { reg, ed: ed2, res: Ok(Some(V8View::Bytes(bytes))) },
            },
            JsView::Array(elems) => match ed1.after(
                elems.len() as usize,
                "ProxiedV8Primitive -> V8Array"@,
            ) {
                Err(e) => Step { reg, ed: ed1, res: Err(e) },
                Ok(ed2) => match vector_of(elems) {
                    Some(x) => Step { reg, ed: ed2, res: Ok(Some(V8View::Vector(x))) },
                    None => if ed2.depth >= MAX_PROXY_DEPTH {
                        Step { reg, ed: ed2, res: Err(too_deep()) }
                    } else {
                        let all = list_of_v8(elems, 0, Seq::empty(), reg, ed2.child());
                        match all.res {
                            Err(e) => Step { reg: all.reg, ed: ed2, res: Err(e) },
                            Ok(items) => settled(all.reg, ed2, all.ed, Some(V8View::List(items))),
                        }
                    },
                },
            },
            JsView::MapObject(entries) => match ed1.after(
                grown(entries.len() as usize, entries.len() as usize),
                "ProxiedV8Primitive -> V8Map"@,
            ) {
                Err(e) => Step { reg, ed: ed1, res: Err(e) },
                Ok(ed2) => if ed2.depth >= MAX_PROXY_DEPTH {
                    Step { reg, ed: ed2, res: Err(too_deep()) }
                } else {
                    let all = dict_of_v8(entries, 0, Seq::empty(), reg, ed2.child());
                    match all.res {
                        Err(e) => Step { reg: all.reg, ed: ed2, res: Err(e) },
                        Ok(items) => settled(all.reg, ed2, all.ed, Some(V8View::Dict(items))),
                    }
                },
            },
            _ => Step { reg, ed: ed1, res: Ok(None) },
        },
    }
}

/// The elements of an array from the `i`th on, behind those that are there.
pub open spec fn list_of_v8(
    s: Seq<JsView>,
    i: int,
    done: Seq<V8View>,
    reg: RegistryView,
    ed: EmbedderDataContext,
) -> Step<Seq<V8View>>
    decreases s, s.len() - i,
{
    if i < 0 || i >= s.len() {
        Step { reg, ed, res: Ok(done) }
    } else {
        let one = value_of_v8(s[i], reg, ed);
        match one.res {
            Err(e) => Step { reg: one.reg, ed: one.ed, res: Err(e) },
            Ok(p) => list_of_v8(s, i + 1, done.push(p), one.reg, one.ed),
        }
    }
}

/// The entries of a map from the `i`th on, behind those that are there.
pub open spec fn dict_of_v8(
    s: Seq<(JsView, JsView)>,
    i: int,
    done: Seq<(V8View, V8View)>,
    reg: RegistryView,
    ed: EmbedderDataContext,
) -> Step<Seq<(V8View, V8View)>>
    decreases s, s.len() - i,
{
    if i < 0 || i >= s.len() {
        Step { reg, ed, res: Ok(done) }
    } else {
        let key = value_of_v8(s[i].0, reg, ed);
        match key.res {
            Err(e) => Step { reg: key.reg, ed: key.ed, res: Err(e) },
            Ok(k) => if !k.is_primitive() {
                Step { reg: key.reg, ed: key.ed, res: Err(key_refused()) }
            } else {
                let val = value_of_v8(s[i].1, key.reg, key.ed);
                match val.res {
                    Err(e) => Step { reg: val.reg, ed: val.ed, res: Err(e) },
                    Ok(p) => dict_of_v8(s, i + 1, done.push((k, p)), val.reg, val.ed),
                }
            },
        }
    }
}

/// The elements of an array.
fn list_from_v8(
    elems: &Vec<JsValue>,
    common_state: &mut CommonState,
    ed: &mut EmbedderDataContext,
) -> (r: Result<Vec<ProxiedV8Value>, String>)
    requires
        old(common_state).wf(),
    ensures
        final(common_state).wf(),
        final(common_state).ed == old(common_state).ed,
        ({
            let want = list_of_v8(
                js_views(elems@),
                0,
                Seq::empty(),
                old(common_state).proxy_client.obj_registry@,
                *old(ed),
            );
            &&& final(common_state).proxy_client.obj_registry@ == want.reg
            &&& *final(ed) == want.ed
            &&& match (r, want.res) {
                (Ok(p), Ok(v)) => v8_views(p@) == v,
                (Err(e), Err(t)) => e@ == t,
                _ => false,
            }
        }),
    decreases elems, 0nat,
{
    let ghost all = js_views(elems@);
    let ghost want = list_of_v8(
        all,
        0,
        Seq::empty(),
        common_state.proxy_client.obj_registry@,
        *ed,
    );
    let mut list: Vec<ProxiedV8Value> = Vec::new();
    assert(v8_views(list@) =~= Seq::empty());
    let mut i: usize = 0;
    while i < elems.len()
        invariant
            i <= elems@.len(),
            all == js_views(elems@),
            common_state.wf(),
            common_state.ed == old(common_state).ed,
            want == list_of_v8(
                all,
                0,
                Seq::empty(),
                old(common_state).proxy_client.obj_registry@,
                *old(ed),
            ),
            want == list_of_v8(
                all,
                i as int,
                v8_views(list@),
                common_state.proxy_client.obj_registry@,
                *ed,
            ),
        decreases elems@.len() - i,
    {
        proof {
            assert(decreases_to!(elems => elems@));
            assert(decreases_to!(elems@ => elems@[i as int]));
        }
        let ghost before = list@;
        match ProxiedV8Value::from_v8(&elems[i], common_state, ed) {
            Err(e) => return Err(e),
            Ok(v) => {
                list.push(v);
                assert(v8_views(list@) =~= v8_views(before).push(v@));
            },
        }
        i += 1;
    }
    Ok(list)
}

/// The entries of a map.
fn dict_from_v8(
    entries: &Vec<(JsValue, JsValue)>,
    common_state: &mut CommonState,
    ed: &mut EmbedderDataContext,
) -> (r: Result<Vec<(ProxiedV8Value, ProxiedV8Value)>, String>)
    requires
        old(common_state).wf(),
    ensures
        final(common_state).wf(),
        final(common_state).ed == old(common_state).ed,
        ({
            let want = dict_of_v8(
                js_pairs(entries@),
                0,
                Seq::empty(),
                old(common_state).proxy_client.obj_registry@,
                *old(ed),
            );
            &&& final(common_state).proxy_client.obj_registry@ == want.reg
            &&& *final(ed) == want.ed
            &&& match (r, want.res) {
                (Ok(p), Ok(v)) => v8_pairs(p@) == v,
                (Err(e), Err(t)) => e@ == t,
                _ => false,
            }
        }),
    decreases entries, 0nat,
{
    let ghost all = js_pairs(entries@);
    let ghost want = dict_of_v8(
        all,
        0,
        Seq::empty(),
        common_state.proxy_client.obj_registry@,
        *ed,
    );
    let mut list: Vec<(ProxiedV8Value, ProxiedV8Value)> = Vec::new();
    assert(v8_pairs(list@) =~= Seq::empty());
    let mut i: usize = 0;
    while i < entries.len()
        invariant
            i <= entries@.len(),
            all == js_pairs(entries@),
            common_state.wf(),
            common_state.ed == old(common_state).ed,
            want == dict_of_v8(
                all,
                0,
                Seq::empty(),
                old(common_state).proxy_client.obj_registry@,
                *old(ed),
            ),
            want == dict_of_v8(
                all,
                i as int,
                v8_pairs(list@),
                common_state.proxy_client.obj_registry@,
                *ed,
            ),
        decreases entries@.len() - i,
    {
        proof {
            assert(decreases_to!(entries => entries@));
            assert(decreases_to!(entries@ => entries@[i as int]));
            assert(decreases_to!(entries@[i as int] => entries@[i as int].0));
            assert(decreases_to!(entries@[i as int] => entries@[i as int].1));
        }
        let ghost before = list@;
        let key = match ProxiedV8Value::from_v8(&entries[i].0, common_state, ed) {
            Err(e) => return Err(e),
            Ok(k) => k,
        };
        if !key.is_primitive() {
            return Err("Only primitive values can be keys of a map".to_owned());
        }
        match ProxiedV8Value::from_v8(&entries[i].1, common_state, ed) {
            Err(e) => return Err(e),
            Ok(v) => {
                list.push((key, v));
                assert(v8_pairs(list@) =~= v8_pairs(before).push((key@, v@)));
            },
        }
        i += 1;
    }
    Ok(list)
}

/// The vector that three numbers make, and nothing for any other array.
fn vector_from(elems: &Vec<JsValue>) -> (r: Option<Vector3>)
    ensures
        r == vector_of(js_views(elems@)),
{
    if elems.len() == 3 {
        match (elems[0].as_number(), elems[1].as_number(), elems[2].as_number()) {
            (Some(x), Some(y), Some(z)) => Some(
                Vector3 { x: x.to_single(), y: y.to_single(), z: z.to_single() },
            ),
            _ => None,
        }
    } else {
        None
    }
}

impl ProxiedV8PsuedoPrimitive {
    /// V8 -> ProxiedV8PsuedoPrimitive
    pub fn from_v8(
        value: &JsValue,
        common_state: &mut CommonState,
        ed: &mut EmbedderDataContext,
    ) -> (r: Result<Option<Self>, String>)
        requires
            old(common_state).wf(),
        ensures
            final(common_state).wf(),
            final(common_state).ed == old(common_state).ed,
            ({
                let want = psuedo_of_v8(
                    value@,
                    old(common_state).proxy_client.obj_registry@,
                    *old(ed),
                );
                &&& final(common_state).proxy_client.obj_registry@ == want.reg
                &&& *final(ed) == want.ed
                &&& match (r, want.res) {
                    (Ok(Some(p)), Ok(Some(v))) => p@ == v,
                    (Ok(None), Ok(None)) => true,
                    (Err(e), Err(t)) => e@ == t,
                    _ => false,
                }
            }),
        decreases value, 0nat,
    {
        match ed.add(1, "ProxiedV8PsuedoPrimitive -> <base overhead>") {
            Err(e) => return Err(e),
            Ok(()) => {},
        }
        match value {
            JsValue::Int32(i) => Ok(
                Some(ProxiedV8PsuedoPrimitive::Number(Number::OfInt(*i as i64))),
            ),
            JsValue::Number(n) => Ok(Some(ProxiedV8PsuedoPrimitive::Number(*n))),
            JsValue::Uint8Array(bytes) => {
                match ed.add(bytes.len(), "ProxiedV8Primitive -> V8Uint8Array") {
                    Err(e) => return Err(e),
                    Ok(()) => {},
                }
                Ok(Some(ProxiedV8PsuedoPrimitive::StringBytes(copy_bytes(bytes.as_slice()))))
            },
            JsValue::Array(elems) => {
                proof {
                    assert(value@->Array_0 =~= js_views(elems@));
                    assert(decreases_to!(value => value->Array_0));
                }
                match ed.add(elems.len(), "ProxiedV8Primitive -> V8Array") {
                    Err(e) => return Err(e),
                    Ok(()) => {},
                }
                match vector_from(elems) {
                    Some(v) => return Ok(Some(ProxiedV8PsuedoPrimitive::Vector(v))),
                    None => {},
                }
                let mut inner_ed = match ed.nest() {
                    Err(e) => return Err(e),
                    Ok(c) => c,
                };
                let list = match list_from_v8(elems, common_state, &mut inner_ed) {
                    Err(e) => return Err(e),
                    Ok(l) => l,
                };
                match ed.merge(inner_ed) {
                    Err(e) => return Err(e),
                    Ok(()) => {},
                }
                let r = ProxiedV8PsuedoPrimitive::StaticList(list);
                assert(r@->List_0 =~= v8_views(list@));
                Ok(Some(r))
            },
            JsValue::MapObject(entries) => {
                proof {
                    assert(value@->MapObject_0 =~= js_pairs(entries@));
                    assert(decreases_to!(value => value->MapObject_0));
                }
                match ed.add(
                    entries.len().saturating_add(entries.len()),
                    "ProxiedV8Primitive -> V8Map",
                ) {
                    Err(e) => return Err(e),
                    Ok(()) => {},
                }
                let mut inner_ed = match ed.nest() {
                    Err(e) => return Err(e),
                    Ok(c) => c,
                };
                let smap = match dict_from_v8(entries, common_state, &mut inner_ed) {
                    Err(e) => return Err(e),
                    Ok(l) => l,
                };
                match ed.merge(inner_ed) {
                    Err(e) => return Err(e),
                    Ok(()) => {},
                }
                let r = ProxiedV8PsuedoPrimitive::StaticMap(smap);
                assert(r@->Dict_0 =~= v8_pairs(smap@));
                Ok(Some(r))
            },
            _ => Ok(None),
        }
    }
}

impl ProxiedV8Value {
    /// Given a v8 value, convert it to a ProxiedV8Value
    pub fn from_v8(
        value: &JsValue,
        common_state: &mut CommonState,
        ed: &mut EmbedderDataContext,
    ) -> (r: Result<Self, String>)
        requires
            old(common_state).wf(),
        ensures
            final(common_state).wf(),
            final(common_state).ed == old(common_state).ed,
            ({
                let want = value_of_v8(
                    value@,
                    old(common_state).proxy_client.obj_registry@,
                    *old(ed),
                );
                &&& final(common_state).proxy_client.obj_registry@ == want.reg
                &&& *final(ed) == want.ed
                &&& match (r, want.res) {
                    (Ok(p), Ok(v)) => p@ == v,
                    (Err(e), Err(t)) => e@ == t,
                    _ => false,
                }
            }),
        decreases value, 1nat,
    {
        match ed.add(1, "ProxiedV8Value -> <base overhead>") {
            Err(e) => return Err(e),
            Ok(()) => {},
        }
        match ProxiedV8Primitive::from_v8(value, ed) {
            Err(e) => return Err(e),
            Ok(Some(prim)) => return Ok(ProxiedV8Value::Primitive(prim)),
            Ok(None) => {},
        }
        match ProxiedV8PsuedoPrimitive::from_v8(value, common_state, ed) {
            Err(e) => return Err(e),
            Ok(Some(psuedo)) => return Ok(ProxiedV8Value::Psuedoprimitive(psuedo)),
            Ok(None) => {},
        }
        match value {
            JsValue::LuaObject(typ, id) => Ok(ProxiedV8Value::SourceOwnedObject((*typ, *id))),
            JsValue::ArrayBuffer { handle, .. } => {
                let obj = ObjectRef { kind: RefKind::ArrayBuffer, handle: *handle };
                match common_state.proxy_client.obj_registry.add(obj) {
                    Err(e) => Err(join("Failed to register array: ", &e)),
                    Ok(id) => Ok(
                        ProxiedV8Value::V8OwnedObject((V8ObjectRegistryType::ArrayBuffer, id)),
                    ),
                }
            },
            JsValue::Ref(obj) => {
                match common_state.proxy_client.obj_registry.add(*obj) {
                    Err(e) => Err(join("Failed to register array: ", &e)),
                    Ok(id) => Ok(ProxiedV8Value::V8OwnedObject((v8_type(obj.kind), id))),
                }
            },
            _ => Ok(ProxiedV8Value::Primitive(ProxiedV8Primitive::Undefined)),
        }
    }
}

/// The array that a vector becomes.
pub open spec fn made_vector(v: Vector3) -> JsView {
    JsView::Array(
        seq![
            JsView::Number(Number::OfSingle(v.x)),
            JsView::Number(Number::OfSingle(v.y)),
            JsView::Number(Number::OfSingle(v.z)),
        ],
    )
}

/// What a proxied value becomes in v8.
pub open spec fn value_to_v8(p: V8View, reg: RegistryView, ed: EmbedderDataContext) -> Charged<
    JsView,
>
    decreases p, 1nat,
{
    match ed.after(1, "ProxiedV8Value -> <base overhead>"@) {
        Err(e) => Charged { ed, res: Err(e) },
        Ok(ed1) => match p {
            V8View::V8Owned(_, id) => Charged {
                ed: ed1,
                res: Ok(
                    if reg.live.dom().contains(v8_number(id)) {
                        JsView::Ref(reg.live[v8_number(id)].obj)
                    } else {
                        JsView::Undefined
                    },
                ),
            },
            V8View::SourceOwned(typ, id) => Charged {
                ed: ed1,
                res: Ok(JsView::LuaObject(typ, id)),
            },
            _ => if p.is_primitive() {
                primitive_to_v8(p, ed1)
            } else {
                psuedo_to_v8(p, reg, ed1)
            },
        },
    }
}

/// What a psuedoprimitive becomes in v8.
pub open spec fn psuedo_to_v8(p: V8View, reg: RegistryView, ed: EmbedderDataContext) -> Charged<
    JsView,
>
    decreases p, 0nat,
{
    match ed.after(1, "ProxiedV8PsuedoPrimitive -> <base overhead>"@) {
        Err(e) => Charged { ed, res: Err(e) },
        Ok(ed1) => match p {
            V8View::Number(n) => Charged { ed: ed1, res: Ok(JsView::Number(n)) },
            V8View::Vector(v) => Charged { ed: ed1, res: Ok(made_vector(v)) },
            V8View::Bytes(bytes) => match ed1.after(
                bytes.len() as usize,
                "ProxiedV8Primitive -> StringBytes"@,
            ) {
                Err(e) => Charged { ed: ed1, res: Err(e) },
                Ok(ed2) => Charged { ed: ed2, res: Ok(JsView::Uint8Array(bytes)) },
            },
            V8View::List(items) => match ed1.after(
                items.len() as usize,
                "ProxiedV8PsuedoPrimitive -> V8Array"@,
            ) {
                Err(e) => Charged { ed: ed1, res: Err(e) },
                Ok(ed2) => if ed2.depth >= MAX_PROXY_DEPTH {
                    Charged { ed: ed2, res: Err(too_deep()) }
                } else {
                    let all = list_to_v8(items, 0, Seq::empty(), reg, ed2.child());
                    match all.res {
                        Err(e) => Charged { ed: ed2, res: Err(e) },
                        Ok(vs) => match ed2.after(all.ed.size, "nested values"@) {
                            Err(e) => Charged { ed: ed2, res: Err(e) },
                            Ok(ed3) => Charged { ed: ed3, res: Ok(JsView::Array(vs)) },
                        },
                    }
                },
            },
            V8View::Dict(items) => match ed1.after(
                items.len() as usize,
                "ProxiedV8PsuedoPrimitive -> V8Map"@,
            ) {
                Err(e) => Charged { ed: ed1, res: Err(e) },
                Ok(ed2) => if ed2.depth >= MAX_PROXY_DEPTH {
                    Charged { ed: ed2, res: Err(too_deep()) }
                } else {
                    let all = dict_to_v8(items, 0, Seq::empty(), reg, ed2.child());
                    match all.res {
                        Err(e) => Charged { ed: ed2, res: Err(e) },
                        Ok(vs) => match ed2.after(all.ed.size, "nested values"@) {
                            Err(e) => Charged { ed: ed2, res: Err(e) },
                            Ok(ed3) => Charged { ed: ed3, res: Ok(JsView::MapObject(vs)) },
                        },
                    }
                },
            },
            _ => Charged { ed: ed1, res: Ok(JsView::Undefined) },
        },
    }
}

/// The items of a list from the `i`th on, behind those that are there.
pub open spec fn list_to_v8(
    s: Seq<V8View>,
    i: int,
    done: Seq<JsView>,
    reg: RegistryView,
    ed: EmbedderDataContext,
) -> Charged<Seq<JsView>>
    decreases s, s.len() - i,
{
    if i < 0 || i >= s.len() {
        Charged { ed, res: Ok(done) }
    } else {
        let one = value_to_v8(s[i], reg, ed);
        match one.res {
            Err(e) => Charged { ed: one.ed, res: Err(e) },
            Ok(v) => list_to_v8(s, i + 1, done.push(v), reg, one.ed),
        }
    }
}

/// The entries of a map from the `i`th on, behind those that are there.
pub open spec fn dict_to_v8(
    s: Seq<(V8View, V8View)>,
    i: int,
    done: Seq<(JsView, JsView)>,
    reg: RegistryView,
    ed: EmbedderDataContext,
) -> Charged<Seq<(JsView, JsView)>>
    decreases s, s.len() - i,
{
    if i < 0 || i >= s.len() {
        Charged { ed, res: Ok(done) }
    } else {
        let key = value_to_v8(s[i].0, reg, ed);
        match key.res {
            Err(e) => Charged { ed: key.ed, res: Err(e) },
            Ok(k) => {
                let val = value_to_v8(s[i].1, reg, key.ed);
                match val.res {
                    Err(e) => Charged { ed: val.ed, res: Err(e) },
                    Ok(v) => dict_to_v8(s, i + 1, done.push((k, v)), reg, val.ed),
                }
            },
        }
    }
}

/// The items of a list.
pub fn list_into_v8(
    items: &Vec<ProxiedV8Value>,
    common_state: &CommonState,
    ed: &mut EmbedderDataContext,
) -> (r: Result<Vec<JsValue>, String>)
    requires
        common_state.wf(),
    ensures
        ({
            let want = list_to_v8(
                v8_views(items@),
                0,
                Seq::empty(),
                common_state.proxy_client.obj_registry@,
                *old(ed),
            );
            &&& *final(ed) == want.ed
            &&& match (r, want.res) {
                (Ok(p), Ok(v)) => js_views(p@) == v,
                (Err(e), Err(t)) => e@ == t,
                _ => false,
            }
        }),
    decreases items, 0nat,
{
    let ghost all = v8_views(items@);
    let ghost reg = common_state.proxy_client.obj_registry@;
    let ghost want = list_to_v8(all, 0, Seq::empty(), reg, *ed);
    let mut list: Vec<JsValue> = Vec::new();
    assert(js_views(list@) =~= Seq::empty());
    let mut i: usize = 0;
    while i < items.len()
        invariant
            i <= items@.len(),
            all == v8_views(items@),
            common_state.wf(),
            reg == common_state.proxy_client.obj_registry@,
            want == list_to_v8(all, 0, Seq::empty(), reg, *old(ed)),
            want == list_to_v8(all, i as int, js_views(list@), reg, *ed),
        decreases items@.len() - i,
    {
        proof {
            assert(decreases_to!(items => items@));
            assert(decreases_to!(items@ => items@[i as int]));
        }
        let ghost before = list@;
        match items[i].to_v8(common_state, ed) {
            Err(e) => return Err(e),
            Ok(v) => {
                list.push(v);
                assert(js_views(list@) =~= js_views(before).push(v@));
            },
        }
        i += 1;
    }
    Ok(list)
}

/// The entries of a map.
fn dict_into_v8(
    items: &Vec<(ProxiedV8Value, ProxiedV8Value)>,
    common_state: &CommonState,
    ed: &mut EmbedderDataContext,
) -> (r: Result<Vec<(JsValue, JsValue)>, String>)
    requires
        common_state.wf(),
    ensures
        ({
            let want = dict_to_v8(
                v8_pairs(items@),
                0,
                Seq::empty(),
                common_state.proxy_client.obj_registry@,
                *old(ed),
            );
            &&& *final(ed) == want.ed
            &&& match (r, want.res) {
                (Ok(p), Ok(v)) => js_pairs(p@) == v,
                (Err(e), Err(t)) => e@ == t,
                _ => false,
            }
        }),
    decreases items, 0nat,
{
    let ghost all = v8_pairs(items@);
    let ghost reg = common_state.proxy_client.obj_registry@;
    let ghost want = dict_to_v8(all, 0, Seq::empty(), reg, *ed);
    let mut list: Vec<(JsValue, JsValue)> = Vec::new();
    assert(js_pairs(list@) =~= Seq::empty());
    let mut i: usize = 0;
    while i < items.len()
        invariant
            i <= items@.len(),
            all == v8_pairs(items@),
            common_state.wf(),
            reg == common_state.proxy_client.obj_registry@,
            want == dict_to_v8(all, 0, Seq::empty(), reg, *old(ed)),
            want == dict_to_v8(all, i as int, js_pairs(list@), reg, *ed),
        decreases items@.len() - i,
    {
        proof {
            assert(decreases_to!(items => items@));
            assert(decreases_to!(items@ => items@[i as int]));
            assert(decreases_to!(items@[i as int] => items@[i as int].0));
            assert(decreases_to!(items@[i as int] => items@[i as int].1));
        }
        let ghost before = list@;
        let key = match items[i].0.to_v8(common_state, ed) {
            Err(e) => return Err(e),
            Ok(k) => k,
        };
        match items[i].1.to_v8(common_state, ed) {
            Err(e) => return Err(e),
            Ok(v) => {
                list.push((key, v));
                assert(js_pairs(list@) =~= js_pairs(before).push((key@, v@)));
            },
        }
        i += 1;
    }
    Ok(list)
}

impl ProxiedV8PsuedoPrimitive {
    /// ProxiedV8PsuedoPrimitive -> V8
    pub fn to_v8(&self, common_state: &CommonState, ed: &mut EmbedderDataContext) -> (r: Result<
        JsValue,
        String,
    >)
        requires
            common_state.wf(),
        ensures
            ({
                let want = psuedo_to_v8(
                    self@,
                    common_state.proxy_client.obj_registry@,
                    *old(ed),
                );
                &&& *final(ed) == want.ed
                &&& match (r, want.res) {
                    (Ok(p), Ok(v)) => p@ == v,
                    (Err(e), Err(t)) => e@ == t,
                    _ => false,
                }
            }),
        decreases self, 1nat,
    {
        match ed.add(1, "ProxiedV8PsuedoPrimitive -> <base overhead>") {
            Err(e) => return Err(e),
            Ok(()) => {},
        }
        match self {
            ProxiedV8PsuedoPrimitive::Number(n) => Ok(JsValue::Number(*n)),
            ProxiedV8PsuedoPrimitive::Vector(v) => {
                let mut elems: Vec<JsValue> = Vec::new();
                elems.push(JsValue::Number(Number::OfSingle(v.x)));
                elems.push(JsValue::Number(Number::OfSingle(v.y)));
                elems.push(JsValue::Number(Number::OfSingle(v.z)));
                let r = JsValue::Array(elems);
                proof {
                    reveal_with_fuel(JsValue::view, 2);
                    assert(r@->Array_0 =~= made_vector(*v)->Array_0);
                }
                Ok(r)
            },
            ProxiedV8PsuedoPrimitive::StringBytes(bytes) => {
                match ed.add(bytes.len(), "ProxiedV8Primitive -> StringBytes") {
                    Err(e) => return Err(e),
                    Ok(()) => {},
                }
                Ok(JsValue::Uint8Array(copy_bytes(bytes.as_slice())))
            },
            ProxiedV8PsuedoPrimitive::StaticList(items) => {
                proof {
                    assert(self@->List_0 =~= v8_views(items@));
                    assert(decreases_to!(self => self->StaticList_0));
                }
                match ed.add(items.len(), "ProxiedV8PsuedoPrimitive -> V8Array") {
                    Err(e) => return Err(e),
                    Ok(()) => {},
                }
                let mut inner_ed = match ed.nest() {
                    Err(e) => return Err(e),
                    Ok(c) => c,
                };
                let elems = match list_into_v8(items, common_state, &mut inner_ed) {
                    Err(e) => return Err(e),
                    Ok(l) => l,
                };
                match ed.merge(inner_ed) {
                    Err(e) => return Err(e),
                    Ok(()) => {},
                }
                let r = JsValue::Array(elems);
                assert(r@->Array_0 =~= js_views(elems@));
                Ok(r)
            },
            ProxiedV8PsuedoPrimitive::StaticMap(items) => {
                proof {
                    assert(self@->Dict_0 =~= v8_pairs(items@));
                    assert(decreases_to!(self => self->StaticMap_0));
                }
                match ed.add(items.len(), "ProxiedV8PsuedoPrimitive -> V8Map") {
                    Err(e) => return Err(e),
                    Ok(()) => {},
                }
                let mut inner_ed = match ed.nest() {
                    Err(e) => return Err(e),
                    Ok(c) => c,
                };
                let entries = match dict_into_v8(items, common_state, &mut inner_ed) {
                    Err(e) => return Err(e),
                    Ok(l) => l,
                };
                match ed.merge(inner_ed) {
                    Err(e) => return Err(e),
                    Ok(()) => {},
                }
                let r = JsValue::MapObject(entries);
                assert(r@->MapObject_0 =~= js_pairs(entries@));
                Ok(r)
            },
        }
    }
}

impl ProxiedV8Value {
    /// Proxy a ProxiedV8Value to a V8 value
    pub fn to_v8(&self, common_state: &CommonState, ed: &mut EmbedderDataContext) -> (r: Result<
        JsValue,
        String,
    >)
        requires
            common_state.wf(),
        ensures
            ({
                let want = value_to_v8(
                    self@,
                    common_state.proxy_client.obj_registry@,
                    *old(ed),
                );
                &&& *final(ed) == want.ed
                &&& match (r, want.res) {
                    (Ok(p), Ok(v)) => p@ == v,
                    (Err(e), Err(t)) => e@ == t,
                    _ => false,
                }
            }),
        decreases self, 1nat,
    {
        match ed.add(1, "ProxiedV8Value -> <base overhead>") {
            Err(e) => return Err(e),
            Ok(()) => {},
        }
        match self {
            ProxiedV8Value::Primitive(p) => p.to_v8(ed),
            ProxiedV8Value::Psuedoprimitive(p) => p.to_v8(common_state, ed),
            ProxiedV8Value::V8OwnedObject(o) => match common_state.proxy_client.obj_registry.get(
                o.1,
            ) {
                Some(obj) => Ok(JsValue::Ref(obj)),
                None => Ok(JsValue::Undefined),
            },
            ProxiedV8Value::SourceOwnedObject(o) => Ok(JsValue::LuaObject(o.0, o.1)),
        }
    }
}

} // verus!
