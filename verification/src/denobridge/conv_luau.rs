//! Luau values to proxied values, and back.

use vstd::prelude::*;

use crate::denobridge::primitives::{primitive_of_luau, primitive_to_luau, ProxiedV8Primitive};
use crate::denobridge::psuedoprimitive::ProxiedV8PsuedoPrimitive;
use crate::denobridge::value::{v8_pairs, v8_views, ProxiedV8Value, V8View};
use crate::luau::bridge::{object_of, object_ref, ObjectRegistryType, ProxyLuaClient};
use crate::luau::embedder_api::{too_deep, EmbedderDataContext};
use crate::luau::objreg::{registry_full, unknown_object};
use crate::luau::value::{luau_pairs, LuauValue, LuauView, Metatable, Payload, PayloadView, FRESH};
use crate::outcome::{Charged, Step};
use crate::registry::{ObjectRef, RefKind, RegistryView};
use crate::text::{copy_bytes, join};
use crate::MAX_PROXY_DEPTH;

verus! {

/// A result whose own account is added to the outer one.
pub open spec fn settled<T>(
    reg: RegistryView,
    ed: EmbedderDataContext,
    inner: EmbedderDataContext,
    p: T,
) -> Step<T> {
    match ed.after(inner.size, "nested values"@) {
        Err(e) => Step { reg, ed, res: Err(e) },
        Ok(ed1) => Step { reg, ed: ed1, res: Ok(p) },
    }
}

/// A Luau object that is handed out once more.
pub open spec fn registered(
    reg: RegistryView,
    ed: EmbedderDataContext,
    typ: ObjectRegistryType,
    obj: ObjectRef,
) -> Step<V8View> {
    Step { reg: registered_in(reg, obj), ed, res: registration(reg, typ, obj) }
}

/// The registry after an object was handed out once more, if that could be done.
pub open spec fn registered_in(reg: RegistryView, obj: ObjectRef) -> RegistryView {
    if reg.admits(obj) {
        reg.added(obj)
    } else {
        reg
    }
}

/// The reference to an object that is handed out once more.
pub open spec fn registration(reg: RegistryView, typ: ObjectRegistryType, obj: ObjectRef) -> Result<
    V8View,
    Seq<char>,
> {
    if reg.admits(obj) {
        Ok(V8View::SourceOwned(typ, reg.id_for(obj)))
    } else {
        Err("Failed to add object to registry: "@ + registry_full())
    }
}

/// A Luau value that is not copied: a reference to it, or what it stands for.
pub open spec fn reference_of_luau(
    v: LuauView,
    reg: RegistryView,
    ed: EmbedderDataContext,
) -> Step<V8View> {
    match ed.after(1, "ProxiedV8Value -> <base overhead>"@) {
        Err(e) => Step { reg, ed, res: Err(e) },
        Ok(ed1) => match v {
            LuauView::UserData { handle, payload } => match payload {
                PayloadView::V8Ref(typ, id) => Step {
                    reg,
                    ed: ed1,
                    res: Ok(V8View::V8Owned(typ, id)),
                },
                PayloadView::V8Transfer(p) => Step { reg, ed: ed1, res: Ok(p) },
                _ => registered(
                    reg,
                    ed1,
                    ObjectRegistryType::UserData,
                    ObjectRef { kind: RefKind::UserData, handle },
                ),
            },
            LuauView::Error(text) => Step {
                reg,
                ed: ed1,
                res: Err("Cannot proxy Lua error value: "@ + text),
            },
            _ => match (ObjectRegistryType::of_value(v), object_of(v)) {
                (Some(typ), Some(obj)) => registered(reg, ed1, typ, obj),
                _ => Step {
                    reg,
                    ed: ed1,
                    res: Err("Cannot proxy Luau value of type "@ + v.typename()),
                },
            },
        },
    }
}

/// What a Luau value becomes on its way to v8.
pub open spec fn value_of_luau(v: LuauView, reg: RegistryView, ed: EmbedderDataContext) -> Step<
    V8View,
>
    decreases v, 1nat,
{
    let prim = primitive_of_luau(v, ed.sibling());
    match prim.res {
        Err(e) => Step { reg, ed, res: Err(e) },
        Ok(Some(p)) => settled(reg, ed, prim.ed, p),
        Ok(None) => {
            let psuedo = psuedo_of_luau(v, reg, ed.sibling());
            match psuedo.res {
                Err(e) => Step { reg: psuedo.reg, ed, res: Err(e) },
                Ok(Some(p)) => settled(psuedo.reg, ed, psuedo.ed, p),
                Ok(None) => reference_of_luau(v, psuedo.reg, ed),
            }
        },
    }
}

/// What a Luau value is as a psuedoprimitive, or nothing where it is none.
pub open spec fn psuedo_of_luau(v: LuauView, reg: RegistryView, ed: EmbedderDataContext) -> Step<
    Option<V8View>,
>
    decreases v, 0nat,
{
    match ed.after(1, "ProxiedV8PsuedoPrimitive -> <base overhead>"@) {
        Err(e) => Step { reg, ed, res: Err(e) },
        Ok(ed1) => match v {
            LuauView::Number(n) => Step { reg, ed: ed1, res: Ok(Some(V8View::Number(n))) },
            LuauView::Vector(x) => Step { reg, ed: ed1, res: Ok(Some(V8View::Vector(x))) },
            LuauView::String(bytes) => match ed1.after(
                bytes.len() as usize,
                "ProxiedV8PsuedoPrimitive -> LuaString"@,
            ) {
                Err(e) => Step { reg, ed: ed1, res: Err(e) },
                Ok(ed2) => Step { reg, ed: ed2, res: Ok(Some(V8View::Bytes(bytes))) },
            },
            LuauView::Table { frozen, metatable, len, entries, .. } => if !frozen {
                Step { reg, ed: ed1, res: Ok(None) }
            } else if metatable == Metatable::Array {
                match ed1.after(len, "ProxiedV8PsuedoPrimitive -> LuaArray"@) {
                    Err(e) => Step { reg, ed: ed1, res: Err(e) },
                    Ok(ed2) => if ed2.depth >= MAX_PROXY_DEPTH {
                        Step { reg, ed: ed2, res: Err(too_deep()) }
                    } else {
                        let all = list_of_luau(entries, 0, Seq::empty(), reg, ed2.child());
                        match all.res {
                            Err(e) => Step {
                                reg: all.reg,
                                ed: ed2,
                                res: Err("Failed to iterate over array: "@ + e),
                            },
                            Ok(items) => settled(all.reg, ed2, all.ed, Some(V8View::List(items))),
                        }
                    },
                }
            } else if ed1.depth >= MAX_PROXY_DEPTH {
                Step { reg, ed: ed1, res: Err(too_deep()) }
            } else {
                let all = dict_of_luau(entries, 0, Seq::empty(), reg, ed1.child());
                match all.res {
                    Err(e) => Step {
                        reg: all.reg,
                        ed: ed1,
                        res: Err("Failed to iterate over table: "@ + e),
                    },
                    Ok(items) => {
                        let merged = settled(all.reg, ed1, all.ed, Some(V8View::Dict(items)));
                        if merged.res is Err {
                            merged
                        } else {
                            match merged.ed.after(
                                entries.len() as usize,
                                "ProxiedV8PsuedoPrimitive -> LuaMap"@,
                            ) {
                                Err(e) => Step { res: Err(e), ..merged },
                                Ok(ed2) => Step { ed: ed2, ..merged },
                            }
                        }
                    },
                }
            },
            _ => Step { reg, ed: ed1, res: Ok(None) },
        },
    }
}

/// The values of a table from the `i`th entry on, behind those that are there.
pub open spec fn list_of_luau(
    s: Seq<(LuauView, LuauView)>,
    i: int,
    done: Seq<V8View>,
    reg: RegistryView,
    ed: EmbedderDataContext,
) -> Step<Seq<V8View>>
    decreases s, s.len() - i,
{
    if i < 0 || i >= s.len() {
        Step { reg, ed, res: Ok(done) }
    } else {
        let one = value_of_luau(s[i].1, reg, ed);
        match one.res {
            Err(e) => Step { reg: one.reg, ed: one.ed, res: Err(e) },
            Ok(p) => list_of_luau(s, i + 1, done.push(p), one.reg, one.ed),
        }
    }
}

/// The text of the refusal of a key that is no primitive.
pub open spec fn key_refused() -> Seq<char> {
    "Only primitive values can be keys of a map"@
}

/// The entries of a table from the `i`th on, behind those that are there.
pub open spec fn dict_of_luau(
    s: Seq<(LuauView, LuauView)>,
    i: int,
    done: Seq<(V8View, V8View)>,
    reg: RegistryView,
    ed: EmbedderDataContext,
) -> Step<Seq<(V8View, V8View)>>
    decreases s, s.len() - i,
{
    if i < 0 || i >= s.len() {
        Step { reg, ed, res: Ok(done) }
    } else {
        let key = value_of_luau(s[i].0, reg, ed);
        match key.res {
            Err(e) => Step { reg: key.reg, ed: key.ed, res: Err(e) },
            Ok(k) => if !k.is_primitive() {
                Step { reg: key.reg, ed: key.ed, res: Err(key_refused()) }
            } else {
                let val = value_of_luau(s[i].1, key.reg, key.ed);
                match val.res {
                    Err(e) => Step { reg: val.reg, ed: val.ed, res: Err(e) },
                    Ok(p) => dict_of_luau(s, i + 1, done.push((k, p)), val.reg, val.ed),
                }
            },
        }
    }
}

/// The values of a table's entries.
fn list_from_luau(
    plc: &mut ProxyLuaClient,
    entries: &Vec<(LuauValue, LuauValue)>,
    ed: &mut EmbedderDataContext,
) -> (r: Result<Vec<ProxiedV8Value>, String>)
    requires
        old(plc).wf(),
    ensures
        final(plc).wf(),
        final(plc).ed == old(plc).ed,
        ({
            let want = list_of_luau(
                luau_pairs(entries@),
                0,
                Seq::empty(),
                old(plc).obj_registry@,
                *old(ed),
            );
            &&& final(plc).obj_registry@ == want.reg
            &&& *final(ed) == want.ed
            &&& match (r, want.res) {
                (Ok(p), Ok(v)) => v8_views(p@) == v,
                (Err(e), Err(t)) => e@ == t,
                _ => false,
            }
        }),
    decreases entries, 0nat,
{
    let ghost all = luau_pairs(entries@);
    let ghost want = list_of_luau(all, 0, Seq::empty(), plc.obj_registry@, *ed);
    let mut list: Vec<ProxiedV8Value> = Vec::new();
    assert(v8_views(list@) =~= Seq::empty());
    let mut i: usize = 0;
    while i < entries.len()
        invariant
            i <= entries@.len(),
            all == luau_pairs(entries@),
            plc.wf(),
            plc.ed == old(plc).ed,
            want == list_of_luau(
                all,
                0,
                Seq::empty(),
                old(plc).obj_registry@,
                *old(ed),
            ),
            want == list_of_luau(all, i as int, v8_views(list@), plc.obj_registry@, *ed),
        decreases entries@.len() - i,
    {
        proof {
            assert(decreases_to!(entries => entries@));
            assert(decreases_to!(entries@ => entries@[i as int]));
            assert(decreases_to!(entries@[i as int] => entries@[i as int].1));
        }
        let ghost before = list@;
        match ProxiedV8Value::from_luau(plc, &entries[i].1, ed) {
            Err(e) => return Err(e),
            Ok(v) => {
                list.push(v);
                assert(v8_views(list@) =~= v8_views(before).push(v@));
            },
        }
        i += 1;
    }
    Ok(list)
}

/// The entries of a table.
fn dict_from_luau(
    plc: &mut ProxyLuaClient,
    entries: &Vec<(LuauValue, LuauValue)>,
    ed: &mut EmbedderDataContext,
) -> (r: Result<Vec<(ProxiedV8Value, ProxiedV8Value)>, String>)
    requires
        old(plc).wf(),
    ensures
        final(plc).wf(),
        final(plc).ed == old(plc).ed,
        ({
            let want = dict_of_luau(
                luau_pairs(entries@),
                0,
                Seq::empty(),
                old(plc).obj_registry@,
                *old(ed),
            );
            &&& final(plc).obj_registry@ == want.reg
            &&& *final(ed) == want.ed
            &&& match (r, want.res) {
                (Ok(p), Ok(v)) => v8_pairs(p@) == v,
                (Err(e), Err(t)) => e@ == t,
                _ => false,
            }
        }),
    decreases entries, 0nat,
{
    let ghost all = luau_pairs(entries@);
    let ghost want = dict_of_luau(all, 0, Seq::empty(), plc.obj_registry@, *ed);
    let mut list: Vec<(ProxiedV8Value, ProxiedV8Value)> = Vec::new();
    assert(v8_pairs(list@) =~= Seq::empty());
    let mut i: usize = 0;
    while i < entries.len()
        invariant
            i <= entries@.len(),
            all == luau_pairs(entries@),
            plc.wf(),
            plc.ed == old(plc).ed,
            want == dict_of_luau(
                all,
                0,
                Seq::empty(),
                old(plc).obj_registry@,
                *old(ed),
            ),
            want == dict_of_luau(all, i as int, v8_pairs(list@), plc.obj_registry@, *ed),
        decreases entries@.len() - i,
    {
        proof {
            assert(decreases_to!(entries => entries@));
            assert(decreases_to!(entries@ => entries@[i as int]));
            assert(decreases_to!(entries@[i as int] => entries@[i as int].0));
            assert(decreases_to!(entries@[i as int] => entries@[i as int].1));
        }
        let ghost before = list@;
        let key = match ProxiedV8Value::from_luau(plc, &entries[i].0, ed) {
            Err(e) => return Err(e),
            Ok(k) => k,
        };
        if !key.is_primitive() {
            return Err("Only primitive values can be keys of a map".to_owned());
        }
        match ProxiedV8Value::from_luau(plc, &entries[i].1, ed) {
            Err(e) => return Err(e),
            Ok(v) => {
                list.push((key, v));
                assert(v8_pairs(list@) =~= v8_pairs(before).push((key@, v@)));
            },
        }
        i += 1;
    }
    Ok(list)
}

impl ProxiedV8PsuedoPrimitive {
    /// Luau -> ProxiedV8PsuedoPrimitive
    pub fn from_luau(
        plc: &mut ProxyLuaClient,
        value: &LuauValue,
        ed: &mut EmbedderDataContext,
    ) -> (r: Result<Option<Self>, String>)
        requires
            old(plc).wf(),
        ensures
            final(plc).wf(),
            final(plc).ed == old(plc).ed,
            ({
                let want = psuedo_of_luau(value@, old(plc).obj_registry@, *old(ed));
                &&& final(plc).obj_registry@ == want.reg
                &&& *final(ed) == want.ed
                &&& match (r, want.res) {
                    (Ok(Some(p)), Ok(Some(v))) => p@ == v,
                    (Ok(None), Ok(None)) => true,
                    (Err(e), Err(t)) => e@ == t,
                    _ => false,
                }
            }),
        decreases value, 0nat,
    {
        match ed.add(1, "ProxiedV8PsuedoPrimitive -> <base overhead>") {
            Err(e) => return Err(e),
            Ok(()) => {},
        }
        match value {
            LuauValue::Number(n) => Ok(Some(ProxiedV8PsuedoPrimitive::Number(*n))),
            LuauValue::Vector(v) => Ok(Some(ProxiedV8PsuedoPrimitive::Vector(*v))),
            LuauValue::String(bytes) => {
                match ed.add(bytes.len(), "ProxiedV8PsuedoPrimitive -> LuaString") {
                    Err(e) => return Err(e),
                    Ok(()) => {},
                }
                Ok(Some(ProxiedV8PsuedoPrimitive::StringBytes(copy_bytes(bytes.as_slice()))))
            },
            LuauValue::Table { handle: _, frozen, metatable, len, entries } => {
                proof {
                    assert(value@->Table_entries =~= luau_pairs(entries@));
                    assert(decreases_to!(value => value->Table_entries));
                }
                if !*frozen {
                    return Ok(None);
                }
                if *metatable == Metatable::Array {
                    match ed.add(*len, "ProxiedV8PsuedoPrimitive -> LuaArray") {
                        Err(e) => return Err(e),
                        Ok(()) => {},
                    }
                    let mut inner_ed = match ed.nest() {
                        Err(e) => return Err(e),
                        Ok(c) => c,
                    };
                    let list = match list_from_luau(plc, entries, &mut inner_ed) {
                        Err(e) => return Err(join("Failed to iterate over array: ", &e)),
                        Ok(l) => l,
                    };
                    match ed.merge(inner_ed) {
                        Err(e) => return Err(e),
                        Ok(()) => {},
                    }
                    let r = ProxiedV8PsuedoPrimitive::StaticList(list);
                    assert(r@->List_0 =~= v8_views(list@));
                    Ok(Some(r))
                } else {
                    let mut inner_ed = match ed.nest() {
                        Err(e) => return Err(e),
                        Ok(c) => c,
                    };
                    let smap = match dict_from_luau(plc, entries, &mut inner_ed) {
                        Err(e) => return Err(join("Failed to iterate over table: ", &e)),
                        Ok(l) => l,
                    };
                    match ed.merge(inner_ed) {
                        Err(e) => return Err(e),
                        Ok(()) => {},
                    }
                    match ed.add(entries.len(), "ProxiedV8PsuedoPrimitive -> LuaMap") {
                        Err(e) => return Err(e),
                        Ok(()) => {},
                    }
                    let r = ProxiedV8PsuedoPrimitive::StaticMap(smap);
                    assert(r@->Dict_0 =~= v8_pairs(smap@));
                    Ok(Some(r))
                }
            },
            _ => Ok(None),
        }
    }
}

/// Hands a Luau object out once more.
fn register(
    plc: &mut ProxyLuaClient,
    typ: ObjectRegistryType,
    obj: ObjectRef,
) -> (r: Result<ProxiedV8Value, String>)
    requires
        old(plc).wf(),
    ensures
        final(plc).wf(),
        final(plc).ed == old(plc).ed,
        final(plc).obj_registry@ == registered_in(old(plc).obj_registry@, obj),
        match (r, registration(old(plc).obj_registry@, typ, obj)) {
            (Ok(p), Ok(v)) => p@ == v,
            (Err(e), Err(t)) => e@ == t,
            _ => false,
        },
{
    match plc.obj_registry.add(obj) {
        Ok(id) => Ok(ProxiedV8Value::SourceOwnedObject((typ, id))),
        Err(e) => Err(join("Failed to add object to registry: ", &e)),
    }
}

impl ProxiedV8Value {
    /// Proxies a Luau value to a ProxiedV8Value
    pub fn from_luau(
        plc: &mut ProxyLuaClient,
        value: &LuauValue,
        ed: &mut EmbedderDataContext,
    ) -> (r: Result<Self, String>)
        requires
            old(plc).wf(),
        ensures
            final(plc).wf(),
            final(plc).ed == old(plc).ed,
            ({
                let want = value_of_luau(value@, old(plc).obj_registry@, *old(ed));
                &&& final(plc).obj_registry@ == want.reg
                &&& *final(ed) == want.ed
                &&& match (r, want.res) {
                    (Ok(p), Ok(v)) => p@ == v,
                    (Err(e), Err(t)) => e@ == t,
                    _ => false,
                }
            }),
        decreases value, 1nat,
    {
        let mut inner_ed_a = ed.nest_in_depth();
        match ProxiedV8Primitive::from_luau(value, &mut inner_ed_a) {
            Err(e) => return Err(e),
            Ok(Some(prim)) => {
                match ed.merge(inner_ed_a) {
                    Err(e) => return Err(e),
                    Ok(()) => {},
                }
                return Ok(ProxiedV8Value::Primitive(prim));
            },
            Ok(None) => {},
        }
        let mut inner_ed_b = ed.nest_in_depth();
        match ProxiedV8PsuedoPrimitive::from_luau(plc, value, &mut inner_ed_b) {
            Err(e) => return Err(e),
            Ok(Some(psuedo)) => {
                match ed.merge(inner_ed_b) {
                    Err(e) => return Err(e),
                    Ok(()) => {},
                }
                return Ok(ProxiedV8Value::Psuedoprimitive(psuedo));
            },
            Ok(None) => {},
        }
        match ed.add(1, "ProxiedV8Value -> <base overhead>") {
            Err(e) => return Err(e),
            Ok(()) => {},
        }
        match value {
            LuauValue::UserData { handle, payload } => match payload {
                Payload::V8Ref(typ, id) => Ok(ProxiedV8Value::V8OwnedObject((*typ, *id))),
                Payload::V8Transfer(p) => Ok(p.duplicate()),
                _ => register(
                    plc,
                    ObjectRegistryType::UserData,
                    ObjectRef { kind: RefKind::UserData, handle: *handle },
                ),
            },
            LuauValue::Error(text) => Err(join("Cannot proxy Lua error value: ", text)),
            _ => match (ObjectRegistryType::from_value(value), object_ref(value)) {
                (Some(typ), Some(obj)) => register(plc, typ, obj),
                _ => Err(join("Cannot proxy Luau value of type ", value.typename())),
            },
        }
    }
}

/// An array that is made of some items: frozen, and marked as an array.
pub open spec fn made_array(items: Seq<LuauView>) -> LuauView {
    LuauView::Table {
        handle: FRESH,
        frozen: true,
        metatable: Metatable::Array,
        len: items.len() as usize,
        entries: Seq::new(items.len(), |i: int| (LuauView::Integer((i + 1) as i64), items[i])),
    }
}

/// A table that is made of some entries: frozen, and without a metatable.
pub open spec fn made_table(entries: Seq<(LuauView, LuauView)>) -> LuauView {
    LuauView::Table {
        handle: FRESH,
        frozen: true,
        metatable: Metatable::Absent,
        len: 0,
        entries,
    }
}

/// What a proxied value becomes in Luau.
pub open spec fn value_to_luau(p: V8View, reg: RegistryView, ed: EmbedderDataContext) -> Charged<
    LuauView,
>
    decreases p, 1nat,
{
    match ed.after(1, "ProxiedV8Value -> <base overhead>"@) {
        Err(e) => Charged { ed, res: Err(e) },
        Ok(ed1) => match p {
            V8View::V8Owned(typ, id) => Charged {
                ed: ed1,
                res: Ok(
                    LuauView::UserData { handle: FRESH, payload: PayloadView::V8Ref(typ, id) },
                ),
            },
            V8View::SourceOwned(_, id) => Charged {
                ed: ed1,
                res: if reg.live.dom().contains(id) {
                    Ok(LuauView::Ref(reg.live[id].obj))
                } else {
                    Err("Failed to get object from registry: "@ + unknown_object(id))
                },
            },
            _ => if p.is_primitive() {
                let one = primitive_to_luau(p, ed1);
                match one.res {
                    Err(e) => Charged {
                        ed: one.ed,
                        res: Err("Failed to convert ProxiedV8Primitive to Luau: "@ + e),
                    },
                    Ok(v) => one,
                }
            } else {
                let one = psuedo_to_luau(p, reg, ed1);
                match one.res {
                    Err(e) => Charged {
                        ed: one.ed,
                        res: Err("Failed to convert ProxiedV8PsuedoPrimitive to Luau: "@ + e),
                    },
                    Ok(v) => one,
                }
            },
        },
    }
}

/// What a psuedoprimitive becomes in Luau.
pub open spec fn psuedo_to_luau(p: V8View, reg: RegistryView, ed: EmbedderDataContext) -> Charged<
    LuauView,
>
    decreases p, 0nat,
{
    match ed.after(1, "ProxiedV8PsuedoPrimitive -> <base overhead>"@) {
        Err(e) => Charged { ed, res: Err(e) },
        Ok(ed1) => match p {
            V8View::Number(n) => Charged { ed: ed1, res: Ok(LuauView::Number(n)) },
            V8View::Vector(v) => Charged { ed: ed1, res: Ok(LuauView::Vector(v)) },
            V8View::Bytes(bytes) => match ed1.after(
                bytes.len() as usize,
                "ProxiedV8Primitive -> StringBytes"@,
            ) {
                Err(e) => Charged { ed: ed1, res: Err(e) },
                Ok(ed2) => Charged { ed: ed2, res: Ok(LuauView::String(bytes)) },
            },
            V8View::List(items) => match ed1.after(
                items.len() as usize,
                "ProxiedV8PsuedoPrimitive -> LuaArray"@,
            ) {
                Err(e) => Charged { ed: ed1, res: Err(e) },
                Ok(ed2) => if ed2.depth >= MAX_PROXY_DEPTH {
                    Charged { ed: ed2, res: Err(too_deep()) }
                } else {
                    let all = list_to_luau(items, 0, Seq::empty(), reg, ed2.child());
                    match all.res {
                        Err(e) => Charged { ed: ed2, res: Err(e) },
                        Ok(vs) => match ed2.after(all.ed.size, "nested values"@) {
                            Err(e) => Charged { ed: ed2, res: Err(e) },
                            Ok(ed3) => Charged { ed: ed3, res: Ok(made_array(vs)) },
                        },
                    }
                },
            },
            V8View::Dict(items) => match ed1.after(
                items.len() as usize,
                "ProxiedV8PsuedoPrimitive -> LuaMap"@,
            ) {
                Err(e) => Charged { ed: ed1, res: Err(e) },
                Ok(ed2) => if ed2.depth >= MAX_PROXY_DEPTH {
                    Charged { ed: ed2, res: Err(too_deep()) }
                } else {
                    let all = dict_to_luau(items, 0, Seq::empty(), reg, ed2.child());
                    match all.res {
                        Err(e) => Charged { ed: ed2, res: Err(e) },
                        Ok(vs) => match ed2.after(all.ed.size, "nested values"@) {
                            Err(e) => Charged { ed: ed2, res: Err(e) },
                            Ok(ed3) => Charged { ed: ed3, res: Ok(made_table(vs)) },
                        },
                    }
                },
            },
            _ => Charged { ed: ed1, res: Ok(LuauView::Nil) },
        },
    }
}

/// The items of a list from the `i`th on, behind those that are there.
pub open spec fn list_to_luau(
    s: Seq<V8View>,
    i: int,
    done: Seq<LuauView>,
    reg: RegistryView,
    ed: EmbedderDataContext,
) -> Charged<Seq<LuauView>>
    decreases s, s.len() - i,
{
    if i < 0 || i >= s.len() {
        Charged { ed, res: Ok(done) }
    } else {
        let one = value_to_luau(s[i], reg, ed);
        match one.res {
            Err(e) => Charged { ed: one.ed, res: Err("Failed to convert value to Lua: "@ + e) },
            Ok(v) => list_to_luau(s, i + 1, done.push(v), reg, one.ed),
        }
    }
}

/// The entries of a map from the `i`th on, behind those that are there.
pub open spec fn dict_to_luau(
    s: Seq<(V8View, V8View)>,
    i: int,
    done: Seq<(LuauView, LuauView)>,
    reg: RegistryView,
    ed: EmbedderDataContext,
) -> Charged<Seq<(LuauView, LuauView)>>
    decreases s, s.len() - i,
{
    if i < 0 || i >= s.len() {
        Charged { ed, res: Ok(done) }
    } else {
        let key = value_to_luau(s[i].0, reg, ed);
        match key.res {
            Err(e) => Charged { ed: key.ed, res: Err(e) },
            Ok(k) => {
                let val = value_to_luau(s[i].1, reg, key.ed);
                match val.res {
                    Err(e) => Charged {
                        ed: val.ed,
                        res: Err("Failed to convert value to Lua: "@ + e),
                    },
                    Ok(v) => dict_to_luau(s, i + 1, done.push((k, v)), reg, val.ed),
                }
            },
        }
    }
}

/// The items of a list, each with its index.
fn list_into_luau(
    items: &Vec<ProxiedV8Value>,
    plc: &ProxyLuaClient,
    ed: &mut EmbedderDataContext,
) -> (r: Result<Vec<(LuauValue, LuauValue)>, String>)
    requires
        plc.wf(),
    ensures
        ({
            let want = list_to_luau(
                v8_views(items@),
                0,
                Seq::empty(),
                plc.obj_registry@,
                *old(ed),
            );
            &&& *final(ed) == want.ed
            &&& match (r, want.res) {
                (Ok(p), Ok(v)) => luau_pairs(p@) == made_array(v)->Table_entries,
                (Err(e), Err(t)) => e@ == t,
                _ => false,
            }
        }),
    decreases items, 0nat,
{
    let ghost all = v8_views(items@);
    let ghost want = list_to_luau(all, 0, Seq::empty(), plc.obj_registry@, *ed);
    let mut list: Vec<(LuauValue, LuauValue)> = Vec::new();
    let ghost mut done: Seq<LuauView> = Seq::empty();
    let mut i: usize = 0;
    while i < items.len()
        invariant
            i <= items@.len(),
            all == v8_views(items@),
            plc.wf(),
            done.len() == i,
            luau_pairs(list@) =~= made_array(done)->Table_entries,
            want == list_to_luau(all, 0, Seq::empty(), plc.obj_registry@, *old(ed)),
            want == list_to_luau(all, i as int, done, plc.obj_registry@, *ed),
        decreases items@.len() - i,
    {
        proof {
            assert(decreases_to!(items => items@));
            assert(decreases_to!(items@ => items@[i as int]));
        }
        let ghost before = list@;
        match items[i].to_luau(plc, ed) {
            Err(e) => return Err(join("Failed to convert value to Lua: ", &e)),
            Ok(v) => {
                let key = LuauValue::Integer((i + 1) as i64);
                proof {
                    done = done.push(v@);
                }
                list.push((key, v));
                assert(luau_pairs(list@) =~= luau_pairs(before).push((key@, v@)));
            },
        }
        i += 1;
    }
    Ok(list)
}

/// The entries of a map.
fn dict_into_luau(
    items: &Vec<(ProxiedV8Value, ProxiedV8Value)>,
    plc: &ProxyLuaClient,
    ed: &mut EmbedderDataContext,
) -> (r: Result<Vec<(LuauValue, LuauValue)>, String>)
    requires
        plc.wf(),
    ensures
        ({
            let want = dict_to_luau(
                v8_pairs(items@),
                0,
                Seq::empty(),
                plc.obj_registry@,
                *old(ed),
            );
            &&& *final(ed) == want.ed
            &&& match (r, want.res) {
                (Ok(p), Ok(v)) => luau_pairs(p@) == v,
                (Err(e), Err(t)) => e@ == t,
                _ => false,
            }
        }),
    decreases items, 0nat,
{
    let ghost all = v8_pairs(items@);
    let ghost want = dict_to_luau(all, 0, Seq::empty(), plc.obj_registry@, *ed);
    let mut list: Vec<(LuauValue, LuauValue)> = Vec::new();
    assert(luau_pairs(list@) =~= Seq::empty());
    let mut i: usize = 0;
    while i < items.len()
        invariant
            i <= items@.len(),
            all == v8_pairs(items@),
            plc.wf(),
            want == dict_to_luau(all, 0, Seq::empty(), plc.obj_registry@, *old(ed)),
            want == dict_to_luau(all, i as int, luau_pairs(list@), plc.obj_registry@, *ed),
        decreases items@.len() - i,
    {
        proof {
            assert(decreases_to!(items => items@));
            assert(decreases_to!(items@ => items@[i as int]));
            assert(decreases_to!(items@[i as int] => items@[i as int].0));
            assert(decreases_to!(items@[i as int] => items@[i as int].1));
        }
        let ghost before = list@;
        let key = match items[i].0.to_luau(plc, ed) {
            Err(e) => return Err(e),
            Ok(k) => k,
        };
        match items[i].1.to_luau(plc, ed) {
            Err(e) => return Err(join("Failed to convert value to Lua: ", &e)),
            Ok(v) => {
                list.push((key, v));
                assert(luau_pairs(list@) =~= luau_pairs(before).push((key@, v@)));
            },
        }
        i += 1;
    }
    Ok(list)
}

impl ProxiedV8PsuedoPrimitive {
    /// ProxiedV8PsuedoPrimitive -> Luau
    pub fn to_luau(&self, plc: &ProxyLuaClient, ed: &mut EmbedderDataContext) -> (r: Result<
        LuauValue,
        String,
    >)
        requires
            plc.wf(),
        ensures
            ({
                let want = psuedo_to_luau(self@, plc.obj_registry@, *old(ed));
                &&& *final(ed) == want.ed
                &&& match (r, want.res) {
                    (Ok(p), Ok(v)) => p@ == v,
                    (Err(e), Err(t)) => e@ == t,
                    _ => false,
                }
            }),
        decreases self, 1nat,
    {
        match ed.add(1, "ProxiedV8PsuedoPrimitive -> <base overhead>") {
            Err(e) => return Err(e),
            Ok(()) => {},
        }
        match self {
            ProxiedV8PsuedoPrimitive::Number(n) => Ok(LuauValue::Number(*n)),
            ProxiedV8PsuedoPrimitive::Vector(v) => Ok(LuauValue::Vector(*v)),
            ProxiedV8PsuedoPrimitive::StringBytes(bytes) => {
                match ed.add(bytes.len(), "ProxiedV8Primitive -> StringBytes") {
                    Err(e) => return Err(e),
                    Ok(()) => {},
                }
                Ok(LuauValue::String(copy_bytes(bytes.as_slice())))
            },
            ProxiedV8PsuedoPrimitive::StaticList(items) => {
                proof {
                    assert(self@->List_0 =~= v8_views(items@));
                    assert(decreases_to!(self => self->StaticList_0));
                }
                match ed.add(items.len(), "ProxiedV8PsuedoPrimitive -> LuaArray") {
                    Err(e) => return Err(e),
                    Ok(()) => {},
                }
                let mut inner_ed = match ed.nest() {
                    Err(e) => return Err(e),
                    Ok(c) => c,
                };
                let entries = match list_into_luau(items, plc, &mut inner_ed) {
                    Err(e) => return Err(e),
                    Ok(l) => l,
                };
                match ed.merge(inner_ed) {
                    Err(e) => return Err(e),
                    Ok(()) => {},
                }
                let r = LuauValue::Table {
                    handle: FRESH,
                    frozen: true,
                    metatable: Metatable::Array,
                    len: entries.len(),
                    entries,
                };
                assert(r@->Table_entries =~= luau_pairs(entries@));
                Ok(r)
            },
            ProxiedV8PsuedoPrimitive::StaticMap(items) => {
                proof {
                    assert(self@->Dict_0 =~= v8_pairs(items@));
                    assert(decreases_to!(self => self->StaticMap_0));
                }
                match ed.add(items.len(), "ProxiedV8PsuedoPrimitive -> LuaMap") {
                    Err(e) => return Err(e),
                    Ok(()) => {},
                }
                let mut inner_ed = match ed.nest() {
                    Err(e) => return Err(e),
                    Ok(c) => c,
                };
                let entries = match dict_into_luau(items, plc, &mut inner_ed) {
                    Err(e) => return Err(e),
                    Ok(l) => l,
                };
                match ed.merge(inner_ed) {
                    Err(e) => return Err(e),
                    Ok(()) => {},
                }
                let r = LuauValue::Table {
                    handle: FRESH,
                    frozen: true,
                    metatable: Metatable::Absent,
                    len: 0,
                    entries,
                };
                assert(r@->Table_entries =~= luau_pairs(entries@));
                Ok(r)
            },
        }
    }
}

impl ProxiedV8Value {
    /// Proxy a ProxiedV8Value to a Luau value
    pub fn to_luau(&self, plc: &ProxyLuaClient, ed: &mut EmbedderDataContext) -> (r: Result<
        LuauValue,
        String,
    >)
        requires
            plc.wf(),
        ensures
            ({
                let want = value_to_luau(self@, plc.obj_registry@, *old(ed));
                &&& *final(ed) == want.ed
                &&& match (r, want.res) {
                    (Ok(p), Ok(v)) => p@ == v,
                    (Err(e), Err(t)) => e@ == t,
                    _ => false,
                }
            }),
        decreases self, 1nat,
    {
        match ed.add(1, "ProxiedV8Value -> <base overhead>") {
            Err(e) => return Err(e),
            Ok(()) => {},
        }
        match self {
            ProxiedV8Value::Primitive(p) => match p.to_luau(ed) {
                Err(e) => Err(join("Failed to convert ProxiedV8Primitive to Luau: ", &e)),
                Ok(v) => Ok(v),
            },
            ProxiedV8Value::Psuedoprimitive(p) => match p.to_luau(plc, ed) {
                Err(e) => Err(join("Failed to convert ProxiedV8PsuedoPrimitive to Luau: ", &e)),
                Ok(v) => Ok(v),
            },
            ProxiedV8Value::V8OwnedObject(o) => Ok(
                LuauValue::UserData { handle: FRESH, payload: Payload::V8Ref(o.0, o.1) },
            ),
            ProxiedV8Value::SourceOwnedObject(o) => match plc.obj_registry.get(o.1) {
                Err(e) => Err(join("Failed to get object from registry: ", &e)),
                Ok(obj) => Ok(LuauValue::of_ref(obj)),
            },
        }
    }
}

} // verus!
