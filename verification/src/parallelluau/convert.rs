//! The values of one Luau state to proxied values, and back.

use vstd::prelude::*;

use crate::denobridge::conv_luau::{registered_in, settled};
use crate::luau::bridge::{object_of, object_ref, ObjectRegistryType, ProxyLuaClient};
use crate::luau::embedder_api::{too_deep, EmbedderDataContext};
use crate::luau::objreg::{registry_full, unknown_object, LuauObjectRegistryID};
use crate::luau::value::{luau_pairs, LuauValue, LuauView, Metatable, Payload, PayloadView, FRESH};
use crate::outcome::{Charged, Step};
use crate::parallelluau::objreg::PLuauObjectRegistryID;
use crate::parallelluau::primitives::{plain_of_luau, plain_to_luau, ProxiedLuauPrimitive};
use crate::parallelluau::psuedoprimitive::ProxiedLuauPsuedoPrimitive;
use crate::parallelluau::state::{ProxyPLuaClient, StateClient};
use crate::parallelluau::value::{pluau_pairs, pluau_views, PLuauView, ProxiedLuauValue};
use crate::registry::{ObjectRef, RefKind, RegistryView};
use crate::text::{copy_bytes, join};
use crate::MAX_PROXY_DEPTH;

verus! {

/// An object of a state that the other state refers to.
pub open spec fn owned_by(host: bool, typ: ObjectRegistryType, id: i64) -> PLuauView {
    if host {
        PLuauView::SourceOwned(typ, id)
    } else {
        PLuauView::TargetOwned(typ, id)
    }
}

/// An object that is handed out once more.
pub open spec fn registered(
    host: bool,
    reg: RegistryView,
    ed: EmbedderDataContext,
    typ: ObjectRegistryType,
    obj: ObjectRef,
) -> Step<PLuauView> {
    Step { reg: registered_in(reg, obj), ed, res: registration(host, reg, typ, obj) }
}

/// The reference to an object that is handed out once more.
pub open spec fn registration(
    host: bool,
    reg: RegistryView,
    typ: ObjectRegistryType,
    obj: ObjectRef,
) -> Result<PLuauView, Seq<char>> {
    if reg.admits(obj) {
        Ok(owned_by(host, typ, reg.id_for(obj)))
    } else {
        Err("Failed to add object to registry: "@ + registry_full())
    }
}

/// A Luau value that is not copied: a reference to it, or what it stands for.
pub open spec fn reference_of_state(
    v: LuauView,
    host: bool,
    reg: RegistryView,
    ed: EmbedderDataContext,
) -> Step<PLuauView> {
    match ed.after(1, "ProxiedLuauValue -> <base overhead>"@) {
        Err(e) => Step { reg, ed, res: Err(e) },
        Ok(ed1) => match v {
            LuauView::UserData { handle, payload } => match payload {
                PayloadView::HostRef(typ, id) => Step {
                    reg,
                    ed: ed1,
                    res: Ok(PLuauView::SourceOwned(typ, id)),
                },
                PayloadView::ChildRef(typ, id) => Step {
                    reg,
                    ed: ed1,
                    res: Ok(PLuauView::TargetOwned(typ, id)),
                },
                _ => if host && payload is LuauTransfer {
                    Step { reg, ed: ed1, res: Ok(payload->LuauTransfer_0) }
                } else {
                    registered(
                        host,
                        reg,
                        ed1,
                        ObjectRegistryType::UserData,
                        ObjectRef { kind: RefKind::UserData, handle },
                    )
                },
            },
            LuauView::Error(text) => Step {
                reg,
                ed: ed1,
                res: Err("Cannot proxy Lua error value: "@ + text),
            },
            _ => match (ObjectRegistryType::of_value(v), object_of(v)) {
                (Some(typ), Some(obj)) => registered(host, reg, ed1, typ, obj),
                _ => Step {
                    reg,
                    ed: ed1,
                    res: Err("Cannot proxy Luau value of type "@ + v.typename()),
                },
            },
        },
    }
}

/// What a Luau value becomes on its way to the other Luau state.
pub open spec fn value_of_state(v: LuauView, host: bool, reg: RegistryView, ed: EmbedderDataContext) -> Step<
    PLuauView,
>
    decreases v, 1nat,
{
    let prim = plain_of_luau(v, ed.sibling());
    match prim.res {
        Err(e) => Step { reg, ed, res: Err(e) },
        Ok(Some(p)) => settled(reg, ed, prim.ed, p),
        Ok(None) => {
            let psuedo = psuedo_of_state(v, host, reg, ed.sibling());
            match psuedo.res {
                Err(e) => Step { reg: psuedo.reg, ed, res: Err(e) },
                Ok(Some(p)) => settled(psuedo.reg, ed, psuedo.ed, p),
                Ok(None) => reference_of_state(v, host, psuedo.reg, ed),
            }
        },
    }
}

/// What a Luau value is as a psuedoprimitive, or nothing where it is none.
pub open spec fn psuedo_of_state(v: LuauView, host: bool, reg: RegistryView, ed: EmbedderDataContext) -> Step<
    Option<PLuauView>,
>
    decreases v, 0nat,
{
    match ed.after(1, "ProxiedLuauPsuedoPrimitive -> <base overhead>"@) {
        Err(e) => Step { reg, ed, res: Err(e) },
        Ok(ed1) => match v {
            LuauView::Number(n) => Step { reg, ed: ed1, res: Ok(Some(PLuauView::Number(n))) },
            LuauView::Vector(x) => Step { reg, ed: ed1, res: Ok(Some(PLuauView::Vector(x))) },
            LuauView::String(bytes) => match ed1.after(
                bytes.len() as usize,
                "ProxiedLuauPsuedoPrimitive -> LuaString"@,
            ) {
                Err(e) => Step { reg, ed: ed1, res: Err(e) },
                Ok(ed2) => Step { reg, ed: ed2, res: Ok(Some(PLuauView::Bytes(bytes))) },
            },
            LuauView::Table { metatable, len, entries, .. } => if metatable == Metatable::Other {
                Step { reg, ed: ed1, res: Ok(None) }
            } else if metatable == Metatable::Array {
                match ed1.after(len, "ProxiedLuauPsuedoPrimitive -> LuaArray"@) {
                    Err(e) => Step { reg, ed: ed1, res: Err(e) },
                    Ok(ed2) => if ed2.depth >= MAX_PROXY_DEPTH {
                        Step { reg, ed: ed2, res: Err(too_deep()) }
                    } else {
                        let all = list_of_state(entries, 0, Seq::empty(), host, reg, ed2.child());
                        match all.res {
                            Err(e) => Step {
                                reg: all.reg,
                                ed: ed2,
                                res: Err("Failed to iterate over array: "@ + e),
                            },
                            Ok(items) => settled(all.reg, ed2, all.ed, Some(PLuauView::List(items))),
                        }
                    },
                }
            } else if ed1.depth >= MAX_PROXY_DEPTH {
                Step { reg, ed: ed1, res: Err(too_deep()) }
            } else {
                let all = dict_of_state(entries, 0, Seq::empty(), host, reg, ed1.child());
                match all.res {
                    Err(e) => Step {
                        reg: all.reg,
                        ed: ed1,
                        res: Err("Failed to iterate over table: "@ + e),
                    },
                    Ok(items) => {
                        let merged = settled(all.reg, ed1, all.ed, Some(PLuauView::Dict(items)));
                        if merged.res is Err {
                            merged
                        } else {
                            match merged.ed.after(
                                entries.len() as usize,
                                "ProxiedLuauPsuedoPrimitive -> LuaMap"@,
                            ) {
                                Err(e) => Step { res: Err(e), ..merged },
                                Ok(ed2) => Step { ed: ed2, ..merged },
                            }
                        }
                    },
                }
            },
            _ => Step { reg, ed: ed1, res: Ok(None) },
        },
    }
}

/// The values of a table from the `i`th entry on, behind those that are there.
pub open spec fn list_of_state(
    s: Seq<(LuauView, LuauView)>,
    i: int,
    done: Seq<PLuauView>,
    host: bool,
    reg: RegistryView,
    ed: EmbedderDataContext,
) -> Step<Seq<PLuauView>>
    decreases s, s.len() - i,
{
    if i < 0 || i >= s.len() {
        Step { reg, ed, res: Ok(done) }
    } else {
        let one = value_of_state(s[i].1, host, reg, ed);
        match one.res {
            Err(e) => Step { reg: one.reg, ed: one.ed, res: Err(e) },
            Ok(p) => list_of_state(s, i + 1, done.push(p), host, one.reg, one.ed),
        }
    }
}

/// The entries of a table from the `i`th on, behind those that are there.
pub open spec fn dict_of_state(
    s: Seq<(LuauView, LuauView)>,
    i: int,
    done: Seq<(PLuauView, PLuauView)>,
    host: bool,
    reg: RegistryView,
    ed: EmbedderDataContext,
) -> Step<Seq<(PLuauView, PLuauView)>>
    decreases s, s.len() - i,
{
    if i < 0 || i >= s.len() {
        Step { reg, ed, res: Ok(done) }
    } else {
        let key = value_of_state(s[i].0, host, reg, ed);
        match key.res {
            Err(e) => Step { reg: key.reg, ed: key.ed, res: Err(e) },
            Ok(k) => {
                let val = value_of_state(s[i].1, host, key.reg, key.ed);
                match val.res {
                    Err(e) => Step { reg: val.reg, ed: val.ed, res: Err(e) },
                    Ok(p) => dict_of_state(s, i + 1, done.push((k, p)), host, val.reg, val.ed),
                }
            },
        }
    }
}

/// The values of a table's entries.
fn list_from_state<H: StateClient>(
    plc: &mut H,
    entries: &Vec<(LuauValue, LuauValue)>,
    ed: &mut EmbedderDataContext,
) -> (r: Result<Vec<ProxiedLuauValue>, String>)
    requires
        old(plc).in_order(),
    ensures
        final(plc).in_order(),
        final(plc).allowance() == old(plc).allowance(),
        ({
            let want = list_of_state(
                luau_pairs(entries@),
                0,
                Seq::empty(),
                H::hosting(), old(plc).registry(),
                *old(ed),
            );
            &&& final(plc).registry() == want.reg
            &&& *final(ed) == want.ed
            &&& match (r, want.res) {
                (Ok(p), Ok(v)) => pluau_views(p@) == v,
                (Err(e), Err(t)) => e@ == t,
                _ => false,
            }
        }),
    decreases entries, 0nat,
{
    let ghost all = luau_pairs(entries@);
    let ghost want = list_of_state(all, 0, Seq::empty(), H::hosting(), plc.registry(), *ed);
    let mut list: Vec<ProxiedLuauValue> = Vec::new();
    assert(pluau_views(list@) =~= Seq::empty());
    let mut i: usize = 0;
    while i < entries.len()
        invariant
            i <= entries@.len(),
            all == luau_pairs(entries@),
            plc.in_order(),
            plc.allowance() == old(plc).allowance(),
            want == list_of_state(
                all,
                0,
                Seq::empty(),
                H::hosting(), old(plc).registry(),
                *old(ed),
            ),
            want == list_of_state(all, i as int, pluau_views(list@), H::hosting(), plc.registry(), *ed),
        decreases entries@.len() - i,
    {
        proof {
            assert(decreases_to!(entries => entries@));
            assert(decreases_to!(entries@ => entries@[i as int]));
            assert(decreases_to!(entries@[i as int] => entries@[i as int].1));
        }
        let ghost before = list@;
        match ProxiedLuauValue::from_state(plc, &entries[i].1, ed) {
            Err(e) => return Err(e),
            Ok(v) => {
                list.push(v);
                assert(pluau_views(list@) =~= pluau_views(before).push(v@));
            },
        }
        i += 1;
    }
    Ok(list)
}

/// The entries of a table.
fn dict_from_state<H: StateClient>(
    plc: &mut H,
    entries: &Vec<(LuauValue, LuauValue)>,
    ed: &mut EmbedderDataContext,
) -> (r: Result<Vec<(ProxiedLuauValue, ProxiedLuauValue)>, String>)
    requires
        old(plc).in_order(),
    ensures
        final(plc).in_order(),
        final(plc).allowance() == old(plc).allowance(),
        ({
            let want = dict_of_state(
                luau_pairs(entries@),
                0,
                Seq::empty(),
                H::hosting(), old(plc).registry(),
                *old(ed),
            );
            &&& final(plc).registry() == want.reg
            &&& *final(ed) == want.ed
            &&& match (r, want.res) {
                (Ok(p), Ok(v)) => pluau_pairs(p@) == v,
                (Err(e), Err(t)) => e@ == t,
                _ => false,
            }
        }),
    decreases entries, 0nat,
{
    let ghost all = luau_pairs(entries@);
    let ghost want = dict_of_state(all, 0, Seq::empty(), H::hosting(), plc.registry(), *ed);
    let mut list: Vec<(ProxiedLuauValue, ProxiedLuauValue)> = Vec::new();
    assert(pluau_pairs(list@) =~= Seq::empty());
    let mut i: usize = 0;
    while i < entries.len()
        invariant
            i <= entries@.len(),
            all == luau_pairs(entries@),
            plc.in_order(),
            plc.allowance() == old(plc).allowance(),
            want == dict_of_state(
                all,
                0,
                Seq::empty(),
                H::hosting(), old(plc).registry(),
                *old(ed),
            ),
            want == dict_of_state(all, i as int, pluau_pairs(list@), H::hosting(), plc.registry(), *ed),
        decreases entries@.len() - i,
    {
        proof {
            assert(decreases_to!(entries => entries@));
            assert(decreases_to!(entries@ => entries@[i as int]));
            assert(decreases_to!(entries@[i as int] => entries@[i as int].0));
            assert(decreases_to!(entries@[i as int] => entries@[i as int].1));
        }
        let ghost before = list@;
        let key = match ProxiedLuauValue::from_state(plc, &entries[i].0, ed) {
            Err(e) => return Err(e),
            Ok(k) => k,
        };
        match ProxiedLuauValue::from_state(plc, &entries[i].1, ed) {
            Err(e) => return Err(e),
            Ok(v) => {
                list.push((key, v));
                assert(pluau_pairs(list@) =~= pluau_pairs(before).push((key@, v@)));
            },
        }
        i += 1;
    }
    Ok(list)
}

impl ProxiedLuauPsuedoPrimitive {
    /// Luau -> ProxiedLuauPsuedoPrimitive
    pub fn from_state<H: StateClient>(
        plc: &mut H,
        value: &LuauValue,
        ed: &mut EmbedderDataContext,
    ) -> (r: Result<Option<Self>, String>)
        requires
            old(plc).in_order(),
        ensures
            final(plc).in_order(),
            final(plc).allowance() == old(plc).allowance(),
            ({
                let want = psuedo_of_state(value@, H::hosting(), old(plc).registry(), *old(ed));
                &&& final(plc).registry() == want.reg
                &&& *final(ed) == want.ed
                &&& match (r, want.res) {
                    (Ok(Some(p)), Ok(Some(v))) => p@ == v,
                    (Ok(None), Ok(None)) => true,
                    (Err(e), Err(t)) => e@ == t,
                    _ => false,
                }
            }),
        decreases value, 0nat,
    {
        match ed.add(1, "ProxiedLuauPsuedoPrimitive -> <base overhead>") {
            Err(e) => return Err(e),
            Ok(()) => {},
        }
        match value {
            LuauValue::Number(n) => Ok(Some(ProxiedLuauPsuedoPrimitive::Number(*n))),
            LuauValue::Vector(v) => Ok(Some(ProxiedLuauPsuedoPrimitive::Vector(*v))),
            LuauValue::String(bytes) => {
                match ed.add(bytes.len(), "ProxiedLuauPsuedoPrimitive -> LuaString") {
                    Err(e) => return Err(e),
                    Ok(()) => {},
                }
                Ok(Some(ProxiedLuauPsuedoPrimitive::StringBytes(copy_bytes(bytes.as_slice()))))
            },
            LuauValue::Table { handle: _, frozen: _, metatable, len, entries } => {
                proof {
                    assert(value@->Table_entries =~= luau_pairs(entries@));
                    assert(decreases_to!(value => value->Table_entries));
                }
                if *metatable == Metatable::Other {
                    return Ok(None);
                }
                if *metatable == Metatable::Array {
                    match ed.add(*len, "ProxiedLuauPsuedoPrimitive -> LuaArray") {
                        Err(e) => return Err(e),
                        Ok(()) => {},
                    }
                    let mut inner_ed = match ed.nest() {
                        Err(e) => return Err(e),
                        Ok(c) => c,
                    };
                    let list = match list_from_state(plc, entries, &mut inner_ed) {
                        Err(e) => return Err(join("Failed to iterate over array: ", &e)),
                        Ok(l) => l,
                    };
                    match ed.merge(inner_ed) {
                        Err(e) => return Err(e),
                        Ok(()) => {},
                    }
                    let r = ProxiedLuauPsuedoPrimitive::StaticList(list);
                    assert(r@->List_0 =~= pluau_views(list@));
                    Ok(Some(r))
                } else {
                    let mut inner_ed = match ed.nest() {
                        Err(e) => return Err(e),
                        Ok(c) => c,
                    };
                    let smap = match dict_from_state(plc, entries, &mut inner_ed) {
                        Err(e) => return Err(join("Failed to iterate over table: ", &e)),
                        Ok(l) => l,
                    };
                    match ed.merge(inner_ed) {
                        Err(e) => return Err(e),
                        Ok(()) => {},
                    }
                    match ed.add(entries.len(), "ProxiedLuauPsuedoPrimitive -> LuaMap") {
                        Err(e) => return Err(e),
                        Ok(()) => {},
                    }
                    let r = ProxiedLuauPsuedoPrimitive::StaticMap(smap);
                    assert(r@->Dict_0 =~= pluau_pairs(smap@));
                    Ok(Some(r))
                }
            },
            _ => Ok(None),
        }
    }
}

/// Hands an object out once more.
fn register<H: StateClient>(plc: &mut H, typ: ObjectRegistryType, obj: ObjectRef) -> (r: Result<
    ProxiedLuauValue,
    String,
>)
    requires
        old(plc).in_order(),
    ensures
        final(plc).in_order(),
        final(plc).allowance() == old(plc).allowance(),
        final(plc).registry() == registered_in(old(plc).registry(), obj),
        match (r, registration(H::hosting(), old(plc).registry(), typ, obj)) {
            (Ok(p), Ok(v)) => p@ == v,
            (Err(e), Err(t)) => e@ == t,
            _ => false,
        },
{
    match plc.hand_out(obj) {
        Ok(id) => {
            if H::is_host() {
                Ok(ProxiedLuauValue::SourceOwnedObject((typ, LuauObjectRegistryID::from_i64(id))))
            } else {
                Ok(ProxiedLuauValue::TargetOwnedObject((typ, PLuauObjectRegistryID::from_i64(id))))
            }
        },
        Err(e) => Err(join("Failed to add object to registry: ", &e)),
    }
}

impl ProxiedLuauValue {
    /// Proxies a Luau value to a ProxiedLuauValue
    pub fn from_state<H: StateClient>(
        plc: &mut H,
        value: &LuauValue,
        ed: &mut EmbedderDataContext,
    ) -> (r: Result<Self, String>)
        requires
            old(plc).in_order(),
        ensures
            final(plc).in_order(),
            final(plc).allowance() == old(plc).allowance(),
            ({
                let want = value_of_state(value@, H::hosting(), old(plc).registry(), *old(ed));
                &&& final(plc).registry() == want.reg
                &&& *final(ed) == want.ed
                &&& match (r, want.res) {
                    (Ok(p), Ok(v)) => p@ == v,
                    (Err(e), Err(t)) => e@ == t,
                    _ => false,
                }
            }),
        decreases value, 1nat,
    {
        let mut inner_ed_a = ed.nest_in_depth();
        match ProxiedLuauPrimitive::from_luau(value, &mut inner_ed_a) {
            Err(e) => return Err(e),
            Ok(Some(prim)) => {
                match ed.merge(inner_ed_a) {
                    Err(e) => return Err(e),
                    Ok(()) => {},
                }
                return Ok(ProxiedLuauValue::Primitive(prim));
            },
            Ok(None) => {},
        }
        let mut inner_ed_b = ed.nest_in_depth();
        match ProxiedLuauPsuedoPrimitive::from_state(plc, value, &mut inner_ed_b) {
            Err(e) => return Err(e),
            Ok(Some(psuedo)) => {
                match ed.merge(inner_ed_b) {
                    Err(e) => return Err(e),
                    Ok(()) => {},
                }
                return Ok(ProxiedLuauValue::Psuedoprimitive(psuedo));
            },
            Ok(None) => {},
        }
        match ed.add(1, "ProxiedLuauValue -> <base overhead>") {
            Err(e) => return Err(e),
            Ok(()) => {},
        }
        match value {
            LuauValue::UserData { handle, payload } => {
                match payload {
                    Payload::HostRef(typ, id) => {
                        return Ok(ProxiedLuauValue::SourceOwnedObject((*typ, *id)));
                    },
                    Payload::ChildRef(typ, id) => {
                        return Ok(ProxiedLuauValue::TargetOwnedObject((*typ, *id)));
                    },
                    Payload::LuauTransfer(p) => {
                        if H::is_host() {
                            return Ok(p.duplicate());
                        }
                    },
                    _ => {},
                }
                register(
                    plc,
                    ObjectRegistryType::UserData,
                    ObjectRef { kind: RefKind::UserData, handle: *handle },
                )
            },
            LuauValue::Error(text) => Err(join("Cannot proxy Lua error value: ", text)),
            _ => match (ObjectRegistryType::from_value(value), object_ref(value)) {
                (Some(typ), Some(obj)) => register(plc, typ, obj),
                _ => Err(join("Cannot proxy Luau value of type ", value.typename())),
            },
        }
    }
}

/// An array that is made of some items: marked as an array.
pub open spec fn unfrozen_array(items: Seq<LuauView>) -> LuauView {
    LuauView::Table {
        handle: FRESH,
        frozen: false,
        metatable: Metatable::Array,
        len: items.len() as usize,
        entries: Seq::new(items.len(), |i: int| (LuauView::Integer((i + 1) as i64), items[i])),
    }
}

/// A table that is made of some entries: without a metatable.
pub open spec fn unfrozen_table(entries: Seq<(LuauView, LuauView)>) -> LuauView {
    LuauView::Table {
        handle: FRESH,
        frozen: false,
        metatable: Metatable::Absent,
        len: 0,
        entries,
    }
}

/// The object that a state has handed out under that number.
pub open spec fn looked_up(reg: RegistryView, id: i64) -> Result<LuauView, Seq<char>> {
    if reg.live.dom().contains(id) {
        Ok(LuauView::Ref(reg.live[id].obj))
    } else {
        Err("Failed to get object from registry: "@ + unknown_object(id))
    }
}

/// The object that a state has handed out under that number.
fn find<H: StateClient>(plc: &H, id: i64) -> (r: Result<LuauValue, String>)
    requires
        plc.in_order(),
    ensures
        match (r, looked_up(plc.registry(), id)) {
            (Ok(p), Ok(v)) => p@ == v,
            (Err(e), Err(t)) => e@ == t,
            _ => false,
        },
{
    match plc.look_up(id) {
        Err(e) => Err(join("Failed to get object from registry: ", &e)),
        Ok(obj) => Ok(LuauValue::of_ref(obj)),
    }
}

/// What a proxied value becomes in Luau.
pub open spec fn value_to_state(p: PLuauView, host: bool, reg: RegistryView, ed: EmbedderDataContext) -> Charged<
    LuauView,
>
    decreases p, 1nat,
{
    match ed.after(1, "ProxiedLuauValue -> <base overhead>"@) {
        Err(e) => Charged { ed, res: Err(e) },
        Ok(ed1) => match p {
            PLuauView::TargetOwned(typ, id) => Charged {
                ed: ed1,
                res: if host {
                    Ok(
                        LuauView::UserData {
                            handle: FRESH,
                            payload: PayloadView::ChildRef(typ, id),
                        },
                    )
                } else {
                    looked_up(reg, id)
                },
            },
            PLuauView::SourceOwned(typ, id) => Charged {
                ed: ed1,
                res: if host {
                    looked_up(reg, id)
                } else {
                    Ok(
                        LuauView::UserData {
                            handle: FRESH,
                            payload: PayloadView::HostRef(typ, id),
                        },
                    )
                },
            },
            _ => if p.is_primitive() {
                let one = plain_to_luau(p, ed1);
                match one.res {
                    Err(e) => Charged {
                        ed: one.ed,
                        res: Err("Failed to convert ProxiedLuauPrimitive to Luau: "@ + e),
                    },
                    Ok(v) => one,
                }
            } else {
                let one = psuedo_to_state(p, host, reg, ed1);
                match one.res {
                    Err(e) => Charged {
                        ed: one.ed,
                        res: Err("Failed to convert ProxiedLuauPsuedoPrimitive to Luau: "@ + e),
                    },
                    Ok(v) => one,
                }
            },
        },
    }
}

/// What a psuedoprimitive becomes in Luau.
pub open spec fn psuedo_to_state(p: PLuauView, host: bool, reg: RegistryView, ed: EmbedderDataContext) -> Charged<
    LuauView,
>
    decreases p, 0nat,
{
    match ed.after(1, "ProxiedLuauPsuedoPrimitive -> <base overhead>"@) {
        Err(e) => Charged { ed, res: Err(e) },
        Ok(ed1) => match p {
            PLuauView::Number(n) => Charged { ed: ed1, res: Ok(LuauView::Number(n)) },
            PLuauView::Vector(v) => Charged { ed: ed1, res: Ok(LuauView::Vector(v)) },
            PLuauView::Bytes(bytes) => match ed1.after(
                bytes.len() as usize,
                "ProxiedLuauPsuedoPrimitive -> StringBytes"@,
            ) {
                Err(e) => Charged { ed: ed1, res: Err(e) },
                Ok(ed2) => Charged { ed: ed2, res: Ok(LuauView::String(bytes)) },
            },
            PLuauView::List(items) => match ed1.after(
                items.len() as usize,
                "ProxiedLuauPsuedoPrimitive -> LuaArray"@,
            ) {
                Err(e) => Charged { ed: ed1, res: Err(e) },
                Ok(ed2) => if ed2.depth >= MAX_PROXY_DEPTH {
                    Charged { ed: ed2, res: Err(too_deep()) }
                } else {
                    let all = list_to_state(items, 0, Seq::empty(), host, reg, ed2.child());
                    match all.res {
                        Err(e) => Charged { ed: ed2, res: Err(e) },
                        Ok(vs) => match ed2.after(all.ed.size, "nested values"@) {
                            Err(e) => Charged { ed: ed2, res: Err(e) },
                            Ok(ed3) => Charged { ed: ed3, res: Ok(unfrozen_array(vs)) },
                        },
                    }
                },
            },
            PLuauView::Dict(items) => match ed1.after(
                items.len() as usize,
                "ProxiedLuauPsuedoPrimitive -> LuaMap"@,
            ) {
                Err(e) => Charged { ed: ed1, res: Err(e) },
                Ok(ed2) => if ed2.depth >= MAX_PROXY_DEPTH {
                    Charged { ed: ed2, res: Err(too_deep()) }
                } else {
                    let all = dict_to_state(items, 0, Seq::empty(), host, reg, ed2.child());
                    match all.res {
                        Err(e) => Charged { ed: ed2, res: Err(e) },
                        Ok(vs) => match ed2.after(all.ed.size, "nested values"@) {
                            Err(e) => Charged { ed: ed2, res: Err(e) },
                            Ok(ed3) => Charged { ed: ed3, res: Ok(unfrozen_table(vs)) },
                        },
                    }
                },
            },
            _ => Charged { ed: ed1, res: Ok(LuauView::Nil) },
        },
    }
}

/// The items of a list from the `i`th on, behind those that are there.
pub open spec fn list_to_state(
    s: Seq<PLuauView>,
    i: int,
    done: Seq<LuauView>,
    host: bool,
    reg: RegistryView,
    ed: EmbedderDataContext,
) -> Charged<Seq<LuauView>>
    decreases s, s.len() - i,
{
    if i < 0 || i >= s.len() {
        Charged { ed, res: Ok(done) }
    } else {
        let one = value_to_state(s[i], host, reg, ed);
        match one.res {
            Err(e) => Charged { ed: one.ed, res: Err("Failed to convert value to Lua: "@ + e) },
            Ok(v) => list_to_state(s, i + 1, done.push(v), host, reg, one.ed),
        }
    }
}

/// The entries of a map from the `i`th on, behind those that are there.
pub open spec fn dict_to_state(
    s: Seq<(PLuauView, PLuauView)>,
    i: int,
    done: Seq<(LuauView, LuauView)>,
    host: bool,
    reg: RegistryView,
    ed: EmbedderDataContext,
) -> Charged<Seq<(LuauView, LuauView)>>
    decreases s, s.len() - i,
{
    if i < 0 || i >= s.len() {
        Charged { ed, res: Ok(done) }
    } else {
        let key = value_to_state(s[i].0, host, reg, ed);
        match key.res {
            Err(e) => Charged { ed: key.ed, res: Err(e) },
            Ok(k) => {
                let val = value_to_state(s[i].1, host, reg, key.ed);
                match val.res {
                    Err(e) => Charged {
                        ed: val.ed,
                        res: Err("Failed to convert value to Lua: "@ + e),
                    },
                    Ok(v) => dict_to_state(s, i + 1, done.push((k, v)), host, reg, val.ed),
                }
            },
        }
    }
}

/// The items of a list, each with its index.
fn list_into_state<H: StateClient>(
    items: &Vec<ProxiedLuauValue>,
    plc: &H,
    ed: &mut EmbedderDataContext,
) -> (r: Result<Vec<(LuauValue, LuauValue)>, String>)
    requires
        plc.in_order(),
    ensures
        ({
            let want = list_to_state(
                pluau_views(items@),
                0,
                Seq::empty(),
                H::hosting(), plc.registry(),
                *old(ed),
            );
            &&& *final(ed) == want.ed
            &&& match (r, want.res) {
                (Ok(p), Ok(v)) => luau_pairs(p@) == unfrozen_array(v)->Table_entries,
                (Err(e), Err(t)) => e@ == t,
                _ => false,
            }
        }),
    decreases items, 0nat,
{
    let ghost all = pluau_views(items@);
    let ghost want = list_to_state(all, 0, Seq::empty(), H::hosting(), plc.registry(), *ed);
    let mut list: Vec<(LuauValue, LuauValue)> = Vec::new();
    let ghost mut done: Seq<LuauView> = Seq::empty();
    let mut i: usize = 0;
    while i < items.len()
        invariant
            i <= items@.len(),
            all == pluau_views(items@),
            plc.in_order(),
            done.len() == i,
            luau_pairs(list@) =~= unfrozen_array(done)->Table_entries,
            want == list_to_state(all, 0, Seq::empty(), H::hosting(), plc.registry(), *old(ed)),
            want == list_to_state(all, i as int, done, H::hosting(), plc.registry(), *ed),
        decreases items@.len() - i,
    {
        proof {
            assert(decreases_to!(items => items@));
            assert(decreases_to!(items@ => items@[i as int]));
        }
        let ghost before = list@;
        match items[i].to_state(plc, ed) {
            Err(e) => return Err(join("Failed to convert value to Lua: ", &e)),
            Ok(v) => {
                let key = LuauValue::Integer((i + 1) as i64);
                proof {
                    done = done.push(v@);
                }
                list.push((key, v));
                assert(luau_pairs(list@) =~= luau_pairs(before).push((key@, v@)));
            },
        }
        i += 1;
    }
    Ok(list)
}

/// The entries of a map.
fn dict_into_state<H: StateClient>(
    items: &Vec<(ProxiedLuauValue, ProxiedLuauValue)>,
    plc: &H,
    ed: &mut EmbedderDataContext,
) -> (r: Result<Vec<(LuauValue, LuauValue)>, String>)
    requires
        plc.in_order(),
    ensures
        ({
            let want = dict_to_state(
                pluau_pairs(items@),
                0,
                Seq::empty(),
                H::hosting(), plc.registry(),
                *old(ed),
            );
            &&& *final(ed) == want.ed
            &&& match (r, want.res) {
                (Ok(p), Ok(v)) => luau_pairs(p@) == v,
                (Err(e), Err(t)) => e@ == t,
                _ => false,
            }
        }),
    decreases items, 0nat,
{
    let ghost all = pluau_pairs(items@);
    let ghost want = dict_to_state(all, 0, Seq::empty(), H::hosting(), plc.registry(), *ed);
    let mut list: Vec<(LuauValue, LuauValue)> = Vec::new();
    assert(luau_pairs(list@) =~= Seq::empty());
    let mut i: usize = 0;
    while i < items.len()
        invariant
            i <= items@.len(),
            all == pluau_pairs(items@),
            plc.in_order(),
            want == dict_to_state(all, 0, Seq::empty(), H::hosting(), plc.registry(), *old(ed)),
            want == dict_to_state(all, i as int, luau_pairs(list@), H::hosting(), plc.registry(), *ed),
        decreases items@.len() - i,
    {
        proof {
            assert(decreases_to!(items => items@));
            assert(decreases_to!(items@ => items@[i as int]));
            assert(decreases_to!(items@[i as int] => items@[i as int].0));
            assert(decreases_to!(items@[i as int] => items@[i as int].1));
        }
        let ghost before = list@;
        let key = match items[i].0.to_state(plc, ed) {
            Err(e) => return Err(e),
            Ok(k) => k,
        };
        match items[i].1.to_state(plc, ed) {
            Err(e) => return Err(join("Failed to convert value to Lua: ", &e)),
            Ok(v) => {
                list.push((key, v));
                assert(luau_pairs(list@) =~= luau_pairs(before).push((key@, v@)));
            },
        }
        i += 1;
    }
    Ok(list)
}

impl ProxiedLuauPsuedoPrimitive {
    /// ProxiedLuauPsuedoPrimitive -> Luau
    pub fn to_state<H: StateClient>(&self, plc: &H, ed: &mut EmbedderDataContext) -> (r: Result<
        LuauValue,
        String,
    >)
        requires
            plc.in_order(),
        ensures
            ({
                let want = psuedo_to_state(self@, H::hosting(), plc.registry(), *old(ed));
                &&& *final(ed) == want.ed
                &&& match (r, want.res) {
                    (Ok(p), Ok(v)) => p@ == v,
                    (Err(e), Err(t)) => e@ == t,
                    _ => false,
                }
            }),
        decreases self, 1nat,
    {
        match ed.add(1, "ProxiedLuauPsuedoPrimitive -> <base overhead>") {
            Err(e) => return Err(e),
            Ok(()) => {},
        }
        match self {
            ProxiedLuauPsuedoPrimitive::Number(n) => Ok(LuauValue::Number(*n)),
            ProxiedLuauPsuedoPrimitive::Vector(v) => Ok(LuauValue::Vector(*v)),
            ProxiedLuauPsuedoPrimitive::StringBytes(bytes) => {
                match ed.add(bytes.len(), "ProxiedLuauPsuedoPrimitive -> StringBytes") {
                    Err(e) => return Err(e),
                    Ok(()) => {},
                }
                Ok(LuauValue::String(copy_bytes(bytes.as_slice())))
            },
            ProxiedLuauPsuedoPrimitive::StaticList(items) => {
                proof {
                    assert(self@->List_0 =~= pluau_views(items@));
                    assert(decreases_to!(self => self->StaticList_0));
                }
                match ed.add(items.len(), "ProxiedLuauPsuedoPrimitive -> LuaArray") {
                    Err(e) => return Err(e),
                    Ok(()) => {},
                }
                let mut inner_ed = match ed.nest() {
                    Err(e) => return Err(e),
                    Ok(c) => c,
                };
                let entries = match list_into_state(items, plc, &mut inner_ed) {
                    Err(e) => return Err(e),
                    Ok(l) => l,
                };
                match ed.merge(inner_ed) {
                    Err(e) => return Err(e),
                    Ok(()) => {},
                }
                let r = LuauValue::Table {
                    handle: FRESH,
                    frozen: false,
                    metatable: Metatable::Array,
                    len: entries.len(),
                    entries,
                };
                assert(r@->Table_entries =~= luau_pairs(entries@));
                Ok(r)
            },
            ProxiedLuauPsuedoPrimitive::StaticMap(items) => {
                proof {
                    assert(self@->Dict_0 =~= pluau_pairs(items@));
                    assert(decreases_to!(self => self->StaticMap_0));
                }
                match ed.add(items.len(), "ProxiedLuauPsuedoPrimitive -> LuaMap") {
                    Err(e) => return Err(e),
                    Ok(()) => {},
                }
                let mut inner_ed = match ed.nest() {
                    Err(e) => return Err(e),
                    Ok(c) => c,
                };
                let entries = match dict_into_state(items, plc, &mut inner_ed) {
                    Err(e) => return Err(e),
                    Ok(l) => l,
                };
                match ed.merge(inner_ed) {
                    Err(e) => return Err(e),
                    Ok(()) => {},
                }
                let r = LuauValue::Table {
                    handle: FRESH,
                    frozen: false,
                    metatable: Metatable::Absent,
                    len: 0,
                    entries,
                };
                assert(r@->Table_entries =~= luau_pairs(entries@));
                Ok(r)
            },
        }
    }
}

impl ProxiedLuauValue {
    /// Proxy a ProxiedLuauValue to a Luau value
    pub fn to_state<H: StateClient>(&self, plc: &H, ed: &mut EmbedderDataContext) -> (r: Result<
        LuauValue,
        String,
    >)
        requires
            plc.in_order(),
        ensures
            ({
                let want = value_to_state(self@, H::hosting(), plc.registry(), *old(ed));
                &&& *final(ed) == want.ed
                &&& match (r, want.res) {
                    (Ok(p), Ok(v)) => p@ == v,
                    (Err(e), Err(t)) => e@ == t,
                    _ => false,
                }
            }),
        decreases self, 1nat,
    {
        match ed.add(1, "ProxiedLuauValue -> <base overhead>") {
            Err(e) => return Err(e),
            Ok(()) => {},
        }
        match self {
            ProxiedLuauValue::Primitive(p) => match p.to_luau(ed) {
                Err(e) => Err(join("Failed to convert ProxiedLuauPrimitive to Luau: ", &e)),
                Ok(v) => Ok(v),
            },
            ProxiedLuauValue::Psuedoprimitive(p) => match p.to_state(plc, ed) {
                Err(e) => Err(join("Failed to convert ProxiedLuauPsuedoPrimitive to Luau: ", &e)),
                Ok(v) => Ok(v),
            },
            ProxiedLuauValue::TargetOwnedObject(o) => {
                if H::is_host() {
                    Ok(LuauValue::UserData { handle: FRESH, payload: Payload::ChildRef(o.0, o.1) })
                } else {
                    find(plc, o.1.objid())
                }
            },
            ProxiedLuauValue::SourceOwnedObject(o) => {
                if H::is_host() {
                    find(plc, o.1.objid())
                } else {
                    Ok(LuauValue::UserData { handle: FRESH, payload: Payload::HostRef(o.0, o.1) })
                }
            },
        }
    }
}

impl ProxiedLuauPsuedoPrimitive {
    /// Luau -> ProxiedLuauPsuedoPrimitive (host mode)
    pub fn from_luau_host(
        plc: &mut ProxyLuaClient,
        value: &LuauValue,
        ed: &mut EmbedderDataContext,
    ) -> (r: Result<Option<Self>, String>)
        requires
            old(plc).wf(),
        ensures
            final(plc).wf(),
            final(plc).ed == old(plc).ed,
            ({
                let want = psuedo_of_state(value@, true, old(plc).obj_registry@, *old(ed));
                &&& final(plc).obj_registry@ == want.reg
                &&& *final(ed) == want.ed
                &&& match (r, want.res) {
                    (Ok(Some(p)), Ok(Some(v))) => p@ == v,
                    (Ok(None), Ok(None)) => true,
                    (Err(e), Err(t)) => e@ == t,
                    _ => false,
                }
            }),
    {
        ProxiedLuauPsuedoPrimitive::from_state(plc, value, ed)
    }

    /// ProxiedLuauPsuedoPrimitive -> Luau (host mode)
    pub fn to_luau_host(&self, plc: &ProxyLuaClient, ed: &mut EmbedderDataContext) -> (r: Result<
        LuauValue,
        String,
    >)
        requires
            plc.wf(),
        ensures
            ({
                let want = psuedo_to_state(self@, true, plc.obj_registry@, *old(ed));
                &&& *final(ed) == want.ed
                &&& match (r, want.res) {
                    (Ok(p), Ok(v)) => p@ == v,
                    (Err(e), Err(t)) => e@ == t,
                    _ => false,
                }
            }),
    {
        self.to_state(plc, ed)
    }

    /// Luau -> ProxiedLuauPsuedoPrimitive (child mode)
    pub fn from_luau_child(
        plc: &mut ProxyPLuaClient,
        value: &LuauValue,
        ed: &mut EmbedderDataContext,
    ) -> (r: Result<Option<Self>, String>)
        requires
            old(plc).wf(),
        ensures
            final(plc).wf(),
            final(plc).ed == old(plc).ed,
            ({
                let want = psuedo_of_state(value@, false, old(plc).obj_registry@, *old(ed));
                &&& final(plc).obj_registry@ == want.reg
                &&& *final(ed) == want.ed
                &&& match (r, want.res) {
                    (Ok(Some(p)), Ok(Some(v))) => p@ == v,
                    (Ok(None), Ok(None)) => true,
                    (Err(e), Err(t)) => e@ == t,
                    _ => false,
                }
            }),
    {
        ProxiedLuauPsuedoPrimitive::from_state(plc, value, ed)
    }

    /// ProxiedLuauPsuedoPrimitive -> Luau (child mode)
    pub fn to_luau_child(&self, plc: &ProxyPLuaClient, ed: &mut EmbedderDataContext) -> (r: Result<
        LuauValue,
        String,
    >)
        requires
            plc.wf(),
        ensures
            ({
                let want = psuedo_to_state(self@, false, plc.obj_registry@, *old(ed));
                &&& *final(ed) == want.ed
                &&& match (r, want.res) {
                    (Ok(p), Ok(v)) => p@ == v,
                    (Err(e), Err(t)) => e@ == t,
                    _ => false,
                }
            }),
    {
        self.to_state(plc, ed)
    }
}

impl ProxiedLuauValue {
    /// Luau -> ProxiedLuauValue (host mode)
    pub fn from_luau_host(
        plc: &mut ProxyLuaClient,
        value: &LuauValue,
        ed: &mut EmbedderDataContext,
    ) -> (r: Result<Self, String>)
        requires
            old(plc).wf(),
        ensures
            final(plc).wf(),
            final(plc).ed == old(plc).ed,
            ({
                let want = value_of_state(value@, true, old(plc).obj_registry@, *old(ed));
                &&& final(plc).obj_registry@ == want.reg
                &&& *final(ed) == want.ed
                &&& match (r, want.res) {
                    (Ok(p), Ok(v)) => p@ == v,
                    (Err(e), Err(t)) => e@ == t,
                    _ => false,
                }
            }),
    {
        ProxiedLuauValue::from_state(plc, value, ed)
    }

    /// ProxiedLuauValue -> Luau (host mode)
    pub fn to_luau_host(&self, plc: &ProxyLuaClient, ed: &mut EmbedderDataContext) -> (r: Result<
        LuauValue,
        String,
    >)
        requires
            plc.wf(),
        ensures
            ({
                let want = value_to_state(self@, true, plc.obj_registry@, *old(ed));
                &&& *final(ed) == want.ed
                &&& match (r, want.res) {
                    (Ok(p), Ok(v)) => p@ == v,
                    (Err(e), Err(t)) => e@ == t,
                    _ => false,
                }
            }),
    {
        self.to_state(plc, ed)
    }

    /// Luau -> ProxiedLuauValue (child mode)
    pub fn from_luau_child(
        plc: &mut ProxyPLuaClient,
        value: &LuauValue,
        ed: &mut EmbedderDataContext,
    ) -> (r: Result<Self, String>)
        requires
            old(plc).wf(),
        ensures
            final(plc).wf(),
            final(plc).ed == old(plc).ed,
            ({
                let want = value_of_state(value@, false, old(plc).obj_registry@, *old(ed));
                &&& final(plc).obj_registry@ == want.reg
                &&& *final(ed) == want.ed
                &&& match (r, want.res) {
                    (Ok(p), Ok(v)) => p@ == v,
                    (Err(e), Err(t)) => e@ == t,
                    _ => false,
                }
            }),
    {
        ProxiedLuauValue::from_state(plc, value, ed)
    }

    /// ProxiedLuauValue -> Luau (child mode)
    pub fn to_luau_child(&self, plc: &ProxyPLuaClient, ed: &mut EmbedderDataContext) -> (r: Result<
        LuauValue,
        String,
    >)
        requires
            plc.wf(),
        ensures
            ({
                let want = value_to_state(self@, false, plc.obj_registry@, *old(ed));
                &&& *final(ed) == want.ed
                &&& match (r, want.res) {
                    (Ok(p), Ok(v)) => p@ == v,
                    (Err(e), Err(t)) => e@ == t,
                    _ => false,
                }
            }),
    {
        self.to_state(plc, ed)
    }
}

} // verus!
