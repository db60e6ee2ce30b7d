//! JavaScript values that are copied to Luau.

use vstd::prelude::*;
use vstd::utf8::encode_utf8;

use crate::base::objects::ObjectRegistry;
use crate::denobridge::jsvalue::{js_views, JsValue, JsView};
use crate::luau::value::{luau_pairs, LuauValue, LuauView, Metatable, Number, FRESH};
use crate::registry::{ObjectRef, RefKind, RegistryView};
use crate::text::{copy_bytes, utf8_bytes};
use crate::MAX_PROXY_DEPTH;

verus! {

/// A V8 value that can now be easily proxied to Luau
#[derive(Debug, PartialEq, Eq)]
pub enum ProxiedV8Value {
    Nil,
    Undefined,
    Boolean(bool),
    Integer(i32),
    Number(Number),
    String(Vec<u8>),
    /// Binary data
    Buffer(Vec<u8>),
    /// Object ID in the map registry
    Object(i64),
    Array(Vec<ProxiedV8Value>),
    /// Function ID in the function registry
    Function(i64),
    /// Promise ID in the function registry
    Promise(i64),
}

/// A JavaScript value on its way to Luau.
#[verifier::ext_equal]
pub enum CopyView {
    Nil,
    Undefined,
    Boolean(bool),
    Integer(i32),
    Number(Number),
    String(Seq<u8>),
    Buffer(Seq<u8>),
    Object(i64),
    Array(Seq<CopyView>),
    Function(i64),
    Promise(i64),
}

impl ProxiedV8Value {
    /// What the value is.
    pub open spec fn view(self) -> CopyView
        decreases self,
    {
        match self {
            ProxiedV8Value::Nil => CopyView::Nil,
            ProxiedV8Value::Undefined => CopyView::Undefined,
            ProxiedV8Value::Boolean(b) => CopyView::Boolean(b),
            ProxiedV8Value::Integer(i) => CopyView::Integer(i),
            ProxiedV8Value::Number(n) => CopyView::Number(n),
            ProxiedV8Value::String(bytes) => CopyView::String(bytes@),
            ProxiedV8Value::Buffer(bytes) => CopyView::Buffer(bytes@),
            ProxiedV8Value::Object(id) => CopyView::Object(id),
            ProxiedV8Value::Array(items) => CopyView::Array(
                Seq::new(
                    items@.len(),
                    |i: int|
                        if 0 <= i < items@.len() {
                            items@[i].view()
                        } else {
                            arbitrary()
                        },
                ),
            ),
            ProxiedV8Value::Function(id) => CopyView::Function(id),
            ProxiedV8Value::Promise(id) => CopyView::Promise(id),
        }
    }
}

/// Several values.
pub open spec fn copy_views(s: Seq<ProxiedV8Value>) -> Seq<CopyView> {
    s.map_values(|v: ProxiedV8Value| v.view())
}

/// The client side state for proxying v8 values
pub struct ProxyV8Client {
    pub obj_registry: ObjectRegistry,
    pub func_registry: ObjectRegistry,
    pub promise_registry: ObjectRegistry,
}

/// What the registries of a client hold.
pub struct CopyRegs {
    pub obj: RegistryView,
    pub func: RegistryView,
    pub promise: RegistryView,
}

impl ProxyV8Client {
    /// What the registries hold.
    pub open spec fn regs(&self) -> CopyRegs {
        CopyRegs {
            obj: self.obj_registry@,
            func: self.func_registry@,
            promise: self.promise_registry@,
        }
    }

    /// The registries are in order.
    pub open spec fn wf(&self) -> bool {
        self.obj_registry.wf() && self.func_registry.wf() && self.promise_registry.wf()
    }

    /// A client with empty registries.
    pub fn new() -> (r: Self)
        ensures
            r.wf(),
            ({
                let nothing = RegistryView {
                    live: Map::empty(),
                    next: 1,
                    last: crate::base::luau::LAST_ID,
                };
                r.regs() == (CopyRegs { obj: nothing, func: nothing, promise: nothing })
            }),
    {
        ProxyV8Client {
            obj_registry: ObjectRegistry::new(crate::base::luau::LAST_ID),
            func_registry: ObjectRegistry::new(crate::base::luau::LAST_ID),
            promise_registry: ObjectRegistry::new(crate::base::luau::LAST_ID),
        }
    }
}

/// What a table holds after the items were pushed onto it one by one: pushing nil does nothing.
pub open spec fn pushed(items: Seq<LuauView>) -> Seq<(LuauView, LuauView)>
    decreases items.len(),
{
    if items.len() == 0 {
        Seq::empty()
    } else {
        let before = pushed(items.drop_last());
        if items.last() is Nil {
            before
        } else {
            before.push((LuauView::Integer((before.len() + 1) as i64), items.last()))
        }
    }
}

/// A table that is made by pushing items onto it.
pub open spec fn pushed_table(items: Seq<LuauView>) -> LuauView {
    LuauView::Table {
        handle: FRESH,
        frozen: false,
        metatable: Metatable::Absent,
        len: pushed(items).len() as usize,
        entries: pushed(items),
    }
}

/// What a copied value is in Luau.
pub open spec fn copied_in_luau(p: CopyView) -> Result<LuauView, Seq<char>>
    decreases p, 1nat,
{
    match p {
        CopyView::Nil => Ok(LuauView::Nil),
        CopyView::Undefined => Ok(LuauView::Nil),
        CopyView::Boolean(b) => Ok(LuauView::Boolean(b)),
        CopyView::Integer(i) => Ok(LuauView::Integer(i as i64)),
        CopyView::Number(n) => Ok(LuauView::Number(n)),
        CopyView::String(bytes) => Ok(LuauView::String(bytes)),
        CopyView::Buffer(bytes) => Ok(LuauView::Buffer { handle: FRESH, bytes }),
        CopyView::Array(items) => match items_in_luau(items, 0, Seq::empty()) {
            Err(e) => Err(e),
            Ok(vs) => Ok(pushed_table(vs)),
        },
        _ => Err("Unsupported V8 value type for proxying to Lua"@),
    }
}

/// The items of an array from the `i`th on, behind those that are there.
pub open spec fn items_in_luau(s: Seq<CopyView>, i: int, done: Seq<LuauView>) -> Result<
    Seq<LuauView>,
    Seq<char>,
>
    decreases s, s.len() - i,
{
    if i < 0 || i >= s.len() {
        Ok(done)
    } else {
        match copied_in_luau(s[i]) {
            Err(e) => Err(e),
            Ok(v) => items_in_luau(s, i + 1, done.push(v)),
        }
    }
}

/// The items of an array, pushed onto a table.
fn items_into_luau(items: &Vec<ProxiedV8Value>) -> (r: Result<
    Vec<(LuauValue, LuauValue)>,
    String,
>)
    ensures
        match (r, items_in_luau(copy_views(items@), 0, Seq::empty())) {
            (Ok(p), Ok(v)) => luau_pairs(p@) == pushed(v),
            (Err(e), Err(t)) => e@ == t,
            _ => false,
        },
    decreases items, 0nat,
{
    let ghost all = copy_views(items@);
    let ghost want = items_in_luau(all, 0, Seq::empty());
    let mut list: Vec<(LuauValue, LuauValue)> = Vec::new();
    let ghost mut done: Seq<LuauView> = Seq::empty();
    assert(luau_pairs(list@) =~= pushed(done));
    let mut i: usize = 0;
    while i < items.len()
        invariant
            i <= items@.len(),
            all == copy_views(items@),
            list@.len() <= i,
            luau_pairs(list@) == pushed(done),
            want == items_in_luau(all, 0, Seq::empty()),
            want == items_in_luau(all, i as int, done),
        decreases items@.len() - i,
    {
        proof {
            assert(decreases_to!(items => items@));
            assert(decreases_to!(items@ => items@[i as int]));
        }
        let ghost before = list@;
        match items[i].proxy_to_lua() {
            Err(e) => return Err(e),
            Ok(v) => {
                proof {
                    assert(done.push(v@).drop_last() =~= done);
                    done = done.push(v@);
                }
                let nil = match &v {
                    LuauValue::Nil => true,
                    _ => false,
                };
                if !nil {
                    let key = LuauValue::Integer((list.len() + 1) as i64);
                    list.push((key, v));
                    assert(luau_pairs(list@) =~= luau_pairs(before).push((key@, v@)));
                }
            },
        }
        i += 1;
    }
    Ok(list)
}

impl ProxiedV8Value {
    /// The value in Luau.
    pub fn proxy_to_lua(&self) -> (r: Result<LuauValue, String>)
        ensures
            match (r, copied_in_luau(self@)) {
                (Ok(p), Ok(v)) => p@ == v,
                (Err(e), Err(t)) => e@ == t,
                _ => false,
            },
        decreases self, 1nat,
    {
        match self {
            ProxiedV8Value::Nil => Ok(LuauValue::Nil),
            ProxiedV8Value::Undefined => Ok(LuauValue::Nil),
            ProxiedV8Value::Boolean(b) => Ok(LuauValue::Boolean(*b)),
            ProxiedV8Value::Integer(i) => Ok(LuauValue::Integer(*i as i64)),
            ProxiedV8Value::Number(n) => Ok(LuauValue::Number(*n)),
            ProxiedV8Value::String(bytes) => Ok(LuauValue::String(copy_bytes(bytes.as_slice()))),
            ProxiedV8Value::Buffer(bytes) => Ok(
                LuauValue::Buffer { handle: FRESH, bytes: copy_bytes(bytes.as_slice()) },
            ),
            ProxiedV8Value::Array(items) => {
                proof {
                    assert(self@->Array_0 =~= copy_views(items@));
                    assert(decreases_to!(self => self->Array_0));
                }
                match items_into_luau(items) {
                    Err(e) => Err(e),
                    Ok(entries) => {
                        let r = LuauValue::Table {
                            handle: FRESH,
                            frozen: false,
                            metatable: Metatable::Absent,
                            len: entries.len(),
                            entries,
                        };
                        assert(r@->Table_entries =~= luau_pairs(entries@));
                        Ok(r)
                    },
                }
            },
            _ => Err("Unsupported V8 value type for proxying to Lua".to_owned()),
        }
    }
}

/// The registries after a conversion, and its result or the text of its error.
pub struct CopyStep<T> {
    pub regs: CopyRegs,
    pub res: Result<T, Seq<char>>,
}

/// A reference to an object, or the refusal of it.
pub open spec fn object_of_js(obj: ObjectRef, regs: CopyRegs) -> CopyStep<CopyView> {
    match obj.kind {
        RefKind::Function => if regs.func.admits(obj) {
            CopyStep {
                regs: CopyRegs { func: regs.func.added(obj), ..regs },
                res: Ok(CopyView::Function(regs.func.id_for(obj))),
            }
        } else {
            CopyStep {
                regs,
                res: Err("Failed to register function: too many function references"@),
            }
        },
        RefKind::Promise => if regs.promise.admits(obj) {
            CopyStep {
                regs: CopyRegs { promise: regs.promise.added(obj), ..regs },
                res: Ok(CopyView::Promise(regs.promise.id_for(obj))),
            }
        } else {
            CopyStep {
                regs,
                res: Err("Failed to register promise: too many promise references"@),
            }
        },
        _ => if regs.obj.admits(obj) {
            CopyStep {
                regs: CopyRegs { obj: regs.obj.added(obj), ..regs },
                res: Ok(CopyView::Object(regs.obj.id_for(obj))),
            }
        } else {
            CopyStep { regs, res: Err("Failed to register object: too many object references"@) }
        },
    }
}

/// What a JavaScript value becomes on its way to Luau.
pub open spec fn copied_of_js(v: JsView, regs: CopyRegs, depth: nat) -> CopyStep<CopyView>
    decreases v, 1nat,
{
    if depth > MAX_PROXY_DEPTH {
        CopyStep { regs, res: Err("Maximum proxy depth exceeded"@) }
    } else {
        match v {
            JsView::Null => CopyStep { regs, res: Ok(CopyView::Nil) },
            JsView::Undefined => CopyStep { regs, res: Ok(CopyView::Undefined) },
            JsView::Boolean(b) => CopyStep { regs, res: Ok(CopyView::Boolean(b)) },
            JsView::Int32(i) => CopyStep { regs, res: Ok(CopyView::Integer(i)) },
            JsView::Number(n) => CopyStep { regs, res: Ok(CopyView::Number(n)) },
            JsView::String(text) => CopyStep {
                regs,
                res: Ok(CopyView::String(encode_utf8(text))),
            },
            JsView::Array(elems) => {
                let all = items_of_js(elems, 0, Seq::empty(), regs, depth + 1);
                match all.res {
                    Err(e) => CopyStep { regs: all.regs, res: Err(e) },
                    Ok(items) => CopyStep { regs: all.regs, res: Ok(CopyView::Array(items)) },
                }
            },
            JsView::ArrayBuffer { bytes, .. } => CopyStep {
                regs,
                res: Ok(CopyView::Buffer(bytes)),
            },
            JsView::Ref(obj) => object_of_js(obj, regs),
            _ => CopyStep { regs, res: Err("Unsupported V8 value type"@) },
        }
    }
}

/// The elements of an array from the `i`th on, behind those that are there.
pub open spec fn items_of_js(
    s: Seq<JsView>,
    i: int,
    done: Seq<CopyView>,
    regs: CopyRegs,
    depth: nat,
) -> CopyStep<Seq<CopyView>>
    decreases s, s.len() - i,
{
    if i < 0 || i >= s.len() {
        CopyStep { regs, res: Ok(done) }
    } else {
        let one = copied_of_js(s[i], regs, depth);
        match one.res {
            Err(e) => CopyStep { regs: one.regs, res: Err(e) },
            Ok(p) => items_of_js(s, i + 1, done.push(p), one.regs, depth),
        }
    }
}

/// The elements of an array.
fn items_from_js(elems: &Vec<JsValue>, plc: &mut ProxyV8Client, depth: usize) -> (r: Result<
    Vec<ProxiedV8Value>,
    String,
>)
    requires
        old(plc).wf(),
        depth <= MAX_PROXY_DEPTH + 1,
    ensures
        final(plc).wf(),
        ({
            let want = items_of_js(
                js_views(elems@),
                0,
                Seq::empty(),
                old(plc).regs(),
                depth as nat,
            );
            &&& final(plc).regs() == want.regs
            &&& match (r, want.res) {
                (Ok(p), Ok(v)) => copy_views(p@) == v,
                (Err(e), Err(t)) => e@ == t,
                _ => false,
            }
        }),
    decreases elems, 0nat,
{
    let ghost all = js_views(elems@);
    let ghost want = items_of_js(all, 0, Seq::empty(), plc.regs(), depth as nat);
    let mut list: Vec<ProxiedV8Value> = Vec::new();
    assert(copy_views(list@) =~= Seq::empty());
    let mut i: usize = 0;
    while i < elems.len()
        invariant
            i <= elems@.len(),
            depth <= MAX_PROXY_DEPTH + 1,
            all == js_views(elems@),
            plc.wf(),
            want == items_of_js(all, 0, Seq::empty(), old(plc).regs(), depth as nat),
            want == items_of_js(all, i as int, copy_views(list@), plc.regs(), depth as nat),
        decreases elems@.len() - i,
    {
        proof {
            assert(decreases_to!(elems => elems@));
            assert(decreases_to!(elems@ => elems@[i as int]));
        }
        let ghost before = list@;
        match ProxiedV8Value::proxy_from_v8(&elems[i], plc, depth) {
            Err(e) => return Err(e),
            Ok(v) => {
                list.push(v);
                assert(copy_views(list@) =~= copy_views(before).push(v@));
            },
        }
        i += 1;
    }
    Ok(list)
}

impl ProxiedV8Value {
    /// Copies a JavaScript value. Objects are handed out by number; the embedding hands maps and
    /// typed arrays over by reference.
    pub fn proxy_from_v8(value: &JsValue, plc: &mut ProxyV8Client, depth: usize) -> (r: Result<
        Self,
        String,
    >)
        requires
            old(plc).wf(),
        ensures
            final(plc).wf(),
            ({
                let want = copied_of_js(value@, old(plc).regs(), depth as nat);
                &&& final(plc).regs() == want.regs
                &&& match (r, want.res) {
                    (Ok(p), Ok(v)) => p@ == v,
                    (Err(e), Err(t)) => e@ == t,
                    _ => false,
                }
            }),
        decreases value, 1nat,
    {
        if depth > MAX_PROXY_DEPTH {
            return Err("Maximum proxy depth exceeded".to_owned());
        }
        match value {
            JsValue::Null => Ok(ProxiedV8Value::Nil),
            JsValue::Undefined => Ok(ProxiedV8Value::Undefined),
            JsValue::Boolean(b) => Ok(ProxiedV8Value::Boolean(*b)),
            JsValue::Int32(i) => Ok(ProxiedV8Value::Integer(*i)),
            JsValue::Number(n) => Ok(ProxiedV8Value::Number(*n)),
            JsValue::String(text) => Ok(ProxiedV8Value::String(utf8_bytes(text))),
            JsValue::Array(elems) => {
                proof {
                    assert(value@->Array_0 =~= js_views(elems@));
                    assert(decreases_to!(value => value->Array_0));
                }
                match items_from_js(elems, plc, depth + 1) {
                    Err(e) => Err(e),
                    Ok(items) => {
                        let r = ProxiedV8Value::Array(items);
                        assert(r@->Array_0 =~= copy_views(items@));
                        Ok(r)
                    },
                }
            },
            JsValue::ArrayBuffer { bytes, .. } => Ok(
                ProxiedV8Value::Buffer(copy_bytes(bytes.as_slice())),
            ),
            JsValue::Ref(obj) => match obj.kind {
                RefKind::Function => match plc.func_registry.add(*obj) {
                    Some(id) => Ok(ProxiedV8Value::Function(id)),
                    None => Err(
                        "Failed to register function: too many function references".to_owned(),
                    ),
                },
                RefKind::Promise => match plc.promise_registry.add(*obj) {
                    Some(id) => Ok(ProxiedV8Value::Promise(id)),
                    None => Err(
                        "Failed to register promise: too many promise references".to_owned(),
                    ),
                },
                _ => match plc.obj_registry.add(*obj) {
                    Some(id) => Ok(ProxiedV8Value::Object(id)),
                    None => Err(
                        "Failed to register object: too many object references".to_owned(),
                    ),
                },
            },
            _ => Err("Unsupported V8 value type".to_owned()),
        }
    }
}

} // verus!
