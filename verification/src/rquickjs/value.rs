//! Luau values in QuickJS, and QuickJS values in Luau.

use vstd::prelude::*;
use vstd::utf8::{decode_utf8, encode_utf8, valid_utf8};

use crate::base::deno::{pushed, pushed_table};
use crate::luau::value::{
    luau_pairs, LuauValue, LuauView, Metatable, Number, Payload, PayloadView, Single, Stub, Vector3,
    FRESH,
};
use crate::registry::{ObjectRef, RefKind};
use crate::rquickjs::store::{PersistentStore, StoreView};
use crate::text::{copy_bytes, join, join3, text_of_lossy, text_read, utf8_bytes};

verus! {

/// A value as it is made in QuickJS.
#[derive(Debug, PartialEq, Eq)]
pub enum QjsTree {
    Null,
    Undefined,
    Bool(bool),
    Int(i32),
    BigInt(i64),
    Float(Number),
    String(String),
    Array(Vec<QjsTree>),
    /// An object on which the values are set one after the other.
    Object(Vec<(QjsTree, QjsTree)>),
    /// A function that calls a Luau function.
    LuaFunction(ObjectRef),
    LuaThread(ObjectRef),
    LuaUserData(ObjectRef),
    LuaLightUserData(i64),
    ArrayBuffer(Vec<u8>),
}

/// A value as it is made in QuickJS.
#[verifier::ext_equal]
pub enum QjsTreeView {
    Null,
    Undefined,
    Bool(bool),
    Int(i32),
    BigInt(i64),
    Float(Number),
    String(Seq<char>),
    Array(Seq<QjsTreeView>),
    Object(Seq<(QjsTreeView, QjsTreeView)>),
    LuaFunction(ObjectRef),
    LuaThread(ObjectRef),
    LuaUserData(ObjectRef),
    LuaLightUserData(i64),
    ArrayBuffer(Seq<u8>),
}

impl QjsTree {
    /// What the value is.
    pub open spec fn view(self) -> QjsTreeView
        decreases self,
    {
        match self {
            QjsTree::Null => QjsTreeView::Null,
            QjsTree::Undefined => QjsTreeView::Undefined,
            QjsTree::Bool(b) => QjsTreeView::Bool(b),
            QjsTree::Int(i) => QjsTreeView::Int(i),
            QjsTree::BigInt(i) => QjsTreeView::BigInt(i),
            QjsTree::Float(n) => QjsTreeView::Float(n),
            QjsTree::String(s) => QjsTreeView::String(s@),
            QjsTree::Array(items) => QjsTreeView::Array(
                Seq::new(
                    items@.len(),
                    |i: int|
                        if 0 <= i < items@.len() {
                            items@[i].view()
                        } else {
                            arbitrary()
                        },
                ),
            ),
            QjsTree::Object(entries) => QjsTreeView::Object(
                Seq::new(
                    entries@.len(),
                    |i: int|
                        if 0 <= i < entries@.len() {
                            (entries@[i].0.view(), entries@[i].1.view())
                        } else {
                            arbitrary()
                        },
                ),
            ),
            QjsTree::LuaFunction(r) => QjsTreeView::LuaFunction(r),
            QjsTree::LuaThread(r) => QjsTreeView::LuaThread(r),
            QjsTree::LuaUserData(r) => QjsTreeView::LuaUserData(r),
            QjsTree::LuaLightUserData(i) => QjsTreeView::LuaLightUserData(i),
            QjsTree::ArrayBuffer(bytes) => QjsTreeView::ArrayBuffer(bytes@),
        }
    }
}

/// Several values.
pub open spec fn qjs_trees(s: Seq<QjsTree>) -> Seq<QjsTreeView> {
    s.map_values(|v: QjsTree| v.view())
}

/// Several keys with their values.
pub open spec fn qjs_tree_pairs(s: Seq<(QjsTree, QjsTree)>) -> Seq<(QjsTreeView, QjsTreeView)> {
    s.map_values(|e: (QjsTree, QjsTree)| (e.0.view(), e.1.view()))
}

/// Three numbers as QuickJS gets a vector.
pub open spec fn three_floats(v: Vector3) -> Seq<QjsTreeView> {
    seq![
        QjsTreeView::Float(Number::OfSingle(v.x)),
        QjsTreeView::Float(Number::OfSingle(v.y)),
        QjsTreeView::Float(Number::OfSingle(v.z)),
    ]
}

/// What QuickJS gets for a Luau value. An integer that does not fit 32 bits is a BigInt.
pub open spec fn in_qjs(v: LuauView) -> Result<QjsTreeView, Seq<char>>
    decreases v, 1nat,
{
    match v {
        LuauView::Nil => Ok(QjsTreeView::Null),
        LuauView::Boolean(b) => Ok(QjsTreeView::Bool(b)),
        LuauView::LightUserData(i) => Ok(QjsTreeView::LuaLightUserData(i)),
        LuauView::Integer(i) => Ok(
            if i32::MIN <= i <= i32::MAX {
                QjsTreeView::Int(i as i32)
            } else {
                QjsTreeView::BigInt(i)
            },
        ),
        LuauView::Number(n) => Ok(QjsTreeView::Float(n)),
        LuauView::Vector(x) => Ok(QjsTreeView::Array(three_floats(x))),
        LuauView::String(bytes) => Ok(QjsTreeView::String(text_read(bytes))),
        LuauView::Table { entries, .. } => match entries_in_qjs(entries, 0, Seq::empty()) {
            Err(e) => Err("Failed to iterate table: "@ + e),
            Ok(vs) => Ok(QjsTreeView::Object(vs)),
        },
        LuauView::UserData { handle, .. } => Ok(
            QjsTreeView::LuaUserData(ObjectRef { kind: RefKind::UserData, handle }),
        ),
        LuauView::Buffer { bytes, .. } => Ok(QjsTreeView::ArrayBuffer(bytes)),
        LuauView::Ref(r) => match r.kind {
            RefKind::Function => Ok(QjsTreeView::LuaFunction(r)),
            RefKind::Thread => Ok(QjsTreeView::LuaThread(r)),
            RefKind::UserData => Ok(QjsTreeView::LuaUserData(r)),
            _ => Err("Cannot proxy unknown/other Lua value"@),
        },
        LuauView::Error(text) => Err("Cannot proxy Lua error: "@ + text),
        _ => Err("Cannot proxy unknown/other Lua value"@),
    }
}

/// The entries of a table from the `i`th on, behind those that are there.
pub open spec fn entries_in_qjs(
    s: Seq<(LuauView, LuauView)>,
    i: int,
    done: Seq<(QjsTreeView, QjsTreeView)>,
) -> Result<Seq<(QjsTreeView, QjsTreeView)>, Seq<char>>
    decreases s, s.len() - i,
{
    if i < 0 || i >= s.len() {
        Ok(done)
    } else {
        match in_qjs(s[i].0) {
            Err(e) => Err("Failed to proxy key: "@ + e),
            Ok(k) => match in_qjs(s[i].1) {
                Err(e) => Err("Failed to proxy value: "@ + e),
                Ok(v) => entries_in_qjs(s, i + 1, done.push((k, v))),
            },
        }
    }
}

/// The entries of a table.
fn entries_into_qjs(entries: &Vec<(LuauValue, LuauValue)>) -> (r: Result<
    Vec<(QjsTree, QjsTree)>,
    String,
>)
    ensures
        match (r, entries_in_qjs(luau_pairs(entries@), 0, Seq::empty())) {
            (Ok(p), Ok(v)) => qjs_tree_pairs(p@) == v,
            (Err(e), Err(t)) => e@ == t,
            _ => false,
        },
    decreases entries, 0nat,
{
    let ghost all = luau_pairs(entries@);
    let ghost want = entries_in_qjs(all, 0, Seq::empty());
    let mut list: Vec<(QjsTree, QjsTree)> = Vec::new();
    assert(qjs_tree_pairs(list@) =~= Seq::empty());
    let mut i: usize = 0;
    while i < entries.len()
        invariant
            i <= entries@.len(),
            all == luau_pairs(entries@),
            want == entries_in_qjs(all, 0, Seq::empty()),
            want == entries_in_qjs(all, i as int, qjs_tree_pairs(list@)),
        decreases entries@.len() - i,
    {
        proof {
            assert(decreases_to!(entries => entries@));
            assert(decreases_to!(entries@ => entries@[i as int]));
            assert(decreases_to!(entries@[i as int] => entries@[i as int].0));
            assert(decreases_to!(entries@[i as int] => entries@[i as int].1));
        }
        let ghost before = list@;
        let k = match proxy_object(&entries[i].0) {
            Err(e) => return Err(join("Failed to proxy key: ", &e)),
            Ok(k) => k,
        };
        match proxy_object(&entries[i].1) {
            Err(e) => return Err(join("Failed to proxy value: ", &e)),
            Ok(v) => {
                list.push((k, v));
                assert(qjs_tree_pairs(list@) =~= qjs_tree_pairs(before).push((k@, v@)));
            },
        }
        i += 1;
    }
    Ok(list)
}

/// What QuickJS gets for a Luau value.
pub fn proxy_object(value: &LuauValue) -> (r: Result<QjsTree, String>)
    ensures
        match (r, in_qjs(value@)) {
            (Ok(p), Ok(v)) => p@ == v,
            (Err(e), Err(t)) => e@ == t,
            _ => false,
        },
        value@ matches LuauView::String(b) ==> valid_utf8(b) ==> (r matches Ok(t) && t@
            == QjsTreeView::String(decode_utf8(b))),
    decreases value, 1nat,
{
    match value {
        LuauValue::Nil => Ok(QjsTree::Null),
        LuauValue::Boolean(b) => Ok(QjsTree::Bool(*b)),
        LuauValue::LightUserData(i) => Ok(QjsTree::LuaLightUserData(*i)),
        LuauValue::Integer(i) => {
            let i: i64 = *i;
            if i >= -2147483648 && i <= 2147483647 {
                Ok(QjsTree::Int(i as i32))
            } else {
                Ok(QjsTree::BigInt(i))
            }
        },
        LuauValue::Number(n) => Ok(QjsTree::Float(*n)),
        LuauValue::Vector(v) => {
            let mut items: Vec<QjsTree> = Vec::new();
            items.push(QjsTree::Float(Number::OfSingle(v.x)));
            items.push(QjsTree::Float(Number::OfSingle(v.y)));
            items.push(QjsTree::Float(Number::OfSingle(v.z)));
            let r = QjsTree::Array(items);
            proof {
                reveal_with_fuel(QjsTree::view, 2);
                assert(r@->Array_0 =~= three_floats(*v));
            }
            Ok(r)
        },
        LuauValue::String(bytes) => Ok(QjsTree::String(text_of_lossy(bytes.as_slice()))),
        LuauValue::Table { entries, .. } => {
            proof {
                assert(value@->Table_entries =~= luau_pairs(entries@));
                assert(decreases_to!(value => value->Table_entries));
            }
            match entries_into_qjs(entries) {
                Err(e) => Err(join("Failed to iterate table: ", &e)),
                Ok(list) => {
                    let r = QjsTree::Object(list);
                    assert(r@->Object_0 =~= qjs_tree_pairs(list@));
                    Ok(r)
                },
            }
        },
        LuauValue::UserData { handle, .. } => Ok(
            QjsTree::LuaUserData(ObjectRef { kind: RefKind::UserData, handle: *handle }),
        ),
        LuauValue::Buffer { bytes, .. } => Ok(
            QjsTree::ArrayBuffer(copy_bytes(bytes.as_slice())),
        ),
        LuauValue::Ref(r) => match r.kind {
            RefKind::Function => Ok(QjsTree::LuaFunction(*r)),
            RefKind::Thread => Ok(QjsTree::LuaThread(*r)),
            RefKind::UserData => Ok(QjsTree::LuaUserData(*r)),
            _ => Err("Cannot proxy unknown/other Lua value".to_owned()),
        },
        LuauValue::Error(text) => Err(join("Cannot proxy Lua error: ", text)),
        _ => Err("Cannot proxy unknown/other Lua value".to_owned()),
    }
}

/// Several Luau values from the `i`th on, behind those that are there.
pub open spec fn all_in_qjs(s: Seq<LuauView>, i: int, done: Seq<QjsTreeView>, what: Seq<char>) -> Result<
    Seq<QjsTreeView>,
    Seq<char>,
>
    decreases s.len() - i,
{
    if i < 0 || i >= s.len() {
        Ok(done)
    } else {
        match in_qjs(s[i]) {
            Err(e) => Err(what + e),
            Ok(v) => all_in_qjs(s, i + 1, done.push(v), what),
        }
    }
}

/// Several Luau values in QuickJS. What could not be done is told in front of the error.
pub fn all_into_qjs(values: &Vec<LuauValue>, what: &str) -> (r: Result<Vec<QjsTree>, String>)
    ensures
        match (
            r,
            all_in_qjs(crate::luau::value::luau_views(values@), 0, Seq::empty(), what@),
        ) {
            (Ok(p), Ok(v)) => qjs_trees(p@) == v,
            (Err(e), Err(t)) => e@ == t,
            _ => false,
        },
{
    let ghost all = crate::luau::value::luau_views(values@);
    let ghost want = all_in_qjs(all, 0, Seq::empty(), what@);
    let mut list: Vec<QjsTree> = Vec::new();
    assert(qjs_trees(list@) =~= Seq::empty());
    let mut i: usize = 0;
    while i < values.len()
        invariant
            i <= values@.len(),
            all == crate::luau::value::luau_views(values@),
            want == all_in_qjs(all, 0, Seq::empty(), what@),
            want == all_in_qjs(all, i as int, qjs_trees(list@), what@),
        decreases values@.len() - i,
    {
        let ghost before = list@;
        match proxy_object(&values[i]) {
            Err(e) => return Err(join(what, &e)),
            Ok(v) => {
                list.push(v);
                assert(qjs_trees(list@) =~= qjs_trees(before).push(v@));
            },
        }
        i += 1;
    }
    Ok(list)
}

/// A sort of value that Luau has nothing for.
#[derive(Clone, Copy, Debug, PartialEq, Eq, Structural)]
pub enum Foreign {
    Symbol,
    BigInt,
    Module,
    Uninitialized,
    Unknown,
}

/// A QuickJS value. Two values with one handle are one object.
#[derive(Debug, PartialEq, Eq)]
pub enum QjsValue {
    Null,
    Undefined,
    Bool(bool),
    Int(i32),
    Float(Number),
    String(String),
    Array(Vec<QjsValue>),
    Function { handle: u64, constructor: bool },
    LuaThread(ObjectRef),
    LuaUserData(ObjectRef),
    LuaLightUserData(i64),
    Promise(u64),
    /// Any other object, with its own enumerable properties.
    Object { handle: u64, exception: bool, props: Vec<(QjsValue, QjsValue)> },
    Foreign(Foreign),
    /// A value that could not be read, with the text of the error.
    Unreadable(String),
}

/// A QuickJS value.
#[verifier::ext_equal]
pub enum QjsView {
    Null,
    Undefined,
    Bool(bool),
    Int(i32),
    Float(Number),
    String(Seq<char>),
    Array(Seq<QjsView>),
    Function { handle: u64, constructor: bool },
    LuaThread(ObjectRef),
    LuaUserData(ObjectRef),
    LuaLightUserData(i64),
    Promise(u64),
    Object { handle: u64, exception: bool, props: Seq<(QjsView, QjsView)> },
    Foreign(Foreign),
    Unreadable(Seq<char>),
}

impl QjsValue {
    /// What the value is.
    pub open spec fn view(self) -> QjsView
        decreases self,
    {
        match self {
            QjsValue::Null => QjsView::Null,
            QjsValue::Undefined => QjsView::Undefined,
            QjsValue::Bool(b) => QjsView::Bool(b),
            QjsValue::Int(i) => QjsView::Int(i),
            QjsValue::Float(n) => QjsView::Float(n),
            QjsValue::String(s) => QjsView::String(s@),
            QjsValue::Array(items) => QjsView::Array(
                Seq::new(
                    items@.len(),
                    |i: int|
                        if 0 <= i < items@.len() {
                            items@[i].view()
                        } else {
                            arbitrary()
                        },
                ),
            ),
            QjsValue::Function { handle, constructor } => QjsView::Function {
                handle,
                constructor,
            },
            QjsValue::LuaThread(r) => QjsView::LuaThread(r),
            QjsValue::LuaUserData(r) => QjsView::LuaUserData(r),
            QjsValue::LuaLightUserData(i) => QjsView::LuaLightUserData(i),
            QjsValue::Promise(handle) => QjsView::Promise(handle),
            QjsValue::Object { handle, exception, props } => QjsView::Object {
                handle,
                exception,
                props: Seq::new(
                    props@.len(),
                    |i: int|
                        if 0 <= i < props@.len() {
                            (props@[i].0.view(), props@[i].1.view())
                        } else {
                            arbitrary()
                        },
                ),
            },
            QjsValue::Foreign(f) => QjsView::Foreign(f),
            QjsValue::Unreadable(e) => QjsView::Unreadable(e@),
        }
    }
}

/// Several values.
pub open spec fn qjs_views(s: Seq<QjsValue>) -> Seq<QjsView> {
    s.map_values(|v: QjsValue| v.view())
}

/// Several keys with their values.
pub open spec fn qjs_pairs(s: Seq<(QjsValue, QjsValue)>) -> Seq<(QjsView, QjsView)> {
    s.map_values(|e: (QjsValue, QjsValue)| (e.0.view(), e.1.view()))
}

impl QjsView {
    /// The name of the value's type in QuickJS.
    pub open spec fn typename(self) -> Seq<char> {
        match self {
            QjsView::Null => "null"@,
            QjsView::Undefined => "undefined"@,
            QjsView::Bool(_) => "bool"@,
            QjsView::Int(_) => "int"@,
            QjsView::Float(_) => "float"@,
            QjsView::String(_) => "string"@,
            QjsView::Array(_) => "array"@,
            QjsView::Function { constructor, .. } => if constructor {
                "constructor"@
            } else {
                "function"@
            },
            QjsView::Promise(_) => "promise"@,
            QjsView::Object { exception, .. } => if exception {
                "exception"@
            } else {
                "object"@
            },
            QjsView::Foreign(Foreign::Symbol) => "symbol"@,
            QjsView::Foreign(Foreign::BigInt) => "big_int"@,
            QjsView::Foreign(Foreign::Module) => "module"@,
            QjsView::Foreign(Foreign::Uninitialized) => "uninitialized"@,
            QjsView::Foreign(Foreign::Unknown) => "Unknown type"@,
            _ => "object"@,
        }
    }
}

impl QjsValue {
    /// The name of the value's type in QuickJS.
    pub fn typename(&self) -> (r: &'static str)
        ensures
            r@ == self@.typename(),
    {
        match self {
            QjsValue::Null => "null",
            QjsValue::Undefined => "undefined",
            QjsValue::Bool(_) => "bool",
            QjsValue::Int(_) => "int",
            QjsValue::Float(_) => "float",
            QjsValue::String(_) => "string",
            QjsValue::Array(_) => "array",
            QjsValue::Function { constructor, .. } => {
                if *constructor {
                    "constructor"
                } else {
                    "function"
                }
            },
            QjsValue::Promise(_) => "promise",
            QjsValue::Object { exception, .. } => {
                if *exception {
                    "exception"
                } else {
                    "object"
                }
            },
            QjsValue::Foreign(Foreign::Symbol) => "symbol",
            QjsValue::Foreign(Foreign::BigInt) => "big_int",
            QjsValue::Foreign(Foreign::Module) => "module",
            QjsValue::Foreign(Foreign::Uninitialized) => "uninitialized",
            QjsValue::Foreign(Foreign::Unknown) => "Unknown type",
            _ => "object",
        }
    }
}

/// The QuickJS values that Luau holds on to.
pub struct ProxyStores {
    pub funcs: PersistentStore<u64>,
    pub promises: PersistentStore<u64>,
    pub objects: PersistentStore<u64>,
}

/// The QuickJS values that Luau holds on to.
#[verifier::ext_equal]
pub struct StoresView {
    pub funcs: StoreView<u64>,
    pub promises: StoreView<u64>,
    pub objects: StoreView<u64>,
}

impl ProxyStores {
    /// What the stores hold.
    pub open spec fn view(&self) -> StoresView {
        StoresView { funcs: self.funcs@, promises: self.promises@, objects: self.objects@ }
    }

    /// The stores are in order.
    pub open spec fn wf(&self) -> bool {
        self.funcs.wf() && self.promises.wf() && self.objects.wf()
    }

    /// Empty stores.
    pub fn new() -> (r: Self)
        ensures
            r.wf(),
            r@ == no_values(),
    {
        ProxyStores {
            funcs: PersistentStore::new(),
            promises: PersistentStore::new(),
            objects: PersistentStore::new(),
        }
    }

    /// Empties the stores.
    pub fn clear(&mut self)
        ensures
            final(self).wf(),
            final(self)@ == no_values(),
    {
        self.funcs.clear();
        self.promises.clear();
        self.objects.clear();
    }
}

/// Empty stores.
pub open spec fn no_values() -> StoresView {
    StoresView {
        funcs: StoreView::nothing(),
        promises: StoreView::nothing(),
        objects: StoreView::nothing(),
    }
}

/// The stores after a conversion, and its result or the text of its error.
pub struct QjsStep<T> {
    pub stores: StoresView,
    pub res: Result<T, Seq<char>>,
}

/// A number of single precision, or the error of what is none.
pub open spec fn single_of(v: QjsView) -> Result<Single, Seq<char>> {
    match v {
        QjsView::Int(i) => Ok(Number::OfInt(i as i64).rounded()),
        QjsView::Float(n) => Ok(n.rounded()),
        QjsView::Unreadable(e) => Err(e),
        _ => Err("Error converting from js '"@ + v.typename() + "' into type 'f64'"@),
    }
}

/// Three numbers, or the error of the first that is none.
pub open spec fn vector_of_qjs(x: QjsView, y: QjsView, z: QjsView) -> Result<Vector3, Seq<char>> {
    match single_of(x) {
        Err(e) => Err(e),
        Ok(x) => match single_of(y) {
            Err(e) => Err(e),
            Ok(y) => match single_of(z) {
                Err(e) => Err(e),
                Ok(z) => Ok(Vector3 { x, y, z }),
            },
        },
    }
}

/// The table that Luau gets for an object: its properties, then the object itself.
pub open spec fn object_table(entries: Seq<(LuauView, LuauView)>, index: int) -> LuauView {
    LuauView::Table {
        handle: FRESH,
        frozen: false,
        metatable: Metatable::Absent,
        len: 0,
        entries: entries.push(
            (
                LuauView::String(encode_utf8("proxy"@)),
                LuauView::UserData { handle: FRESH, payload: PayloadView::JsObject(index as usize) },
            ),
        ),
    }
}

/// What Luau gets for a QuickJS value.
pub open spec fn of_qjs(v: QjsView, stores: StoresView) -> QjsStep<LuauView>
    decreases v, 1nat,
{
    match v {
        QjsView::Null => QjsStep { stores, res: Ok(LuauView::Nil) },
        QjsView::Undefined => QjsStep { stores, res: Ok(LuauView::Nil) },
        QjsView::Bool(b) => QjsStep { stores, res: Ok(LuauView::Boolean(b)) },
        QjsView::Int(i) => QjsStep { stores, res: Ok(LuauView::Integer(i as i64)) },
        QjsView::Float(n) => QjsStep { stores, res: Ok(LuauView::Number(n)) },
        QjsView::String(s) => QjsStep { stores, res: Ok(LuauView::String(encode_utf8(s))) },
        QjsView::Array(items) => if items.len() == 3 {
            QjsStep {
                stores,
                res: match vector_of_qjs(items[0], items[1], items[2]) {
                    Err(e) => Err(e),
                    Ok(x) => Ok(LuauView::Vector(x)),
                },
            }
        } else {
            let all = items_of_qjs(items, 0, Seq::empty(), stores);
            match all.res {
                Err(e) => QjsStep { stores: all.stores, res: Err(e) },
                Ok(vs) => QjsStep { stores: all.stores, res: Ok(pushed_table(vs)) },
            }
        },
        QjsView::Function { handle, .. } => QjsStep {
            stores: StoresView { funcs: stores.funcs.added(handle), ..stores },
            res: Ok(LuauView::Stub(Stub::JsFunction(stores.funcs.next() as usize))),
        },
        QjsView::LuaThread(r) => QjsStep { stores, res: Ok(LuauView::Ref(r)) },
        QjsView::LuaUserData(r) => QjsStep { stores, res: Ok(LuauView::Ref(r)) },
        QjsView::LuaLightUserData(i) => QjsStep { stores, res: Ok(LuauView::LightUserData(i)) },
        QjsView::Promise(handle) => QjsStep {
            stores: StoresView { promises: stores.promises.added(handle), ..stores },
            res: Ok(
                LuauView::UserData {
                    handle: FRESH,
                    payload: PayloadView::JsPromise(stores.promises.next() as usize),
                },
            ),
        },
        QjsView::Object { handle, props, .. } => {
            let all = props_of_qjs(props, 0, Seq::empty(), stores);
            match all.res {
                Err(e) => QjsStep { stores: all.stores, res: Err(e) },
                Ok(entries) => QjsStep {
                    stores: StoresView { objects: all.stores.objects.added(handle), ..all.stores },
                    res: Ok(object_table(entries, all.stores.objects.next())),
                },
            }
        },
        QjsView::Foreign(_) => QjsStep {
            stores,
            res: Err("Cannot proxy unknown JS value to Lua"@),
        },
        QjsView::Unreadable(e) => QjsStep { stores, res: Err(e) },
    }
}

/// The items of an array from the `i`th on, behind those that are there.
pub open spec fn items_of_qjs(s: Seq<QjsView>, i: int, done: Seq<LuauView>, stores: StoresView) -> QjsStep<
    Seq<LuauView>,
>
    decreases s, s.len() - i,
{
    if i < 0 || i >= s.len() {
        QjsStep { stores, res: Ok(done) }
    } else {
        let one = of_qjs(s[i], stores);
        match one.res {
            Err(e) => QjsStep { stores: one.stores, res: Err(e) },
            Ok(v) => items_of_qjs(s, i + 1, done.push(v), one.stores),
        }
    }
}

/// The properties of an object from the `i`th on, behind those that are there.
pub open spec fn props_of_qjs(
    s: Seq<(QjsView, QjsView)>,
    i: int,
    done: Seq<(LuauView, LuauView)>,
    stores: StoresView,
) -> QjsStep<Seq<(LuauView, LuauView)>>
    decreases s, s.len() - i,
{
    if i < 0 || i >= s.len() {
        QjsStep { stores, res: Ok(done) }
    } else {
        let key = of_qjs(s[i].0, stores);
        match key.res {
            Err(e) => QjsStep { stores: key.stores, res: Err(e) },
            Ok(k) => {
                let val = of_qjs(s[i].1, key.stores);
                match val.res {
                    Err(e) => QjsStep { stores: val.stores, res: Err(e) },
                    Ok(v) => props_of_qjs(s, i + 1, done.push((k, v)), val.stores),
                }
            },
        }
    }
}

/// A number of single precision, or the error of what is none.
fn single_from(v: &QjsValue) -> (r: Result<Single, String>)
    ensures
        match (r, single_of(v@)) {
            (Ok(p), Ok(x)) => p == x,
            (Err(e), Err(t)) => e@ == t,
            _ => false,
        },
{
    match v {
        QjsValue::Int(i) => Ok(Number::OfInt(*i as i64).to_single()),
        QjsValue::Float(n) => Ok(n.to_single()),
        QjsValue::Unreadable(e) => Err(e.clone()),
        _ => Err(join3("Error converting from js '", v.typename(), "' into type 'f64'")),
    }
}

/// The items of an array, pushed onto a table.
fn items_from_qjs(items: &Vec<QjsValue>, stores: &mut ProxyStores) -> (r: Result<
    Vec<(LuauValue, LuauValue)>,
    String,
>)
    requires
        old(stores).wf(),
    ensures
        final(stores).wf(),
        ({
            let want = items_of_qjs(qjs_views(items@), 0, Seq::empty(), old(stores)@);
            &&& final(stores)@ == want.stores
            &&& match (r, want.res) {
                (Ok(p), Ok(v)) => luau_pairs(p@) == pushed(v),
                (Err(e), Err(t)) => e@ == t,
                _ => false,
            }
        }),
    decreases items, 0nat,
{
    let ghost all = qjs_views(items@);
    let ghost want = items_of_qjs(all, 0, Seq::empty(), stores@);
    let mut list: Vec<(LuauValue, LuauValue)> = Vec::new();
    let ghost mut done: Seq<LuauView> = Seq::empty();
    assert(luau_pairs(list@) =~= pushed(done));
    let mut i: usize = 0;
    while i < items.len()
        invariant
            i <= items@.len(),
            all == qjs_views(items@),
            stores.wf(),
            list@.len() <= i,
            luau_pairs(list@) == pushed(done),
            want == items_of_qjs(all, 0, Seq::empty(), old(stores)@),
            want == items_of_qjs(all, i as int, done, stores@),
        decreases items@.len() - i,
    {
        proof {
            assert(decreases_to!(items => items@));
            assert(decreases_to!(items@ => items@[i as int]));
        }
        let ghost before = list@;
        match proxy_from_quickjs(&items[i], stores) {
            Err(e) => return Err(e),
            Ok(v) => {
                proof {
                    assert(done.push(v@).drop_last() =~= done);
                    done = done.push(v@);
                }
                let nil = match &v {
                    LuauValue::Nil => true,
                    _ => false,
                };
                if !nil {
                    let key = LuauValue::Integer((list.len() + 1) as i64);
                    list.push((key, v));
                    assert(luau_pairs(list@) =~= luau_pairs(before).push((key@, v@)));
                }
            },
        }
        i += 1;
    }
    Ok(list)
}

/// The properties of an object.
fn props_from_qjs(props: &Vec<(QjsValue, QjsValue)>, stores: &mut ProxyStores) -> (r: Result<
    Vec<(LuauValue, LuauValue)>,
    String,
>)
    requires
        old(stores).wf(),
    ensures
        final(stores).wf(),
        ({
            let want = props_of_qjs(qjs_pairs(props@), 0, Seq::empty(), old(stores)@);
            &&& final(stores)@ == want.stores
            &&& match (r, want.res) {
                (Ok(p), Ok(v)) => luau_pairs(p@) == v,
                (Err(e), Err(t)) => e@ == t,
                _ => false,
            }
        }),
    decreases props, 0nat,
{
    let ghost all = qjs_pairs(props@);
    let ghost want = props_of_qjs(all, 0, Seq::empty(), stores@);
    let mut list: Vec<(LuauValue, LuauValue)> = Vec::new();
    assert(luau_pairs(list@) =~= Seq::empty());
    let mut i: usize = 0;
    while i < props.len()
        invariant
            i <= props@.len(),
            all == qjs_pairs(props@),
            stores.wf(),
            want == props_of_qjs(all, 0, Seq::empty(), old(stores)@),
            want == props_of_qjs(all, i as int, luau_pairs(list@), stores@),
        decreases props@.len() - i,
    {
        proof {
            assert(decreases_to!(props => props@));
            assert(decreases_to!(props@ => props@[i as int]));
            assert(decreases_to!(props@[i as int] => props@[i as int].0));
            assert(decreases_to!(props@[i as int] => props@[i as int].1));
        }
        let ghost before = list@;
        let k = match proxy_from_quickjs(&props[i].0, stores) {
            Err(e) => return Err(e),
            Ok(k) => k,
        };
        match proxy_from_quickjs(&props[i].1, stores) {
            Err(e) => return Err(e),
            Ok(v) => {
                list.push((k, v));
                assert(luau_pairs(list@) =~= luau_pairs(before).push((k@, v@)));
            },
        }
        i += 1;
    }
    Ok(list)
}

/// What Luau gets for a QuickJS value. Functions, promises and objects are held on to.
pub fn proxy_from_quickjs(value: &QjsValue, stores: &mut ProxyStores) -> (r: Result<
    LuauValue,
    String,
>)
    requires
        old(stores).wf(),
    ensures
        final(stores).wf(),
        ({
            let want = of_qjs(value@, old(stores)@);
            &&& final(stores)@ == want.stores
            &&& match (r, want.res) {
                (Ok(p), Ok(v)) => p@ == v,
                (Err(e), Err(t)) => e@ == t,
                _ => false,
            }
        }),
    decreases value, 1nat,
{
    match value {
        QjsValue::Null => Ok(LuauValue::Nil),
        QjsValue::Undefined => Ok(LuauValue::Nil),
        QjsValue::Bool(b) => Ok(LuauValue::Boolean(*b)),
        QjsValue::Int(i) => Ok(LuauValue::Integer(*i as i64)),
        QjsValue::Float(n) => Ok(LuauValue::Number(*n)),
        QjsValue::String(s) => Ok(LuauValue::String(utf8_bytes(s))),
        QjsValue::Array(items) => {
            proof {
                assert(value@->Array_0 =~= qjs_views(items@));
                assert(decreases_to!(value => value->Array_0));
            }
            if items.len() == 3 {
                let x = match single_from(&items[0]) {
                    Ok(x) => x,
                    Err(e) => return Err(e),
                };
                let y = match single_from(&items[1]) {
                    Ok(y) => y,
                    Err(e) => return Err(e),
                };
                let z = match single_from(&items[2]) {
                    Ok(z) => z,
                    Err(e) => return Err(e),
                };
                return Ok(LuauValue::Vector(Vector3 { x, y, z }));
            }
            match items_from_qjs(items, stores) {
                Err(e) => Err(e),
                Ok(entries) => {
                    let r = LuauValue::Table {
                        handle: FRESH,
                        frozen: false,
                        metatable: Metatable::Absent,
                        len: entries.len(),
                        entries,
                    };
                    assert(r@->Table_entries =~= luau_pairs(entries@));
                    Ok(r)
                },
            }
        },
        QjsValue::Function { handle, .. } => {
            let held = stores.funcs.add(*handle);
            Ok(LuauValue::Stub(Stub::JsFunction(held.index)))
        },
        QjsValue::LuaThread(r) => Ok(LuauValue::of_ref(*r)),
        QjsValue::LuaUserData(r) => Ok(LuauValue::of_ref(*r)),
        QjsValue::LuaLightUserData(i) => Ok(LuauValue::LightUserData(*i)),
        QjsValue::Promise(handle) => {
            let held = stores.promises.add(*handle);
            Ok(LuauValue::UserData { handle: FRESH, payload: Payload::JsPromise(held.index) })
        },
        QjsValue::Object { handle, exception: _, props } => {
            proof {
                assert(value@->Object_props =~= qjs_pairs(props@));
                assert(decreases_to!(value => value->Object_props));
            }
            match props_from_qjs(props, stores) {
                Err(e) => Err(e),
                Ok(list) => {
                    let mut entries = list;
                    let ghost before = entries@;
                    let held = stores.objects.add(*handle);
                    let key = LuauValue::String(utf8_bytes("proxy"));
                    let proxy = LuauValue::UserData {
                        handle: FRESH,
                        payload: Payload::JsObject(held.index),
                    };
                    entries.push((key, proxy));
                    assert(luau_pairs(entries@) =~= luau_pairs(before).push((key@, proxy@)));
                    let r = LuauValue::Table {
                        handle: FRESH,
                        frozen: false,
                        metatable: Metatable::Absent,
                        len: 0,
                        entries,
                    };
                    assert(r@->Table_entries =~= luau_pairs(entries@));
                    Ok(r)
                },
            }
        },
        QjsValue::Foreign(_) => Err("Cannot proxy unknown JS value to Lua".to_owned()),
        QjsValue::Unreadable(e) => Err(e.clone()),
    }
}

/// Every integer keeps its value in QuickJS.
pub proof fn law_integer_keeps_its_value(i: i64)
    ensures
        match in_qjs(LuauView::Integer(i)) {
            Ok(QjsTreeView::Int(j)) => j == i,
            Ok(QjsTreeView::BigInt(j)) => j == i,
            _ => false,
        },
{
}

} // verus!
