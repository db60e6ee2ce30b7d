//! Luau values as the bridge sees them.
//!
//! A value is a snapshot: the embedding writes down what a Luau value holds and gives every
//! object a handle, so that two values with one handle are one object.

use vstd::prelude::*;

use crate::denobridge::bridge::V8ObjectRegistryType;
use crate::denobridge::objreg::V8ObjectRegistryID;
use crate::denobridge::value::{ProxiedV8Value, V8View};
use crate::luau::bridge::ObjectRegistryType;
use crate::luau::objreg::LuauObjectRegistryID;
use crate::parallelluau::objreg::PLuauObjectRegistryID;
use crate::parallelluau::value::{ProxiedLuauValue, PLuauView};
use crate::registry::{ObjectRef, RefKind};

verus! {

/// The handle of an object that the embedding has still to make.
pub const FRESH: u64 = 0;

/// A single-precision number, by its bits or by what it is rounded from: the bits of a
/// double-precision number, or the double-precision number nearest to an integer.
#[derive(Clone, Copy, Debug, PartialEq, Eq, Structural)]
pub enum Single {
    Bits(u32),
    OfDouble(u64),
    OfInt(i64),
}

/// A double-precision number, by its bits or by what it is made from: the single-precision
/// number that it equals, or the integer that it is nearest to.
#[derive(Clone, Copy, Debug, PartialEq, Eq, Structural)]
pub enum Number {
    Bits(u64),
    OfSingle(Single),
    OfInt(i64),
}

/// Three single-precision numbers.
#[derive(Clone, Copy, Debug, PartialEq, Eq, Structural)]
pub struct Vector3 {
    pub x: Single,
    pub y: Single,
    pub z: Single,
}

impl Number {
    /// The number rounded to single precision.
    pub open spec fn rounded(self) -> Single {
        match self {
            Number::Bits(bits) => Single::OfDouble(bits),
            Number::OfSingle(s) => s,
            Number::OfInt(i) => Single::OfInt(i),
        }
    }

    /// The number rounded to single precision.
    pub fn to_single(&self) -> (r: Single)
        ensures
            r == self.rounded(),
    {
        match *self {
            Number::Bits(bits) => Single::OfDouble(bits),
            Number::OfSingle(s) => s,
            Number::OfInt(i) => Single::OfInt(i),
        }
    }
}

/// The metatable of a table.
#[derive(Clone, Copy, Debug, PartialEq, Eq, Structural)]
pub enum Metatable {
    Absent,
    /// The metatable that marks arrays.
    Array,
    Other,
}

/// A function, still to be made, that calls a function of another runtime.
#[derive(Clone, Copy, Debug, PartialEq, Eq, Structural)]
pub enum Stub {
    /// The function at that index of the JavaScript functions that are held.
    JsFunction(usize),
    /// The function with that number of another Luau state.
    LuaFunction(i64),
}

/// What stands behind a userdata.
#[derive(Debug, PartialEq, Eq)]
pub enum Payload {
    /// Nothing that the bridge knows.
    Opaque,
    /// A reference to an object of v8.
    V8Ref(V8ObjectRegistryType, V8ObjectRegistryID),
    /// A value for v8 that is handed over as it is.
    V8Transfer(ProxiedV8Value),
    /// A reference to an object of the host state.
    HostRef(ObjectRegistryType, LuauObjectRegistryID),
    /// A reference to an object of the child state.
    ChildRef(ObjectRegistryType, PLuauObjectRegistryID),
    /// A value for the child state that is handed over as it is.
    LuauTransfer(ProxiedLuauValue),
    /// The promise at that index of the JavaScript promises that are held.
    JsPromise(usize),
    /// The object at that index of the JavaScript objects that are held.
    JsObject(usize),
    /// The buffer with that number of another Luau state.
    LuaBuffer(i64),
}

/// A Luau value.
#[derive(Debug, PartialEq, Eq)]
pub enum LuauValue {
    Nil,
    LightUserData(i64),
    Boolean(bool),
    Integer(i64),
    Number(Number),
    Vector(Vector3),
    String(Vec<u8>),
    Table {
        handle: u64,
        frozen: bool,
        metatable: Metatable,
        /// The raw length.
        len: usize,
        /// The keys and values in the order of iteration. For a table that is still to be made,
        /// in the order in which they are set.
        entries: Vec<(LuauValue, LuauValue)>,
    },
    UserData { handle: u64, payload: Payload },
    Buffer { handle: u64, bytes: Vec<u8> },
    /// An object of which nothing but its identity is known: a function, a thread, or an object
    /// that was looked up in a registry.
    Ref(ObjectRef),
    /// A function that is still to be made.
    Stub(Stub),
    /// An error value, by its text.
    Error(String),
    /// A value of no known sort, by its text.
    Other(String),
}

/// What stands behind a userdata.
#[verifier::ext_equal]
pub enum PayloadView {
    Opaque,
    V8Ref(V8ObjectRegistryType, i64),
    V8Transfer(V8View),
    HostRef(ObjectRegistryType, i64),
    ChildRef(ObjectRegistryType, i64),
    LuauTransfer(PLuauView),
    JsPromise(usize),
    JsObject(usize),
    LuaBuffer(i64),
}

/// A Luau value.
#[verifier::ext_equal]
pub enum LuauView {
    Nil,
    LightUserData(i64),
    Boolean(bool),
    Integer(i64),
    Number(Number),
    Vector(Vector3),
    String(Seq<u8>),
    Table {
        handle: u64,
        frozen: bool,
        metatable: Metatable,
        len: usize,
        entries: Seq<(LuauView, LuauView)>,
    },
    UserData { handle: u64, payload: PayloadView },
    Buffer { handle: u64, bytes: Seq<u8> },
    Ref(ObjectRef),
    Stub(Stub),
    Error(Seq<char>),
    Other(Seq<char>),
}

impl Payload {
    /// What stands behind the userdata.
    pub open spec fn view(self) -> PayloadView {
        match self {
            Payload::Opaque => PayloadView::Opaque,
            Payload::V8Ref(typ, id) => PayloadView::V8Ref(typ, id@),
            Payload::V8Transfer(v) => PayloadView::V8Transfer(v@),
            Payload::HostRef(typ, id) => PayloadView::HostRef(typ, id@),
            Payload::ChildRef(typ, id) => PayloadView::ChildRef(typ, id@),
            Payload::LuauTransfer(v) => PayloadView::LuauTransfer(v@),
            Payload::JsPromise(i) => PayloadView::JsPromise(i),
            Payload::JsObject(i) => PayloadView::JsObject(i),
            Payload::LuaBuffer(i) => PayloadView::LuaBuffer(i),
        }
    }
}

impl LuauValue {
    /// What the value is.
    pub open spec fn view(self) -> LuauView
        decreases self,
    {
        match self {
            LuauValue::Nil => LuauView::Nil,
            LuauValue::LightUserData(i) => LuauView::LightUserData(i),
            LuauValue::Boolean(b) => LuauView::Boolean(b),
            LuauValue::Integer(i) => LuauView::Integer(i),
            LuauValue::Number(n) => LuauView::Number(n),
            LuauValue::Vector(v) => LuauView::Vector(v),
            LuauValue::String(bytes) => LuauView::String(bytes@),
            LuauValue::Table { handle, frozen, metatable, len, entries } => LuauView::Table {
                handle,
                frozen,
                metatable,
                len,
                entries: Seq::new(
                    entries@.len(),
                    |i: int|
                        if 0 <= i < entries@.len() {
                            (entries@[i].0.view(), entries@[i].1.view())
                        } else {
                            arbitrary()
                        },
                ),
            },
            LuauValue::UserData { handle, payload } => LuauView::UserData {
                handle,
                payload: payload@,
            },
            LuauValue::Buffer { handle, bytes } => LuauView::Buffer { handle, bytes: bytes@ },
            LuauValue::Ref(r) => LuauView::Ref(r),
            LuauValue::Stub(s) => LuauView::Stub(s),
            LuauValue::Error(text) => LuauView::Error(text@),
            LuauValue::Other(text) => LuauView::Other(text@),
        }
    }

    /// A value known by its identity alone.
    pub fn of_ref(obj: ObjectRef) -> (r: Self)
        ensures
            r@ == LuauView::Ref(obj),
    {
        LuauValue::Ref(obj)
    }
}

/// Several values.
pub open spec fn luau_views(s: Seq<LuauValue>) -> Seq<LuauView> {
    s.map_values(|v: LuauValue| v.view())
}

/// Several keys with their values.
pub open spec fn luau_pairs(s: Seq<(LuauValue, LuauValue)>) -> Seq<(LuauView, LuauView)> {
    s.map_values(|e: (LuauValue, LuauValue)| (e.0.view(), e.1.view()))
}

impl LuauView {
    /// The name of the value's type in Luau.
    pub open spec fn typename(self) -> Seq<char> {
        match self {
            LuauView::Nil => "nil"@,
            LuauView::LightUserData(_) => "lightuserdata"@,
            LuauView::Boolean(_) => "boolean"@,
            LuauView::Integer(_) => "integer"@,
            LuauView::Number(_) => "number"@,
            LuauView::Vector(_) => "vector"@,
            LuauView::String(_) => "string"@,
            LuauView::Table { .. } => "table"@,
            LuauView::UserData { .. } => "userdata"@,
            LuauView::Buffer { .. } => "buffer"@,
            LuauView::Ref(r) => kind_name(r.kind),
            LuauView::Stub(_) => "function"@,
            LuauView::Error(_) => "error"@,
            LuauView::Other(_) => "other"@,
        }
    }
}

/// The name of a sort of object.
pub open spec fn kind_name(kind: RefKind) -> Seq<char> {
    match kind {
        RefKind::Table => "table"@,
        RefKind::Function => "function"@,
        RefKind::UserData => "userdata"@,
        RefKind::Buffer => "buffer"@,
        RefKind::Thread => "thread"@,
        RefKind::ArrayBuffer => "arraybuffer"@,
        RefKind::Promise => "promise"@,
        RefKind::Object => "object"@,
        RefKind::String => "string"@,
        RefKind::Array => "array"@,
    }
}

/// The name of a sort of object.
pub fn kind_text(kind: RefKind) -> (r: &'static str)
    ensures
        r@ == kind_name(kind),
{
    match kind {
        RefKind::Table => "table",
        RefKind::Function => "function",
        RefKind::UserData => "userdata",
        RefKind::Buffer => "buffer",
        RefKind::Thread => "thread",
        RefKind::ArrayBuffer => "arraybuffer",
        RefKind::Promise => "promise",
        RefKind::Object => "object",
        RefKind::String => "string",
        RefKind::Array => "array",
    }
}

impl LuauValue {
    /// The name of the value's type in Luau.
    pub fn typename(&self) -> (r: &'static str)
        ensures
            r@ == self@.typename(),
    {
        match self {
            LuauValue::Nil => "nil",
            LuauValue::LightUserData(_) => "lightuserdata",
            LuauValue::Boolean(_) => "boolean",
            LuauValue::Integer(_) => "integer",
            LuauValue::Number(_) => "number",
            LuauValue::Vector(_) => "vector",
            LuauValue::String(_) => "string",
            LuauValue::Table { .. } => "table",
            LuauValue::UserData { .. } => "userdata",
            LuauValue::Buffer { .. } => "buffer",
            LuauValue::Ref(r) => kind_text(r.kind),
            LuauValue::Stub(_) => "function",
            LuauValue::Error(_) => "error",
            LuauValue::Other(_) => "other",
        }
    }
}

} // verus!
