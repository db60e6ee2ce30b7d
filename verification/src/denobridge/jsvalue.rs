//! JavaScript values as the bridge sees them.

use vstd::prelude::*;

use crate::luau::bridge::ObjectRegistryType;
use crate::luau::objreg::LuauObjectRegistryID;
use crate::luau::value::Number;
use crate::registry::ObjectRef;

verus! {

/// A JavaScript value.
#[derive(Debug, PartialEq, Eq)]
pub enum JsValue {
    Null,
    Undefined,
    Boolean(bool),
    /// A number that is a 32-bit integer.
    Int32(i32),
    /// Any other number.
    Number(Number),
    /// A bigint that a 64-bit integer holds.
    BigInt(i64),
    /// A bigint that no 64-bit integer holds, in decimal.
    WideBigInt(String),
    String(String),
    Uint8Array(Vec<u8>),
    Array(Vec<JsValue>),
    /// A `Map`: its keys and values, in the order in which they were set.
    MapObject(Vec<(JsValue, JsValue)>),
    ArrayBuffer { handle: u64, bytes: Vec<u8> },
    /// An object known by its identity.
    Ref(ObjectRef),
    /// A Luau object that was handed to JavaScript.
    LuaObject(ObjectRegistryType, LuauObjectRegistryID),
}

/// A JavaScript value.
#[verifier::ext_equal]
pub enum JsView {
    Null,
    Undefined,
    Boolean(bool),
    Int32(i32),
    Number(Number),
    BigInt(i64),
    WideBigInt(Seq<char>),
    String(Seq<char>),
    Uint8Array(Seq<u8>),
    Array(Seq<JsView>),
    MapObject(Seq<(JsView, JsView)>),
    ArrayBuffer { handle: u64, bytes: Seq<u8> },
    Ref(ObjectRef),
    LuaObject(ObjectRegistryType, i64),
}

impl JsValue {
    /// What the value is.
    pub open spec fn view(self) -> JsView
        decreases self,
    {
        match self {
            JsValue::Null => JsView::Null,
            JsValue::Undefined => JsView::Undefined,
            JsValue::Boolean(b) => JsView::Boolean(b),
            JsValue::Int32(i) => JsView::Int32(i),
            JsValue::Number(n) => JsView::Number(n),
            JsValue::BigInt(i) => JsView::BigInt(i),
            JsValue::WideBigInt(text) => JsView::WideBigInt(text@),
            JsValue::String(text) => JsView::String(text@),
            JsValue::Uint8Array(bytes) => JsView::Uint8Array(bytes@),
            JsValue::Array(elems) => JsView::Array(
                Seq::new(
                    elems@.len(),
                    |i: int|
                        if 0 <= i < elems@.len() {
                            elems@[i].view()
                        } else {
                            arbitrary()
                        },
                ),
            ),
            JsValue::MapObject(entries) => JsView::MapObject(
                Seq::new(
                    entries@.len(),
                    |i: int|
                        if 0 <= i < entries@.len() {
                            (entries@[i].0.view(), entries@[i].1.view())
                        } else {
                            arbitrary()
                        },
                ),
            ),
            JsValue::ArrayBuffer { handle, bytes } => JsView::ArrayBuffer { handle, bytes: bytes@ },
            JsValue::Ref(r) => JsView::Ref(r),
            JsValue::LuaObject(typ, id) => JsView::LuaObject(typ, id@),
        }
    }
}

/// Several values.
pub open spec fn js_views(s: Seq<JsValue>) -> Seq<JsView> {
    s.map_values(|v: JsValue| v.view())
}

/// Several keys with their values.
pub open spec fn js_pairs(s: Seq<(JsValue, JsValue)>) -> Seq<(JsView, JsView)> {
    s.map_values(|e: (JsValue, JsValue)| (e.0.view(), e.1.view()))
}

impl JsView {
    /// The value as a number, where it is one.
    pub open spec fn as_number(self) -> Option<Number> {
        match self {
            JsView::Int32(i) => Some(Number::OfInt(i as i64)),
            JsView::Number(n) => Some(n),
            _ => None,
        }
    }
}

impl JsValue {
    /// The value as a number, where it is one.
    pub fn as_number(&self) -> (r: Option<Number>)
        ensures
            r == self@.as_number(),
    {
        match self {
            JsValue::Int32(i) => Some(Number::OfInt(*i as i64)),
            JsValue::Number(n) => Some(*n),
            _ => None,
        }
    }
}

} // verus!
