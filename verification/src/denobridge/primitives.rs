//! Values that are primitive in v8 and in Luau.

use vstd::prelude::*;
use vstd::utf8::*;

use crate::denobridge::jsvalue::{JsValue, JsView};
use crate::denobridge::value::V8View;
use crate::luau::embedder_api::EmbedderDataContext;
use crate::luau::value::{LuauValue, LuauView};
use crate::outcome::Charged;
use crate::text::{join3, text_of_utf8, utf16_len, utf16_units, utf8_bytes};

verus! {

/// A primitive value that is primitive across v8 and luau (immutable and can be cloned between luau and v8)
///
/// Note that primitives do not have to be cheap to clone (for example, strings are primitives but can be
/// fairly large). However, they must be immutable and clonable (see psuedoprimitives for types that are cloneable but may
/// not be immutable on either side of the proxy bridge such as non-UTF-8 strings and vectors).
///
/// Only primitives can be used with object.getProperty etc.
#[derive(Debug, PartialEq, Eq)]
pub enum ProxiedV8Primitive {
    Nil,
    Undefined,
    Boolean(bool),
    Integer(i32),
    BigInt(i64),
    String(String),
}

/// The text of a Luau value of no known sort.
pub open spec fn unknown_text(text: Seq<char>) -> Seq<char> {
    "unknown("@ + text + ")"@
}

/// An integer as a primitive: the narrow sort where it fits.
pub open spec fn integer_of(i: i64) -> V8View {
    if i32::MIN <= i <= i32::MAX {
        V8View::Integer(i as i32)
    } else {
        V8View::BigInt(i)
    }
}

/// What a Luau value is as a primitive, or nothing where it is none.
pub open spec fn primitive_of_luau(v: LuauView, ed: EmbedderDataContext) -> Charged<
    Option<V8View>,
> {
    match ed.after(1, "ProxiedV8Primitive -> <base overhead>"@) {
        Err(e) => Charged { ed, res: Err(e) },
        Ok(ed1) => match v {
            LuauView::Nil => Charged { ed: ed1, res: Ok(Some(V8View::Nil)) },
            LuauView::Boolean(b) => Charged { ed: ed1, res: Ok(Some(V8View::Boolean(b))) },
            LuauView::LightUserData(i) => Charged { ed: ed1, res: Ok(Some(V8View::BigInt(i))) },
            LuauView::Integer(i) => Charged { ed: ed1, res: Ok(Some(integer_of(i))) },
            LuauView::String(bytes) => match ed1.after(
                bytes.len() as usize,
                "ProxiedV8Primitive -> LuaString"@,
            ) {
                Err(e) => Charged { ed: ed1, res: Err(e) },
                Ok(ed2) => Charged {
                    ed: ed2,
                    res: Ok(
                        if valid_utf8(bytes) {
                            Some(V8View::String(decode_utf8(bytes)))
                        } else {
                            None
                        },
                    ),
                },
            },
            LuauView::Other(text) => match ed1.after(
                encode_utf8(unknown_text(text)).len() as usize,
                "ProxiedV8Primitive -> LuaOther"@,
            ) {
                Err(e) => Charged { ed: ed1, res: Err(e) },
                Ok(ed2) => Charged {
                    ed: ed2,
                    res: Ok(Some(V8View::String(unknown_text(text)))),
                },
            },
            _ => Charged { ed: ed1, res: Ok(None) },
        },
    }
}

/// What a primitive is in Luau.
pub open spec fn primitive_to_luau(p: V8View, ed: EmbedderDataContext) -> Charged<LuauView> {
    match ed.after(1, "ProxiedV8Primitive -> <base overhead>"@) {
        Err(e) => Charged { ed, res: Err(e) },
        Ok(ed1) => match p {
            V8View::Boolean(b) => Charged { ed: ed1, res: Ok(LuauView::Boolean(b)) },
            V8View::Integer(i) => Charged { ed: ed1, res: Ok(LuauView::Integer(i as i64)) },
            V8View::BigInt(i) => Charged { ed: ed1, res: Ok(LuauView::Integer(i)) },
            V8View::String(s) => match ed1.after(
                encode_utf8(s).len() as usize,
                "ProxiedV8Primitive -> LuaString"@,
            ) {
                Err(e) => Charged { ed: ed1, res: Err(e) },
                Ok(ed2) => Charged { ed: ed2, res: Ok(LuauView::String(encode_utf8(s))) },
            },
            _ => Charged { ed: ed1, res: Ok(LuauView::Nil) },
        },
    }
}

/// What a primitive is in v8.
pub open spec fn primitive_to_v8(p: V8View, ed: EmbedderDataContext) -> Charged<JsView> {
    match ed.after(1, "ProxiedV8Primitive -> <base overhead>"@) {
        Err(e) => Charged { ed, res: Err(e) },
        Ok(ed1) => match p {
            V8View::Nil => Charged { ed: ed1, res: Ok(JsView::Null) },
            V8View::Boolean(b) => Charged { ed: ed1, res: Ok(JsView::Boolean(b)) },
            V8View::Integer(i) => Charged { ed: ed1, res: Ok(JsView::Int32(i)) },
            V8View::BigInt(i) => Charged { ed: ed1, res: Ok(JsView::BigInt(i)) },
            V8View::String(s) => match ed1.after(
                encode_utf8(s).len() as usize,
                "ProxiedV8Primitive -> V8String"@,
            ) {
                Err(e) => Charged { ed: ed1, res: Err(e) },
                Ok(ed2) => Charged { ed: ed2, res: Ok(JsView::String(s)) },
            },
            _ => Charged { ed: ed1, res: Ok(JsView::Undefined) },
        },
    }
}

/// What a JavaScript value is as a primitive, or nothing where it is none.
pub open spec fn primitive_of_v8(v: JsView, ed: EmbedderDataContext) -> Charged<Option<V8View>> {
    match ed.after(1, "ProxiedV8Primitive -> <base overhead>"@) {
        Err(e) => Charged { ed, res: Err(e) },
        Ok(ed1) => match v {
            JsView::Null => Charged { ed: ed1, res: Ok(Some(V8View::Nil)) },
            JsView::Undefined => Charged { ed: ed1, res: Ok(Some(V8View::Undefined)) },
            JsView::Boolean(b) => Charged { ed: ed1, res: Ok(Some(V8View::Boolean(b))) },
            JsView::Int32(i) => Charged { ed: ed1, res: Ok(Some(V8View::Integer(i))) },
            JsView::BigInt(i) => Charged { ed: ed1, res: Ok(Some(V8View::BigInt(i))) },
            JsView::WideBigInt(text) => match ed1.after(
                utf16_len(text) as usize,
                "ProxiedV8Primitive -> V8BigInt"@,
            ) {
                Err(e) => Charged { ed: ed1, res: Err(e) },
                Ok(ed2) => Charged { ed: ed2, res: Ok(Some(V8View::String(text))) },
            },
            JsView::String(text) => match ed1.after(
                utf16_len(text) as usize,
                "ProxiedV8Primitive -> V8String"@,
            ) {
                Err(e) => Charged { ed: ed1, res: Err(e) },
                Ok(ed2) => Charged { ed: ed2, res: Ok(Some(V8View::String(text))) },
            },
            _ => Charged { ed: ed1, res: Ok(None) },
        },
    }
}

impl ProxiedV8Primitive {
    /// What the primitive is.
    pub open spec fn view(self) -> V8View {
        match self {
            ProxiedV8Primitive::Nil => V8View::Nil,
            ProxiedV8Primitive::Undefined => V8View::Undefined,
            ProxiedV8Primitive::Boolean(b) => V8View::Boolean(b),
            ProxiedV8Primitive::Integer(i) => V8View::Integer(i),
            ProxiedV8Primitive::BigInt(i) => V8View::BigInt(i),
            ProxiedV8Primitive::String(s) => V8View::String(s@),
        }
    }

    /// Returns the number of bytes used by this primitive
    ///
    /// Note that only string is counted here, as other types are always small
    pub fn effective_size(&self) -> (r: usize)
        ensures
            r == match self@ {
                V8View::String(s) => encode_utf8(s).len() as usize,
                _ => 0,
            },
    {
        match self {
            ProxiedV8Primitive::String(s) => s.as_str().len(),
            _ => 0,
        }
    }

    /// A copy of the primitive.
    pub fn duplicate(&self) -> (r: Self)
        ensures
            r@ == self@,
    {
        match self {
            ProxiedV8Primitive::Nil => ProxiedV8Primitive::Nil,
            ProxiedV8Primitive::Undefined => ProxiedV8Primitive::Undefined,
            ProxiedV8Primitive::Boolean(b) => ProxiedV8Primitive::Boolean(*b),
            ProxiedV8Primitive::Integer(i) => ProxiedV8Primitive::Integer(*i),
            ProxiedV8Primitive::BigInt(i) => ProxiedV8Primitive::BigInt(*i),
            ProxiedV8Primitive::String(s) => ProxiedV8Primitive::String(s.clone()),
        }
    }

    /// Luau -> ProxiedV8Primitive
    pub fn from_luau(value: &LuauValue, ed: &mut EmbedderDataContext) -> (r: Result<
        Option<Self>,
        String,
    >)
        ensures
            *final(ed) == primitive_of_luau(value@, *old(ed)).ed,
            match (r, primitive_of_luau(value@, *old(ed)).res) {
                (Ok(Some(p)), Ok(Some(v))) => p@ == v,
                (Ok(None), Ok(None)) => true,
                (Err(e), Err(t)) => e@ == t,
                _ => false,
            },
    {
        match ed.add(1, "ProxiedV8Primitive -> <base overhead>") {
            Err(e) => return Err(e),
            Ok(()) => {},
        }
        match value {
            LuauValue::Nil => Ok(Some(ProxiedV8Primitive::Nil)),
            LuauValue::Boolean(b) => Ok(Some(ProxiedV8Primitive::Boolean(*b))),
            LuauValue::LightUserData(i) => Ok(Some(ProxiedV8Primitive::BigInt(*i))),
            LuauValue::Integer(i) => {
                if *i >= -2147483648 && *i <= 2147483647 {
                    Ok(Some(ProxiedV8Primitive::Integer(*i as i32)))
                } else {
                    Ok(Some(ProxiedV8Primitive::BigInt(*i)))
                }
            },
            LuauValue::String(bytes) => {
                match ed.add(bytes.len(), "ProxiedV8Primitive -> LuaString") {
                    Err(e) => return Err(e),
                    Ok(()) => {},
                }
                match text_of_utf8(bytes.as_slice()) {
                    Ok(s) => Ok(Some(ProxiedV8Primitive::String(s))),
                    Err(_) => Ok(None),
                }
            },
            LuauValue::Other(text) => {
                let s = join3("unknown(", text, ")");
                match ed.add(s.as_str().len(), "ProxiedV8Primitive -> LuaOther") {
                    Err(e) => return Err(e),
                    Ok(()) => {},
                }
                Ok(Some(ProxiedV8Primitive::String(s)))
            },
            _ => Ok(None),
        }
    }

    /// ProxiedV8Primitive -> Luau
    pub fn to_luau(&self, ed: &mut EmbedderDataContext) -> (r: Result<LuauValue, String>)
        ensures
            *final(ed) == primitive_to_luau(self@, *old(ed)).ed,
            match (r, primitive_to_luau(self@, *old(ed)).res) {
                (Ok(p), Ok(v)) => p@ == v,
                (Err(e), Err(t)) => e@ == t,
                _ => false,
            },
    {
        match ed.add(1, "ProxiedV8Primitive -> <base overhead>") {
            Err(e) => return Err(e),
            Ok(()) => {},
        }
        match self {
            ProxiedV8Primitive::Nil => Ok(LuauValue::Nil),
            ProxiedV8Primitive::Undefined => Ok(LuauValue::Nil),
            ProxiedV8Primitive::Boolean(b) => Ok(LuauValue::Boolean(*b)),
            ProxiedV8Primitive::Integer(i) => Ok(LuauValue::Integer(*i as i64)),
            ProxiedV8Primitive::BigInt(i) => Ok(LuauValue::Integer(*i)),
            ProxiedV8Primitive::String(s) => {
                match ed.add(s.as_str().len(), "ProxiedV8Primitive -> LuaString") {
                    Err(e) => return Err(e),
                    Ok(()) => {},
                }
                Ok(LuauValue::String(utf8_bytes(s)))
            },
        }
    }

    /// ProxiedV8Primitive -> V8
    pub fn to_v8(&self, ed: &mut EmbedderDataContext) -> (r: Result<JsValue, String>)
        ensures
            *final(ed) == primitive_to_v8(self@, *old(ed)).ed,
            match (r, primitive_to_v8(self@, *old(ed)).res) {
                (Ok(p), Ok(v)) => p@ == v,
                (Err(e), Err(t)) => e@ == t,
                _ => false,
            },
    {
        match ed.add(1, "ProxiedV8Primitive -> <base overhead>") {
            Err(e) => return Err(e),
            Ok(()) => {},
        }
        match self {
            ProxiedV8Primitive::Nil => Ok(JsValue::Null),
            ProxiedV8Primitive::Undefined => Ok(JsValue::Undefined),
            ProxiedV8Primitive::Boolean(b) => Ok(JsValue::Boolean(*b)),
            ProxiedV8Primitive::Integer(i) => Ok(JsValue::Int32(*i)),
            ProxiedV8Primitive::BigInt(i) => Ok(JsValue::BigInt(*i)),
            ProxiedV8Primitive::String(s) => {
                match ed.add(s.as_str().len(), "ProxiedV8Primitive -> V8String") {
                    Err(e) => return Err(e),
                    Ok(()) => {},
                }
                Ok(JsValue::String(s.clone()))
            },
        }
    }

    /// V8 -> ProxiedV8Primitive
    pub fn from_v8(value: &JsValue, ed: &mut EmbedderDataContext) -> (r: Result<
        Option<Self>,
        String,
    >)
        ensures
            *final(ed) == primitive_of_v8(value@, *old(ed)).ed,
            match (r, primitive_of_v8(value@, *old(ed)).res) {
                (Ok(Some(p)), Ok(Some(v))) => p@ == v,
                (Ok(None), Ok(None)) => true,
                (Err(e), Err(t)) => e@ == t,
                _ => false,
            },
    {
        match ed.add(1, "ProxiedV8Primitive -> <base overhead>") {
            Err(e) => return Err(e),
            Ok(()) => {},
        }
        match value {
            JsValue::Null => Ok(Some(ProxiedV8Primitive::Nil)),
            JsValue::Undefined => Ok(Some(ProxiedV8Primitive::Undefined)),
            JsValue::Boolean(b) => Ok(Some(ProxiedV8Primitive::Boolean(*b))),
            JsValue::Int32(i) => Ok(Some(ProxiedV8Primitive::Integer(*i))),
            JsValue::BigInt(i) => Ok(Some(ProxiedV8Primitive::BigInt(*i))),
            JsValue::WideBigInt(text) => {
                match ed.add(utf16_units(text), "ProxiedV8Primitive -> V8BigInt") {
                    Err(e) => return Err(e),
                    Ok(()) => {},
                }
                Ok(Some(ProxiedV8Primitive::String(text.clone())))
            },
            JsValue::String(text) => {
                match ed.add(utf16_units(text), "ProxiedV8Primitive -> V8String") {
                    Err(e) => return Err(e),
                    Ok(()) => {},
                }
                Ok(Some(ProxiedV8Primitive::String(text.clone())))
            },
            _ => Ok(None),
        }
    }
}

} // verus!
