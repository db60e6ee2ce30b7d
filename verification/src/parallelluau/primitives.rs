//! Values that are primitive in every Luau state.

use vstd::prelude::*;
use vstd::utf8::*;

use crate::denobridge::primitives::unknown_text;
use crate::luau::embedder_api::EmbedderDataContext;
use crate::luau::value::{LuauValue, LuauView};
use crate::outcome::Charged;
use crate::parallelluau::value::PLuauView;
use crate::text::{join3, text_of_utf8, utf8_bytes};

verus! {

/// A primitive value that is primitive across two luau vms (immutable and can be cloned between two luau states)
///
/// Note that primitives do not have to be cheap to clone (for example, strings are primitives but can be
/// fairly large). However, they must be immutable and clonable (see psuedoprimitives for types that are cloneable but may
/// not be immutable on either side of the proxy bridge such as non-UTF-8 strings and vectors).
///
/// Only primitives can be used with object.getProperty etc.
#[derive(Debug, PartialEq, Eq)]
pub enum ProxiedLuauPrimitive {
    Null,
    Nil,
    Boolean(bool),
    Integer(i64),
    String(String),
}

impl ProxiedLuauPrimitive {
    /// What the primitive is.
    pub open spec fn view(self) -> PLuauView {
        match self {
            ProxiedLuauPrimitive::Null => PLuauView::Null,
            ProxiedLuauPrimitive::Nil => PLuauView::Nil,
            ProxiedLuauPrimitive::Boolean(b) => PLuauView::Boolean(b),
            ProxiedLuauPrimitive::Integer(i) => PLuauView::Integer(i),
            ProxiedLuauPrimitive::String(s) => PLuauView::String(s@),
        }
    }
}

/// What a Luau value is as a primitive, or nothing where it is none.
pub open spec fn plain_of_luau(v: LuauView, ed: EmbedderDataContext) -> Charged<
    Option<PLuauView>,
> {
    match ed.after(1, "ProxiedLuauPrimitive -> <base overhead>"@) {
        Err(e) => Charged { ed, res: Err(e) },
        Ok(ed1) => match v {
            LuauView::Nil => Charged { ed: ed1, res: Ok(Some(PLuauView::Nil)) },
            LuauView::Boolean(b) => Charged { ed: ed1, res: Ok(Some(PLuauView::Boolean(b))) },
            LuauView::LightUserData(i) => Charged {
                ed: ed1,
                res: Ok(
                    Some(
                        if i == 0 {
                            PLuauView::Null
                        } else {
                            PLuauView::Integer(i)
                        },
                    ),
                ),
            },
            LuauView::Integer(i) => Charged { ed: ed1, res: Ok(Some(PLuauView::Integer(i))) },
            LuauView::String(bytes) => match ed1.after(
                bytes.len() as usize,
                "ProxiedLuauPrimitive -> LuaString"@,
            ) {
                Err(e) => Charged { ed: ed1, res: Err(e) },
                Ok(ed2) => Charged {
                    ed: ed2,
                    res: Ok(
                        if valid_utf8(bytes) {
                            Some(PLuauView::String(decode_utf8(bytes)))
                        } else {
                            None
                        },
                    ),
                },
            },
            LuauView::Other(text) => match ed1.after(
                encode_utf8(unknown_text(text)).len() as usize,
                "ProxiedLuauPrimitive -> LuaOther"@,
            ) {
                Err(e) => Charged { ed: ed1, res: Err(e) },
                Ok(ed2) => Charged {
                    ed: ed2,
                    res: Ok(Some(PLuauView::String(unknown_text(text)))),
                },
            },
            _ => Charged { ed: ed1, res: Ok(None) },
        },
    }
}

/// What a primitive is in Luau.
pub open spec fn plain_to_luau(p: PLuauView, ed: EmbedderDataContext) -> Charged<LuauView> {
    match ed.after(1, "ProxiedLuauPrimitive -> <base overhead>"@) {
        Err(e) => Charged { ed, res: Err(e) },
        Ok(ed1) => match p {
            PLuauView::Null => Charged { ed: ed1, res: Ok(LuauView::LightUserData(0)) },
            PLuauView::Boolean(b) => Charged { ed: ed1, res: Ok(LuauView::Boolean(b)) },
            PLuauView::Integer(i) => Charged { ed: ed1, res: Ok(LuauView::Integer(i)) },
            PLuauView::String(s) => match ed1.after(
                encode_utf8(s).len() as usize,
                "ProxiedLuauPrimitive -> LuaString"@,
            ) {
                Err(e) => Charged { ed: ed1, res: Err(e) },
                Ok(ed2) => Charged { ed: ed2, res: Ok(LuauView::String(encode_utf8(s))) },
            },
            _ => Charged { ed: ed1, res: Ok(LuauView::Nil) },
        },
    }
}

impl ProxiedLuauPrimitive {
    /// A copy of the primitive.
    pub fn duplicate(&self) -> (r: Self)
        ensures
            r@ == self@,
    {
        match self {
            ProxiedLuauPrimitive::Null => ProxiedLuauPrimitive::Null,
            ProxiedLuauPrimitive::Nil => ProxiedLuauPrimitive::Nil,
            ProxiedLuauPrimitive::Boolean(b) => ProxiedLuauPrimitive::Boolean(*b),
            ProxiedLuauPrimitive::Integer(i) => ProxiedLuauPrimitive::Integer(*i),
            ProxiedLuauPrimitive::String(s) => ProxiedLuauPrimitive::String(s.clone()),
        }
    }

    /// Luau -> ProxiedLuauPrimitive
    pub fn from_luau(value: &LuauValue, ed: &mut EmbedderDataContext) -> (r: Result<
        Option<Self>,
        String,
    >)
        ensures
            *final(ed) == plain_of_luau(value@, *old(ed)).ed,
            match (r, plain_of_luau(value@, *old(ed)).res) {
                (Ok(Some(p)), Ok(Some(v))) => p@ == v,
                (Ok(None), Ok(None)) => true,
                (Err(e), Err(t)) => e@ == t,
                _ => false,
            },
    {
        match ed.add(1, "ProxiedLuauPrimitive -> <base overhead>") {
            Err(e) => return Err(e),
            Ok(()) => {},
        }
        match value {
            LuauValue::Nil => Ok(Some(ProxiedLuauPrimitive::Nil)),
            LuauValue::Boolean(b) => Ok(Some(ProxiedLuauPrimitive::Boolean(*b))),
            LuauValue::LightUserData(i) => {
                if *i == 0 {
                    Ok(Some(ProxiedLuauPrimitive::Null))
                } else {
                    Ok(Some(ProxiedLuauPrimitive::Integer(*i)))
                }
            },
            LuauValue::Integer(i) => Ok(Some(ProxiedLuauPrimitive::Integer(*i))),
            LuauValue::String(bytes) => {
                match ed.add(bytes.len(), "ProxiedLuauPrimitive -> LuaString") {
                    Err(e) => return Err(e),
                    Ok(()) => {},
                }
                match text_of_utf8(bytes.as_slice()) {
                    Ok(s) => Ok(Some(ProxiedLuauPrimitive::String(s))),
                    Err(_) => Ok(None),
                }
            },
            LuauValue::Other(text) => {
                let s = join3("unknown(", text, ")");
                match ed.add(s.as_str().len(), "ProxiedLuauPrimitive -> LuaOther") {
                    Err(e) => return Err(e),
                    Ok(()) => {},
                }
                Ok(Some(ProxiedLuauPrimitive::String(s)))
            },
            _ => Ok(None),
        }
    }

    /// ProxiedLuauPrimitive -> Luau
    pub fn to_luau(&self, ed: &mut EmbedderDataContext) -> (r: Result<LuauValue, String>)
        ensures
            *final(ed) == plain_to_luau(self@, *old(ed)).ed,
            match (r, plain_to_luau(self@, *old(ed)).res) {
                (Ok(p), Ok(v)) => p@ == v,
                (Err(e), Err(t)) => e@ == t,
                _ => false,
            },
    {
        match ed.add(1, "ProxiedLuauPrimitive -> <base overhead>") {
            Err(e) => return Err(e),
            Ok(()) => {},
        }
        match self {
            ProxiedLuauPrimitive::Null => Ok(LuauValue::LightUserData(0)),
            ProxiedLuauPrimitive::Nil => Ok(LuauValue::Nil),
            ProxiedLuauPrimitive::Boolean(b) => Ok(LuauValue::Boolean(*b)),
            ProxiedLuauPrimitive::Integer(i) => Ok(LuauValue::Integer(*i)),
            ProxiedLuauPrimitive::String(s) => {
                match ed.add(s.as_str().len(), "ProxiedLuauPrimitive -> LuaString") {
                    Err(e) => return Err(e),
                    Ok(()) => {},
                }
                Ok(LuauValue::String(utf8_bytes(s)))
            },
        }
    }
}

} // verus!
