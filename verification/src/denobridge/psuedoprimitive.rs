//! Values that are copied between v8 and Luau without being primitive in both.

use vstd::prelude::*;

use crate::denobridge::value::{ProxiedV8Value, V8View};
use crate::luau::value::{Number, Vector3};

verus! {

/// A psuedoprimitive is a type that is not fully primitive (not immutable/hashable in both v8 and luau) but is copied between v8 and luau
#[derive(Debug, PartialEq, Eq)]
pub enum ProxiedV8PsuedoPrimitive {
    Number(Number),
    Vector(Vector3),
    /// For byte sequences that are not valid UTF-8
    StringBytes(Vec<u8>),
    StaticList(Vec<ProxiedV8Value>),
    StaticMap(Vec<(ProxiedV8Value, ProxiedV8Value)>),
}

impl ProxiedV8PsuedoPrimitive {
    /// What the psuedoprimitive is.
    pub open spec fn view(self) -> V8View
        decreases self,
    {
        match self {
            ProxiedV8PsuedoPrimitive::Number(n) => V8View::Number(n),
            ProxiedV8PsuedoPrimitive::Vector(v) => V8View::Vector(v),
            ProxiedV8PsuedoPrimitive::StringBytes(bytes) => V8View::Bytes(bytes@),
            ProxiedV8PsuedoPrimitive::StaticList(items) => V8View::List(
                Seq::new(
                    items@.len(),
                    |i: int|
                        if 0 <= i < items@.len() {
                            items@[i].view()
                        } else {
                            arbitrary()
                        },
                ),
            ),
            ProxiedV8PsuedoPrimitive::StaticMap(entries) => V8View::Dict(
                Seq::new(
                    entries@.len(),
                    |i: int|
                        if 0 <= i < entries@.len() {
                            (entries@[i].0.view(), entries@[i].1.view())
                        } else {
                            arbitrary()
                        },
                ),
            ),
        }
    }
}

} // verus!
