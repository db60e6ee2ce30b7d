//! Values that are copied between Luau states without being primitive.

use vstd::prelude::*;

use crate::parallelluau::value::{ProxiedLuauValue, PLuauView};
use crate::luau::value::{Number, Vector3};

verus! {

/// A psuedoprimitive is a type that is not fully primitive (not immutable/hashable across luau states) but is copied between luau states
#[derive(Debug, PartialEq, Eq)]
pub enum ProxiedLuauPsuedoPrimitive {
    Number(Number),
    Vector(Vector3),
    /// For byte sequences that are not valid UTF-8
    StringBytes(Vec<u8>),
    StaticList(Vec<ProxiedLuauValue>),
    StaticMap(Vec<(ProxiedLuauValue, ProxiedLuauValue)>),
}

impl ProxiedLuauPsuedoPrimitive {
    /// What the psuedoprimitive is.
    pub open spec fn view(self) -> PLuauView
        decreases self,
    {
        match self {
            ProxiedLuauPsuedoPrimitive::Number(n) => PLuauView::Number(n),
            ProxiedLuauPsuedoPrimitive::Vector(v) => PLuauView::Vector(v),
            ProxiedLuauPsuedoPrimitive::StringBytes(bytes) => PLuauView::Bytes(bytes@),
            ProxiedLuauPsuedoPrimitive::StaticList(items) => PLuauView::List(
                Seq::new(
                    items@.len(),
                    |i: int|
                        if 0 <= i < items@.len() {
                            items@[i].view()
                        } else {
                            arbitrary()
                        },
                ),
            ),
            ProxiedLuauPsuedoPrimitive::StaticMap(entries) => PLuauView::Dict(
                Seq::new(
                    entries@.len(),
                    |i: int|
                        if 0 <= i < entries@.len() {
                            (entries@[i].0.view(), entries@[i].1.view())
                        } else {
                            arbitrary()
                        },
                ),
            ),
        }
    }
}

} // verus!
