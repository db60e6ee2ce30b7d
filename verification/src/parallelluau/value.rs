//! Values on their way between two Luau states.

use vstd::prelude::*;

use crate::luau::bridge::ObjectRegistryType;
use crate::luau::objreg::LuauObjectRegistryID;
use crate::luau::value::{Number, Vector3};
use crate::parallelluau::objreg::PLuauObjectRegistryID;
use crate::parallelluau::primitives::ProxiedLuauPrimitive;
use crate::parallelluau::psuedoprimitive::ProxiedLuauPsuedoPrimitive;
use crate::text::copy_bytes;

verus! {

/// A Luau value proxied between Luau states
#[derive(Debug, PartialEq, Eq)]
pub enum ProxiedLuauValue {
    /// Primitive values
    Primitive(ProxiedLuauPrimitive),
    /// Psuedoprimitive values
    Psuedoprimitive(ProxiedLuauPsuedoPrimitive),
    /// target-owned stuff: (Type, ID) of the target-owned object
    TargetOwnedObject((ObjectRegistryType, PLuauObjectRegistryID)),
    /// Source-owned stuff: (Type, ID) of the source-owned object
    SourceOwnedObject((ObjectRegistryType, LuauObjectRegistryID)),
}

/// A value on its way between two Luau states.
#[verifier::ext_equal]
pub enum PLuauView {
    Null,
    Nil,
    Boolean(bool),
    Integer(i64),
    String(Seq<char>),
    Number(Number),
    Vector(Vector3),
    Bytes(Seq<u8>),
    List(Seq<PLuauView>),
    Dict(Seq<(PLuauView, PLuauView)>),
    TargetOwned(ObjectRegistryType, i64),
    SourceOwned(ObjectRegistryType, i64),
}

impl ProxiedLuauValue {
    /// What the value is.
    pub open spec fn view(self) -> PLuauView
        decreases self,
    {
        match self {
            ProxiedLuauValue::Primitive(p) => p.view(),
            ProxiedLuauValue::Psuedoprimitive(p) => p.view(),
            ProxiedLuauValue::TargetOwnedObject(o) => PLuauView::TargetOwned(o.0, o.1@),
            ProxiedLuauValue::SourceOwnedObject(o) => PLuauView::SourceOwned(o.0, o.1@),
        }
    }
}

/// Several values.
pub open spec fn pluau_views(s: Seq<ProxiedLuauValue>) -> Seq<PLuauView> {
    s.map_values(|v: ProxiedLuauValue| v.view())
}

/// Several keys with their values.
pub open spec fn pluau_pairs(s: Seq<(ProxiedLuauValue, ProxiedLuauValue)>) -> Seq<
    (PLuauView, PLuauView),
> {
    s.map_values(|e: (ProxiedLuauValue, ProxiedLuauValue)| (e.0.view(), e.1.view()))
}

impl PLuauView {
    /// Whether the value is a primitive.
    pub open spec fn is_primitive(self) -> bool {
        match self {
            PLuauView::Null => true,
            PLuauView::Nil => true,
            PLuauView::Boolean(_) => true,
            PLuauView::Integer(_) => true,
            PLuauView::String(_) => true,
            _ => false,
        }
    }
}

/// A copy of several values.
pub fn duplicate_values(items: &Vec<ProxiedLuauValue>) -> (r: Vec<ProxiedLuauValue>)
    ensures
        pluau_views(r@) == pluau_views(items@),
    decreases items, 0nat,
{
    let mut r: Vec<ProxiedLuauValue> = Vec::new();
    let mut i: usize = 0;
    while i < items.len()
        invariant
            i <= items@.len(),
            pluau_views(r@) =~= pluau_views(items@).take(i as int),
        decreases items@.len() - i,
    {
        proof {
            assert(decreases_to!(items => items@));
            assert(decreases_to!(items@ => items@[i as int]));
        }
        let ghost before = r@;
        let item = items[i].duplicate();
        r.push(item);
        assert(pluau_views(r@) =~= pluau_views(before).push(item@));
        i += 1;
    }
    assert(pluau_views(r@) =~= pluau_views(items@));
    r
}

/// A copy of several keys with their values.
fn duplicate_pairs(items: &Vec<(ProxiedLuauValue, ProxiedLuauValue)>) -> (r: Vec<
    (ProxiedLuauValue, ProxiedLuauValue),
>)
    ensures
        pluau_pairs(r@) == pluau_pairs(items@),
    decreases items, 0nat,
{
    let mut r: Vec<(ProxiedLuauValue, ProxiedLuauValue)> = Vec::new();
    let mut i: usize = 0;
    while i < items.len()
        invariant
            i <= items@.len(),
            pluau_pairs(r@) =~= pluau_pairs(items@).take(i as int),
        decreases items@.len() - i,
    {
        proof {
            assert(decreases_to!(items => items@));
            assert(decreases_to!(items@ => items@[i as int]));
            assert(decreases_to!(items@[i as int] => items@[i as int].0));
            assert(decreases_to!(items@[i as int] => items@[i as int].1));
        }
        let ghost before = r@;
        let item = (items[i].0.duplicate(), items[i].1.duplicate());
        r.push(item);
        assert(pluau_pairs(r@) =~= pluau_pairs(before).push((item.0@, item.1@)));
        i += 1;
    }
    assert(pluau_pairs(r@) =~= pluau_pairs(items@));
    r
}

impl ProxiedLuauValue {
    /// A copy of the value.
    pub fn duplicate(&self) -> (r: Self)
        ensures
            r@ == self@,
        decreases self, 1nat,
    {
        match self {
            ProxiedLuauValue::Primitive(p) => ProxiedLuauValue::Primitive(p.duplicate()),
            ProxiedLuauValue::Psuedoprimitive(p) => ProxiedLuauValue::Psuedoprimitive(p.duplicate()),
            ProxiedLuauValue::TargetOwnedObject(o) => ProxiedLuauValue::TargetOwnedObject((o.0, o.1)),
            ProxiedLuauValue::SourceOwnedObject(o) => ProxiedLuauValue::SourceOwnedObject((o.0, o.1)),
        }
    }
}

impl ProxiedLuauPsuedoPrimitive {
    /// A copy of the psuedoprimitive.
    pub fn duplicate(&self) -> (r: Self)
        ensures
            r@ == self@,
        decreases self, 1nat,
    {
        match self {
            ProxiedLuauPsuedoPrimitive::Number(n) => ProxiedLuauPsuedoPrimitive::Number(*n),
            ProxiedLuauPsuedoPrimitive::Vector(v) => ProxiedLuauPsuedoPrimitive::Vector(*v),
            ProxiedLuauPsuedoPrimitive::StringBytes(bytes) => {
                ProxiedLuauPsuedoPrimitive::StringBytes(copy_bytes(bytes.as_slice()))
            },
            ProxiedLuauPsuedoPrimitive::StaticList(items) => {
                proof {
                    assert(decreases_to!(self => self->StaticList_0));
                }
                let r = ProxiedLuauPsuedoPrimitive::StaticList(duplicate_values(items));
                assert(r@->List_0 =~= pluau_views(r->StaticList_0@));
                assert(self@->List_0 =~= pluau_views(items@));
                r
            },
            ProxiedLuauPsuedoPrimitive::StaticMap(entries) => {
                proof {
                    assert(decreases_to!(self => self->StaticMap_0));
                }
                let r = ProxiedLuauPsuedoPrimitive::StaticMap(duplicate_pairs(entries));
                assert(r@->Dict_0 =~= pluau_pairs(r->StaticMap_0@));
                assert(self@->Dict_0 =~= pluau_pairs(entries@));
                r
            },
        }
    }
}

} // verus!
