//! Values on their way between v8 and Luau.

use vstd::prelude::*;

use crate::denobridge::bridge::V8ObjectRegistryType;
use crate::denobridge::objreg::V8ObjectRegistryID;
use crate::denobridge::primitives::ProxiedV8Primitive;
use crate::denobridge::psuedoprimitive::ProxiedV8PsuedoPrimitive;
use crate::luau::bridge::ObjectRegistryType;
use crate::luau::objreg::LuauObjectRegistryID;
use crate::luau::value::{Number, Vector3};
use crate::text::copy_bytes;

verus! {

/// A V8 value that can now be easily proxied to Luau
#[derive(Debug, PartialEq, Eq)]
pub enum ProxiedV8Value {
    /// Primitive values
    Primitive(ProxiedV8Primitive),
    /// Psuedoprimitive values
    Psuedoprimitive(ProxiedV8PsuedoPrimitive),
    /// v8-owned stuff: (Type, ID) of the v8-owned object
    V8OwnedObject((V8ObjectRegistryType, V8ObjectRegistryID)),
    /// Source-owned stuff: (Type, ID) of the source-owned object
    SourceOwnedObject((ObjectRegistryType, LuauObjectRegistryID)),
}

/// A value on its way between v8 and Luau.
#[verifier::ext_equal]
pub enum V8View {
    Nil,
    Undefined,
    Boolean(bool),
    Integer(i32),
    BigInt(i64),
    String(Seq<char>),
    Number(Number),
    Vector(Vector3),
    Bytes(Seq<u8>),
    List(Seq<V8View>),
    Dict(Seq<(V8View, V8View)>),
    V8Owned(V8ObjectRegistryType, i64),
    SourceOwned(ObjectRegistryType, i64),
}

/// Several values.
pub open spec fn v8_views(s: Seq<ProxiedV8Value>) -> Seq<V8View> {
    s.map_values(|v: ProxiedV8Value| v.view())
}

/// Several keys with their values.
pub open spec fn v8_pairs(s: Seq<(ProxiedV8Value, ProxiedV8Value)>) -> Seq<(V8View, V8View)> {
    s.map_values(|e: (ProxiedV8Value, ProxiedV8Value)| (e.0.view(), e.1.view()))
}

impl V8View {
    /// Whether the value is a primitive.
    pub open spec fn is_primitive(self) -> bool {
        match self {
            V8View::Nil => true,
            V8View::Undefined => true,
            V8View::Boolean(_) => true,
            V8View::Integer(_) => true,
            V8View::BigInt(_) => true,
            V8View::String(_) => true,
            _ => false,
        }
    }
}

impl ProxiedV8Value {
    /// What the value is.
    pub open spec fn view(self) -> V8View
        decreases self,
    {
        match self {
            ProxiedV8Value::Primitive(p) => p.view(),
            ProxiedV8Value::Psuedoprimitive(p) => p.view(),
            ProxiedV8Value::V8OwnedObject(o) => V8View::V8Owned(o.0, o.1@),
            ProxiedV8Value::SourceOwnedObject(o) => V8View::SourceOwned(o.0, o.1@),
        }
    }
}

/// A copy of several values.
pub fn duplicate_values(items: &Vec<ProxiedV8Value>) -> (r: Vec<ProxiedV8Value>)
    ensures
        v8_views(r@) == v8_views(items@),
    decreases items, 0nat,
{
    let mut r: Vec<ProxiedV8Value> = Vec::new();
    let mut i: usize = 0;
    while i < items.len()
        invariant
            i <= items@.len(),
            v8_views(r@) =~= v8_views(items@).take(i as int),
        decreases items@.len() - i,
    {
        proof {
            assert(decreases_to!(items => items@));
            assert(decreases_to!(items@ => items@[i as int]));
        }
        let ghost before = r@;
        let item = items[i].duplicate();
        r.push(item);
        assert(v8_views(r@) =~= v8_views(before).push(item@));
        i += 1;
    }
    assert(v8_views(r@) =~= v8_views(items@));
    r
}

/// A copy of several keys with their values.
fn duplicate_pairs(items: &Vec<(ProxiedV8Value, ProxiedV8Value)>) -> (r: Vec<
    (ProxiedV8Value, ProxiedV8Value),
>)
    ensures
        v8_pairs(r@) == v8_pairs(items@),
    decreases items, 0nat,
{
    let mut r: Vec<(ProxiedV8Value, ProxiedV8Value)> = Vec::new();
    let mut i: usize = 0;
    while i < items.len()
        invariant
            i <= items@.len(),
            v8_pairs(r@) =~= v8_pairs(items@).take(i as int),
        decreases items@.len() - i,
    {
        proof {
            assert(decreases_to!(items => items@));
            assert(decreases_to!(items@ => items@[i as int]));
            assert(decreases_to!(items@[i as int] => items@[i as int].0));
            assert(decreases_to!(items@[i as int] => items@[i as int].1));
        }
        let ghost before = r@;
        let item = (items[i].0.duplicate(), items[i].1.duplicate());
        r.push(item);
        assert(v8_pairs(r@) =~= v8_pairs(before).push((item.0@, item.1@)));
        i += 1;
    }
    assert(v8_pairs(r@) =~= v8_pairs(items@));
    r
}

impl ProxiedV8Value {
    /// Whether the value is a primitive.
    pub fn is_primitive(&self) -> (r: bool)
        ensures
            r == self@.is_primitive(),
    {
        match self {
            ProxiedV8Value::Primitive(_) => true,
            _ => false,
        }
    }

    /// A copy of the value.
    pub fn duplicate(&self) -> (r: Self)
        ensures
            r@ == self@,
        decreases self, 1nat,
    {
        match self {
            ProxiedV8Value::Primitive(p) => ProxiedV8Value::Primitive(p.duplicate()),
            ProxiedV8Value::Psuedoprimitive(p) => ProxiedV8Value::Psuedoprimitive(p.duplicate()),
            ProxiedV8Value::V8OwnedObject(o) => ProxiedV8Value::V8OwnedObject((o.0, o.1)),
            ProxiedV8Value::SourceOwnedObject(o) => ProxiedV8Value::SourceOwnedObject((o.0, o.1)),
        }
    }
}

impl ProxiedV8PsuedoPrimitive {
    /// A copy of the psuedoprimitive.
    pub fn duplicate(&self) -> (r: Self)
        ensures
            r@ == self@,
        decreases self, 1nat,
    {
        match self {
            ProxiedV8PsuedoPrimitive::Number(n) => ProxiedV8PsuedoPrimitive::Number(*n),
            ProxiedV8PsuedoPrimitive::Vector(v) => ProxiedV8PsuedoPrimitive::Vector(*v),
            ProxiedV8PsuedoPrimitive::StringBytes(bytes) => {
                ProxiedV8PsuedoPrimitive::StringBytes(copy_bytes(bytes.as_slice()))
            },
            ProxiedV8PsuedoPrimitive::StaticList(items) => {
                proof {
                    assert(decreases_to!(self => self->StaticList_0));
                }
                let r = ProxiedV8PsuedoPrimitive::StaticList(duplicate_values(items));
                assert(r@->List_0 =~= v8_views(r->StaticList_0@));
                assert(self@->List_0 =~= v8_views(items@));
                r
            },
            ProxiedV8PsuedoPrimitive::StaticMap(entries) => {
                proof {
                    assert(decreases_to!(self => self->StaticMap_0));
                }
                let r = ProxiedV8PsuedoPrimitive::StaticMap(duplicate_pairs(entries));
                assert(r@->Dict_0 =~= v8_pairs(r->StaticMap_0@));
                assert(self@->Dict_0 =~= v8_pairs(entries@));
                r
            },
        }
    }
}

} // verus!
