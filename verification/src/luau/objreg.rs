//! The registry of Luau objects that another runtime refers to.

use vstd::prelude::*;

use crate::registry::{ObjectRef, Registry, RegistryView};
use crate::text::{decimal_i64, decimal_int, join3};

verus! {

/// An ID for an object in the object registry
#[derive(Clone, Copy, Debug, PartialEq, Eq, Hash, Structural)]
pub struct LuauObjectRegistryID {
    objid: i64,
}

impl LuauObjectRegistryID {
    /// The number of the object.
    pub closed spec fn view(self) -> i64 {
        self.objid
    }

    /// The number of the object.
    pub fn objid(&self) -> (r: i64)
        ensures
            r == self@,
    {
        self.objid
    }

    /// The ID with that number.
    pub fn from_i64(id: i64) -> (r: Self)
        ensures
            r@ == id,
    {
        LuauObjectRegistryID { objid: id }
    }

    /// The number of the object in decimal.
    pub fn text(&self) -> (r: String)
        ensures
            r@ == decimal_int(self@ as int),
    {
        decimal_i64(self.objid)
    }
}

/// What is said of a number that no object has.
pub open spec fn unknown_object(id: i64) -> Seq<char> {
    "Object with ID "@ + decimal_int(id as int) + " not found in registry"@
}

/// What is said when no number is left.
pub open spec fn registry_full() -> Seq<char> {
    "Object registry is full"@
}

/// The text of `unknown_object`.
pub fn unknown_object_text(id: i64) -> (r: String)
    ensures
        r@ == unknown_object(id),
{
    let number = decimal_i64(id);
    join3("Object with ID ", &number, " not found in registry")
}

/// Luau objects by number, each with the count of how often it was handed out.
pub struct ObjRegistryLuau {
    reg: Registry,
}

impl ObjRegistryLuau {
    /// What the registry holds.
    pub closed spec fn view(&self) -> RegistryView {
        self.reg.view()
    }

    /// The registry is in order.
    pub closed spec fn wf(&self) -> bool {
        self.reg.wf()
    }

    /// What a registry in order holds is in order.
    pub proof fn lemma_wf(&self)
        requires
            self.wf(),
        ensures
            self@.wf(),
    {
        self.reg.lemma_wf();
    }

    /// Creates an empty registry
    pub fn new() -> (r: Self)
        ensures
            r.wf(),
            r@ == (RegistryView { live: Map::empty(), next: 1, last: i64::MAX }),
    {
        ObjRegistryLuau { reg: Registry::new(i64::MAX) }
    }

    /// Adds the obj ``obj`` to the registry and returns its ID
    ///
    /// Reuses the ID of an object that is already there
    ///
    /// Increments refcount of the object
    pub fn add(&mut self, obj: ObjectRef) -> (r: Result<LuauObjectRegistryID, String>)
        requires
            old(self).wf(),
        ensures
            final(self).wf(),
            r is Ok <==> old(self)@.admits(obj),
            r matches Ok(id) ==> id@ == old(self)@.id_for(obj) && final(self)@ == old(self)@.added(
                obj,
            ),
            r matches Err(e) ==> e@ == registry_full() && final(self)@ == old(self)@,
    {
        match self.reg.add(obj) {
            Some(id) => Ok(LuauObjectRegistryID::from_i64(id)),
            None => Err("Object registry is full".to_owned()),
        }
    }

    /// The object with that ID
    ///
    /// Does not modify refcount
    pub fn get(&self, id: LuauObjectRegistryID) -> (r: Result<ObjectRef, String>)
        requires
            self.wf(),
        ensures
            r is Ok <==> self@.live.dom().contains(id@),
            r matches Ok(obj) ==> obj == self@.live[id@].obj,
            r matches Err(e) ==> e@ == unknown_object(id@),
    {
        match self.reg.get(id.objid()) {
            Some(obj) => Ok(obj),
            None => Err(unknown_object_text(id.objid())),
        }
    }

    /// Whether the object is registered.
    pub fn is_held(&self, obj: ObjectRef) -> (r: bool)
        requires
            self.wf(),
        ensures
            r == self@.holds(obj),
    {
        self.reg.is_held(obj)
    }

    /// Decrements refcount of the object, removing it from the registry if refcount reaches 0
    ///
    /// Does nothing for an ID that is not in use
    pub fn drop(&mut self, id: LuauObjectRegistryID)
        requires
            old(self).wf(),
        ensures
            final(self).wf(),
            final(self)@ == old(self)@.dropped(id@),
    {
        self.reg.drop(id.objid());
    }
}

/// Two IDs are the same exactly when they have the same number.
pub proof fn law_luau_id_is_its_number(a: LuauObjectRegistryID, b: LuauObjectRegistryID)
    ensures
        a == b <==> a@ == b@,
{
}

} // verus!
