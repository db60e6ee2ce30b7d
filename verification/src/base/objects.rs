//! The registries of single sorts of objects.

use vstd::prelude::*;

use crate::registry::{ObjectRef, Registry, RegistryView};

verus! {

/// Objects of one sort by number.
pub struct ObjectRegistry {
    reg: Registry,
}

impl ObjectRegistry {
    /// What the registry holds.
    pub closed spec fn view(&self) -> RegistryView {
        self.reg.view()
    }

    /// The registry is in order.
    pub closed spec fn wf(&self) -> bool {
        self.reg.wf()
    }

    /// What a registry in order holds is in order.
    pub proof fn lemma_wf(&self)
        requires
            self.wf(),
        ensures
            self@.wf(),
    {
        self.reg.lemma_wf();
    }

    /// An empty registry that gives out the numbers from 1 to `max`.
    pub fn new(max: i64) -> (r: Self)
        ensures
            r.wf(),
            r@ == (RegistryView { live: Map::empty(), next: 1, last: max }),
    {
        ObjectRegistry { reg: Registry::new(max) }
    }

    /// Hands the object out once more. There is no number where the registry is full.
    pub fn add(&mut self, obj: ObjectRef) -> (r: Option<i64>)
        requires
            old(self).wf(),
        ensures
            final(self).wf(),
            r is Some <==> old(self)@.admits(obj),
            r matches Some(id) ==> id == old(self)@.id_for(obj) && final(self)@ == old(self)@.added(
                obj,
            ),
            r is None ==> final(self)@ == old(self)@,
    {
        self.reg.add(obj)
    }

    /// The object with that number.
    pub fn get(&self, id: i64) -> (r: Option<ObjectRef>)
        requires
            self.wf(),
        ensures
            r is Some <==> self@.live.dom().contains(id),
            r matches Some(obj) ==> obj == self@.live[id].obj,
    {
        self.reg.get(id)
    }

    /// Whether the object is registered.
    pub fn is_held(&self, obj: ObjectRef) -> (r: bool)
        requires
            self.wf(),
        ensures
            r == self@.holds(obj),
    {
        self.reg.is_held(obj)
    }

    /// Takes the object out of the registry.
    pub fn remove(&mut self, id: i64)
        requires
            old(self).wf(),
        ensures
            final(self).wf(),
            final(self)@ == old(self)@.removed(id),
    {
        self.reg.remove(id);
    }
}

} // verus!
