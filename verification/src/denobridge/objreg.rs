//! The registry of v8 objects that Luau refers to.

use vstd::prelude::*;

use crate::luau::objreg::registry_full;
use crate::registry::{
    after_deeds, balance, law_get_gives_what_was_added, law_held_until_the_last_drop,
    law_same_object_same_number, Deed, ObjectRef, Registry, RegistryView,
};

verus! {

/// An ID for an object in the object registry
#[derive(Clone, Copy, Debug, PartialEq, Eq, Hash, Structural)]
pub struct V8ObjectRegistryID {
    objid: i64,
}

impl V8ObjectRegistryID {
    /// The number of the object.
    pub closed spec fn view(self) -> i64 {
        self.objid
    }

    /// The number of the object.
    pub fn objid(&self) -> (r: i64)
        ensures
            r == self@,
    {
        self.objid
    }

    /// The ID with that number.
    pub fn from_i64(id: i64) -> (r: Self)
        ensures
            r@ == id,
    {
        V8ObjectRegistryID { objid: id }
    }
}

impl From<V8ObjectRegistryID> for i64 {
    fn from(id: V8ObjectRegistryID) -> (r: Self) {
        id.objid()
    }
}

impl vstd::std_specs::convert::FromSpecImpl<V8ObjectRegistryID> for i64 {
    open spec fn obeys_from_spec() -> bool {
        true
    }

    open spec fn from_spec(id: V8ObjectRegistryID) -> Self {
        id@
    }
}

/// The number that v8 is handed for an ID: its low 32 bits.
pub open spec fn v8_number(id: i64) -> i64 {
    (id as i32) as i64
}

/// Whether a registry is in order and gives out numbers that v8 is handed as they are.
pub open spec fn fits_v8(reg: RegistryView) -> bool {
    reg.wf() && reg.last == i32::MAX
}

/// The object that v8 finds for an ID.
pub open spec fn found(reg: RegistryView, id: i64) -> Option<ObjectRef> {
    if reg.live.dom().contains(v8_number(id)) {
        Some(reg.live[v8_number(id)].obj)
    } else {
        None
    }
}

/// What was done with a registry, with the numbers that v8 was handed.
pub open spec fn v8_deeds(deeds: Seq<Deed>) -> Seq<Deed> {
    deeds.map_values(
        |d: Deed|
            match d {
                Deed::Add(obj) => Deed::Add(obj),
                Deed::Drop(id) => Deed::Drop(v8_number(id)),
            },
    )
}

/// v8 objects by number, each with the count of how often it was handed out.
pub struct V8ObjectRegistry {
    reg: Registry,
}

impl V8ObjectRegistry {
    /// What the registry holds.
    pub closed spec fn view(&self) -> RegistryView {
        self.reg.view()
    }

    /// The registry is in order, and every number in it fits what v8 is handed.
    pub closed spec fn wf(&self) -> bool {
        self.reg.wf() && self.reg.view().last == i32::MAX
    }

    /// What a registry in order holds is in order, under numbers that v8 is handed as they are.
    pub proof fn lemma_wf(&self)
        requires
            self.wf(),
        ensures
            fits_v8(self@),
            1 <= self@.next,
            forall|id: i64| #[trigger]
                self@.live.dom().contains(id) ==> 1 <= id <= i32::MAX && v8_number(id) == id,
    {
        self.reg.lemma_wf();
    }

    /// Creates an empty registry
    pub fn new() -> (r: Self)
        ensures
            r.wf(),
            r@ == (RegistryView { live: Map::empty(), next: 1, last: i32::MAX as i64 }),
    {
        V8ObjectRegistry { reg: Registry::new(2147483647) }
    }

    /// Adds a value to the V8 object registry and returns its ID
    ///
    /// Increments the reference count if the object is already present
    pub fn add(&mut self, obj: ObjectRef) -> (r: Result<V8ObjectRegistryID, String>)
        requires
            old(self).wf(),
        ensures
            final(self).wf(),
            r is Ok <==> old(self)@.admits(obj),
            r matches Ok(id) ==> id@ == old(self)@.id_for(obj) && final(self)@ == old(self)@.added(
                obj,
            ),
            r matches Err(e) ==> e@ == registry_full() && final(self)@ == old(self)@,
    {
        match self.reg.add(obj) {
            Some(id) => Ok(V8ObjectRegistryID::from_i64(id)),
            None => Err("Object registry is full".to_owned()),
        }
    }

    /// Gets a value from the V8 object registry by ID.
    ///
    /// Does not increment the reference count in the registry.
    ///
    /// There is none if the ID does not exist
    pub fn get(&self, id: V8ObjectRegistryID) -> (r: Option<ObjectRef>)
        requires
            self.wf(),
        ensures
            r == found(self@, id@),
    {
        self.reg.get(#[verifier::truncate] (id.objid() as i32) as i64)
    }

    /// Whether the object is registered.
    pub fn is_held(&self, obj: ObjectRef) -> (r: bool)
        requires
            self.wf(),
        ensures
            r == self@.holds(obj),
    {
        self.reg.is_held(obj)
    }

    /// Removes a value from the V8 object registry by ID
    ///
    /// Decrements the reference count, removing the object if it reaches 0
    pub fn drop(&mut self, id: V8ObjectRegistryID)
        requires
            old(self).wf(),
        ensures
            final(self).wf(),
            final(self)@ == old(self)@.dropped(v8_number(id@)),
    {
        self.reg.drop(#[verifier::truncate] (id.objid() as i32) as i64);
    }
}

/// v8 is handed the very number under which an object was registered.
pub proof fn law_v8_number_is_the_number(id: i64)
    requires
        0 <= id <= i32::MAX,
    ensures
        v8_number(id) == id,
{
}

/// An object that was registered is found under the ID that it was given.
pub proof fn law_registered_object_is_found(reg: RegistryView, obj: ObjectRef)
    requires
        fits_v8(reg),
        reg.admits(obj),
    ensures
        v8_number(reg.id_for(obj)) == reg.id_for(obj),
        found(reg.added(obj), reg.id_for(obj)) == Some(obj),
{
    law_get_gives_what_was_added(reg, obj);
    if reg.holds(obj) {
        assert(reg.live.dom().contains(reg.number_of(obj)));
    }
}

/// Whatever else is added and dropped, a registered object is found until it was dropped as often
/// as it was added, and is not found then.
pub proof fn law_found_until_the_last_drop(reg: RegistryView, id: i64, deeds: Seq<Deed>)
    requires
        fits_v8(reg),
        reg.live.dom().contains(id),
        forall|k: int|
            0 <= k < deeds.len() ==> reg.live[id].refs + #[trigger] balance(
                reg,
                v8_deeds(deeds).take(k),
                reg.live[id].obj,
                id,
            ) > 0,
    ensures
        ({
            let after = after_deeds(reg, v8_deeds(deeds));
            let count = reg.live[id].refs + balance(reg, v8_deeds(deeds), reg.live[id].obj, id);
            &&& fits_v8(after)
            &&& count >= 0
            &&& found(after, id) == if count > 0 {
                Some(reg.live[id].obj)
            } else {
                None
            }
        }),
{
    law_held_until_the_last_drop(reg, id, v8_deeds(deeds));
}

/// The registry after an object was added some times.
pub open spec fn added_times(reg: RegistryView, obj: ObjectRef, n: nat) -> RegistryView
    decreases n,
{
    if n == 0 {
        reg
    } else {
        added_times(reg, obj, (n - 1) as nat).added(obj)
    }
}

/// The registry after an ID was dropped some times.
pub open spec fn dropped_times(reg: RegistryView, id: i64, k: nat) -> RegistryView
    decreases k,
{
    if k == 0 {
        reg
    } else {
        dropped_times(reg, id, (k - 1) as nat).dropped(v8_number(id))
    }
}

proof fn lemma_added_times(reg: RegistryView, obj: ObjectRef, n: nat)
    requires
        fits_v8(reg),
        reg.admits(obj),
        !reg.holds(obj),
        1 <= n <= u64::MAX,
    ensures
        ({
            let after = added_times(reg, obj, n);
            &&& fits_v8(after)
            &&& after.id_for(obj) == reg.id_for(obj)
            &&& after.live.dom().contains(reg.id_for(obj))
            &&& after.live[reg.id_for(obj)].obj == obj
            &&& after.live[reg.id_for(obj)].refs == n
        }),
    decreases n,
{
    reveal_with_fuel(added_times, 2);
    if n == 1 {
        law_same_object_same_number(reg, obj);
    } else {
        let before = added_times(reg, obj, (n - 1) as nat);
        lemma_added_times(reg, obj, (n - 1) as nat);
        let id = reg.id_for(obj);
        assert(before.live.dom().contains(id) && before.live[id].obj == obj);
        law_same_object_same_number(before, obj);
    }
}

/// An object that was added `n` times is found until the `n`th drop of its ID, and not after it.
pub proof fn law_as_many_drops_as_adds(reg: RegistryView, obj: ObjectRef, n: nat, k: nat)
    requires
        fits_v8(reg),
        reg.admits(obj),
        !reg.holds(obj),
        1 <= n <= u64::MAX,
        k <= n,
    ensures
        found(
            dropped_times(added_times(reg, obj, n), reg.id_for(obj), k),
            reg.id_for(obj),
        ) == if k < n {
            Some(obj)
        } else {
            None
        },
{
    lemma_added_times(reg, obj, n);
    lemma_dropped_times(added_times(reg, obj, n), reg.id_for(obj), k);
}

proof fn lemma_dropped_times(reg: RegistryView, id: i64, k: nat)
    requires
        fits_v8(reg),
        reg.live.dom().contains(id),
        k <= reg.live[id].refs,
    ensures
        ({
            let after = dropped_times(reg, id, k);
            &&& after.live.dom().contains(id) <==> k < reg.live[id].refs
            &&& k < reg.live[id].refs ==> after.live[id].obj == reg.live[id].obj
                && after.live[id].refs == reg.live[id].refs - k
        }),
    decreases k,
{
    if k > 0 {
        lemma_dropped_times(reg, id, (k - 1) as nat);
    }
}

/// Two IDs are the same exactly when they have the same number.
pub proof fn law_v8_id_is_its_number(a: V8ObjectRegistryID, b: V8ObjectRegistryID)
    ensures
        a == b <==> a@ == b@,
{
}

} // verus!
