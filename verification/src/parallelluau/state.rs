//! The two states that values go between, and the objects that each has handed out.

use vstd::prelude::*;

use crate::luau::bridge::ProxyLuaClient;
use crate::luau::embedder_api::EmbedderData;
use crate::luau::objreg::{registry_full, unknown_object, LuauObjectRegistryID};
use crate::parallelluau::objreg::{PLuauObjectRegistryID, PObjRegistryLuau};
use crate::registry::{ObjectRef, RegistryView};

verus! {

/// The client side state for proxying Lua values
pub struct ProxyPLuaClient {
    /// The objects of the child state that the host holds.
    pub obj_registry: PObjRegistryLuau,
    /// What the embedding program allows.
    pub ed: EmbedderData,
}

impl ProxyPLuaClient {
    /// The registry is in order.
    pub open spec fn wf(&self) -> bool {
        self.obj_registry.wf()
    }

    /// A client with an empty registry.
    pub fn new(ed: EmbedderData) -> (r: Self)
        ensures
            r.wf(),
            r.ed == ed,
            r.obj_registry@ == (RegistryView { live: Map::empty(), next: 1, last: i64::MAX }),
    {
        ProxyPLuaClient { obj_registry: PObjRegistryLuau::new(), ed }
    }
}

/// One of the two states, as far as a conversion needs it.
pub trait StateClient: Sized {
    /// The registry is in order.
    spec fn in_order(&self) -> bool;

    /// The objects that the state has handed out.
    spec fn registry(&self) -> RegistryView;

    /// What the embedding program allows.
    spec fn allowance(&self) -> EmbedderData;

    /// Whether this is the host state.
    spec fn hosting() -> bool;

    /// Whether this is the host state.
    fn is_host() -> (r: bool)
        ensures
            r == Self::hosting(),
    ;

    /// Hands an object out once more.
    fn hand_out(&mut self, obj: ObjectRef) -> (r: Result<i64, String>)
        requires
            old(self).in_order(),
        ensures
            final(self).in_order(),
            final(self).allowance() == old(self).allowance(),
            r is Ok <==> old(self).registry().admits(obj),
            r matches Ok(id) ==> id == old(self).registry().id_for(obj) && final(self).registry()
                == old(self).registry().added(obj),
            r matches Err(e) ==> e@ == registry_full() && final(self).registry() == old(
                self,
            ).registry(),
    ;

    /// The object with that number.
    fn look_up(&self, id: i64) -> (r: Result<ObjectRef, String>)
        requires
            self.in_order(),
        ensures
            r is Ok <==> self.registry().live.dom().contains(id),
            r matches Ok(obj) ==> obj == self.registry().live[id].obj,
            r matches Err(e) ==> e@ == unknown_object(id),
    ;
}

impl StateClient for ProxyLuaClient {
    open spec fn in_order(&self) -> bool {
        self.wf()
    }

    open spec fn registry(&self) -> RegistryView {
        self.obj_registry@
    }

    open spec fn allowance(&self) -> EmbedderData {
        self.ed
    }

    open spec fn hosting() -> bool {
        true
    }

    fn is_host() -> (r: bool) {
        true
    }

    fn hand_out(&mut self, obj: ObjectRef) -> (r: Result<i64, String>) {
        match self.obj_registry.add(obj) {
            Ok(id) => Ok(id.objid()),
            Err(e) => Err(e),
        }
    }

    fn look_up(&self, id: i64) -> (r: Result<ObjectRef, String>) {
        self.obj_registry.get(LuauObjectRegistryID::from_i64(id))
    }
}

impl StateClient for ProxyPLuaClient {
    open spec fn in_order(&self) -> bool {
        self.wf()
    }

    open spec fn registry(&self) -> RegistryView {
        self.obj_registry@
    }

    open spec fn allowance(&self) -> EmbedderData {
        self.ed
    }

    open spec fn hosting() -> bool {
        false
    }

    fn is_host() -> (r: bool) {
        false
    }

    fn hand_out(&mut self, obj: ObjectRef) -> (r: Result<i64, String>) {
        match self.obj_registry.add(obj) {
            Ok(id) => Ok(id.objid()),
            Err(e) => Err(e),
        }
    }

    fn look_up(&self, id: i64) -> (r: Result<ObjectRef, String>) {
        self.obj_registry.get(PLuauObjectRegistryID::from_i64(id))
    }
}

} // verus!
