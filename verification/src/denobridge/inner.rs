//! The state of one v8 isolate.

use vstd::prelude::*;

use crate::denobridge::objreg::V8ObjectRegistry;
use crate::luau::embedder_api::EmbedderData;

verus! {

/// The v8 side state for proxying values
pub struct ProxyV8Client {
    /// The v8 objects that Luau holds.
    pub obj_registry: V8ObjectRegistry,
}

/// What the conversions of an isolate share.
pub struct CommonState {
    pub proxy_client: ProxyV8Client,
    pub ed: EmbedderData,
}

impl CommonState {
    /// The registry is in order.
    pub open spec fn wf(&self) -> bool {
        self.proxy_client.obj_registry.wf()
    }

    /// The state of a new isolate.
    pub fn new(ed: EmbedderData) -> (r: Self)
        ensures
            r.wf(),
            r.ed == ed,
            r.proxy_client.obj_registry@.live == Map::<i64, crate::registry::Held>::empty(),
            r.proxy_client.obj_registry@.next == 1,
            r.proxy_client.obj_registry@.last == i32::MAX,
    {
        CommonState { proxy_client: ProxyV8Client { obj_registry: V8ObjectRegistry::new() }, ed }
    }
}

} // verus!
