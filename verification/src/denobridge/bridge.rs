//! The v8 end of the bridge.

use vstd::prelude::*;

verus! {

/// Minimum heap size for V8 isolates
pub const MIN_HEAP_LIMIT: usize = 10 * 1024 * 1024;

/// What sort of v8 object is referred to.
#[derive(Clone, Copy, Debug, PartialEq, Eq, Structural)]
pub enum V8ObjectRegistryType {
    ArrayBuffer,
    Object,
    Function,
    Promise,
}

} // verus!
