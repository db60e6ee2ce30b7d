use vstd::prelude::*;

pub mod base;
pub mod deno;
pub mod denobridge;
pub mod luau;
pub mod outcome;
pub mod parallelluau;
pub mod registry;
pub mod rquickjs;
pub mod text;
pub mod transport;

verus! {

/// How deeply containers may nest in a value that crosses a bridge.
pub const MAX_PROXY_DEPTH: usize = 10;

} // verus!
