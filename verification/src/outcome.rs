//! What a conversion leaves behind, whether it succeeds or not.

use vstd::prelude::*;

use crate::luau::embedder_api::EmbedderDataContext;
use crate::registry::RegistryView;

verus! {

/// The account after a conversion, and its result or the text of its error.
pub struct Charged<T> {
    pub ed: EmbedderDataContext,
    pub res: Result<T, Seq<char>>,
}

/// The registry and the account after a conversion, and its result or the text of its error.
pub struct Step<T> {
    pub reg: RegistryView,
    pub ed: EmbedderDataContext,
    pub res: Result<T, Seq<char>>,
}

} // verus!
