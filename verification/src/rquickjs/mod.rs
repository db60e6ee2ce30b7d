pub mod law_kinds;
pub mod law_place;
pub mod loader;
pub mod runtime;
pub mod store;
pub mod value;

pub use loader::LoaderAndResolver;
pub use store::{PersistentStore, PersistentStoreHandler};
