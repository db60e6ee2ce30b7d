pub mod bridge;
pub mod embedder_api;
pub mod event;
pub mod langbridge;
pub mod law_account;
pub mod law_messages;
pub mod objreg;
pub mod service;
pub mod unknownvalue;
pub mod value;

pub use objreg::LuauObjectRegistryID;
