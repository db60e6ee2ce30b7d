pub mod concurrency;
pub mod deno;
pub mod law_back;
pub mod law_kinds;
pub mod law_path;
pub mod law_place;
pub mod luau;
pub mod message;
pub mod objects;
pub mod path;
pub mod proxy_bridge;

pub use message::{ClientMessage, InitialData, ServerMessage};
