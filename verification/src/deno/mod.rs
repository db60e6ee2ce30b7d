pub mod bridge;
pub mod law_bridge;
pub mod law_kinds;
pub mod law_place;
pub mod manager;
pub mod ops;
pub mod tree;
