pub mod client;
pub mod convert;
pub mod foreignref;
pub mod law_copy;
pub mod law_cost;
pub mod law_kinds;
pub mod law_place;
pub mod many;
pub mod objreg;
pub mod primitives;
pub mod psuedoprimitive;
pub mod state;
pub mod value;
