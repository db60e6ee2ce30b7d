pub mod bridge;
pub mod bridgeops;
pub mod client;
pub mod conv_luau;
pub mod conv_v8;
pub mod embedder_api;
pub mod event;
pub mod inner;
pub mod jsvalue;
pub mod law_args;
pub mod law_arrives;
pub mod law_charge;
pub mod law_cost;
pub mod law_dispose;
pub mod law_dispose_v8;
pub mod law_items;
pub mod law_json;
pub mod law_kinds;
pub mod law_modules;
pub mod law_order;
pub mod law_owned;
pub mod law_roundtrip;
pub mod luauobjs;
pub mod many;
pub mod modloader;
pub mod objreg;
pub mod owned;
pub mod primitives;
pub mod psuedoprimitive;
pub mod value;
