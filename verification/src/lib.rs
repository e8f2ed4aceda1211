pub mod varint;
pub mod wire;
pub mod codec;
pub mod string_map;
pub mod message;
pub mod proto;
pub mod text;
pub mod primitives;
pub mod tree;
pub mod inspect;
pub mod api;
pub mod client;
pub mod json;
