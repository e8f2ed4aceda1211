//! The messages this library exchanges with DDC nodes, with their protobuf
//! encodings.
pub mod activity;
pub mod activity_tree;
pub mod era;
pub mod inspection;
pub mod signature;
