//! The JSON answers of older node endpoints.
use vstd::prelude::*;
use crate::primitives::NodePubKey;

verus! {

/// A JSON answer with the signer and signature that come with it.
#[derive(Debug)]
pub struct SignedJsonResponse<T> {
    pub payload: T,
    pub signer: Vec<u8>,
    pub signature: Vec<u8>,
}

/// Whether a node is a grouping collector.
#[derive(Debug)]
pub struct IsGCollectorResponse {
    pub is_g_collector: bool,
}

/// The grouping collectors that a node names.
#[derive(Debug)]
pub struct GCollectorsResponse {
    pub nodes_keys: Vec<NodePubKey>,
}

} // verus!
