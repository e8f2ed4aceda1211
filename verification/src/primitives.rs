//! The cluster and node records that the API reads from the chain: node
//! keys, cluster identifiers and the parameters of storage nodes.
use vstd::prelude::*;
use vstd::std_specs::cmp::PartialEqSpecImpl;
use crate::text::{hex_decode, hex_of, hex_text, lemma_hex_of_shape, lemma_unhex_hex_of, push_hex, push_str, trim_0x, trim_start_0x, unhex};

verus! {

/// A bucket identifier.
pub type BucketId = u64;

/// A time capsule era.
pub type TcaEra = u32;

/// An era of historical documents.
pub type EhdEra = u32;

/// A 32-byte account identifier.
#[derive(Debug, Clone, Copy)]
pub struct AccountId32(pub [u8; 32]);

/// The public key of a node.
#[derive(Debug, Clone, Copy)]
pub enum NodePubKey {
    StoragePubKey(AccountId32),
}

impl View for NodePubKey {
    type V = Seq<u8>;

    /// The key's bytes.
    open spec fn view(&self) -> Seq<u8> {
        match self {
            NodePubKey::StoragePubKey(a) => a.0@,
        }
    }
}

/// The text form of a key: `0x` and its bytes in lowercase hexadecimal.
pub open spec fn key_text(k: Seq<u8>) -> Seq<char> {
    hex_text(k)
}

/// The key that a text form names: its leading `0x` dropped, the rest read
/// as hexadecimal, which must spell exactly 32 bytes.
pub open spec fn key_of_text(s: Seq<char>) -> Option<Seq<u8>> {
    match unhex(trim_0x(s)) {
        Some(b) => if b.len() == 32 { Some(b) } else { None },
        None => None,
    }
}

impl NodePubKey {
    /// The storage key with these bytes.
    pub fn storage(bytes: [u8; 32]) -> (r: NodePubKey)
        ensures
            r@ == bytes@,
    {
        NodePubKey::StoragePubKey(AccountId32(bytes))
    }

    /// The key's bytes.
    pub fn as_bytes(&self) -> (r: &[u8; 32])
        ensures
            r@ == self@,
    {
        match self {
            NodePubKey::StoragePubKey(a) => &a.0,
        }
    }

    /// The text form of the key, as it stands in URLs.
    pub fn to_key_string(&self) -> (r: String)
        ensures
            r@ == key_text(self@),
    {
        let mut s = String::new();
        push_str(&mut s, "0x");
        push_hex(&mut s, self.as_bytes().as_slice());
        proof {
            reveal_strlit("0x");
            assert(s@ =~= key_text(self@));
        }
        s
    }

    /// The storage key with these bytes, if there are exactly 32 of them.
    pub fn from_slice(b: &[u8]) -> (r: Option<NodePubKey>)
        ensures
            b@.len() == 32 ==> (r matches Some(k) && k@ == b@),
            b@.len() != 32 ==> r is None,
    {
        if b.len() != 32 {
            return None;
        }
        let mut arr: [u8; 32] = [0u8; 32];
        let mut i: usize = 0;
        while i < 32
            invariant
                b@.len() == 32,
                0 <= i <= 32,
                forall|j: int| 0 <= j < i ==> arr@[j] == b@[j],
            decreases 32 - i,
        {
            arr.set(i, b[i]);
            i = i + 1;
        }
        proof {
            assert(arr@ =~= b@);
        }
        Some(NodePubKey::storage(arr))
    }

    /// The key that a text form names, if it names one.
    pub fn try_from_str(s: &str) -> (r: Option<NodePubKey>)
        ensures
            match key_of_text(s@) {
                Some(b) => r matches Some(k) && k@ == b,
                None => r is None,
            },
    {
        let digits = trim_start_0x(s);
        match hex_decode(digits) {
            Some(v) => NodePubKey::from_slice(v.as_slice()),
            None => None,
        }
    }

    /// Whether two keys have the same bytes.
    pub fn same_as(&self, other: &NodePubKey) -> (r: bool)
        ensures
            r == (self@ == other@),
    {
        let a = self.as_bytes();
        let b = other.as_bytes();
        let mut i: usize = 0;
        while i < 32
            invariant
                a@ == self@,
                b@ == other@,
                a@.len() == 32,
                b@.len() == 32,
                0 <= i <= 32,
                forall|j: int| 0 <= j < i ==> a@[j] == b@[j],
            decreases 32 - i,
        {
            if a[i] != b[i] {
                return false;
            }
            i = i + 1;
        }
        proof {
            assert(a@ =~= b@);
        }
        true
    }
}

impl PartialEq for NodePubKey {
    fn eq(&self, other: &NodePubKey) -> (r: bool) {
        self.same_as(other)
    }
}

impl PartialEqSpecImpl for NodePubKey {
    open spec fn obeys_eq_spec() -> bool {
        true
    }

    open spec fn eq_spec(&self, other: &NodePubKey) -> bool {
        self@ == other@
    }
}

/// Identifies a cluster.
#[derive(Debug, Clone, Copy, PartialEq)]
pub struct ClusterId(pub [u8; 20]);

/// The role a storage node plays.
#[derive(Debug, Clone, Copy, PartialEq, Eq, Structural)]
pub enum StorageNodeMode {
    Full,
    Storage,
    DAC,
    Compute,
}

/// What the chain records of a storage node.
#[derive(Debug, Clone, PartialEq)]
pub struct StorageNodeParams {
    pub mode: StorageNodeMode,
    pub host: Vec<u8>,
    pub domain: Vec<u8>,
    pub ssl: bool,
    pub http_port: u16,
    pub grpc_port: u16,
    pub p2p_port: u16,
}

/// What the chain records of a node.
#[derive(Debug, Clone, PartialEq)]
pub enum NodeParams {
    StorageParams(StorageNodeParams),
}

/// A cluster's settings for inspection dry runs.
#[derive(Debug, Clone, PartialEq)]
pub struct InspectionDryRunParams {
    pub enabled: bool,
    pub sync_node_key: NodePubKey,
    pub sync_node_params: StorageNodeParams,
}


/// A key's text form names the key again.
pub proof fn lemma_key_text_round_trip(k: Seq<u8>)
    requires
        k.len() == 32,
    ensures
        key_of_text(key_text(k)) == Some(k),
{
    let h = hex_of(k);
    lemma_hex_of_shape(k);
    lemma_unhex_hex_of(k);
    let t = key_text(k);
    assert(t.skip(2) =~= h);
    assert(t[0] == '0' && t[1] == 'x');
    assert(trim_0x(t) == trim_0x(h));
    assert(h[1] != 'x');
    assert(trim_0x(h) == h);
}

} // verus!
