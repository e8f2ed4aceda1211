//! The DDC node API as the chain's off-chain workers use it: which node to
//! ask, how its answers are read, and the errors that come back.
use vstd::prelude::*;
use vstd::utf8::{decode_utf8, valid_utf8};
use crate::client::{
    insp_url_for, is_proto_get, is_proto_post, list_url, opt_dec, opt_slice_view, Accept, DdcClient, HttpError,
    HttpRequest,
};
use crate::codec::{append_bytes, string_from_utf8};
use crate::primitives::{
    key_of_text, BucketId, ClusterId, EhdEra, InspectionDryRunParams, NodeParams, NodePubKey,
    StorageNodeMode, StorageNodeParams, TcaEra,
};
use crate::proto::activity::{
    ActivityTreeTraversalResponse, GetErasResponse, GetRecordsResponse, GroupingCollectorsResponse,
};
use crate::proto::activity_tree::{
    BucketAggregate, BucketAggregatesResponse, EhdTreeTraversalResponse, EhdTreeTraversedNode,
    NodeAggregate, NodeAggregatesResponse, PhdTreeTraversalResponse, PhdTreeTraversedNode,
    ActivityTreeTraversedNode,
};
use crate::proto::era::Era;
use crate::proto::inspection::{
    InspectionReceipt, LeaseRequest, PostAssignmentTableRequest, PostInspectionResultRequest,
};
use crate::text::{dec, push_dec, push_str};

verus! {

/// How long a node has to answer, in milliseconds.
pub const RESPONSE_TIMEOUT: u64 = 20000;

/// How many times a request is tried.
pub const MAX_RETRIES_COUNT: u32 = 3;

/// How many bucket aggregates are asked for in one page.
pub const BUCKETS_AGGREGATES_FETCH_BATCH_SIZE: usize = 100;

/// How many node aggregates are asked for in one page.
pub const NODES_AGGREGATES_FETCH_BATCH_SIZE: usize = 10;

/// What went wrong while asking a cluster's nodes.
#[allow(inconsistent_fields)]
#[derive(Debug, Clone, PartialEq)]
pub enum ApiError {
    HttpClientError { cluster_id: ClusterId, host: Vec<u8> },
    NodeHostParseError { cluster_id: ClusterId, node_key: NodePubKey, host: Vec<u8> },
    FailedToFetchCollector { cluster_id: ClusterId, node_key: NodePubKey },
    FailedToFetchCollectors { cluster_id: ClusterId },
    FailedToFetchGCollectors { cluster_id: ClusterId },
    FailedToFetchBucketAggregates { cluster_id: ClusterId, tca_id: TcaEra },
    FailedToFetchNodeAggregate { cluster_id: ClusterId, tca_id: TcaEra, node_key: NodePubKey },
    FailedToFetchTraversedEHD {
        cluster_id: ClusterId,
        era: EhdEra,
        tree_node_id: u32,
        tree_levels_count: u32,
    },
    FailedToFetchTraversedPHD {
        cluster_id: ClusterId,
        era: EhdEra,
        tree_node_id: u32,
        tree_levels_count: u32,
    },
    FailedToFetchTraversedNodeAggregate {
        cluster_id: ClusterId,
        tca_id: TcaEra,
        node_key: NodePubKey,
        tree_node_id: u64,
        tree_levels_count: u16,
    },
    FailedToFetchTraversedBucketSubAggregate {
        cluster_id: ClusterId,
        tca_id: TcaEra,
        bucket_id: BucketId,
        node_key: NodePubKey,
        tree_node_id: u64,
        tree_levels_count: u16,
    },
    FailedToFetchEra { cluster_id: ClusterId, era: EhdEra },
    FailedToFetchPathsExceptions { cluster_id: ClusterId, era: EhdEra },
    FailedToFetchSyncNodes { cluster_id: ClusterId },
    FailedToFetchInspSummary { cluster_id: ClusterId, era: EhdEra },
    FailedToFetchInspectedEras { cluster_id: ClusterId },
    FailedToFetchProcessedEras { cluster_id: ClusterId },
    FailedToFetchInspectionDryRunParams { cluster_id: ClusterId },
    FailedToFetchRecordsRange { cluster_id: ClusterId, tca_id: TcaEra, node_key: NodePubKey },
}

/// A node's answer together with who signed it.
#[derive(Debug)]
pub struct ApiResponse<R> {
    pub response: R,
    pub signed_by: Option<SignedBy>,
}

/// The signer of an answer and its signature.
#[derive(Debug, Clone, PartialEq)]
pub struct SignedBy {
    pub signer: Vec<u8>,
    pub signature: Vec<u8>,
}

/// The node that inspection calls go to, and whether they are dry runs.
#[derive(Debug)]
pub struct SyncNode {
    pub dry_run: bool,
    pub key: NodePubKey,
    pub params: StorageNodeParams,
}


/// A node key with what the chain says of the node, when it said anything.
pub type NodeEntry = (NodePubKey, Option<NodeParams>);

/// A storage node: its key and parameters.
pub type StorageNode = (NodePubKey, StorageNodeParams);

/// The storage nodes among `entries`, in order; compute nodes are left out
/// when `skip_compute` is set.
pub open spec fn storage_nodes(entries: Seq<NodeEntry>, skip_compute: bool) -> Seq<StorageNode>
    decreases entries.len(),
{
    if entries.len() == 0 {
        seq![]
    } else {
        let prev = storage_nodes(entries.drop_last(), skip_compute);
        match entries.last().1 {
            Some(NodeParams::StorageParams(p)) => if skip_compute && p.mode == StorageNodeMode::Compute {
                prev
            } else {
                prev.push((entries.last().0, p))
            },
            None => prev,
        }
    }
}

/// Moves out the storage nodes among `entries`.
fn collect_storage_nodes(entries: Vec<NodeEntry>, skip_compute: bool) -> (r: Vec<StorageNode>)
    ensures
        r@ == storage_nodes(entries@, skip_compute),
{
    let ghost all = entries@;
    let mut rest = entries;
    let mut out: Vec<StorageNode> = Vec::new();
    let ghost mut done: int = 0;
    proof {
        assert(all.take(0) =~= Seq::<NodeEntry>::empty());
        assert(rest@ =~= all.skip(0));
    }
    while rest.len() > 0
        invariant
            0 <= done <= all.len(),
            rest@ == all.skip(done),
            out@ == storage_nodes(all.take(done), skip_compute),
        decreases rest@.len(),
    {
        let (key, params) = rest.remove(0);
        proof {
            assert(all[done] == (key, params));
            assert(all.take(done + 1).drop_last() =~= all.take(done));
            assert(all.take(done + 1).last() == all[done]);
            assert(rest@ =~= all.skip(done + 1));
        }
        match params {
            Some(NodeParams::StorageParams(p)) => {
                let skip = match p.mode {
                    StorageNodeMode::Compute => skip_compute,
                    _ => false,
                };
                if !skip {
                    out.push((key, p));
                }
            },
            None => {},
        }
        proof {
            done = done + 1;
        }
    }
    proof {
        assert(all.take(done) =~= all);
    }
    out
}

/// The collectors of a cluster: its storage nodes other than compute
/// nodes, in the order the chain lists them. `nodes` is the cluster's node
/// list with what the chain says of each node, or `None` when the list
/// could not be read.
pub fn get_collectors_nodes(cluster_id: &ClusterId, nodes: Option<Vec<NodeEntry>>) -> (r: Result<Vec<StorageNode>, ApiError>)
    ensures
        match nodes {
            Some(entries) => r matches Ok(v) && v@ == storage_nodes(entries@, true),
            None => r == Err::<Vec<StorageNode>, ApiError>(
                ApiError::FailedToFetchCollectors { cluster_id: *cluster_id },
            ),
        },
{
    match nodes {
        Some(entries) => Ok(collect_storage_nodes(entries, true)),
        None => Err(ApiError::FailedToFetchCollectors { cluster_id: *cluster_id }),
    }
}

/// A storage node is among the collectors exactly when the chain lists it
/// with those storage parameters and its mode is not `Compute`: full,
/// storage and DAC nodes are all collectors. With compute nodes kept, every
/// node the chain lists with storage parameters is there.
pub proof fn lemma_collectors_are_non_compute_storage_nodes(entries: Seq<NodeEntry>, key: NodePubKey, p: StorageNodeParams)
    ensures
        storage_nodes(entries, true).contains((key, p)) <==> (entries.contains(
            (key, Some(NodeParams::StorageParams(p))),
        ) && p.mode != StorageNodeMode::Compute),
        storage_nodes(entries, false).contains((key, p)) <==> entries.contains(
            (key, Some(NodeParams::StorageParams(p))),
        ),
    decreases entries.len(),
{
    if entries.len() > 0 {
        let prev = entries.drop_last();
        let e = entries.last();
        let x: NodeEntry = (key, Some(NodeParams::StorageParams(p)));
        lemma_collectors_are_non_compute_storage_nodes(prev, key, p);
        assert(entries =~= prev.push(e));
        assert(entries.contains(x) <==> (prev.contains(x) || e == x)) by {
            if entries.contains(x) {
                let i = choose|i: int| 0 <= i < entries.len() && entries[i] == x;
                if i < prev.len() {
                    assert(prev[i] == x);
                }
            }
            if prev.contains(x) {
                let i = choose|i: int| 0 <= i < prev.len() && prev[i] == x;
                assert(entries[i] == x);
            }
            if e == x {
                assert(entries[entries.len() - 1] == x);
            }
        }
        lemma_push_contains(storage_nodes(prev, true), key, p);
        lemma_push_contains(storage_nodes(prev, false), key, p);
    }
}

proof fn lemma_push_contains(sp: Seq<StorageNode>, key: NodePubKey, p: StorageNodeParams)
    ensures
        forall|n: StorageNode| #[trigger] sp.push(n).contains((key, p)) <==> (sp.contains((key, p)) || n == (key, p)),
{
    assert forall|n: StorageNode| #[trigger] sp.push(n).contains((key, p)) <==> (sp.contains((key, p)) || n == (key, p)) by {
        if sp.push(n).contains((key, p)) {
            let i = choose|i: int| 0 <= i < sp.push(n).len() && sp.push(n)[i] == (key, p);
            if i < sp.len() {
                assert(sp[i] == (key, p));
            }
        }
        if sp.contains((key, p)) {
            let i = choose|i: int| 0 <= i < sp.len() && sp[i] == (key, p);
            assert(sp.push(n)[i] == (key, p));
        }
        if n == (key, p) {
            assert(sp.push(n)[sp.len() as int] == (key, p));
        }
    }
}

/// The collectors come in the order in which the chain lists the nodes:
/// each entry with storage parameters gives its key and parameters, except
/// a compute node when those are left out, and nothing else is added.
pub proof fn lemma_collectors_in_chain_order(entries: Seq<NodeEntry>, skip_compute: bool)
    ensures
        storage_nodes(entries, skip_compute) == entries.filter_map(
            |e: NodeEntry| match e.1 {
                Some(NodeParams::StorageParams(q)) => if skip_compute && q.mode == StorageNodeMode::Compute {
                    None
                } else {
                    Some((e.0, q))
                },
                None => None,
            },
        ),
    decreases entries.len(),
{
    if entries.len() > 0 {
        lemma_collectors_in_chain_order(entries.drop_last(), skip_compute);
        let prev = storage_nodes(entries.drop_last(), skip_compute);
        match entries.last().1 {
            Some(NodeParams::StorageParams(q)) => {
                assert(prev.push((entries.last().0, q)) =~= prev + seq![(entries.last().0, q)]);
            },
            None => {},
        }
    }
}

/// The first position in `nodes` of a node with the key `key`.
pub open spec fn first_with_key(nodes: Seq<StorageNode>, key: Seq<u8>) -> Option<int>
    decreases nodes.len(),
{
    if nodes.len() == 0 {
        None
    } else if nodes[0].0@ == key {
        Some(0)
    } else {
        match first_with_key(nodes.skip(1), key) {
            Some(i) => Some(i + 1),
            None => None,
        }
    }
}

proof fn lemma_first_with_key_bounds(nodes: Seq<StorageNode>, key: Seq<u8>)
    ensures
        first_with_key(nodes, key) matches Some(i) ==> 0 <= i < nodes.len() && nodes[i].0@ == key
            && forall|j: int| 0 <= j < i ==> nodes[j].0@ != key,
        first_with_key(nodes, key) is None ==> forall|j: int| 0 <= j < nodes.len() ==> nodes[j].0@ != key,
    decreases nodes.len(),
{
    if nodes.len() > 0 {
        lemma_first_with_key_bounds(nodes.skip(1), key);
        assert forall|j: int| 1 <= j < nodes.len() implies nodes[j] == nodes.skip(1)[j - 1] by {}
    }
}

/// One collector of a cluster: the storage node with the key
/// `collector_key`, compute nodes included. `nodes` is as for
/// [`get_collectors_nodes`].
pub fn get_collector_node(cluster_id: &ClusterId, collector_key: NodePubKey, nodes: Option<Vec<NodeEntry>>) -> (r: Result<StorageNode, ApiError>)
    ensures
        match nodes {
            Some(entries) => match first_with_key(storage_nodes(entries@, false), collector_key@) {
                Some(i) => r == Ok::<StorageNode, ApiError>(storage_nodes(entries@, false)[i]),
                None => r == Err::<StorageNode, ApiError>(
                    ApiError::FailedToFetchCollector { cluster_id: *cluster_id, node_key: collector_key },
                ),
            },
            None => r == Err::<StorageNode, ApiError>(
                ApiError::FailedToFetchCollector { cluster_id: *cluster_id, node_key: collector_key },
            ),
        },
{
    let entries = match nodes {
        Some(e) => e,
        None => {
            return Err(ApiError::FailedToFetchCollector { cluster_id: *cluster_id, node_key: collector_key });
        },
    };
    let ghost ev = entries@;
    proof {
        assert(nodes matches Some(e) && e@ == ev);
    }
    let mut collectors = collect_storage_nodes(entries, false);
    let ghost all = collectors@;
    proof {
        assert(all == storage_nodes(ev, false));
    }
    proof {
        lemma_first_with_key_bounds(all, collector_key@);
    }
    let mut i: usize = 0;
    while i < collectors.len()
        invariant
            collectors@ == all,
            all == storage_nodes(ev, false),
            nodes matches Some(e) && e@ == ev,
            0 <= i <= all.len(),
            forall|j: int| 0 <= j < i ==> all[j].0@ != collector_key@,
        decreases all.len() - i,
    {
        if collectors[i].0.same_as(&collector_key) {
            proof {
                lemma_first_with_key_bounds(all, collector_key@);
                assert(first_with_key(all, collector_key@) == Some(i as int));
            }
            let found = collectors.remove(i);
            proof {
                assert(found == all[i as int]);
            }
            return Ok(found);
        }
        i = i + 1;
    }
    Err(ApiError::FailedToFetchCollector { cluster_id: *cluster_id, node_key: collector_key })
}

/// Copies bytes.
fn copy_bytes(v: &Vec<u8>) -> (r: Vec<u8>)
    ensures
        r@ == v@,
{
    let mut out: Vec<u8> = Vec::new();
    append_bytes(&mut out, v.as_slice());
    proof {
        assert(out@ =~= v@);
    }
    out
}

/// The base URL of a node: `http://`, its host, `:` and its HTTP port, when
/// the host is UTF-8.
pub open spec fn base_url_of(params: StorageNodeParams) -> Option<Seq<char>> {
    if valid_utf8(params.host@) {
        Some("http://"@ + decode_utf8(params.host@) + ":"@ + dec(params.http_port as nat))
    } else {
        None
    }
}

/// A node's base URL is a plain `http://` URL whenever its host is UTF-8,
/// and it depends on the host and HTTP port alone: the ssl flag, the
/// domain, the mode and the other ports do not change it.
pub proof fn lemma_base_url_is_plain_http(p: StorageNodeParams, q: StorageNodeParams)
    ensures
        base_url_of(p) is Some <==> valid_utf8(p.host@),
        base_url_of(p) matches Some(u) ==> u.len() >= 7 && u.take(7) == "http://"@,
        p.host@ == q.host@ && p.http_port == q.http_port ==> base_url_of(p) == base_url_of(q),
{
    reveal_strlit("http://");
    if let Some(u) = base_url_of(p) {
        let rest = decode_utf8(p.host@) + ":"@ + dec(p.http_port as nat);
        assert(u =~= "http://"@ + rest);
        assert(u.take(7) =~= "http://"@);
    }
}

/// The base URL of a node, if its host is UTF-8.
pub fn node_base_url(params: &StorageNodeParams) -> (r: Option<String>)
    ensures
        match base_url_of(*params) {
            Some(u) => r matches Some(s) && s@ == u,
            None => r is None,
        },
{
    let host = match string_from_utf8(copy_bytes(&params.host)) {
        Some(h) => h,
        None => {
            return None;
        },
    };
    let mut url = String::new();
    push_str(&mut url, "http://");
    push_str(&mut url, host.as_str());
    push_str(&mut url, ":");
    push_dec(&mut url, params.http_port as u64);
    proof {
        assert(url@ =~= "http://"@ + decode_utf8(params.host@) + ":"@ + dec(params.http_port as nat));
    }
    Some(url)
}

/// The client of a node, with the standard timeout and tries; a host that
/// is not UTF-8 is refused with `NodeHostParseError`.
pub fn node_client(cluster_id: &ClusterId, node_key: &NodePubKey, params: &StorageNodeParams) -> (r: Result<DdcClient, ApiError>)
    ensures
        match base_url_of(*params) {
            Some(u) => r matches Ok(c) && c.base_url@ == u && c.timeout_ms == RESPONSE_TIMEOUT
                && c.retries == MAX_RETRIES_COUNT && !c.dry_run,
            None => r matches Err(ApiError::NodeHostParseError { cluster_id: c, node_key: k, host: h })
                && c == *cluster_id && k == *node_key && h@ == params.host@,
        },
{
    match node_base_url(params) {
        Some(url) => Ok(DdcClient::new(url.as_str(), RESPONSE_TIMEOUT, MAX_RETRIES_COUNT)),
        None => Err(ApiError::NodeHostParseError {
            cluster_id: *cluster_id,
            node_key: *node_key,
            host: copy_bytes(&params.host),
        }),
    }
}

/// The keys that a list of key texts names, if each names one.
pub open spec fn keys_of_texts(texts: Seq<Seq<char>>) -> Option<Seq<Seq<u8>>>
    decreases texts.len(),
{
    if texts.len() == 0 {
        Some(seq![])
    } else {
        match (keys_of_texts(texts.drop_last()), key_of_text(texts.last())) {
            (Some(ks), Some(k)) => Some(ks.push(k)),
            _ => None,
        }
    }
}

/// The views of a list of keys.
pub open spec fn key_views(keys: Seq<NodePubKey>) -> Seq<Seq<u8>> {
    keys.map_values(|k: NodePubKey| k@)
}

/// The grouping collectors that a node names. `reply` is the node's signed
/// answer; a failed request, or a key that does not read as one, is an
/// `HttpClientError` naming the node's host.
pub fn get_grouping_collectors_keys(
    cluster_id: &ClusterId,
    node_params: &StorageNodeParams,
    reply: Result<ApiResponse<GroupingCollectorsResponse>, HttpError>,
) -> (r: Result<Vec<NodePubKey>, ApiError>)
    ensures
        match reply {
            Ok(a) => match keys_of_texts(a.response@.keys) {
                Some(ks) => r matches Ok(v) && key_views(v@) == ks,
                None => r matches Err(ApiError::HttpClientError { cluster_id: c, host: h })
                    && c == *cluster_id && h@ == node_params.host@,
            },
            Err(_) => r matches Err(ApiError::HttpClientError { cluster_id: c, host: h })
                && c == *cluster_id && h@ == node_params.host@,
        },
{
    let answer = match reply {
        Ok(a) => a,
        Err(_) => {
            return Err(ApiError::HttpClientError { cluster_id: *cluster_id, host: copy_bytes(&node_params.host) });
        },
    };
    let texts = &answer.response.keys;
    let ghost ts = answer.response@.keys;
    proof {
        assert(reply matches Ok(a) && a.response@.keys == ts);
    }
    let mut keys: Vec<NodePubKey> = Vec::new();
    let mut i: usize = 0;
    proof {
        assert(ts.take(0) =~= Seq::<Seq<char>>::empty());
        assert(key_views(keys@) =~= Seq::<Seq<u8>>::empty());
    }
    while i < texts.len()
        invariant
            ts == answer.response@.keys,
            reply matches Ok(a) && a.response@.keys == ts,
            texts@.len() == ts.len(),
            forall|j: int| 0 <= j < ts.len() ==> #[trigger] texts@[j]@ == ts[j],
            0 <= i <= ts.len(),
            keys_of_texts(ts.take(i as int)) == Some(key_views(keys@)),
        decreases ts.len() - i,
    {
        proof {
            assert(ts.take(i + 1).drop_last() =~= ts.take(i as int));
            assert(ts.take(i + 1).last() == ts[i as int]);
            assert(texts@[i as int]@ == ts[i as int]);
        }
        match NodePubKey::try_from_str(texts[i].as_str()) {
            Some(k) => {
                let ghost before = keys@;
                keys.push(k);
                proof {
                    assert(key_views(keys@) =~= key_views(before).push(k@));
                }
            },
            None => {
                proof {
                    assert(key_of_text(ts[i as int]) is None);
                    assert(keys_of_texts(ts.take(i + 1)) is None);
                    lemma_keys_of_texts_prefix_none(ts, i as int + 1);
                }
                return Err(ApiError::HttpClientError { cluster_id: *cluster_id, host: copy_bytes(&node_params.host) });
            },
        }
        i = i + 1;
    }
    proof {
        assert(ts.take(i as int) =~= ts);
    }
    Ok(keys)
}

proof fn lemma_keys_of_texts_prefix_none(ts: Seq<Seq<char>>, i: int)
    requires
        0 <= i <= ts.len(),
        keys_of_texts(ts.take(i)) is None,
    ensures
        keys_of_texts(ts) is None,
    decreases ts.len() - i,
{
    if i < ts.len() {
        assert(ts.take(i + 1).drop_last() =~= ts.take(i));
        lemma_keys_of_texts_prefix_none(ts, i + 1);
    } else {
        assert(ts.take(i) =~= ts);
    }
}


/// Whether `keys` holds a key with the bytes `key`.
pub open spec fn named_in(key: Seq<u8>, keys: Seq<NodePubKey>) -> bool {
    exists|j: int| 0 <= j < keys.len() && #[trigger] keys[j]@ == key
}

/// The nodes of `nodes` whose keys `keys` names, in order.
pub open spec fn members(nodes: Seq<StorageNode>, keys: Seq<NodePubKey>) -> Seq<StorageNode>
    decreases nodes.len(),
{
    if nodes.len() == 0 {
        seq![]
    } else if named_in(nodes.last().0@, keys) {
        members(nodes.drop_last(), keys).push(nodes.last())
    } else {
        members(nodes.drop_last(), keys)
    }
}

/// Whether the key of `n` is among `keys`.
pub open spec fn is_named_node(keys: Seq<NodePubKey>) -> spec_fn(StorageNode) -> bool {
    |n: StorageNode| named_in(n.0@, keys)
}

/// The collectors that keys name are exactly those of `nodes` whose key is
/// among `keys`, in the order of `nodes`: no named collector is left out
/// (the one that gave the keys included), no other is taken, and a named
/// first collector comes first.
pub proof fn lemma_members_are_the_named(nodes: Seq<StorageNode>, keys: Seq<NodePubKey>)
    ensures
        members(nodes, keys) == nodes.filter(is_named_node(keys)),
        forall|i: int| 0 <= i < nodes.len() && named_in(nodes[i].0@, keys)
            ==> #[trigger] members(nodes, keys).contains(nodes[i]),
        forall|n: StorageNode| #[trigger] members(nodes, keys).contains(n)
            ==> nodes.contains(n) && named_in(n.0@, keys),
        nodes.len() > 0 && named_in(nodes[0].0@, keys)
            ==> members(nodes, keys).len() > 0 && members(nodes, keys)[0] == nodes[0],
{
    broadcast use vstd::seq_lib::group_filter_ensures;
    lemma_members_filter(nodes, keys);
    let f = is_named_node(keys);
    assert forall|i: int| 0 <= i < nodes.len() && named_in(nodes[i].0@, keys)
        implies #[trigger] members(nodes, keys).contains(nodes[i]) by {
        assert(f(nodes[i]));
        nodes.lemma_filter_contains(f, i);
    }
    assert forall|n: StorageNode| #[trigger] members(nodes, keys).contains(n)
        implies nodes.contains(n) && named_in(n.0@, keys) by {
        nodes.lemma_filter_contains_rev(f, n);
        let j = choose|j: int| 0 <= j < nodes.filter(f).len() && nodes.filter(f)[j] == n;
        nodes.lemma_filter_pred(f, j);
    }
    if nodes.len() > 0 && named_in(nodes[0].0@, keys) {
        let tail = nodes.drop_first();
        assert(seq![nodes[0]] + tail =~= nodes);
        tail.lemma_filter_prepend(nodes[0], f);
        assert(f(nodes[0]));
    }
}

proof fn lemma_members_filter(nodes: Seq<StorageNode>, keys: Seq<NodePubKey>)
    ensures
        members(nodes, keys) == nodes.filter(is_named_node(keys)),
    decreases nodes.len(),
{
    reveal(Seq::filter);
    if nodes.len() > 0 {
        lemma_members_filter(nodes.drop_last(), keys);
        assert(nodes.drop_last().push(nodes.last()) =~= nodes);
        nodes.drop_last().lemma_filter_push(nodes.last(), is_named_node(keys));
    }
}

/// Whether `keys` names `key`.
fn is_named(key: &NodePubKey, keys: &Vec<NodePubKey>) -> (r: bool)
    ensures
        r == named_in(key@, keys@),
{
    let mut i: usize = 0;
    while i < keys.len()
        invariant
            0 <= i <= keys@.len(),
            forall|j: int| 0 <= j < i ==> keys@[j]@ != key@,
        decreases keys@.len() - i,
    {
        if keys[i].same_as(key) {
            return true;
        }
        i = i + 1;
    }
    false
}

/// The search for a cluster's grouping collectors. The collectors are
/// asked in order for the keys of the grouping collectors until one names
/// any; from that collector on, the collectors it names are the answer.
pub struct GCollectorScan {
    pub collectors: Vec<StorageNode>,
    pub pos: usize,
    pub keys: Vec<NodePubKey>,
}

impl GCollectorScan {
    /// The position stays among the collectors.
    pub open spec fn wf(self) -> bool {
        self.pos <= self.collectors@.len()
    }

    /// Whether a collector is still to be asked, and which.
    pub open spec fn asking(self) -> Option<int> {
        if self.keys@.len() == 0 && self.pos < self.collectors@.len() {
            Some(self.pos as int)
        } else {
            None
        }
    }

    /// A search over `collectors`, nobody asked yet.
    pub fn new(collectors: Vec<StorageNode>) -> (r: GCollectorScan)
        ensures
            r.collectors@ == collectors@,
            r.pos == 0,
            r.keys@.len() == 0,
            r.wf(),
    {
        GCollectorScan { collectors, pos: 0, keys: Vec::new() }
    }

    /// The collector to ask next, if any.
    pub fn next_to_ask(&self) -> (r: Option<usize>)
        ensures
            match self.asking() {
                Some(i) => r == Some(i as usize),
                None => r is None,
            },
    {
        if self.keys.len() == 0 && self.pos < self.collectors.len() {
            Some(self.pos)
        } else {
            None
        }
    }

    /// Records what the collector asked last answered: the keys it names,
    /// or `None` when asking it failed. No key, like a failure, moves on to
    /// the next collector.
    pub fn record_keys(&mut self, reply: Option<Vec<NodePubKey>>)
        requires
            old(self).asking() is Some,
        ensures
            final(self).collectors@ == old(self).collectors@,
            match reply {
                Some(ks) => if ks@.len() > 0 {
                    final(self).keys@ == ks@ && final(self).pos == old(self).pos
                } else {
                    final(self).keys@.len() == 0 && final(self).pos == old(self).pos + 1
                },
                None => final(self).keys@.len() == 0 && final(self).pos == old(self).pos + 1,
            },
            final(self).wf(),
    {
        let n = self.collectors.len();
        assert(self.pos < n);
        match reply {
            Some(ks) => {
                if ks.len() > 0 {
                    self.keys = ks;
                } else {
                    self.pos = self.pos + 1;
                }
            },
            None => {
                self.pos = self.pos + 1;
            },
        }
    }

    /// The grouping collectors found: those named by the first answer with
    /// keys, from the collector that gave it on. Without such an answer the
    /// search fails with `FailedToFetchGCollectors`.
    pub fn finish(self, cluster_id: &ClusterId) -> (r: Result<Vec<StorageNode>, ApiError>)
        requires
            self.wf(),
        ensures
            self.keys@.len() == 0 ==> r == Err::<Vec<StorageNode>, ApiError>(
                ApiError::FailedToFetchGCollectors { cluster_id: *cluster_id },
            ),
            self.keys@.len() > 0 ==> (r matches Ok(v)
                && v@ == members(self.collectors@.skip(self.pos as int), self.keys@)
                && v@ == self.collectors@.skip(self.pos as int).filter(is_named_node(self.keys@))),
    {
        if self.keys.len() == 0 {
            return Err(ApiError::FailedToFetchGCollectors { cluster_id: *cluster_id });
        }
        let GCollectorScan { collectors, pos, keys } = self;
        let ghost rest = collectors@.skip(pos as int);
        let mut remaining = collectors;
        let mut k: usize = 0;
        while k < pos
            invariant
                k <= pos,
                pos <= collectors@.len(),
                remaining@ == collectors@.skip(k as int),
            decreases pos - k,
        {
            remaining.remove(0);
            proof {
                assert(remaining@ =~= collectors@.skip(k + 1));
            }
            k = k + 1;
        }
        let mut out: Vec<StorageNode> = Vec::new();
        let ghost mut done: int = 0;
        proof {
            assert(rest.take(0) =~= Seq::<StorageNode>::empty());
            assert(remaining@ =~= rest.skip(0));
        }
        while remaining.len() > 0
            invariant
                0 <= done <= rest.len(),
                remaining@ == rest.skip(done),
                out@ == members(rest.take(done), keys@),
            decreases remaining@.len(),
        {
            let node = remaining.remove(0);
            proof {
                assert(rest[done] == node);
                assert(rest.take(done + 1).drop_last() =~= rest.take(done));
                assert(rest.take(done + 1).last() == rest[done]);
                assert(remaining@ =~= rest.skip(done + 1));
            }
            if is_named(&node.0, &keys) {
                out.push(node);
            }
            proof {
                done = done + 1;
            }
        }
        proof {
            assert(rest.take(done) =~= rest);
            lemma_members_are_the_named(rest, keys@);
        }
        Ok(out)
    }
}

/// The first of the grouping collectors; it fails with
/// `FailedToFetchGCollectors` when they could not be found or there is none.
pub fn get_g_collector_node(cluster_id: &ClusterId, g_collectors: Result<Vec<StorageNode>, ApiError>) -> (r: Result<StorageNode, ApiError>)
    ensures
        match g_collectors {
            Ok(v) => if v@.len() > 0 {
                r == Ok::<StorageNode, ApiError>(v@[0])
            } else {
                r == Err::<StorageNode, ApiError>(ApiError::FailedToFetchGCollectors { cluster_id: *cluster_id })
            },
            Err(_) => r == Err::<StorageNode, ApiError>(ApiError::FailedToFetchGCollectors { cluster_id: *cluster_id }),
        },
{
    match g_collectors {
        Ok(v) => {
            let mut v = v;
            if v.len() > 0 {
                Ok(v.remove(0))
            } else {
                Err(ApiError::FailedToFetchGCollectors { cluster_id: *cluster_id })
            }
        },
        Err(_) => Err(ApiError::FailedToFetchGCollectors { cluster_id: *cluster_id }),
    }
}

/// The sync node that the chain names for inspection dry runs, if it names
/// one. `params` is what the chain holds, or `None` when it could not be
/// read, which fails with `FailedToFetchInspectionDryRunParams`; `Ok(None)`
/// means the grouping collector serves instead.
pub fn sync_node_from_chain(cluster_id: &ClusterId, params: Option<Option<InspectionDryRunParams>>) -> (r: Result<Option<SyncNode>, ApiError>)
    ensures
        match params {
            None => r == Err::<Option<SyncNode>, ApiError>(
                ApiError::FailedToFetchInspectionDryRunParams { cluster_id: *cluster_id },
            ),
            Some(None) => r == Ok::<Option<SyncNode>, ApiError>(None),
            Some(Some(p)) => r == Ok::<Option<SyncNode>, ApiError>(Some(SyncNode {
                dry_run: p.enabled,
                key: p.sync_node_key,
                params: p.sync_node_params,
            })),
        },
{
    match params {
        None => Err(ApiError::FailedToFetchInspectionDryRunParams { cluster_id: *cluster_id }),
        Some(None) => Ok(None),
        Some(Some(p)) => Ok(Some(SyncNode {
            dry_run: p.enabled,
            key: p.sync_node_key,
            params: p.sync_node_params,
        })),
    }
}

/// The grouping collector serving as sync node, never in a dry run.
pub fn sync_node_from_g_collector(g_collector: Result<StorageNode, ApiError>) -> (r: Result<SyncNode, ApiError>)
    ensures
        match g_collector {
            Ok(n) => r == Ok::<SyncNode, ApiError>(SyncNode { dry_run: false, key: n.0, params: n.1 }),
            Err(e) => r == Err::<SyncNode, ApiError>(e),
        },
{
    match g_collector {
        Ok((key, params)) => Ok(SyncNode { dry_run: false, key, params }),
        Err(e) => Err(e),
    }
}


/// The signature of an answer, or no bytes when it has none.
pub open spec fn signature_of(signed_by: Option<SignedBy>) -> Seq<u8> {
    match signed_by {
        Some(sb) => sb.signature@,
        None => seq![],
    }
}

/// The signature of an answer, or no bytes when it has none.
fn take_signature(signed_by: Option<SignedBy>) -> (r: Vec<u8>)
    ensures
        r@ == signature_of(signed_by),
{
    match signed_by {
        Some(sb) => sb.signature,
        None => Vec::new(),
    }
}

/// The first item of `v`, moved out.
fn first_of<T>(v: Vec<T>) -> (r: Option<T>)
    ensures
        v@.len() == 0 ==> r is None,
        v@.len() > 0 ==> r == Some(v@[0]),
{
    let mut v = v;
    if v.len() > 0 {
        Some(v.remove(0))
    } else {
        None
    }
}

/// Where a walk through pages of buckets stands: the buckets read, the
/// bucket that the next page starts after, and whether the walk is over.
pub struct PageWalk {
    pub buckets: Seq<BucketAggregate>,
    pub prev_token: Option<BucketId>,
    pub done: bool,
}

/// The walk after one more page.
pub open spec fn after_page(w: PageWalk, page: Seq<BucketAggregate>) -> PageWalk {
    PageWalk {
        buckets: w.buckets + page,
        prev_token: if page.len() == 0 {
            None
        } else {
            Some(page.last().bucket_id)
        },
        done: page.len() < BUCKETS_AGGREGATES_FETCH_BATCH_SIZE,
    }
}

/// The walk after `pages`, taken one by one from the start; `None` if a
/// page came after the walk was over.
pub open spec fn walk_pages(pages: Seq<Seq<BucketAggregate>>) -> Option<PageWalk>
    decreases pages.len(),
{
    if pages.len() == 0 {
        Some(PageWalk { buckets: seq![], prev_token: None, done: false })
    } else {
        match walk_pages(pages.drop_last()) {
            Some(w) => if w.done {
                None
            } else {
                Some(after_page(w, pages.last()))
            },
            None => None,
        }
    }
}

/// The pages one after the other.
pub open spec fn flatten_pages(pages: Seq<Seq<BucketAggregate>>) -> Seq<BucketAggregate>
    decreases pages.len(),
{
    if pages.len() == 0 {
        seq![]
    } else {
        flatten_pages(pages.drop_last()) + pages.last()
    }
}

/// A walk through pages of buckets reads the pages one after the other;
/// every page but the last was a full batch, the walk is over exactly when
/// the last page was not, and the next page starts after the last bucket
/// read.
pub proof fn lemma_bucket_walk(pages: Seq<Seq<BucketAggregate>>)
    requires
        walk_pages(pages) is Some,
    ensures
        walk_pages(pages).unwrap().buckets == flatten_pages(pages),
        forall|i: int| 0 <= i < pages.len() - 1 ==> #[trigger] pages[i].len() >= BUCKETS_AGGREGATES_FETCH_BATCH_SIZE,
        pages.len() > 0 ==> walk_pages(pages).unwrap().done == (pages.last().len() < BUCKETS_AGGREGATES_FETCH_BATCH_SIZE),
        pages.len() > 0 ==> walk_pages(pages).unwrap().prev_token == (if pages.last().len() == 0 {
            None
        } else {
            Some(pages.last().last().bucket_id)
        }),
    decreases pages.len(),
{
    if pages.len() > 0 {
        let prev = pages.drop_last();
        lemma_bucket_walk(prev);
        let w = walk_pages(prev).unwrap();
        assert(!w.done);
        assert forall|i: int| 0 <= i < pages.len() - 1 implies #[trigger] pages[i].len() >= BUCKETS_AGGREGATES_FETCH_BATCH_SIZE by {
            assert(pages[i] == prev[i]);
            if i == prev.len() - 1 {
                assert(w.done == (prev.last().len() < BUCKETS_AGGREGATES_FETCH_BATCH_SIZE));
            }
        }
    }
}

/// The walk through the pages of an era's bucket aggregates: each page is
/// asked for after the last bucket of the one before, and the walk ends at
/// a page shorter than a full batch. The signature of the last signed page
/// is kept.
pub struct BucketPager {
    pub tca_id: TcaEra,
    pub prev_token: Option<BucketId>,
    pub buckets: Vec<BucketAggregate>,
    pub last_sig: Vec<u8>,
    pub done: bool,
    pub failure: Option<ApiError>,
}

impl BucketPager {
    /// Where the walk stands.
    pub open spec fn walk(&self) -> PageWalk {
        PageWalk { buckets: self.buckets@, prev_token: self.prev_token, done: self.done }
    }

    /// A walk through the pages of an era, none read yet.
    pub fn new(tca_id: TcaEra) -> (r: BucketPager)
        ensures
            r.walk() == walk_pages(seq![]).unwrap(),
            r.tca_id == tca_id,
            r.prev_token is None,
            r.buckets@.len() == 0,
            r.last_sig@.len() == 0,
            !r.done,
            r.failure is None,
    {
        BucketPager { tca_id, prev_token: None, buckets: Vec::new(), last_sig: Vec::new(), done: false, failure: None }
    }

    /// The request for the next page at `client`, unless the walk is over:
    /// a GET of a full batch after the last bucket read, asking for a
    /// protobuf answer.
    pub fn next_request(&self, client: &DdcClient) -> (r: Option<HttpRequest>)
        ensures
            self.done ==> r is None,
            !self.done ==> (r matches Some(q) && is_proto_get(q, client.base_url@ + "/activity/v1/buckets?tcaId="@
                + dec(self.tca_id as nat) + opt_dec("&prevToken="@, self.prev_token)
                + opt_dec("&limit="@, Some(BUCKETS_AGGREGATES_FETCH_BATCH_SIZE as u64)),
                client.timeout_ms, client.retries)),
    {
        if self.done {
            None
        } else {
            Some(client.buckets_aggregates(self.tca_id, self.prev_token, Some(BUCKETS_AGGREGATES_FETCH_BATCH_SIZE as u32)))
        }
    }

    /// Takes in the answer to the request for the next page: a page as
    /// [`BucketPager::take_page`] takes it; a failed request ends the walk
    /// with `FailedToFetchBucketAggregates`, and nothing read so far is kept
    /// as a result.
    pub fn take_reply(&mut self, cluster_id: &ClusterId, reply: Result<ApiResponse<BucketAggregatesResponse>, HttpError>)
        requires
            !old(self).done,
        ensures
            final(self).tca_id == old(self).tca_id,
            match reply {
                Ok(page) => {
                    &&& final(self).walk() == after_page(old(self).walk(), page.response.buckets@)
                    &&& final(self).last_sig@ == (match page.signed_by {
                        Some(sb) => sb.signature@,
                        None => old(self).last_sig@,
                    })
                    &&& final(self).failure == old(self).failure
                },
                Err(_) => {
                    &&& final(self).done
                    &&& final(self).buckets@ == old(self).buckets@
                    &&& final(self).failure == Some(
                        ApiError::FailedToFetchBucketAggregates { cluster_id: *cluster_id, tca_id: old(self).tca_id },
                    )
                },
            },
    {
        match reply {
            Ok(page) => self.take_page(page),
            Err(_) => {
                self.done = true;
                self.failure = Some(ApiError::FailedToFetchBucketAggregates { cluster_id: *cluster_id, tca_id: self.tca_id });
            },
        }
    }

    /// Takes in a page: its buckets are added, the next page starts after
    /// its last bucket, and a page shorter than a batch ends the walk.
    pub fn take_page(&mut self, page: ApiResponse<BucketAggregatesResponse>)
        requires
            !old(self).done,
        ensures
            final(self).walk() == after_page(old(self).walk(), page.response.buckets@),
            final(self).tca_id == old(self).tca_id,
            final(self).buckets@ == old(self).buckets@ + page.response.buckets@,
            final(self).prev_token == (if page.response.buckets@.len() == 0 {
                None
            } else {
                Some(page.response.buckets@.last().bucket_id)
            }),
            final(self).last_sig@ == (match page.signed_by {
                Some(sb) => sb.signature@,
                None => old(self).last_sig@,
            }),
            final(self).done == (page.response.buckets@.len() < BUCKETS_AGGREGATES_FETCH_BATCH_SIZE),
            final(self).failure == old(self).failure,
    {
        let ApiResponse { response, signed_by } = page;
        if let Some(sb) = signed_by {
            self.last_sig = sb.signature;
        }
        let items = response.buckets;
        let n = items.len();
        let mut i: usize = 0;
        let ghost start = self.buckets@;
        let ghost sig = self.last_sig@;
        while i < n
            invariant
                self.tca_id == old(self).tca_id,
                self.failure == old(self).failure,
                self.last_sig@ == sig,
                n == items@.len(),
                0 <= i <= n,
                self.buckets@ == start + items@.take(i as int),
            decreases n - i,
        {
            self.buckets.push(items[i]);
            proof {
                assert(start + items@.take(i + 1) =~= (start + items@.take(i as int)).push(items@[i as int]));
            }
            i = i + 1;
        }
        proof {
            assert(items@.take(n as int) =~= items@);
        }
        self.prev_token = if n == 0 {
            None
        } else {
            Some(items[n - 1].bucket_id)
        };
        self.done = n < BUCKETS_AGGREGATES_FETCH_BATCH_SIZE;
    }

    /// The buckets read and the signature of the last signed page, or the
    /// failure that ended the walk.
    pub fn finish(self) -> (r: Result<(Vec<BucketAggregate>, Vec<u8>), ApiError>)
        ensures
            match self.failure {
                Some(e) => r == Err::<(Vec<BucketAggregate>, Vec<u8>), ApiError>(e),
                None => r matches Ok(p) && p.0@ == self.buckets@ && p.1@ == self.last_sig@,
            },
    {
        match self.failure {
            Some(e) => Err(e),
            None => Ok((self.buckets, self.last_sig)),
        }
    }
}

/// The first position of a bucket with the id `bucket_id`.
pub open spec fn first_bucket(bs: Seq<BucketAggregate>, bucket_id: u64) -> Option<int>
    decreases bs.len(),
{
    if bs.len() == 0 {
        None
    } else if bs[0].bucket_id == bucket_id {
        Some(0)
    } else {
        match first_bucket(bs.skip(1), bucket_id) {
            Some(i) => Some(i + 1),
            None => None,
        }
    }
}

proof fn lemma_first_bucket(bs: Seq<BucketAggregate>, bucket_id: u64)
    ensures
        first_bucket(bs, bucket_id) matches Some(i) ==> 0 <= i < bs.len() && bs[i].bucket_id == bucket_id
            && forall|j: int| 0 <= j < i ==> bs[j].bucket_id != bucket_id,
        first_bucket(bs, bucket_id) is None ==> forall|j: int| 0 <= j < bs.len() ==> bs[j].bucket_id != bucket_id,
    decreases bs.len(),
{
    if bs.len() > 0 {
        lemma_first_bucket(bs.skip(1), bucket_id);
        assert forall|j: int| 1 <= j < bs.len() implies bs[j] == bs.skip(1)[j - 1] by {}
    }
}

/// One bucket's aggregate in an answer, with the answer's signature (no
/// bytes when unsigned).
pub fn bucket_aggregate_of(answer: ApiResponse<BucketAggregatesResponse>, bucket_id: BucketId) -> (r: (Option<BucketAggregate>, Vec<u8>))
    ensures
        match first_bucket(answer.response.buckets@, bucket_id) {
            Some(i) => r.0 == Some(answer.response.buckets@[i]),
            None => r.0 is None,
        },
        r.1@ == signature_of(answer.signed_by),
{
    let ApiResponse { response, signed_by } = answer;
    let sig = take_signature(signed_by);
    let bs = response.buckets;
    proof {
        lemma_first_bucket(bs@, bucket_id);
    }
    let mut i: usize = 0;
    while i < bs.len()
        invariant
            bs@ == answer.response.buckets@,
            sig@ == signature_of(answer.signed_by),
            0 <= i <= bs@.len(),
            forall|j: int| 0 <= j < i ==> bs@[j].bucket_id != bucket_id,
        decreases bs@.len() - i,
    {
        if bs[i].bucket_id == bucket_id {
            proof {
                lemma_first_bucket(bs@, bucket_id);
                assert(first_bucket(bs@, bucket_id) == Some(i as int));
            }
            return (Some(bs[i]), sig);
        }
        i = i + 1;
    }
    (None, sig)
}

/// The first node aggregate of an answer, with the answer's signature (no
/// bytes when unsigned).
pub fn node_aggregate_of(answer: ApiResponse<NodeAggregatesResponse>) -> (r: (Option<NodeAggregate>, Vec<u8>))
    ensures
        answer.response.nodes@.len() == 0 ==> r.0 is None,
        answer.response.nodes@.len() > 0 ==> r.0 == Some(answer.response.nodes@[0]),
        r.1@ == signature_of(answer.signed_by),
{
    let ApiResponse { response, signed_by } = answer;
    let sig = take_signature(signed_by);
    (first_of(response.nodes), sig)
}

/// The root of an era's historical document tree: the first node of a walk
/// from node 1 over one level. A failed walk keeps its error; a walk
/// without nodes fails with `FailedToFetchTraversedEHD`.
pub fn get_ehd_root(
    cluster_id: &ClusterId,
    era: EhdEra,
    walked: Result<ApiResponse<EhdTreeTraversalResponse>, ApiError>,
) -> (r: Result<ApiResponse<EhdTreeTraversedNode>, ApiError>)
    ensures
        match walked {
            Ok(a) => if a.response.nodes@.len() > 0 {
                r == Ok::<ApiResponse<EhdTreeTraversedNode>, ApiError>(
                    ApiResponse { response: a.response.nodes@[0], signed_by: a.signed_by },
                )
            } else {
                r == Err::<ApiResponse<EhdTreeTraversedNode>, ApiError>(ApiError::FailedToFetchTraversedEHD {
                    cluster_id: *cluster_id,
                    era,
                    tree_node_id: 1,
                    tree_levels_count: 1,
                })
            },
            Err(e) => r == Err::<ApiResponse<EhdTreeTraversedNode>, ApiError>(e),
        },
{
    let ApiResponse { response, signed_by } = walked?;
    match first_of(response.nodes) {
        Some(node) => Ok(ApiResponse { response: node, signed_by }),
        None => Err(ApiError::FailedToFetchTraversedEHD {
            cluster_id: *cluster_id,
            era,
            tree_node_id: 1,
            tree_levels_count: 1,
        }),
    }
}

/// The root of an era's partial historical document tree on a collector,
/// as [`get_ehd_root`] finds it; a walk without nodes fails with
/// `FailedToFetchTraversedPHD`.
pub fn get_phd_root(
    cluster_id: &ClusterId,
    era: EhdEra,
    walked: Result<ApiResponse<PhdTreeTraversalResponse>, ApiError>,
) -> (r: Result<ApiResponse<PhdTreeTraversedNode>, ApiError>)
    ensures
        match walked {
            Ok(a) => if a.response.nodes@.len() > 0 {
                r == Ok::<ApiResponse<PhdTreeTraversedNode>, ApiError>(
                    ApiResponse { response: a.response.nodes@[0], signed_by: a.signed_by },
                )
            } else {
                r == Err::<ApiResponse<PhdTreeTraversedNode>, ApiError>(ApiError::FailedToFetchTraversedPHD {
                    cluster_id: *cluster_id,
                    era,
                    tree_node_id: 1,
                    tree_levels_count: 1,
                })
            },
            Err(e) => r == Err::<ApiResponse<PhdTreeTraversedNode>, ApiError>(e),
        },
{
    let ApiResponse { response, signed_by } = walked?;
    match first_of(response.nodes) {
        Some(node) => Ok(ApiResponse { response: node, signed_by }),
        None => Err(ApiError::FailedToFetchTraversedPHD {
            cluster_id: *cluster_id,
            era,
            tree_node_id: 1,
            tree_levels_count: 1,
        }),
    }
}

/// The root of a node's activity tree in an era, as [`get_ehd_root`] finds
/// it; a walk without nodes fails with `FailedToFetchTraversedNodeAggregate`.
pub fn get_node_tca_root(
    cluster_id: &ClusterId,
    tca_id: TcaEra,
    node_key: NodePubKey,
    walked: Result<ApiResponse<ActivityTreeTraversalResponse>, ApiError>,
) -> (r: Result<ApiResponse<ActivityTreeTraversedNode>, ApiError>)
    ensures
        match walked {
            Ok(a) => if a.response.nodes@.len() > 0 {
                r == Ok::<ApiResponse<ActivityTreeTraversedNode>, ApiError>(
                    ApiResponse { response: a.response.nodes@[0], signed_by: a.signed_by },
                )
            } else {
                r == Err::<ApiResponse<ActivityTreeTraversedNode>, ApiError>(
                    ApiError::FailedToFetchTraversedNodeAggregate {
                        cluster_id: *cluster_id,
                        tca_id,
                        node_key,
                        tree_node_id: 1,
                        tree_levels_count: 1,
                    },
                )
            },
            Err(e) => r == Err::<ApiResponse<ActivityTreeTraversedNode>, ApiError>(e),
        },
{
    let ApiResponse { response, signed_by } = walked?;
    match first_of(response.nodes) {
        Some(node) => Ok(ApiResponse { response: node, signed_by }),
        None => Err(ApiError::FailedToFetchTraversedNodeAggregate {
            cluster_id: *cluster_id,
            tca_id,
            node_key,
            tree_node_id: 1,
            tree_levels_count: 1,
        }),
    }
}

/// The root of a bucket's activity tree on a node in an era, as
/// [`get_ehd_root`] finds it; a walk without nodes fails with
/// `FailedToFetchTraversedBucketSubAggregate`.
pub fn get_bucket_tca_root(
    cluster_id: &ClusterId,
    tca_id: TcaEra,
    bucket_id: BucketId,
    node_key: NodePubKey,
    walked: Result<ApiResponse<ActivityTreeTraversalResponse>, ApiError>,
) -> (r: Result<ApiResponse<ActivityTreeTraversedNode>, ApiError>)
    ensures
        match walked {
            Ok(a) => if a.response.nodes@.len() > 0 {
                r == Ok::<ApiResponse<ActivityTreeTraversedNode>, ApiError>(
                    ApiResponse { response: a.response.nodes@[0], signed_by: a.signed_by },
                )
            } else {
                r == Err::<ApiResponse<ActivityTreeTraversedNode>, ApiError>(
                    ApiError::FailedToFetchTraversedBucketSubAggregate {
                        cluster_id: *cluster_id,
                        tca_id,
                        bucket_id,
                        node_key,
                        tree_node_id: 1,
                        tree_levels_count: 1,
                    },
                )
            },
            Err(e) => r == Err::<ApiResponse<ActivityTreeTraversedNode>, ApiError>(e),
        },
{
    let ApiResponse { response, signed_by } = walked?;
    match first_of(response.nodes) {
        Some(node) => Ok(ApiResponse { response: node, signed_by }),
        None => Err(ApiError::FailedToFetchTraversedBucketSubAggregate {
            cluster_id: *cluster_id,
            tca_id,
            bucket_id,
            node_key,
            tree_node_id: 1,
            tree_levels_count: 1,
        }),
    }
}

/// `n` as four big-endian bytes.
pub open spec fn be_bytes(n: u32) -> Seq<u8> {
    seq![(n / 0x1000000) as u8, ((n / 0x10000) % 0x100) as u8, ((n / 0x100) % 0x100) as u8, (n % 0x100) as u8]
}

/// The cursor that lists inspected eras from `era` on: the era before it
/// (era 0 for era 0) as four big-endian bytes.
pub fn inspected_era_cursor(era: EhdEra) -> (r: Vec<u8>)
    ensures
        r@ == be_bytes(if era == 0 { 0 } else { (era - 1) as u32 }),
{
    let before: u32 = if era == 0 { 0 } else { era - 1 };
    let mut out: Vec<u8> = Vec::new();
    out.push((before / 0x1000000) as u8);
    out.push(((before / 0x10000) % 0x100) as u8);
    out.push(((before / 0x100) % 0x100) as u8);
    out.push((before % 0x100) as u8);
    proof {
        assert(out@ =~= be_bytes(before));
    }
    out
}

/// The first position of an era with the id `era`.
pub open spec fn first_era(records: Seq<Era>, era: EhdEra) -> Option<int>
    decreases records.len(),
{
    if records.len() == 0 {
        None
    } else if records[0].id == era {
        Some(0)
    } else {
        match first_era(records.skip(1), era) {
            Some(i) => Some(i + 1),
            None => None,
        }
    }
}

proof fn lemma_first_era(records: Seq<Era>, era: EhdEra)
    ensures
        first_era(records, era) matches Some(i) ==> 0 <= i < records.len() && records[i].id == era
            && forall|j: int| 0 <= j < i ==> records[j].id != era,
        first_era(records, era) is None ==> forall|j: int| 0 <= j < records.len() ==> records[j].id != era,
    decreases records.len(),
{
    if records.len() > 0 {
        lemma_first_era(records.skip(1), era);
        assert forall|j: int| 1 <= j < records.len() implies records[j] == records.skip(1)[j - 1] by {}
    }
}

/// The era `era` in a page of eras; it fails with `FailedToFetchEra` when
/// the page does not hold it.
pub fn find_era(cluster_id: &ClusterId, era: EhdEra, page: &GetErasResponse) -> (r: Result<Era, ApiError>)
    ensures
        match first_era(page.records@, era) {
            Some(i) => r == Ok::<Era, ApiError>(page.records@[i]),
            None => r == Err::<Era, ApiError>(ApiError::FailedToFetchEra { cluster_id: *cluster_id, era }),
        },
{
    proof {
        lemma_first_era(page.records@, era);
    }
    let mut i: usize = 0;
    while i < page.records.len()
        invariant
            0 <= i <= page.records@.len(),
            forall|j: int| 0 <= j < i ==> page.records@[j].id != era,
        decreases page.records@.len() - i,
    {
        if page.records[i].id == era {
            proof {
                lemma_first_era(page.records@, era);
                assert(first_era(page.records@, era) == Some(i as int));
            }
            return Ok(page.records[i]);
        }
        i = i + 1;
    }
    Err(ApiError::FailedToFetchEra { cluster_id: *cluster_id, era })
}

/// Whether a page's cursor lets the walk go on: it is there and not empty.
pub open spec fn cursor_goes_on(c: Option<Seq<u8>>) -> bool {
    c matches Some(b) && b.len() > 0
}

/// The records of a walk through `pages` (each its records and cursor),
/// taken one by one; `None` if a page came after one that ended the walk.
pub open spec fn list_pages<T>(pages: Seq<(Seq<T>, Option<Seq<u8>>)>) -> Option<Seq<T>>
    decreases pages.len(),
{
    if pages.len() == 0 {
        Some(seq![])
    } else {
        let prev = pages.drop_last();
        if prev.len() > 0 && !cursor_goes_on(prev.last().1) {
            None
        } else {
            match list_pages(prev) {
                Some(items) => Some(items + pages.last().0),
                None => None,
            }
        }
    }
}

/// A walk through a listing reads the pages one after the other, and every
/// page but the last gave a cursor to go on with.
pub proof fn lemma_list_walk<T>(pages: Seq<(Seq<T>, Option<Seq<u8>>)>)
    requires
        list_pages(pages) is Some,
    ensures
        forall|i: int| 0 <= i < pages.len() - 1 ==> cursor_goes_on(#[trigger] pages[i].1),
        pages.len() > 0 ==> list_pages(pages).unwrap() == list_pages(pages.drop_last()).unwrap() + pages.last().0,
    decreases pages.len(),
{
    if pages.len() > 0 {
        let prev = pages.drop_last();
        lemma_list_walk(prev);
        assert forall|i: int| 0 <= i < pages.len() - 1 implies cursor_goes_on(#[trigger] pages[i].1) by {
            assert(pages[i] == prev[i]);
        }
    }
}

/// The walk through the pages of a listing: each page is asked for with
/// the cursor that the page before gave, until a page gives none (or an
/// empty one).
pub struct ListWalk<T> {
    pub items: Vec<T>,
    pub cursor: Option<Vec<u8>>,
    pub done: bool,
}

impl<T> ListWalk<T> {
    /// A walk from the first page.
    pub fn new() -> (r: ListWalk<T>)
        ensures
            r.items@.len() == 0,
            r.cursor is None,
            !r.done,
    {
        ListWalk { items: Vec::new(), cursor: None, done: false }
    }

    /// Takes in a page: its records are added, and its cursor, unless
    /// missing or empty, is where the next page starts; otherwise the walk
    /// is over.
    pub fn take_page(&mut self, records: Vec<T>, next_cursor: Option<Vec<u8>>)
        requires
            !old(self).done,
        ensures
            final(self).items@ == old(self).items@ + records@,
            match next_cursor {
                Some(c) => if c@.len() > 0 {
                    !final(self).done && final(self).cursor == Some(c)
                } else {
                    final(self).done
                },
                None => final(self).done,
            },
    {
        let mut rest = records;
        let ghost all = rest@;
        let ghost start = self.items@;
        let ghost mut done: int = 0;
        proof {
            assert(rest@ =~= all.skip(0));
            assert(self.items@ =~= start + all.take(0));
        }
        while rest.len() > 0
            invariant
                self.cursor == old(self).cursor,
                self.done == old(self).done,
                !self.done,
                0 <= done <= all.len(),
                rest@ == all.skip(done),
                self.items@ == start + all.take(done),
            decreases rest@.len(),
        {
            let x = rest.remove(0);
            proof {
                assert(x == all[done]);
            }
            self.items.push(x);
            proof {
                assert(self.items@ =~= start + all.take(done + 1));
                assert(rest@ =~= all.skip(done + 1));
                done = done + 1;
            }
        }
        proof {
            assert(all.take(done) =~= all);
        }
        match next_cursor {
            Some(c) => {
                if c.len() > 0 {
                    self.cursor = Some(c);
                } else {
                    self.done = true;
                }
            },
            None => {
                self.done = true;
            },
        }
    }

    /// The records read.
    pub fn finish(self) -> (r: Vec<T>)
        ensures
            r@ == self.items@,
    {
        self.items
    }
}


/// The answer, or `e` when the request failed.
fn or_error<T>(fetched: Result<T, HttpError>, e: ApiError) -> (r: Result<T, ApiError>)
    ensures
        match fetched {
            Ok(a) => r == Ok::<T, ApiError>(a),
            Err(_) => r == Err::<T, ApiError>(e),
        },
{
    match fetched {
        Ok(a) => Ok(a),
        Err(_) => Err(e),
    }
}

/// A walk down an era's partial historical document tree on a collector:
/// the collector's answer, or `FailedToFetchTraversedPHD` when asking it
/// failed.
pub fn fetch_traversed_partial_historical_document(
    cluster_id: &ClusterId,
    era: EhdEra,
    tree_node_id: u32,
    tree_levels_count: u32,
    fetched: Result<ApiResponse<PhdTreeTraversalResponse>, HttpError>,
) -> (r: Result<ApiResponse<PhdTreeTraversalResponse>, ApiError>)
    ensures
        match fetched {
            Ok(a) => r == Ok::<ApiResponse<PhdTreeTraversalResponse>, ApiError>(a),
            Err(_) => r == Err::<ApiResponse<PhdTreeTraversalResponse>, ApiError>(
                ApiError::FailedToFetchTraversedPHD { cluster_id: *cluster_id, era, tree_node_id, tree_levels_count },
            ),
        },
{
    or_error(fetched, ApiError::FailedToFetchTraversedPHD { cluster_id: *cluster_id, era, tree_node_id, tree_levels_count })
}

/// A walk down an era's historical document tree on the grouping
/// collector: its answer, or `FailedToFetchTraversedEHD` when asking it
/// failed.
pub fn fetch_traversed_era_historical_document(
    cluster_id: &ClusterId,
    era: EhdEra,
    tree_node_id: u32,
    tree_levels_count: u32,
    fetched: Result<ApiResponse<EhdTreeTraversalResponse>, HttpError>,
) -> (r: Result<ApiResponse<EhdTreeTraversalResponse>, ApiError>)
    ensures
        match fetched {
            Ok(a) => r == Ok::<ApiResponse<EhdTreeTraversalResponse>, ApiError>(a),
            Err(_) => r == Err::<ApiResponse<EhdTreeTraversalResponse>, ApiError>(
                ApiError::FailedToFetchTraversedEHD { cluster_id: *cluster_id, era, tree_node_id, tree_levels_count },
            ),
        },
{
    or_error(fetched, ApiError::FailedToFetchTraversedEHD { cluster_id: *cluster_id, era, tree_node_id, tree_levels_count })
}

/// A walk down a node's activity tree on a collector: the collector's
/// answer, or `FailedToFetchTraversedNodeAggregate` when asking it failed.
pub fn fetch_traversed_node_aggregate(
    cluster_id: &ClusterId,
    tca_id: TcaEra,
    node_key: NodePubKey,
    tree_node_id: u64,
    tree_levels_count: u16,
    fetched: Result<ApiResponse<ActivityTreeTraversalResponse>, HttpError>,
) -> (r: Result<ApiResponse<ActivityTreeTraversalResponse>, ApiError>)
    ensures
        match fetched {
            Ok(a) => r == Ok::<ApiResponse<ActivityTreeTraversalResponse>, ApiError>(a),
            Err(_) => r == Err::<ApiResponse<ActivityTreeTraversalResponse>, ApiError>(
                ApiError::FailedToFetchTraversedNodeAggregate {
                    cluster_id: *cluster_id,
                    tca_id,
                    node_key,
                    tree_node_id,
                    tree_levels_count,
                },
            ),
        },
{
    or_error(fetched, ApiError::FailedToFetchTraversedNodeAggregate {
        cluster_id: *cluster_id,
        tca_id,
        node_key,
        tree_node_id,
        tree_levels_count,
    })
}

/// A walk down a bucket's activity tree on a collector: the collector's
/// answer, or `FailedToFetchTraversedBucketSubAggregate` when asking it
/// failed.
pub fn fetch_traversed_bucket_sub_aggregate(
    cluster_id: &ClusterId,
    tca_id: TcaEra,
    bucket_id: BucketId,
    node_key: NodePubKey,
    tree_node_id: u64,
    tree_levels_count: u16,
    fetched: Result<ApiResponse<ActivityTreeTraversalResponse>, HttpError>,
) -> (r: Result<ApiResponse<ActivityTreeTraversalResponse>, ApiError>)
    ensures
        match fetched {
            Ok(a) => r == Ok::<ApiResponse<ActivityTreeTraversalResponse>, ApiError>(a),
            Err(_) => r == Err::<ApiResponse<ActivityTreeTraversalResponse>, ApiError>(
                ApiError::FailedToFetchTraversedBucketSubAggregate {
                    cluster_id: *cluster_id,
                    tca_id,
                    bucket_id,
                    node_key,
                    tree_node_id,
                    tree_levels_count,
                },
            ),
        },
{
    or_error(fetched, ApiError::FailedToFetchTraversedBucketSubAggregate {
        cluster_id: *cluster_id,
        tca_id,
        bucket_id,
        node_key,
        tree_node_id,
        tree_levels_count,
    })
}

/// Activity records read from a data node: its answer, or
/// `FailedToFetchRecordsRange` when asking it failed.
pub fn fetch_records_range(
    cluster_id: &ClusterId,
    tca_id: TcaEra,
    node_key: NodePubKey,
    fetched: Result<ApiResponse<GetRecordsResponse>, HttpError>,
) -> (r: Result<ApiResponse<GetRecordsResponse>, ApiError>)
    ensures
        match fetched {
            Ok(a) => r == Ok::<ApiResponse<GetRecordsResponse>, ApiError>(a),
            Err(_) => r == Err::<ApiResponse<GetRecordsResponse>, ApiError>(
                ApiError::FailedToFetchRecordsRange { cluster_id: *cluster_id, tca_id, node_key },
            ),
        },
{
    or_error(fetched, ApiError::FailedToFetchRecordsRange { cluster_id: *cluster_id, tca_id, node_key })
}

/// One bucket's aggregate on a collector, with the answer's signature: the
/// bucket is picked as [`bucket_aggregate_of`] picks it, and a failed
/// request is `FailedToFetchBucketAggregates`.
pub fn fetch_bucket_aggregate(
    cluster_id: &ClusterId,
    tca_id: TcaEra,
    bucket_id: BucketId,
    fetched: Result<ApiResponse<BucketAggregatesResponse>, HttpError>,
) -> (r: Result<(Option<BucketAggregate>, Vec<u8>), ApiError>)
    ensures
        match fetched {
            Ok(a) => r matches Ok(p) && p.1@ == signature_of(a.signed_by) && match first_bucket(a.response.buckets@, bucket_id) {
                Some(i) => p.0 == Some(a.response.buckets@[i]),
                None => p.0 is None,
            },
            Err(_) => r == Err::<(Option<BucketAggregate>, Vec<u8>), ApiError>(
                ApiError::FailedToFetchBucketAggregates { cluster_id: *cluster_id, tca_id },
            ),
        },
{
    match fetched {
        Ok(a) => Ok(bucket_aggregate_of(a, bucket_id)),
        Err(_) => Err(ApiError::FailedToFetchBucketAggregates { cluster_id: *cluster_id, tca_id }),
    }
}

/// A node's aggregate on a collector, with the answer's signature: the
/// first aggregate of the answer, and a failed request is
/// `FailedToFetchNodeAggregate`.
pub fn fetch_node_aggregate(
    cluster_id: &ClusterId,
    tca_id: TcaEra,
    node_key: NodePubKey,
    fetched: Result<ApiResponse<NodeAggregatesResponse>, HttpError>,
) -> (r: Result<(Option<NodeAggregate>, Vec<u8>), ApiError>)
    ensures
        match fetched {
            Ok(a) => r matches Ok(p) && p.1@ == signature_of(a.signed_by) && (if a.response.nodes@.len() > 0 {
                p.0 == Some(a.response.nodes@[0])
            } else {
                p.0 is None
            }),
            Err(_) => r == Err::<(Option<NodeAggregate>, Vec<u8>), ApiError>(
                ApiError::FailedToFetchNodeAggregate { cluster_id: *cluster_id, tca_id, node_key },
            ),
        },
{
    match fetched {
        Ok(a) => Ok(node_aggregate_of(a)),
        Err(_) => Err(ApiError::FailedToFetchNodeAggregate { cluster_id: *cluster_id, tca_id, node_key }),
    }
}

/// What an inspection call to the sync node comes to: the node's answer,
/// or an `HttpClientError` naming its host.
pub fn sync_node_answer<T>(cluster_id: &ClusterId, sync_node: &SyncNode, fetched: Result<T, HttpError>) -> (r: Result<T, ApiError>)
    ensures
        match fetched {
            Ok(a) => r == Ok::<T, ApiError>(a),
            Err(_) => r matches Err(ApiError::HttpClientError { cluster_id: c, host: h })
                && c == *cluster_id && h@ == sync_node.params.host@,
        },
{
    match fetched {
        Ok(a) => Ok(a),
        Err(_) => Err(ApiError::HttpClientError { cluster_id: *cluster_id, host: copy_bytes(&sync_node.params.host) }),
    }
}

/// An era's inspection receipt from the sync node, or
/// `FailedToFetchInspSummary` when asking for it failed.
pub fn get_inspection_receipt(
    cluster_id: &ClusterId,
    era: EhdEra,
    fetched: Result<InspectionReceipt, HttpError>,
) -> (r: Result<InspectionReceipt, ApiError>)
    ensures
        match fetched {
            Ok(a) => r == Ok::<InspectionReceipt, ApiError>(a),
            Err(_) => r == Err::<InspectionReceipt, ApiError>(
                ApiError::FailedToFetchInspSummary { cluster_id: *cluster_id, era },
            ),
        },
{
    or_error(fetched, ApiError::FailedToFetchInspSummary { cluster_id: *cluster_id, era })
}

/// A cluster's processed eras, from whichever node lists them, or
/// `FailedToFetchProcessedEras` when asking failed.
pub fn fetch_processed_eras_for_cluster(
    cluster_id: &ClusterId,
    fetched: Result<GetErasResponse, HttpError>,
) -> (r: Result<GetErasResponse, ApiError>)
    ensures
        match fetched {
            Ok(a) => r == Ok::<GetErasResponse, ApiError>(a),
            Err(_) => r == Err::<GetErasResponse, ApiError>(
                ApiError::FailedToFetchProcessedEras { cluster_id: *cluster_id },
            ),
        },
{
    or_error(fetched, ApiError::FailedToFetchProcessedEras { cluster_id: *cluster_id })
}

/// A cluster's inspected eras, from the sync node, or
/// `FailedToFetchInspectedEras` when asking failed.
pub fn fetch_inspected_eras_for_cluster(
    cluster_id: &ClusterId,
    fetched: Result<GetErasResponse, HttpError>,
) -> (r: Result<GetErasResponse, ApiError>)
    ensures
        match fetched {
            Ok(a) => r == Ok::<GetErasResponse, ApiError>(a),
            Err(_) => r == Err::<GetErasResponse, ApiError>(
                ApiError::FailedToFetchInspectedEras { cluster_id: *cluster_id },
            ),
        },
{
    or_error(fetched, ApiError::FailedToFetchInspectedEras { cluster_id: *cluster_id })
}



proof fn lemma_collector_among_storage_nodes(entries: Seq<NodeEntry>, i: int)
    requires
        0 <= i < storage_nodes(entries, true).len(),
    ensures
        exists|j: int| 0 <= j < storage_nodes(entries, false).len()
            && #[trigger] storage_nodes(entries, false)[j] == storage_nodes(entries, true)[i],
    decreases entries.len(),
{
    let prev = entries.drop_last();
    let st = storage_nodes(prev, true);
    let sf = storage_nodes(prev, false);
    if i < st.len() {
        lemma_collector_among_storage_nodes(prev, i);
        let j = choose|j: int| 0 <= j < sf.len() && #[trigger] sf[j] == st[i];
        assert(storage_nodes(entries, true)[i] == st[i]);
        assert(storage_nodes(entries, false)[j] == sf[j]);
    } else {
        let j = sf.len() as int;
        assert(storage_nodes(entries, false)[j] == storage_nodes(entries, true)[i]);
    }
}

/// Every collector of a cluster is found again by its key: among the same
/// nodes, looking a collector up gives the first storage node with its key.
pub proof fn lemma_collectors_are_found(entries: Seq<NodeEntry>, i: int)
    requires
        0 <= i < storage_nodes(entries, true).len(),
    ensures
        first_with_key(storage_nodes(entries, false), storage_nodes(entries, true)[i].0@) is Some,
{
    lemma_collector_among_storage_nodes(entries, i);
    let key = storage_nodes(entries, true)[i].0@;
    lemma_first_with_key_bounds(storage_nodes(entries, false), key);
    let j = choose|j: int| 0 <= j < storage_nodes(entries, false).len()
        && #[trigger] storage_nodes(entries, false)[j] == storage_nodes(entries, true)[i];
    assert(storage_nodes(entries, false)[j].0@ == key);
}


/// `r` refuses a node whose host is not UTF-8: `NodeHostParseError` naming
/// the cluster, the node and its host.
pub open spec fn host_refused<T>(r: Result<T, ApiError>, cluster_id: ClusterId, key: NodePubKey, params: StorageNodeParams) -> bool {
    r matches Err(ApiError::NodeHostParseError { cluster_id: c, node_key: k, host: h })
        && c == cluster_id && k == key && h@ == params.host@
}

/// The client of the sync node for inspection calls: the node's base URL,
/// the standard time and tries, and the node's dry-run flag.
pub fn sync_client(cluster_id: &ClusterId, sync_node: &SyncNode) -> (r: Result<DdcClient, ApiError>)
    ensures
        match base_url_of(sync_node.params) {
            Some(u) => r matches Ok(c) && c.base_url@ == u && c.timeout_ms == RESPONSE_TIMEOUT
                && c.retries == MAX_RETRIES_COUNT && c.dry_run == sync_node.dry_run,
            None => host_refused(r, *cluster_id, sync_node.key, sync_node.params),
        },
{
    let c = node_client(cluster_id, &sync_node.key, &sync_node.params)?;
    Ok(c.with_dry_run(sync_node.dry_run))
}

/// The request for a page of a cluster's processed eras. In a dry run it
/// goes to the sync node's dry-run listing; otherwise to the grouping
/// collector's listing, where `g_collector` is the result of looking it up
/// (a failed lookup is `FailedToFetchGCollectors`, a host that is not UTF-8
/// `FailedToFetchProcessedEras`).
pub fn processed_eras_request(
    cluster_id: &ClusterId,
    sync_node: &SyncNode,
    g_collector: Option<Result<StorageNode, ApiError>>,
    cursor: Option<&[u8]>,
    limit: Option<u32>,
) -> (r: Result<HttpRequest, ApiError>)
    requires
        !sync_node.dry_run ==> g_collector is Some,
    ensures
        sync_node.dry_run ==> match base_url_of(sync_node.params) {
            Some(u) => r matches Ok(q) && is_proto_get(
                q,
                list_url(u, "/itm/v1/dry-run/processed-eras"@, opt_slice_view(cursor), limit),
                RESPONSE_TIMEOUT,
                MAX_RETRIES_COUNT,
            ),
            None => host_refused(r, *cluster_id, sync_node.key, sync_node.params),
        },
        !sync_node.dry_run ==> match g_collector {
            Some(Ok(n)) => match base_url_of(n.1) {
                Some(u) => r matches Ok(q) && is_proto_get(
                    q,
                    list_url(u, "/activity/v1/processed-eras"@, opt_slice_view(cursor), limit),
                    RESPONSE_TIMEOUT,
                    MAX_RETRIES_COUNT,
                ),
                None => r == Err::<HttpRequest, ApiError>(ApiError::FailedToFetchProcessedEras { cluster_id: *cluster_id }),
            },
            _ => r == Err::<HttpRequest, ApiError>(ApiError::FailedToFetchGCollectors { cluster_id: *cluster_id }),
        },
{
    if sync_node.dry_run {
        let client = node_client(cluster_id, &sync_node.key, &sync_node.params)?;
        let url = client.dry_run_processed_eras_url(cursor, limit);
        return Ok(client.get_request(url, Accept::Protobuf));
    }
    match g_collector {
        Some(Ok((_, params))) => match node_base_url(&params) {
            Some(base) => {
                let client = DdcClient::new(base.as_str(), RESPONSE_TIMEOUT, MAX_RETRIES_COUNT);
                let url = client.processed_eras_url(cursor, limit);
                Ok(client.get_request(url, Accept::Protobuf))
            },
            None => Err(ApiError::FailedToFetchProcessedEras { cluster_id: *cluster_id }),
        },
        _ => Err(ApiError::FailedToFetchGCollectors { cluster_id: *cluster_id }),
    }
}

/// The request for a page of a cluster's inspected eras, at the sync node
/// (`found` is the result of looking it up; a failed lookup is
/// `FailedToFetchSyncNodes`): its dry-run listing in a dry run, else its
/// regular listing (where a host that is not UTF-8 is
/// `FailedToFetchInspectedEras`).
pub fn inspected_eras_request(
    cluster_id: &ClusterId,
    found: Result<SyncNode, ApiError>,
    cursor: Option<&[u8]>,
    limit: Option<u32>,
) -> (r: Result<HttpRequest, ApiError>)
    ensures
        match found {
            Err(_) => r == Err::<HttpRequest, ApiError>(ApiError::FailedToFetchSyncNodes { cluster_id: *cluster_id }),
            Ok(s) => if s.dry_run {
                match base_url_of(s.params) {
                    Some(u) => r matches Ok(q) && is_proto_get(
                        q,
                        list_url(u, "/itm/v1/dry-run/inspected-eras"@, opt_slice_view(cursor), limit),
                        RESPONSE_TIMEOUT,
                        MAX_RETRIES_COUNT,
                    ),
                    None => host_refused(r, *cluster_id, s.key, s.params),
                }
            } else {
                match base_url_of(s.params) {
                    Some(u) => r matches Ok(q) && is_proto_get(
                        q,
                        list_url(u, "/activity/v1/inspected-eras"@, opt_slice_view(cursor), limit),
                        RESPONSE_TIMEOUT,
                        MAX_RETRIES_COUNT,
                    ),
                    None => r == Err::<HttpRequest, ApiError>(ApiError::FailedToFetchInspectedEras { cluster_id: *cluster_id }),
                }
            },
        },
{
    let s = match found {
        Ok(s) => s,
        Err(_) => {
            return Err(ApiError::FailedToFetchSyncNodes { cluster_id: *cluster_id });
        },
    };
    if s.dry_run {
        let client = node_client(cluster_id, &s.key, &s.params)?;
        let url = client.dry_run_inspected_eras_url(cursor, limit);
        Ok(client.get_request(url, Accept::Protobuf))
    } else {
        match node_base_url(&s.params) {
            Some(base) => {
                let client = DdcClient::new(base.as_str(), RESPONSE_TIMEOUT, MAX_RETRIES_COUNT);
                let url = client.inspected_eras_url(cursor, limit);
                Ok(client.get_request(url, Accept::Protobuf))
            },
            None => Err(ApiError::FailedToFetchInspectedEras { cluster_id: *cluster_id }),
        }
    }
}

/// The request that asks the sync node for the lease on an era's
/// assignment table: a protobuf POST of `request` to `/itm/v1/lease`,
/// marked as a dry run exactly when the sync node is in one.
pub fn post_itm_lease_request(cluster_id: &ClusterId, sync_node: &SyncNode, request: &LeaseRequest) -> (r: Result<HttpRequest, ApiError>)
    ensures
        match base_url_of(sync_node.params) {
            Some(u) => r matches Ok(q) && is_proto_post(
                q,
                insp_url_for(u, sync_node.dry_run, "/itm/v1/lease"@),
                request@.encode(),
                RESPONSE_TIMEOUT,
                MAX_RETRIES_COUNT,
            ),
            None => host_refused(r, *cluster_id, sync_node.key, sync_node.params),
        },
{
    let client = sync_client(cluster_id, sync_node)?;
    let url = client.post_itm_lease_url();
    Ok(client.post_proto_request(url, request.encode_to_vec()))
}

/// The request that submits an assignment table to the sync node: a
/// protobuf POST of `request` to `/itm/v1/submit`, marked as a dry run
/// exactly when the sync node is in one.
pub fn submit_assignments_table_request(
    cluster_id: &ClusterId,
    sync_node: &SyncNode,
    request: &PostAssignmentTableRequest,
) -> (r: Result<HttpRequest, ApiError>)
    ensures
        match base_url_of(sync_node.params) {
            Some(u) => r matches Ok(q) && is_proto_post(
                q,
                insp_url_for(u, sync_node.dry_run, "/itm/v1/submit"@),
                request@.encode(),
                RESPONSE_TIMEOUT,
                MAX_RETRIES_COUNT,
            ),
            None => host_refused(r, *cluster_id, sync_node.key, sync_node.params),
        },
{
    let client = sync_client(cluster_id, sync_node)?;
    let url = client.submit_assignments_table_url();
    Ok(client.post_proto_request(url, request.encode_to_vec()))
}

/// The request that submits inspection results to the sync node: a
/// protobuf POST of `request` to `/itm/v1/path`, marked as a dry run
/// exactly when the sync node is in one.
pub fn submit_inspection_result_request(
    cluster_id: &ClusterId,
    sync_node: &SyncNode,
    request: &PostInspectionResultRequest,
) -> (r: Result<HttpRequest, ApiError>)
    ensures
        match base_url_of(sync_node.params) {
            Some(u) => r matches Ok(q) && is_proto_post(
                q,
                insp_url_for(u, sync_node.dry_run, "/itm/v1/path"@),
                request@.encode(),
                RESPONSE_TIMEOUT,
                MAX_RETRIES_COUNT,
            ),
            None => host_refused(r, *cluster_id, sync_node.key, sync_node.params),
        },
{
    let client = sync_client(cluster_id, sync_node)?;
    let url = client.submit_inspection_result_url();
    Ok(client.post_proto_request(url, request.encode_to_vec()))
}

/// The request for an era's assignment table at the sync node: a protobuf
/// GET of `/itm/v1/table/{era}`, marked as a dry run exactly when the sync
/// node is in one.
pub fn get_assignments_table_request(cluster_id: &ClusterId, sync_node: &SyncNode, era: EhdEra) -> (r: Result<HttpRequest, ApiError>)
    ensures
        match base_url_of(sync_node.params) {
            Some(u) => r matches Ok(q) && is_proto_get(
                q,
                insp_url_for(u, sync_node.dry_run, "/itm/v1/table/"@ + dec(era as nat)),
                RESPONSE_TIMEOUT,
                MAX_RETRIES_COUNT,
            ),
            None => host_refused(r, *cluster_id, sync_node.key, sync_node.params),
        },
{
    let client = sync_client(cluster_id, sync_node)?;
    let url = client.get_assignments_table_url(era);
    Ok(client.get_request(url, Accept::Protobuf))
}

/// The request for an era's inspection state at the sync node: a protobuf
/// GET of `/itm/v1/state/{era}`, marked as a dry run exactly when the sync
/// node is in one.
pub fn get_inspection_state_request(cluster_id: &ClusterId, sync_node: &SyncNode, era: EhdEra) -> (r: Result<HttpRequest, ApiError>)
    ensures
        match base_url_of(sync_node.params) {
            Some(u) => r matches Ok(q) && is_proto_get(
                q,
                insp_url_for(u, sync_node.dry_run, "/itm/v1/state/"@ + dec(era as nat)),
                RESPONSE_TIMEOUT,
                MAX_RETRIES_COUNT,
            ),
            None => host_refused(r, *cluster_id, sync_node.key, sync_node.params),
        },
{
    let client = sync_client(cluster_id, sync_node)?;
    let url = client.get_inspection_state_url(era);
    Ok(client.get_request(url, Accept::Protobuf))
}

/// The request for an era's inspection receipt at the sync node: a
/// protobuf GET of `/itm/v1/receipt/{era}`, marked as a dry run exactly
/// when the sync node is in one.
pub fn get_inspection_receipt_request(cluster_id: &ClusterId, sync_node: &SyncNode, era: EhdEra) -> (r: Result<HttpRequest, ApiError>)
    ensures
        match base_url_of(sync_node.params) {
            Some(u) => r matches Ok(q) && is_proto_get(
                q,
                insp_url_for(u, sync_node.dry_run, "/itm/v1/receipt/"@ + dec(era as nat)),
                RESPONSE_TIMEOUT,
                MAX_RETRIES_COUNT,
            ),
            None => host_refused(r, *cluster_id, sync_node.key, sync_node.params),
        },
{
    let client = sync_client(cluster_id, sync_node)?;
    let url = client.get_inspection_receipt_url(era);
    Ok(client.get_request(url, Accept::Protobuf))
}

/// The request for an era's inspection quorum at the sync node: a
/// protobuf GET of `/itm/v1/quorum/{era}`, never marked as a dry run.
pub fn get_quorum_info_request(cluster_id: &ClusterId, sync_node: &SyncNode, era: EhdEra) -> (r: Result<HttpRequest, ApiError>)
    ensures
        match base_url_of(sync_node.params) {
            Some(u) => r matches Ok(q) && is_proto_get(
                q,
                u + "/itm/v1/quorum/"@ + dec(era as nat),
                RESPONSE_TIMEOUT,
                MAX_RETRIES_COUNT,
            ),
            None => host_refused(r, *cluster_id, sync_node.key, sync_node.params),
        },
{
    let client = node_client(cluster_id, &sync_node.key, &sync_node.params)?;
    let url = client.get_quorum_info_url(era);
    Ok(client.get_request(url, Accept::Protobuf))
}

} // verus!
