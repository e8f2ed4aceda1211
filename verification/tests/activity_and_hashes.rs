use ddc_api::primitives::NodePubKey;
use ddc_api::proto::activity_tree::{
    ActivityNode, ActivityTreeTraversedNode, BucketSubAggregate, EhdTreeNodeProviderAggregate,
    EhdTreeTraversedNode, PhdNodeAggregateGroup, PhdTreeTraversedNode,
};
use ddc_api::proto::inspection::{
    InspectionPath, InspectionPathResult, InspectionReceipt, NodeArPath, PathData, Provenance,
    UnverifiedPath,
};

fn usage(n: u64) -> ActivityNode {
    ActivityNode {
        stored: n,
        transferred: 2 * n,
        put_count: 3 * n,
        get_count: 4 * n,
        cpu_units: 5 * n,
        gpu_units: 6 * n,
        ram_units: 7 * n,
        compute_count: 8 * n,
    }
}

#[test]
fn cluster_usage_sums_the_providers() {
    let node = EhdTreeTraversedNode {
        phd_ids: vec![],
        providers: vec![
            EhdTreeNodeProviderAggregate { provided_usage: Some(usage(1)) },
            EhdTreeNodeProviderAggregate { provided_usage: None },
            EhdTreeNodeProviderAggregate { provided_usage: Some(usage(10)) },
        ],
    };
    assert_eq!(node.get_cluster_usage(), usage(11));
    let empty = EhdTreeTraversedNode { phd_ids: vec![], providers: vec![] };
    assert_eq!(empty.get_cluster_usage(), ActivityNode::default());
}

#[test]
fn activity_is_handed_out() {
    let node = ActivityTreeTraversedNode { activity: Some(usage(3)) };
    assert_eq!(node.get_activity(), Some(usage(3)));
    assert_eq!(ActivityTreeTraversedNode { activity: None }.get_activity(), None);
}

#[test]
fn node_keys_of_aggregates_need_32_bytes() {
    let phd = PhdTreeTraversedNode { collector_id: vec![4; 32] };
    assert!(phd.get_collector_key().unwrap() == NodePubKey::storage([4; 32]));
    assert!(PhdTreeTraversedNode { collector_id: vec![4; 31] }.get_collector_key().is_none());
    let group = PhdNodeAggregateGroup { node_key: vec![5; 32] };
    assert!(group.get_node_key().unwrap() == NodePubKey::storage([5; 32]));
    assert!(PhdNodeAggregateGroup { node_key: vec![] }.get_node_key().is_none());
    let sub = BucketSubAggregate { node_key: vec![6; 32] };
    assert!(sub.get_node_key().unwrap() == NodePubKey::storage([6; 32]));
    assert!(BucketSubAggregate { node_key: vec![6; 40] }.get_node_key().is_none());
}

#[test]
fn activity_records_read_back_from_their_bytes() {
    let n = ActivityNode { stored: 300, transferred: 0, put_count: 1, get_count: u64::MAX, cpu_units: 0, gpu_units: 0, ram_units: 0, compute_count: 0 };
    let bytes = n.to_proto_bytes();
    assert_eq!(bytes[0..3], [0x08, 0xac, 0x02]);
    assert_eq!(ActivityNode::from_proto_bytes(&bytes), Some(n));
    assert!(ActivityNode::to_proto_bytes(&ActivityNode::default()).is_empty());
    assert_eq!(ActivityNode::from_proto_bytes(&[]), Some(ActivityNode::default()));
    assert_eq!(ActivityNode::from_proto_bytes(&[0x08]), None);
    assert_eq!(ActivityNode::from_proto_bytes(&[0x0a, 0x00]), None);
}

#[test]
fn receipts_read_back_from_their_bytes() {
    let receipt = InspectionReceipt {
        era_id: 7,
        cluster_id: "0x01".into(),
        verified_paths: vec!["a".into()],
        unverified_paths: vec![UnverifiedPath { path_hash: "b".into(), exception: vec![1, 2] }],
        quorum_unreached_paths: vec![],
        generated_at: 9,
        complete: false,
        archived_cid: vec![3],
        archived_at: 4,
        archival_status: -1,
    };
    let bytes = receipt.to_proto_bytes();
    let back = InspectionReceipt::from_proto_bytes(&bytes).unwrap();
    assert_eq!(back.era_id, 7);
    assert_eq!(back.cluster_id, "0x01");
    assert_eq!(back.unverified_paths[0].exception, vec![1, 2]);
    assert_eq!(back.archival_status, -1);
    assert!(InspectionReceipt::from_proto_bytes(&[0xff]).is_none());
}

const EMPTY_BLAKE2B_256: &str = "0x0e5751c026e543b2e8ab2eb06099daa1d1e5df47778f7787faab45cdf12fe3a8";

#[test]
fn path_hash_is_blake2b_of_the_encoding() {
    let empty = InspectionPath::default();
    assert_eq!(empty.path_hash_hex(), EMPTY_BLAKE2B_256);
    let path = InspectionPath {
        path_type: 1,
        collectors: vec!["0xc0".into()],
        path_data: Some(PathData::NodeAr(NodeArPath { node_key: "0x0a".into(), leaves_ids: vec![1, 2], tca_id: 3 })),
    };
    let h = path.path_hash();
    let hex_text = path.path_hash_hex();
    assert_eq!(hex_text.len(), 66);
    assert!(hex_text.starts_with("0x"));
    let expected: String = h.iter().map(|b| format!("{:02x}", b)).collect();
    assert_eq!(hex_text[2..], expected);
    assert_ne!(hex_text, EMPTY_BLAKE2B_256);
}

#[test]
fn result_hash_covers_path_exception_and_sources() {
    let none = InspectionPathResult::new("0x".into(), None, vec![]);
    assert_eq!(none.result_hash, EMPTY_BLAKE2B_256);
    assert_eq!(none.path_hash, "0x");
    let not_hex = InspectionPathResult::new("0xzz".into(), Some(vec![]), vec![]);
    assert_eq!(not_hex.result_hash, EMPTY_BLAKE2B_256);
    let a = InspectionPathResult::new("0xab".into(), Some(vec![1]), vec![]);
    let b = InspectionPathResult::new("0x0xab".into(), Some(vec![1]), vec![]);
    assert_eq!(a.result_hash, b.result_hash);
    assert_ne!(a.result_hash, EMPTY_BLAKE2B_256);
    let c = InspectionPathResult::new(
        "ab".into(),
        None,
        vec![Provenance { collector_key: "".into(), response_signature: vec![1] }],
    );
    assert_eq!(a.result_hash, c.result_hash);
    assert_eq!(c.source_collectors.len(), 1);
    assert_eq!(c.exception, None);
}

fn provider(n: Option<u64>) -> EhdTreeNodeProviderAggregate {
    EhdTreeNodeProviderAggregate { provided_usage: n.map(usage) }
}

#[test]
fn cluster_usage_does_not_depend_on_the_order_of_providers() {
    let one = EhdTreeTraversedNode {
        phd_ids: vec![],
        providers: vec![provider(Some(2)), provider(None), provider(Some(5))],
    };
    let other = EhdTreeTraversedNode {
        phd_ids: vec![],
        providers: vec![provider(Some(5)), provider(Some(2)), provider(None)],
    };
    assert_eq!(one.get_cluster_usage(), other.get_cluster_usage());
    assert_eq!(other.get_cluster_usage(), usage(7));
}
