use ddc_api::api::{
    fetch_bucket_aggregate, fetch_inspected_eras_for_cluster, fetch_node_aggregate,
    fetch_processed_eras_for_cluster, fetch_records_range, fetch_traversed_bucket_sub_aggregate,
    fetch_traversed_era_historical_document, fetch_traversed_node_aggregate,
    fetch_traversed_partial_historical_document, get_inspection_receipt,
    sync_node_answer, ApiError, ApiResponse, SyncNode,
};
use ddc_api::client::HttpError;
use ddc_api::primitives::{ClusterId, NodePubKey, StorageNodeMode, StorageNodeParams};
use ddc_api::proto::activity::{GetErasResponse, GetRecordsResponse};
use ddc_api::proto::activity_tree::{BucketAggregate, BucketAggregatesResponse, NodeAggregatesResponse};
use ddc_api::proto::era::Era;
use ddc_api::proto::inspection::{InspectionReceipt, LeaseResult};
use ddc_api::wire::WireError;

fn cluster() -> ClusterId {
    ClusterId([1u8; 20])
}

fn key() -> NodePubKey {
    NodePubKey::storage([2u8; 32])
}

fn sync_node() -> SyncNode {
    SyncNode {
        dry_run: false,
        key: key(),
        params: StorageNodeParams {
            mode: StorageNodeMode::Storage,
            host: b"sync".to_vec(),
            domain: vec![],
            ssl: false,
            http_port: 80,
            grpc_port: 0,
            p2p_port: 0,
        },
    }
}

#[test]
fn failed_requests_name_what_was_asked() {
    let c = cluster();
    assert_eq!(
        fetch_bucket_aggregate(&c, 3, 4, Err(HttpError::IoError)).err(),
        Some(ApiError::FailedToFetchBucketAggregates { cluster_id: c, tca_id: 3 })
    );
    assert_eq!(
        fetch_node_aggregate(&c, 3, key(), Err(HttpError::Unknown)).err(),
        Some(ApiError::FailedToFetchNodeAggregate { cluster_id: c, tca_id: 3, node_key: key() })
    );
    assert_eq!(
        fetch_traversed_partial_historical_document(&c, 5, 6, 7, Err(HttpError::DeadlineReached)).err(),
        Some(ApiError::FailedToFetchTraversedPHD { cluster_id: c, era: 5, tree_node_id: 6, tree_levels_count: 7 })
    );
    assert_eq!(
        fetch_traversed_era_historical_document(&c, 5, 6, 7, Err(HttpError::DeadlineReached)).err(),
        Some(ApiError::FailedToFetchTraversedEHD { cluster_id: c, era: 5, tree_node_id: 6, tree_levels_count: 7 })
    );
    assert_eq!(
        fetch_traversed_node_aggregate(&c, 5, key(), 6, 7, Err(HttpError::Unknown)).err(),
        Some(ApiError::FailedToFetchTraversedNodeAggregate {
            cluster_id: c,
            tca_id: 5,
            node_key: key(),
            tree_node_id: 6,
            tree_levels_count: 7
        })
    );
    assert_eq!(
        fetch_traversed_bucket_sub_aggregate(&c, 5, 8, key(), 6, 7, Err(HttpError::Unknown)).err(),
        Some(ApiError::FailedToFetchTraversedBucketSubAggregate {
            cluster_id: c,
            tca_id: 5,
            bucket_id: 8,
            node_key: key(),
            tree_node_id: 6,
            tree_levels_count: 7
        })
    );
    let failed: Result<ApiResponse<GetRecordsResponse>, HttpError> = Err(HttpError::IoError);
    assert_eq!(
        fetch_records_range(&c, 5, key(), failed).err(),
        Some(ApiError::FailedToFetchRecordsRange { cluster_id: c, tca_id: 5, node_key: key() })
    );
}

#[test]
fn answers_pass_through() {
    let c = cluster();
    let page = ApiResponse {
        response: BucketAggregatesResponse { buckets: vec![BucketAggregate { bucket_id: 4 }] },
        signed_by: None,
    };
    let (b, sig) = fetch_bucket_aggregate(&c, 3, 4, Ok(page)).unwrap();
    assert_eq!(b.unwrap().bucket_id, 4);
    assert!(sig.is_empty());
    let nodes = ApiResponse { response: NodeAggregatesResponse { nodes: vec![] }, signed_by: None };
    let (n, _) = fetch_node_aggregate(&c, 3, key(), Ok(nodes)).unwrap();
    assert!(n.is_none());
    let eras = GetErasResponse { records: vec![Era { id: 1 }], next_cursor: None };
    assert_eq!(fetch_processed_eras_for_cluster(&c, Ok(eras)).unwrap().records.len(), 1);
}

#[test]
fn era_listings_and_inspection_calls_fail_by_name() {
    let c = cluster();
    assert_eq!(
        fetch_processed_eras_for_cluster(&c, Err(HttpError::Unknown)).err(),
        Some(ApiError::FailedToFetchProcessedEras { cluster_id: c })
    );
    assert_eq!(
        fetch_inspected_eras_for_cluster(&c, Err(HttpError::Unknown)).err(),
        Some(ApiError::FailedToFetchInspectedEras { cluster_id: c })
    );
    let failed: Result<InspectionReceipt, HttpError> = Err(HttpError::DeadlineReached);
    assert_eq!(
        get_inspection_receipt(&c, 9, failed).err(),
        Some(ApiError::FailedToFetchInspSummary { cluster_id: c, era: 9 })
    );
    let failed: Result<LeaseResult, HttpError> = Err(HttpError::IoError);
    assert_eq!(
        sync_node_answer(&c, &sync_node(), failed).err(),
        Some(ApiError::HttpClientError { cluster_id: c, host: b"sync".to_vec() })
    );
    let ok: Result<LeaseResult, HttpError> = Ok(LeaseResult::default());
    assert_eq!(sync_node_answer(&c, &sync_node(), ok).unwrap().era_id, 0);
}

#[test]
fn wire_errors_say_what_went_wrong() {
    assert_eq!(Era::decode(&[0x08]).err(), Some(WireError::InvalidVarint));
    assert_eq!(Era::decode(&[0x12, 0x05, 0x01]).err(), Some(WireError::BufferUnderflow));
    assert_eq!(Era::decode(&[0x0c]).err(), Some(WireError::UnsupportedWireType));
    assert_eq!(Era::decode(&[0x0a, 0x00]).err(), Some(WireError::WireTypeMismatch));
    assert_eq!(LeaseResult::decode(&[0x1a, 0x01, 0xff]).err(), Some(WireError::InvalidUtf8));
}
