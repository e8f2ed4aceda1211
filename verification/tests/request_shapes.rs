use ddc_api::api::{
    get_assignments_table_request, get_inspection_receipt_request, get_inspection_state_request,
    get_quorum_info_request, inspected_eras_request, post_itm_lease_request, processed_eras_request,
    submit_assignments_table_request, submit_inspection_result_request, sync_client, ApiError,
    SyncNode, MAX_RETRIES_COUNT, RESPONSE_TIMEOUT,
};
use ddc_api::client::{Accept, DdcClient, HttpRequest, MediaType, Method};
use ddc_api::primitives::{ClusterId, NodePubKey, StorageNodeMode, StorageNodeParams};
use ddc_api::proto::inspection::{LeaseRequest, PostAssignmentTableRequest, PostInspectionResultRequest};

fn cluster() -> ClusterId {
    ClusterId([3u8; 20])
}

fn params(host: &[u8], port: u16) -> StorageNodeParams {
    StorageNodeParams {
        mode: StorageNodeMode::Storage,
        host: host.to_vec(),
        domain: vec![],
        ssl: false,
        http_port: port,
        grpc_port: 0,
        p2p_port: 0,
    }
}

fn sync(dry_run: bool) -> SyncNode {
    SyncNode { dry_run, key: NodePubKey::storage([9u8; 32]), params: params(b"sync", 8080) }
}

fn is_proto_get(q: &HttpRequest, url: &str) -> bool {
    q.method == Method::Get
        && q.url == url
        && q.body.is_empty()
        && q.content_type.is_none()
        && q.accept == Some(MediaType::Protobuf)
        && q.timeout_ms == RESPONSE_TIMEOUT
        && q.retries == MAX_RETRIES_COUNT
}

fn is_proto_post(q: &HttpRequest, url: &str, body: &[u8]) -> bool {
    q.method == Method::Post
        && q.url == url
        && q.body == body
        && q.content_type == Some(MediaType::Protobuf)
        && q.accept == Some(MediaType::Protobuf)
        && q.timeout_ms == RESPONSE_TIMEOUT
        && q.retries == MAX_RETRIES_COUNT
}

#[test]
fn get_post_and_proto_post_carry_their_headers() {
    let c = DdcClient::new("http://h:8", 1, 1);
    let g = c.get_request("http://h:8/x".to_string(), Accept::Protobuf);
    assert!(g.method == Method::Get && g.accept == Some(MediaType::Protobuf) && g.content_type.is_none());
    assert!(g.body.is_empty());
    let g = c.get_request("http://h:8/x".to_string(), Accept::Any);
    assert!(g.accept.is_none());
    let p = c.post_request("http://h:8/y".to_string(), b"{}".to_vec(), Accept::Any);
    assert!(p.method == Method::Post && p.content_type == Some(MediaType::Json) && p.accept.is_none());
    assert_eq!(p.body, b"{}".to_vec());
    let p = c.post_request("http://h:8/y".to_string(), vec![], Accept::Protobuf);
    assert!(p.accept == Some(MediaType::Protobuf));
    let q = c.post_proto_request("http://h:8/z".to_string(), vec![1, 2]);
    assert!(q.method == Method::Post);
    assert!(q.content_type == Some(MediaType::Protobuf) && q.accept == Some(MediaType::Protobuf));
    assert_eq!(q.body, vec![1, 2]);
    assert_eq!((q.timeout_ms, q.retries), (1, 1));
    assert_eq!(MediaType::Json.as_str(), "application/json");
    assert_eq!(MediaType::Protobuf.as_str(), "application/protobuf");
}

#[test]
fn a_bucket_page_is_a_protobuf_get() {
    let c = DdcClient::new("http://h:8", 1, 1);
    let q = c.buckets_aggregates(5, Some(7), Some(100));
    assert_eq!(q.url, "http://h:8/activity/v1/buckets?tcaId=5&prevToken=7&limit=100");
    assert!(q.method == Method::Get && q.accept == Some(MediaType::Protobuf) && q.content_type.is_none());
}

#[test]
fn a_get_is_tried_as_often_as_the_client_says() {
    let c = DdcClient::new("http://h:8", 1, 3);
    let r = c.get_request("http://h:8/x".to_string(), Accept::Protobuf).retry();
    assert!(r.method == Method::Get);
    assert_eq!((r.retries, r.made), (3, 0));
}

#[test]
fn processed_eras_go_to_the_sync_node_in_a_dry_run() {
    let c = cluster();
    let q = processed_eras_request(&c, &sync(true), None, None, Some(4)).unwrap();
    assert!(is_proto_get(&q, "http://sync:8080/itm/v1/dry-run/processed-eras?limit=4"));
}

#[test]
fn processed_eras_go_to_the_grouping_collector_otherwise() {
    let c = cluster();
    let g = (NodePubKey::storage([1u8; 32]), params(b"g", 9));
    let q = processed_eras_request(&c, &sync(false), Some(Ok(g)), None, None).unwrap();
    assert!(is_proto_get(&q, "http://g:9/activity/v1/processed-eras"));
    let failed = Err(ApiError::FailedToFetchCollectors { cluster_id: c });
    assert_eq!(
        processed_eras_request(&c, &sync(false), Some(failed), None, None).err(),
        Some(ApiError::FailedToFetchGCollectors { cluster_id: c })
    );
    let bad_host = (NodePubKey::storage([1u8; 32]), params(&[0xff], 9));
    assert_eq!(
        processed_eras_request(&c, &sync(false), Some(Ok(bad_host)), None, None).err(),
        Some(ApiError::FailedToFetchProcessedEras { cluster_id: c })
    );
}

#[test]
fn inspected_eras_are_asked_of_the_sync_node() {
    let c = cluster();
    let q = inspected_eras_request(&c, Ok(sync(true)), None, None).unwrap();
    assert!(is_proto_get(&q, "http://sync:8080/itm/v1/dry-run/inspected-eras"));
    let q = inspected_eras_request(&c, Ok(sync(false)), None, Some(2)).unwrap();
    assert!(is_proto_get(&q, "http://sync:8080/activity/v1/inspected-eras?limit=2"));
    assert_eq!(
        inspected_eras_request(&c, Err(ApiError::FailedToFetchGCollectors { cluster_id: c }), None, None).err(),
        Some(ApiError::FailedToFetchSyncNodes { cluster_id: c })
    );
    let mut bad = sync(false);
    bad.params.host = vec![0xff];
    assert_eq!(
        inspected_eras_request(&c, Ok(bad), None, None).err(),
        Some(ApiError::FailedToFetchInspectedEras { cluster_id: c })
    );
}

#[test]
fn inspection_posts_carry_dry_run_only_in_a_dry_run() {
    let c = cluster();
    let lease = LeaseRequest { era_id: 4, inspector_key: "me".to_string(), ttl_seconds: 30 };
    let q = post_itm_lease_request(&c, &sync(false), &lease).unwrap();
    assert!(is_proto_post(&q, "http://sync:8080/itm/v1/lease", &lease.encode_to_vec()));
    let q = post_itm_lease_request(&c, &sync(true), &lease).unwrap();
    assert!(is_proto_post(&q, "http://sync:8080/itm/v1/lease?dryRun=true", &lease.encode_to_vec()));
    let table = PostAssignmentTableRequest { era_id: 4, inspector_key: "me".to_string(), table: None };
    let q = submit_assignments_table_request(&c, &sync(true), &table).unwrap();
    assert!(is_proto_post(&q, "http://sync:8080/itm/v1/submit?dryRun=true", &table.encode_to_vec()));
    let results = PostInspectionResultRequest { era_id: 4, inspector_key: "me".to_string(), paths_results: vec![] };
    let q = submit_inspection_result_request(&c, &sync(false), &results).unwrap();
    assert!(q.url.starts_with("http://sync:8080/itm/v1/") && !q.url.contains("dryRun"));
    assert!(q.content_type == Some(MediaType::Protobuf));
}

#[test]
fn inspection_gets_carry_dry_run_only_in_a_dry_run() {
    let c = cluster();
    let q = get_inspection_receipt_request(&c, &sync(true), 12).unwrap();
    assert!(is_proto_get(&q, "http://sync:8080/itm/v1/receipt/12?dryRun=true"));
    let q = get_inspection_receipt_request(&c, &sync(false), 12).unwrap();
    assert!(is_proto_get(&q, "http://sync:8080/itm/v1/receipt/12"));
    let q = get_assignments_table_request(&c, &sync(true), 12).unwrap();
    assert!(q.url.ends_with("dryRun=true") && q.method == Method::Get);
    let q = get_inspection_state_request(&c, &sync(false), 12).unwrap();
    assert!(!q.url.contains("dryRun") && q.accept == Some(MediaType::Protobuf));
    let q = get_quorum_info_request(&c, &sync(true), 12).unwrap();
    assert!(!q.url.contains("dryRun"));
}

#[test]
fn the_sync_client_takes_the_dry_run_flag() {
    let c = cluster();
    assert!(sync_client(&c, &sync(true)).unwrap().dry_run);
    assert!(!sync_client(&c, &sync(false)).unwrap().dry_run);
    let mut bad = sync(true);
    bad.params.host = vec![0xff];
    assert!(matches!(sync_client(&c, &bad).err(), Some(ApiError::NodeHostParseError { .. })));
}
