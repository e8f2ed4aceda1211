use ddc_api::api::{
    bucket_aggregate_of, find_era, get_bucket_tca_root, get_collector_node, get_collectors_nodes,
    get_ehd_root, get_g_collector_node, get_grouping_collectors_keys, get_node_tca_root,
    get_phd_root, inspected_era_cursor, node_aggregate_of, node_base_url, node_client,
    sync_node_from_chain, sync_node_from_g_collector, ApiError, ApiResponse, BucketPager,
    GCollectorScan, ListWalk, SignedBy, BUCKETS_AGGREGATES_FETCH_BATCH_SIZE, MAX_RETRIES_COUNT,
    RESPONSE_TIMEOUT,
};
use ddc_api::client::{
    build_list_url, decode_signed_proto, fetch_and_parse_proto, open_envelope, Attempt,
    DdcClient, HttpError, MediaType, Method, Retry,
};
use ddc_api::primitives::{
    ClusterId, InspectionDryRunParams, NodeParams, NodePubKey, StorageNodeMode,
    StorageNodeParams,
};
use ddc_api::proto::activity::{ActivityTreeTraversalResponse, GetErasResponse, GroupingCollectorsResponse};
use ddc_api::proto::activity_tree::{
    ActivityTreeTraversedNode, BucketAggregate, BucketAggregatesResponse, EhdTreeTraversalResponse,
    EhdTreeTraversedNode, NodeAggregate, NodeAggregatesResponse, PhdTreeTraversalResponse,
    PhdTreeTraversedNode,
};
use ddc_api::proto::era::{Era, Tca};
use ddc_api::proto::signature::{Signature, SignedResponse};

fn key(b: u8) -> NodePubKey {
    NodePubKey::storage([b; 32])
}

fn params(host: &str, port: u16, mode: StorageNodeMode) -> StorageNodeParams {
    StorageNodeParams {
        mode,
        host: host.as_bytes().to_vec(),
        domain: vec![],
        ssl: false,
        http_port: port,
        grpc_port: 0,
        p2p_port: 0,
    }
}

fn cluster() -> ClusterId {
    ClusterId([7u8; 20])
}

fn client() -> DdcClient {
    DdcClient::new("http://node:8080", RESPONSE_TIMEOUT, MAX_RETRIES_COUNT)
}

#[test]
fn key_text_is_0x_and_lowercase_hex() {
    let k = NodePubKey::storage([0xab; 32]);
    let s = k.to_key_string();
    assert_eq!(s, format!("0x{}", "ab".repeat(32)));
    let back = NodePubKey::try_from_str(&s).unwrap();
    assert!(back == k);
}

#[test]
fn key_text_is_read_in_either_case_and_without_prefix() {
    let upper = "CD".repeat(32);
    assert!(NodePubKey::try_from_str(&upper).unwrap() == NodePubKey::storage([0xcd; 32]));
    assert!(NodePubKey::try_from_str(&format!("0x{}", upper)).unwrap() == NodePubKey::storage([0xcd; 32]));
    assert!(NodePubKey::try_from_str("0x1234").is_none());
    assert!(NodePubKey::try_from_str(&"zz".repeat(32)).is_none());
    assert!(NodePubKey::try_from_str(&"a".repeat(63)).is_none());
}

#[test]
fn keys_compare_by_bytes() {
    assert!(key(1) == key(1));
    assert!(key(1) != key(2));
    let mut bytes = [5u8; 32];
    bytes[31] = 6;
    assert!(NodePubKey::storage(bytes) != key(5));
}

#[test]
fn key_from_slice_wants_32_bytes() {
    assert!(NodePubKey::from_slice(&[9u8; 32]).unwrap() == key(9));
    assert!(NodePubKey::from_slice(&[9u8; 31]).is_none());
    assert!(NodePubKey::from_slice(&[9u8; 33]).is_none());
}

#[test]
fn activity_urls() {
    let c = client();
    assert_eq!(c.buckets_aggregates_url(5, None, None), "http://node:8080/activity/v1/buckets?tcaId=5");
    assert_eq!(
        c.buckets_aggregates_url(5, Some(77), Some(100)),
        "http://node:8080/activity/v1/buckets?tcaId=5&prevToken=77&limit=100"
    );
    assert_eq!(c.bucket_aggregate_url(3, 12), "http://node:8080/activity/v1/buckets/12?tcaId=3");
    assert_eq!(
        c.node_aggregate_url(4, &key(0x01)),
        format!("http://node:8080/activity/v1/nodes/0x{}?tcaId=4", "01".repeat(32))
    );
    assert_eq!(c.get_tca_url(4294967295), "http://node:8080/activity/v1/tcas/4294967295");
    assert_eq!(
        c.traverse_era_historical_document_url(10, 1, 2),
        "http://node:8080/activity/v1/ehds/traverse/10?merkleTreeNodeId=1&levels=2"
    );
    assert_eq!(
        c.traverse_partial_historical_document_url(0, 3, 4),
        "http://node:8080/activity/v1/phds/traverse/0?merkleTreeNodeId=3&levels=4"
    );
    assert_eq!(
        c.traverse_node_aggregate_url(9, &key(0xff), 18446744073709551615, 65535),
        format!(
            "http://node:8080/activity/v1/nodes/0x{}/traverse/9?merkleTreeNodeId=18446744073709551615&levels=65535",
            "ff".repeat(32)
        )
    );
    assert_eq!(
        c.traverse_bucket_sub_aggregate_url(9, 8, &key(0x10), 7, 6),
        format!(
            "http://node:8080/activity/v1/buckets/8/traverse/9?nodeId=0x{}&merkleTreeNodeId=7&levels=6",
            "10".repeat(32)
        )
    );
    assert_eq!(c.get_grouping_collectors_url(), "http://node:8080/activity/v1/grouping-collectors");
    assert_eq!(c.get_quorum_info_url(12), "http://node:8080/itm/v1/quorum/12");
}

#[test]
fn list_urls_put_cursor_before_limit() {
    assert_eq!(build_list_url("http://a", "/p", None, None), "http://a/p");
    assert_eq!(build_list_url("http://a", "/p", None, Some(10)), "http://a/p?limit=10");
    assert_eq!(build_list_url("http://a", "/p", Some(&[0x0a, 0xff]), None), "http://a/p?cursor=0aff");
    assert_eq!(build_list_url("http://a", "/p", Some(&[1]), Some(2)), "http://a/p?cursor=01&limit=2");
    let c = client();
    assert_eq!(c.tcas_url(None, Some(5)), "http://node:8080/activity/v1/tcas?limit=5");
    assert_eq!(c.eras_url(Some(&[0, 0, 0, 1]), None), "http://node:8080/activity/v1/eras?cursor=00000001");
    assert_eq!(c.inspected_eras_url(None, None), "http://node:8080/activity/v1/inspected-eras");
    assert_eq!(c.processed_eras_url(None, None), "http://node:8080/activity/v1/processed-eras");
    assert_eq!(c.dry_run_inspected_eras_url(None, Some(1)), "http://node:8080/itm/v1/dry-run/inspected-eras?limit=1");
    assert_eq!(c.dry_run_processed_eras_url(None, None), "http://node:8080/itm/v1/dry-run/processed-eras");
}

#[test]
fn records_urls() {
    let c = client();
    assert_eq!(
        c.fetch_records_range_url(1, None, &[0x00, 0x01], &[0xff], None, None, None),
        "http://node:8080/activity/v1/records?tcaId=1&recordIdGte=0001&recordIdLte=ff"
    );
    assert_eq!(
        c.fetch_records_range_url(1, Some(2), &[], &[], Some(&[0xab]), Some(50), None),
        "http://node:8080/activity/v1/records?tcaId=1&recordIdGte=&recordIdLte=&bucketId=2&cursor=ab&limit=50"
    );
    assert_eq!(
        c.fetch_records_range_url(1, None, &[1], &[2], Some(&[0xab]), Some(50), Some(&[3, 40, 500])),
        "http://node:8080/activity/v1/records?tcaId=1&recordIdGte=01&recordIdLte=02&indexes=3,40,500"
    );
}

#[test]
fn inspection_urls_follow_dry_run() {
    let c = client();
    assert_eq!(c.post_itm_lease_url(), "http://node:8080/itm/v1/lease");
    assert_eq!(c.get_assignments_table_url(42), "http://node:8080/itm/v1/table/42");
    let d = client().with_dry_run(true);
    assert_eq!(d.post_itm_lease_url(), "http://node:8080/itm/v1/lease?dryRun=true");
    assert_eq!(d.submit_assignments_table_url(), "http://node:8080/itm/v1/submit?dryRun=true");
    assert_eq!(d.submit_inspection_result_url(), "http://node:8080/itm/v1/path?dryRun=true");
    assert_eq!(d.get_inspection_state_url(7), "http://node:8080/itm/v1/state/7?dryRun=true");
    assert_eq!(d.get_inspection_receipt_url(7), "http://node:8080/itm/v1/receipt/7?dryRun=true");
    assert_eq!(d.insp_mem_url("/x?y=1"), "http://node:8080/x?y=1&dryRun=true");
    assert_eq!(d.get_quorum_info_url(7), "http://node:8080/itm/v1/quorum/7");
    assert!(d.dry_run);
    assert!(!client().dry_run);
}

#[test]
fn get_retries_after_send_failures() {
    let mut r = Retry::new(Method::Get, 3);
    assert!(r.should_attempt());
    r.record(Attempt::NotSent);
    assert!(r.should_attempt());
    r.record(Attempt::Failed);
    assert!(r.should_attempt());
    r.record(Attempt::Answered(200));
    assert!(!r.should_attempt());
    assert_eq!(r.outcome(), Ok(200));
    assert_eq!(r.made, 3);
}

#[test]
fn post_gives_up_when_it_cannot_send() {
    let mut r = Retry::new(Method::Post, 3);
    r.record(Attempt::NotSent);
    assert!(!r.should_attempt());
    assert_eq!(r.outcome(), Err(HttpError::IoError));
}

#[test]
fn retries_end_in_the_last_error() {
    let mut r = Retry::new(Method::Get, 2);
    r.record(Attempt::Failed);
    r.record(Attempt::NotSent);
    assert!(!r.should_attempt());
    assert_eq!(r.outcome(), Err(HttpError::IoError));
    let mut r = Retry::new(Method::Post, 2);
    r.record(Attempt::Failed);
    r.record(Attempt::Failed);
    assert!(!r.should_attempt());
    assert_eq!(r.outcome(), Err(HttpError::DeadlineReached));
}

#[test]
fn server_errors_and_no_tries_are_unknown() {
    let mut r = Retry::new(Method::Get, 3);
    r.record(Attempt::Answered(503));
    assert!(!r.should_attempt());
    assert_eq!(r.outcome(), Err(HttpError::Unknown));
    let mut r = Retry::new(Method::Get, 3);
    r.record(Attempt::Answered(499));
    assert_eq!(r.outcome(), Ok(499));
    let r = Retry::new(Method::Get, 0);
    assert!(!r.should_attempt());
    assert_eq!(r.outcome(), Err(HttpError::Unknown));
}

fn envelope(payload: Vec<u8>, signed: bool) -> Vec<u8> {
    SignedResponse {
        payload,
        signature: if signed {
            Some(Signature { signer: vec![1, 2], value: vec![3, 4, 5] })
        } else {
            None
        },
    }
    .encode_to_vec()
}

#[test]
fn signed_answers_are_opened() {
    let era = Era { id: 99 };
    let body = envelope(era.encode_to_vec(), true);
    let env = open_envelope(&body).unwrap();
    let answer = fetch_and_parse_proto::<Era>(env, true).unwrap();
    assert_eq!(answer.response.id, 99);
    assert_eq!(answer.signed_by, Some(SignedBy { signer: vec![1, 2], signature: vec![3, 4, 5] }));
}

#[test]
fn unsigned_or_bad_answers_are_refused() {
    let era = Era { id: 99 };
    let env = open_envelope(&envelope(era.encode_to_vec(), false)).unwrap();
    assert_eq!(fetch_and_parse_proto::<Era>(env, true).err(), Some(HttpError::Unknown));
    let env = open_envelope(&envelope(era.encode_to_vec(), true)).unwrap();
    assert_eq!(fetch_and_parse_proto::<Era>(env, false).err(), Some(HttpError::Unknown));
    let env = open_envelope(&envelope(vec![0x08], true)).unwrap();
    assert_eq!(fetch_and_parse_proto::<Era>(env, true).err(), Some(HttpError::Unknown));
    assert_eq!(open_envelope(&[0x0a, 0x05, 0x01]).err(), Some(HttpError::Unknown));
}

#[test]
fn signed_proto_needs_no_signature_block() {
    let env = open_envelope(&envelope(Tca { id: 4 }.encode_to_vec(), false)).unwrap();
    assert_eq!(decode_signed_proto::<Tca>(&env, true).unwrap().id, 4);
    assert_eq!(decode_signed_proto::<Tca>(&env, false).err(), Some(HttpError::Unknown));
}

fn entries() -> Vec<(NodePubKey, Option<NodeParams>)> {
    vec![
        (key(1), Some(NodeParams::StorageParams(params("a", 1, StorageNodeMode::Storage)))),
        (key(2), None),
        (key(3), Some(NodeParams::StorageParams(params("c", 3, StorageNodeMode::Compute)))),
        (key(4), Some(NodeParams::StorageParams(params("d", 4, StorageNodeMode::Full)))),
    ]
}

#[test]
fn collectors_leave_out_compute_and_unknown_nodes() {
    let cs = get_collectors_nodes(&cluster(), Some(entries())).unwrap();
    assert_eq!(cs.len(), 2);
    assert!(cs[0].0 == key(1));
    assert!(cs[1].0 == key(4));
    assert_eq!(cs[1].1.http_port, 4);
    assert_eq!(
        get_collectors_nodes(&cluster(), None).err(),
        Some(ApiError::FailedToFetchCollectors { cluster_id: cluster() })
    );
}

#[test]
fn a_collector_is_found_by_key_compute_included() {
    let (k, p) = get_collector_node(&cluster(), key(3), Some(entries())).unwrap();
    assert!(k == key(3));
    assert_eq!(p.host, b"c".to_vec());
    assert_eq!(
        get_collector_node(&cluster(), key(2), Some(entries())).err(),
        Some(ApiError::FailedToFetchCollector { cluster_id: cluster(), node_key: key(2) })
    );
    assert_eq!(
        get_collector_node(&cluster(), key(1), None).err(),
        Some(ApiError::FailedToFetchCollector { cluster_id: cluster(), node_key: key(1) })
    );
}

#[test]
fn grouping_collectors_come_from_the_first_answer_with_keys() {
    let collectors = vec![
        (key(1), params("a", 1, StorageNodeMode::Storage)),
        (key(2), params("b", 2, StorageNodeMode::Storage)),
        (key(3), params("c", 3, StorageNodeMode::Storage)),
        (key(4), params("d", 4, StorageNodeMode::Storage)),
    ];
    let mut scan = GCollectorScan::new(collectors);
    assert_eq!(scan.next_to_ask(), Some(0));
    scan.record_keys(None);
    assert_eq!(scan.next_to_ask(), Some(1));
    scan.record_keys(Some(vec![]));
    assert_eq!(scan.next_to_ask(), Some(2));
    scan.record_keys(Some(vec![key(1), key(4), key(9)]));
    assert_eq!(scan.next_to_ask(), None);
    let found = scan.finish(&cluster()).unwrap();
    assert_eq!(found.len(), 1);
    assert!(found[0].0 == key(4));
}

#[test]
fn grouping_collectors_fail_without_keys() {
    let mut scan = GCollectorScan::new(vec![(key(1), params("a", 1, StorageNodeMode::Storage))]);
    scan.record_keys(None);
    assert_eq!(scan.next_to_ask(), None);
    assert_eq!(
        scan.finish(&cluster()).err(),
        Some(ApiError::FailedToFetchGCollectors { cluster_id: cluster() })
    );
    let scan = GCollectorScan::new(vec![]);
    assert_eq!(scan.next_to_ask(), None);
    assert!(scan.finish(&cluster()).is_err());
}

#[test]
fn the_g_collector_is_the_first_one() {
    let g = get_g_collector_node(
        &cluster(),
        Ok(vec![(key(5), params("e", 5, StorageNodeMode::Storage)), (key(6), params("f", 6, StorageNodeMode::Storage))]),
    )
    .unwrap();
    assert!(g.0 == key(5));
    assert_eq!(
        get_g_collector_node(&cluster(), Ok(vec![])).err(),
        Some(ApiError::FailedToFetchGCollectors { cluster_id: cluster() })
    );
    assert_eq!(
        get_g_collector_node(&cluster(), Err(ApiError::FailedToFetchCollectors { cluster_id: cluster() })).err(),
        Some(ApiError::FailedToFetchGCollectors { cluster_id: cluster() })
    );
}

#[test]
fn the_sync_node_is_the_dry_run_node_or_the_g_collector() {
    let p = InspectionDryRunParams {
        enabled: true,
        sync_node_key: key(8),
        sync_node_params: params("s", 9, StorageNodeMode::Storage),
    };
    let s = sync_node_from_chain(&cluster(), Some(Some(p))).unwrap().unwrap();
    assert!(s.dry_run);
    assert!(s.key == key(8));
    assert!(sync_node_from_chain(&cluster(), Some(None)).unwrap().is_none());
    assert_eq!(
        sync_node_from_chain(&cluster(), None).err(),
        Some(ApiError::FailedToFetchInspectionDryRunParams { cluster_id: cluster() })
    );
    let g = sync_node_from_g_collector(Ok((key(2), params("g", 2, StorageNodeMode::Storage)))).unwrap();
    assert!(!g.dry_run);
    assert!(g.key == key(2));
    assert_eq!(
        sync_node_from_g_collector(Err(ApiError::FailedToFetchGCollectors { cluster_id: cluster() })).err(),
        Some(ApiError::FailedToFetchGCollectors { cluster_id: cluster() })
    );
}

#[test]
fn base_urls_need_a_utf8_host() {
    assert_eq!(node_base_url(&params("10.0.0.1", 8080, StorageNodeMode::Storage)).unwrap(), "http://10.0.0.1:8080");
    assert_eq!(node_base_url(&params("héte", 0, StorageNodeMode::Storage)).unwrap(), "http://héte:0");
    let mut bad = params("x", 1, StorageNodeMode::Storage);
    bad.host = vec![0xff, 0xfe];
    assert!(node_base_url(&bad).is_none());
    assert_eq!(
        node_client(&cluster(), &key(1), &bad).err(),
        Some(ApiError::NodeHostParseError { cluster_id: cluster(), node_key: key(1), host: vec![0xff, 0xfe] })
    );
    let c = node_client(&cluster(), &key(1), &params("h", 65535, StorageNodeMode::Storage)).unwrap();
    assert_eq!(c.base_url, "http://h:65535");
    assert_eq!(c.retries, MAX_RETRIES_COUNT);
    assert_eq!(c.timeout_ms, RESPONSE_TIMEOUT);
}

#[test]
fn grouping_collector_keys_are_read_from_text() {
    let p = params("g", 1, StorageNodeMode::Storage);
    let answer = ApiResponse {
        response: GroupingCollectorsResponse { keys: vec![key(1).to_key_string(), "ab".repeat(32)] },
        signed_by: None,
    };
    let keys = get_grouping_collectors_keys(&cluster(), &p, Ok(answer)).unwrap();
    assert_eq!(keys.len(), 2);
    assert!(keys[0] == key(1));
    assert!(keys[1] == key(0xab));
    let bad = ApiResponse {
        response: GroupingCollectorsResponse { keys: vec!["nope".into()] },
        signed_by: None,
    };
    assert_eq!(
        get_grouping_collectors_keys(&cluster(), &p, Ok(bad)).err(),
        Some(ApiError::HttpClientError { cluster_id: cluster(), host: b"g".to_vec() })
    );
    assert_eq!(
        get_grouping_collectors_keys(&cluster(), &p, Err(HttpError::DeadlineReached)).err(),
        Some(ApiError::HttpClientError { cluster_id: cluster(), host: b"g".to_vec() })
    );
}

fn bucket_page(from: u64, n: u64, sig: Option<u8>) -> ApiResponse<BucketAggregatesResponse> {
    ApiResponse {
        response: BucketAggregatesResponse {
            buckets: (from..from + n).map(|bucket_id| BucketAggregate { bucket_id }).collect(),
        },
        signed_by: sig.map(|s| SignedBy { signer: vec![], signature: vec![s] }),
    }
}

#[test]
fn bucket_pages_are_walked_until_a_short_one() {
    let c = client();
    let mut pager = BucketPager::new(3);
    let first = pager.next_request(&c).unwrap();
    assert_eq!(first.url, "http://node:8080/activity/v1/buckets?tcaId=3&limit=100");
    assert!(first.method == Method::Get);
    assert!(first.accept == Some(MediaType::Protobuf));
    assert!(first.content_type.is_none());
    assert!(first.body.is_empty());
    pager.take_reply(&cluster(), Ok(bucket_page(1, BUCKETS_AGGREGATES_FETCH_BATCH_SIZE as u64, Some(1))));
    assert!(!pager.done);
    assert_eq!(
        pager.next_request(&c).unwrap().url,
        "http://node:8080/activity/v1/buckets?tcaId=3&prevToken=100&limit=100"
    );
    pager.take_page(bucket_page(101, 3, None));
    assert!(pager.done);
    assert!(pager.next_request(&c).is_none());
    let (buckets, sig) = pager.finish().unwrap();
    assert_eq!(buckets.len(), 103);
    assert_eq!(buckets[102].bucket_id, 103);
    assert_eq!(sig, vec![1]);
}

#[test]
fn a_failed_bucket_page_ends_the_walk_with_an_error() {
    let c = client();
    let mut pager = BucketPager::new(3);
    pager.take_reply(&cluster(), Ok(bucket_page(1, BUCKETS_AGGREGATES_FETCH_BATCH_SIZE as u64, Some(1))));
    assert!(pager.next_request(&c).is_some());
    pager.take_reply(&cluster(), Err(HttpError::DeadlineReached));
    assert!(pager.done);
    assert!(pager.next_request(&c).is_none());
    assert_eq!(
        pager.finish().err(),
        Some(ApiError::FailedToFetchBucketAggregates { cluster_id: cluster(), tca_id: 3 })
    );
}

#[test]
fn one_bucket_and_one_node_are_picked() {
    let (b, sig) = bucket_aggregate_of(bucket_page(10, 5, Some(9)), 12);
    assert_eq!(b.unwrap().bucket_id, 12);
    assert_eq!(sig, vec![9]);
    let (b, sig) = bucket_aggregate_of(bucket_page(10, 5, None), 99);
    assert!(b.is_none());
    assert!(sig.is_empty());
    let answer = ApiResponse {
        response: NodeAggregatesResponse {
            nodes: vec![NodeAggregate { node_key: vec![1] }, NodeAggregate { node_key: vec![2] }],
        },
        signed_by: Some(SignedBy { signer: vec![], signature: vec![4] }),
    };
    let (n, sig) = node_aggregate_of(answer);
    assert_eq!(n.unwrap().node_key, vec![1]);
    assert_eq!(sig, vec![4]);
}

#[test]
fn roots_are_the_first_node_or_an_error() {
    let walked = ApiResponse {
        response: EhdTreeTraversalResponse {
            nodes: vec![EhdTreeTraversedNode { phd_ids: vec!["a".into()], providers: vec![] }],
        },
        signed_by: None,
    };
    let root = get_ehd_root(&cluster(), 5, Ok(walked)).unwrap();
    assert_eq!(root.response.phd_ids, vec!["a".to_string()]);
    let empty = ApiResponse { response: EhdTreeTraversalResponse { nodes: vec![] }, signed_by: None };
    assert_eq!(
        get_ehd_root(&cluster(), 5, Ok(empty)).err(),
        Some(ApiError::FailedToFetchTraversedEHD { cluster_id: cluster(), era: 5, tree_node_id: 1, tree_levels_count: 1 })
    );
    let failed: Result<ApiResponse<PhdTreeTraversalResponse>, ApiError> =
        Err(ApiError::FailedToFetchCollector { cluster_id: cluster(), node_key: key(1) });
    assert_eq!(
        get_phd_root(&cluster(), 5, failed).err(),
        Some(ApiError::FailedToFetchCollector { cluster_id: cluster(), node_key: key(1) })
    );
    let phd = ApiResponse {
        response: PhdTreeTraversalResponse { nodes: vec![PhdTreeTraversedNode { collector_id: vec![3] }] },
        signed_by: None,
    };
    assert_eq!(get_phd_root(&cluster(), 5, Ok(phd)).unwrap().response.collector_id, vec![3]);
    let none = ApiResponse { response: ActivityTreeTraversalResponse { nodes: vec![] }, signed_by: None };
    assert_eq!(
        get_node_tca_root(&cluster(), 2, key(3), Ok(none)).err(),
        Some(ApiError::FailedToFetchTraversedNodeAggregate {
            cluster_id: cluster(),
            tca_id: 2,
            node_key: key(3),
            tree_node_id: 1,
            tree_levels_count: 1
        })
    );
    let none = ApiResponse { response: ActivityTreeTraversalResponse { nodes: vec![] }, signed_by: None };
    assert_eq!(
        get_bucket_tca_root(&cluster(), 2, 6, key(3), Ok(none)).err(),
        Some(ApiError::FailedToFetchTraversedBucketSubAggregate {
            cluster_id: cluster(),
            tca_id: 2,
            bucket_id: 6,
            node_key: key(3),
            tree_node_id: 1,
            tree_levels_count: 1
        })
    );
    let one = ApiResponse {
        response: ActivityTreeTraversalResponse { nodes: vec![ActivityTreeTraversedNode { activity: None }] },
        signed_by: Some(SignedBy { signer: vec![1], signature: vec![2] }),
    };
    let root = get_bucket_tca_root(&cluster(), 2, 6, key(3), Ok(one)).unwrap();
    assert!(root.response.activity.is_none());
    assert_eq!(root.signed_by, Some(SignedBy { signer: vec![1], signature: vec![2] }));
}

#[test]
fn inspected_era_cursor_is_the_era_before() {
    assert_eq!(inspected_era_cursor(0), vec![0, 0, 0, 0]);
    assert_eq!(inspected_era_cursor(1), vec![0, 0, 0, 0]);
    assert_eq!(inspected_era_cursor(257), vec![0, 0, 1, 0]);
    assert_eq!(inspected_era_cursor(u32::MAX), vec![0xff, 0xff, 0xff, 0xfe]);
}

#[test]
fn eras_are_found_by_id() {
    let page = GetErasResponse { records: vec![Era { id: 3 }, Era { id: 4 }], next_cursor: None };
    assert_eq!(find_era(&cluster(), 4, &page).unwrap().id, 4);
    assert_eq!(
        find_era(&cluster(), 5, &page).err(),
        Some(ApiError::FailedToFetchEra { cluster_id: cluster(), era: 5 })
    );
}

#[test]
fn listings_are_walked_until_the_cursor_runs_out() {
    let mut walk: ListWalk<Tca> = ListWalk::new();
    walk.take_page(vec![Tca { id: 1 }, Tca { id: 2 }], Some(vec![9]));
    assert!(!walk.done);
    assert_eq!(walk.cursor, Some(vec![9]));
    walk.take_page(vec![Tca { id: 3 }], Some(vec![]));
    assert!(walk.done);
    let all = walk.finish();
    assert_eq!(all.iter().map(|t| t.id).collect::<Vec<_>>(), vec![1, 2, 3]);
    let mut walk: ListWalk<Era> = ListWalk::new();
    walk.take_page(vec![], None);
    assert!(walk.done);
    assert!(walk.finish().is_empty());
}
