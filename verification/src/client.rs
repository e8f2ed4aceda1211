//! The HTTP client of a DDC node: the URL of each endpoint, when a request
//! is tried again, and how a signed answer is opened.
use vstd::prelude::*;
use crate::api::{ApiResponse, SignedBy};
use crate::message::ProtoMessage;
use crate::primitives::{key_text, BucketId, EhdEra, NodePubKey, TcaEra};
use crate::proto::signature::{SignatureV, SignedResponse, SignedResponseV};
use crate::text::{dec, hex_of, push_dec, push_hex, push_str};

verus! {

/// A client of one node. `timeout_ms` bounds each request and `retries` is
/// how many times a request is tried; in a dry run, inspection calls ask
/// the node not to keep what they send.
pub struct DdcClient {
    pub base_url: String,
    pub timeout_ms: u64,
    pub retries: u32,
    pub dry_run: bool,
}

/// `n` in decimal, behind `prefix`, when there is an `n`.
pub open spec fn opt_dec(prefix: Seq<char>, n: Option<u64>) -> Seq<char> {
    match n {
        Some(v) => prefix + dec(v as nat),
        None => seq![],
    }
}

/// The URL of a listing at `path`: the cursor in hexadecimal and the limit
/// as query parameters, each when given.
pub open spec fn list_url(
    base: Seq<char>,
    path: Seq<char>,
    cursor: Option<Seq<u8>>,
    limit: Option<u32>,
) -> Seq<char> {
    base + path + (match cursor {
        Some(c) => "?cursor="@ + hex_of(c),
        None => seq![],
    }) + (match limit {
        Some(l) => (if cursor is Some { "&"@ } else { "?"@ }) + "limit="@ + dec(l as nat),
        None => seq![],
    })
}

/// A `u32` option widened.
pub open spec fn opt_u32(n: Option<u32>) -> Option<u64> {
    match n {
        Some(l) => Some(l as u64),
        None => None,
    }
}

/// The view of optional indexes.
pub open spec fn opt_index_view(ix: Option<&[u64]>) -> Option<Seq<u64>> {
    match ix {
        Some(s) => Some(s@),
        None => None,
    }
}

/// The view of an optional byte slice.
pub open spec fn opt_slice_view(c: Option<&[u8]>) -> Option<Seq<u8>> {
    match c {
        Some(s) => Some(s@),
        None => None,
    }
}

/// `a` joined with `b`.
fn cat(a: &str, b: &str) -> (r: String)
    ensures
        r@ == a@ + b@,
{
    let mut s = String::new();
    push_str(&mut s, a);
    push_str(&mut s, b);
    proof {
        assert(s@ =~= a@ + b@);
    }
    s
}

/// Appends `prefix` and `n` in decimal.
fn push_param(s: &mut String, prefix: &str, n: u64)
    ensures
        final(s)@ == old(s)@ + prefix@ + dec(n as nat),
{
    push_str(s, prefix);
    push_dec(s, n);
    proof {
        assert(final(s)@ =~= old(s)@ + prefix@ + dec(n as nat));
    }
}

/// The URL of a listing at `path` under `base`.
pub fn build_list_url(base: &str, path: &str, cursor: Option<&[u8]>, limit: Option<u32>) -> (r: String)
    ensures
        r@ == list_url(base@, path@, opt_slice_view(cursor), limit),
{
    let mut url = cat(base, path);
    let mut first = true;
    if let Some(c) = cursor {
        push_str(&mut url, "?cursor=");
        push_hex(&mut url, c);
        first = false;
    }
    if let Some(l) = limit {
        if first {
            push_str(&mut url, "?");
        } else {
            push_str(&mut url, "&");
        }
        push_param(&mut url, "limit=", l as u64);
    }
    proof {
        assert(url@ =~= list_url(base@, path@, opt_slice_view(cursor), limit));
    }
    url
}

/// `n` numbers in decimal, separated by commas.
pub open spec fn joined(v: Seq<u64>) -> Seq<char>
    decreases v.len(),
{
    if v.len() == 0 {
        seq![]
    } else if v.len() == 1 {
        dec(v[0] as nat)
    } else {
        joined(v.drop_last()) + seq![','] + dec(v.last() as nat)
    }
}

/// The query of a records request after its range: the bucket when given,
/// then the indexes when given, else the cursor and limit when given.
pub open spec fn records_query(
    bucket_id: Option<BucketId>,
    cursor: Option<Seq<u8>>,
    limit: Option<u32>,
    indexes: Option<Seq<u64>>,
) -> Seq<char> {
    opt_dec("&bucketId="@, bucket_id) + (match indexes {
        Some(ix) => "&indexes="@ + joined(ix),
        None => (match cursor {
            Some(c) => "&cursor="@ + hex_of(c),
            None => seq![],
        }) + opt_dec("&limit="@, opt_u32(limit)),
    })
}

impl DdcClient {
    /// A client of the node at `base_url`, not in a dry run.
    pub fn new(base_url: &str, timeout_ms: u64, retries: u32) -> (r: DdcClient)
        ensures
            r.base_url@ == base_url@,
            r.timeout_ms == timeout_ms,
            r.retries == retries,
            !r.dry_run,
    {
        let mut b = String::new();
        push_str(&mut b, base_url);
        proof {
            assert(b@ =~= base_url@);
        }
        DdcClient { base_url: b, timeout_ms, retries, dry_run: false }
    }

    /// The same client, with dry runs set as given.
    pub fn with_dry_run(self, dry_run: bool) -> (r: DdcClient)
        ensures
            r.base_url@ == self.base_url@,
            r.timeout_ms == self.timeout_ms,
            r.retries == self.retries,
            r.dry_run == dry_run,
    {
        DdcClient { dry_run, ..self }
    }

    /// The URL of an inspection endpoint at `path`; in a dry run it asks
    /// for one with a `dryRun=true` query parameter.
    pub fn insp_mem_url(&self, path: &str) -> (r: String)
        ensures
            r@ == self.insp_url(path@),
    {
        let mut url = cat(self.base_url.as_str(), path);
        if self.dry_run {
            let n = url.as_str().unicode_len();
            let mut i: usize = 0;
            let mut found = false;
            while i < n
                invariant
                    n == url@.len(),
                    0 <= i <= n,
                    found == exists|j: int| 0 <= j < i && url@[j] == '?',
                decreases n - i,
            {
                if url.as_str().get_char(i) == '?' {
                    found = true;
                }
                i = i + 1;
            }
            if found {
                push_str(&mut url, "&dryRun=true");
            } else {
                push_str(&mut url, "?dryRun=true");
            }
        }
        url
    }

    /// The URL of a page of bucket aggregates of an era.
    pub fn buckets_aggregates_url(&self, era_id: TcaEra, prev_token: Option<BucketId>, limit: Option<u32>) -> (r: String)
        ensures
            r@ == self.base_url@ + "/activity/v1/buckets?tcaId="@ + dec(era_id as nat)
                + opt_dec("&prevToken="@, prev_token) + opt_dec("&limit="@, opt_u32(limit)),
    {
        let mut url = cat(self.base_url.as_str(), "/activity/v1/buckets?tcaId=");
        push_dec(&mut url, era_id as u64);
        if let Some(p) = prev_token {
            push_param(&mut url, "&prevToken=", p);
        }
        if let Some(l) = limit {
            push_param(&mut url, "&limit=", l as u64);
        }
        proof {
            assert(url@ =~= self.base_url@ + "/activity/v1/buckets?tcaId="@ + dec(era_id as nat)
                + opt_dec("&prevToken="@, prev_token) + opt_dec("&limit="@, opt_u32(limit)));
        }
        url
    }

    /// The URL of one bucket's aggregate in an era.
    pub fn bucket_aggregate_url(&self, era_id: TcaEra, bucket_id: BucketId) -> (r: String)
        ensures
            r@ == self.base_url@ + "/activity/v1/buckets/"@ + dec(bucket_id as nat) + "?tcaId="@
                + dec(era_id as nat),
    {
        let mut url = cat(self.base_url.as_str(), "/activity/v1/buckets/");
        push_dec(&mut url, bucket_id);
        push_param(&mut url, "?tcaId=", era_id as u64);
        proof {
            assert(url@ =~= self.base_url@ + "/activity/v1/buckets/"@ + dec(bucket_id as nat) + "?tcaId="@
                + dec(era_id as nat));
        }
        url
    }

    /// The URL of one node's aggregate in an era.
    pub fn node_aggregate_url(&self, era_id: TcaEra, node_key: &NodePubKey) -> (r: String)
        ensures
            r@ == self.base_url@ + "/activity/v1/nodes/"@ + key_text(node_key@) + "?tcaId="@
                + dec(era_id as nat),
    {
        let mut url = cat(self.base_url.as_str(), "/activity/v1/nodes/");
        let k = node_key.to_key_string();
        push_str(&mut url, k.as_str());
        push_param(&mut url, "?tcaId=", era_id as u64);
        proof {
            assert(url@ =~= self.base_url@ + "/activity/v1/nodes/"@ + key_text(node_key@) + "?tcaId="@
                + dec(era_id as nat));
        }
        url
    }

    /// The URL of a page of time capsule eras.
    pub fn tcas_url(&self, cursor: Option<&[u8]>, limit: Option<u32>) -> (r: String)
        ensures
            r@ == list_url(self.base_url@, "/activity/v1/tcas"@, opt_slice_view(cursor), limit),
    {
        build_list_url(self.base_url.as_str(), "/activity/v1/tcas", cursor, limit)
    }

    /// The URL of a page of eras.
    pub fn eras_url(&self, cursor: Option<&[u8]>, limit: Option<u32>) -> (r: String)
        ensures
            r@ == list_url(self.base_url@, "/activity/v1/eras"@, opt_slice_view(cursor), limit),
    {
        build_list_url(self.base_url.as_str(), "/activity/v1/eras", cursor, limit)
    }

    /// The URL of a page of inspected eras.
    pub fn inspected_eras_url(&self, cursor: Option<&[u8]>, limit: Option<u32>) -> (r: String)
        ensures
            r@ == list_url(self.base_url@, "/activity/v1/inspected-eras"@, opt_slice_view(cursor), limit),
    {
        build_list_url(self.base_url.as_str(), "/activity/v1/inspected-eras", cursor, limit)
    }

    /// The URL of a page of processed eras.
    pub fn processed_eras_url(&self, cursor: Option<&[u8]>, limit: Option<u32>) -> (r: String)
        ensures
            r@ == list_url(self.base_url@, "/activity/v1/processed-eras"@, opt_slice_view(cursor), limit),
    {
        build_list_url(self.base_url.as_str(), "/activity/v1/processed-eras", cursor, limit)
    }

    /// The URL of one time capsule era.
    pub fn get_tca_url(&self, tca_id: TcaEra) -> (r: String)
        ensures
            r@ == self.base_url@ + "/activity/v1/tcas/"@ + dec(tca_id as nat),
    {
        let mut url = cat(self.base_url.as_str(), "/activity/v1/tcas/");
        push_dec(&mut url, tca_id as u64);
        url
    }

    /// The URL of a page of eras inspected in a dry run.
    pub fn dry_run_inspected_eras_url(&self, cursor: Option<&[u8]>, limit: Option<u32>) -> (r: String)
        ensures
            r@ == list_url(self.base_url@, "/itm/v1/dry-run/inspected-eras"@, opt_slice_view(cursor), limit),
    {
        build_list_url(self.base_url.as_str(), "/itm/v1/dry-run/inspected-eras", cursor, limit)
    }

    /// The URL of a page of eras processed in a dry run.
    pub fn dry_run_processed_eras_url(&self, cursor: Option<&[u8]>, limit: Option<u32>) -> (r: String)
        ensures
            r@ == list_url(self.base_url@, "/itm/v1/dry-run/processed-eras"@, opt_slice_view(cursor), limit),
    {
        build_list_url(self.base_url.as_str(), "/itm/v1/dry-run/processed-eras", cursor, limit)
    }

    /// The URL of the activity records of an era in a range of record ids.
    pub fn fetch_records_range_url(
        &self,
        tca_id: TcaEra,
        bucket_id: Option<BucketId>,
        record_id_gte: &[u8],
        record_id_lte: &[u8],
        cursor: Option<&[u8]>,
        limit: Option<u32>,
        indexes: Option<&[u64]>,
    ) -> (r: String)
        ensures
            r@ == self.base_url@ + "/activity/v1/records?tcaId="@ + dec(tca_id as nat)
                + "&recordIdGte="@ + hex_of(record_id_gte@) + "&recordIdLte="@ + hex_of(record_id_lte@)
                + records_query(bucket_id, opt_slice_view(cursor), limit, opt_index_view(indexes)),
    {
        let mut url = cat(self.base_url.as_str(), "/activity/v1/records?tcaId=");
        push_dec(&mut url, tca_id as u64);
        push_str(&mut url, "&recordIdGte=");
        push_hex(&mut url, record_id_gte);
        push_str(&mut url, "&recordIdLte=");
        push_hex(&mut url, record_id_lte);
        let ghost head = url@;
        if let Some(b) = bucket_id {
            push_param(&mut url, "&bucketId=", b);
        }
        let ghost mid = url@;
        match indexes {
            Some(ix) => {
                push_str(&mut url, "&indexes=");
                let ghost start = url@;
                let mut i: usize = 0;
                while i < ix.len()
                    invariant
                        0 <= i <= ix@.len(),
                        url@ == start + joined(ix@.take(i as int)),
                    decreases ix@.len() - i,
                {
                    if i > 0 {
                        push_str(&mut url, ",");
                    }
                    push_dec(&mut url, ix[i]);
                    proof {
                        reveal_strlit(",");
                        assert(ix@.take(i + 1).drop_last() =~= ix@.take(i as int));
                        if i > 0 {
                            assert(url@ =~= start + joined(ix@.take(i + 1)));
                        } else {
                            assert(url@ =~= start + joined(ix@.take(i + 1)));
                        }
                    }
                    i = i + 1;
                }
                proof {
                    assert(ix@.take(i as int) =~= ix@);
                }
            },
            None => {
                if let Some(c) = cursor {
                    push_str(&mut url, "&cursor=");
                    push_hex(&mut url, c);
                }
                if let Some(l) = limit {
                    push_param(&mut url, "&limit=", l as u64);
                }
            },
        }
        proof {
            assert(url@ =~= self.base_url@ + "/activity/v1/records?tcaId="@ + dec(tca_id as nat)
                + "&recordIdGte="@ + hex_of(record_id_gte@) + "&recordIdLte="@ + hex_of(record_id_lte@)
                + records_query(bucket_id, opt_slice_view(cursor), limit, opt_index_view(indexes)));
        }
        url
    }

    /// The URL of a walk down an era's historical document tree.
    pub fn traverse_era_historical_document_url(&self, era: EhdEra, tree_node_id: u32, tree_levels_count: u32) -> (r: String)
        ensures
            r@ == self.base_url@ + "/activity/v1/ehds/traverse/"@ + dec(era as nat) + "?merkleTreeNodeId="@
                + dec(tree_node_id as nat) + "&levels="@ + dec(tree_levels_count as nat),
    {
        let mut url = cat(self.base_url.as_str(), "/activity/v1/ehds/traverse/");
        push_dec(&mut url, era as u64);
        push_param(&mut url, "?merkleTreeNodeId=", tree_node_id as u64);
        push_param(&mut url, "&levels=", tree_levels_count as u64);
        proof {
            assert(url@ =~= self.base_url@ + "/activity/v1/ehds/traverse/"@ + dec(era as nat) + "?merkleTreeNodeId="@
                + dec(tree_node_id as nat) + "&levels="@ + dec(tree_levels_count as nat));
        }
        url
    }

    /// The URL of a walk down an era's partial historical document tree.
    pub fn traverse_partial_historical_document_url(&self, era: EhdEra, tree_node_id: u32, tree_levels_count: u32) -> (r: String)
        ensures
            r@ == self.base_url@ + "/activity/v1/phds/traverse/"@ + dec(era as nat) + "?merkleTreeNodeId="@
                + dec(tree_node_id as nat) + "&levels="@ + dec(tree_levels_count as nat),
    {
        let mut url = cat(self.base_url.as_str(), "/activity/v1/phds/traverse/");
        push_dec(&mut url, era as u64);
        push_param(&mut url, "?merkleTreeNodeId=", tree_node_id as u64);
        push_param(&mut url, "&levels=", tree_levels_count as u64);
        proof {
            assert(url@ =~= self.base_url@ + "/activity/v1/phds/traverse/"@ + dec(era as nat) + "?merkleTreeNodeId="@
                + dec(tree_node_id as nat) + "&levels="@ + dec(tree_levels_count as nat));
        }
        url
    }

    /// The URL of a walk down a node's activity tree in an era.
    pub fn traverse_node_aggregate_url(&self, tca_id: TcaEra, node_key: &NodePubKey, merkle_tree_node_id: u64, levels: u16) -> (r: String)
        ensures
            r@ == self.base_url@ + "/activity/v1/nodes/"@ + key_text(node_key@) + "/traverse/"@
                + dec(tca_id as nat) + "?merkleTreeNodeId="@ + dec(merkle_tree_node_id as nat)
                + "&levels="@ + dec(levels as nat),
    {
        let mut url = cat(self.base_url.as_str(), "/activity/v1/nodes/");
        let k = node_key.to_key_string();
        push_str(&mut url, k.as_str());
        push_param(&mut url, "/traverse/", tca_id as u64);
        push_param(&mut url, "?merkleTreeNodeId=", merkle_tree_node_id);
        push_param(&mut url, "&levels=", levels as u64);
        proof {
            assert(url@ =~= self.base_url@ + "/activity/v1/nodes/"@ + key_text(node_key@) + "/traverse/"@
                + dec(tca_id as nat) + "?merkleTreeNodeId="@ + dec(merkle_tree_node_id as nat)
                + "&levels="@ + dec(levels as nat));
        }
        url
    }

    /// The URL of a walk down a bucket's activity tree on one node in an era.
    pub fn traverse_bucket_sub_aggregate_url(
        &self,
        tca_id: TcaEra,
        bucket_id: BucketId,
        node_key: &NodePubKey,
        merkle_tree_node_id: u64,
        levels: u16,
    ) -> (r: String)
        ensures
            r@ == self.base_url@ + "/activity/v1/buckets/"@ + dec(bucket_id as nat) + "/traverse/"@
                + dec(tca_id as nat) + "?nodeId="@ + key_text(node_key@) + "&merkleTreeNodeId="@
                + dec(merkle_tree_node_id as nat) + "&levels="@ + dec(levels as nat),
    {
        let mut url = cat(self.base_url.as_str(), "/activity/v1/buckets/");
        push_dec(&mut url, bucket_id);
        push_param(&mut url, "/traverse/", tca_id as u64);
        push_str(&mut url, "?nodeId=");
        let k = node_key.to_key_string();
        push_str(&mut url, k.as_str());
        push_param(&mut url, "&merkleTreeNodeId=", merkle_tree_node_id);
        push_param(&mut url, "&levels=", levels as u64);
        proof {
            assert(url@ =~= self.base_url@ + "/activity/v1/buckets/"@ + dec(bucket_id as nat) + "/traverse/"@
                + dec(tca_id as nat) + "?nodeId="@ + key_text(node_key@) + "&merkleTreeNodeId="@
                + dec(merkle_tree_node_id as nat) + "&levels="@ + dec(levels as nat));
        }
        url
    }

    /// The URL that takes lease requests.
    pub fn post_itm_lease_url(&self) -> (r: String)
        ensures
            r@ == self.insp_url("/itm/v1/lease"@),
    {
        self.insp_mem_url("/itm/v1/lease")
    }

    /// The URL that takes assignment tables.
    pub fn submit_assignments_table_url(&self) -> (r: String)
        ensures
            r@ == self.insp_url("/itm/v1/submit"@),
    {
        self.insp_mem_url("/itm/v1/submit")
    }

    /// The URL of an era's assignment table.
    pub fn get_assignments_table_url(&self, era: EhdEra) -> (r: String)
        ensures
            r@ == self.insp_url("/itm/v1/table/"@ + dec(era as nat)),
    {
        let path = self.era_path("/itm/v1/table/", era);
        self.insp_mem_url(path.as_str())
    }

    /// The URL that takes inspection results.
    pub fn submit_inspection_result_url(&self) -> (r: String)
        ensures
            r@ == self.insp_url("/itm/v1/path"@),
    {
        self.insp_mem_url("/itm/v1/path")
    }

    /// The URL of an era's inspection state.
    pub fn get_inspection_state_url(&self, era: EhdEra) -> (r: String)
        ensures
            r@ == self.insp_url("/itm/v1/state/"@ + dec(era as nat)),
    {
        let path = self.era_path("/itm/v1/state/", era);
        self.insp_mem_url(path.as_str())
    }

    /// The URL of an era's inspection receipt.
    pub fn get_inspection_receipt_url(&self, era: EhdEra) -> (r: String)
        ensures
            r@ == self.insp_url("/itm/v1/receipt/"@ + dec(era as nat)),
    {
        let path = self.era_path("/itm/v1/receipt/", era);
        self.insp_mem_url(path.as_str())
    }

    /// The URL of an era's inspection quorum; it is never a dry run.
    pub fn get_quorum_info_url(&self, era: EhdEra) -> (r: String)
        ensures
            r@ == self.base_url@ + "/itm/v1/quorum/"@ + dec(era as nat),
    {
        let mut url = cat(self.base_url.as_str(), "/itm/v1/quorum/");
        push_dec(&mut url, era as u64);
        url
    }

    /// The URL that lists the grouping collectors.
    pub fn get_grouping_collectors_url(&self) -> (r: String)
        ensures
            r@ == self.base_url@ + "/activity/v1/grouping-collectors"@,
    {
        cat(self.base_url.as_str(), "/activity/v1/grouping-collectors")
    }

    /// The inspection URL at `path`, as `insp_mem_url` gives it.
    pub open spec fn insp_url(&self, path: Seq<char>) -> Seq<char> {
        insp_url_for(self.base_url@, self.dry_run, path)
    }

    /// `prefix` and the era in decimal.
    fn era_path(&self, prefix: &str, era: EhdEra) -> (r: String)
        ensures
            r@ == prefix@ + dec(era as nat),
    {
        let mut p = String::new();
        push_param(&mut p, prefix, era as u64);
        proof {
            assert(p@ =~= prefix@ + dec(era as nat));
        }
        p
    }
}


/// How a request failed, as the node's runtime reports it.
#[derive(Debug, Clone, Copy, PartialEq, Eq, Structural)]
pub enum HttpError {
    DeadlineReached,
    IoError,
    Unknown,
}

/// How one try of a request ended: it could not be sent, it was answered
/// with a status code, or no answer came in time.
#[derive(Debug, Clone, Copy, PartialEq, Eq, Structural)]
pub enum Attempt {
    NotSent,
    Answered(u16),
    Failed,
}

/// A GET is tried again when it cannot be sent; a POST then gives up.
#[derive(Debug, Clone, Copy, PartialEq, Eq, Structural)]
pub enum Method {
    Get,
    Post,
}

/// Where the tries of one request stand: how many were made and how the
/// last one ended.
#[derive(Debug, Clone, Copy)]
pub struct Retry {
    pub method: Method,
    pub retries: u32,
    pub made: u32,
    pub last: Option<Attempt>,
}

impl Retry {
    /// Whether another try is due: tries remain, none was answered, and a
    /// POST was not refused by the sender.
    pub open spec fn can_attempt(self) -> bool {
        &&& self.made < self.retries
        &&& match self.last {
            None => true,
            Some(Attempt::Failed) => true,
            Some(Attempt::NotSent) => self.method == Method::Get,
            Some(Attempt::Answered(_)) => false,
        }
    }

    /// What the request comes to once no try is due: the last try decides;
    /// without any try, or with an answer of 500 or more, it is `Unknown`.
    pub open spec fn verdict(self) -> Result<u16, HttpError> {
        match self.last {
            None => Err(HttpError::Unknown),
            Some(Attempt::NotSent) => Err(HttpError::IoError),
            Some(Attempt::Failed) => Err(HttpError::DeadlineReached),
            Some(Attempt::Answered(code)) => if code >= 500 {
                Err(HttpError::Unknown)
            } else {
                Ok(code)
            },
        }
    }

    /// The state after one more try that ended as `a`.
    pub open spec fn after(self, a: Attempt) -> Retry {
        Retry { made: (self.made + 1) as u32, last: Some(a), ..self }
    }

    /// No try made yet.
    pub fn new(method: Method, retries: u32) -> (r: Retry)
        ensures
            r == (Retry { method, retries, made: 0, last: None }),
    {
        Retry { method, retries, made: 0, last: None }
    }

    /// Whether to try (again).
    pub fn should_attempt(&self) -> (r: bool)
        ensures
            r == self.can_attempt(),
    {
        self.made < self.retries && match self.last {
            None => true,
            Some(Attempt::Failed) => true,
            Some(Attempt::NotSent) => match self.method {
                Method::Get => true,
                Method::Post => false,
            },
            Some(Attempt::Answered(_)) => false,
        }
    }

    /// Records how a try ended.
    pub fn record(&mut self, a: Attempt)
        requires
            old(self).can_attempt(),
        ensures
            *final(self) == old(self).after(a),
    {
        self.made = self.made + 1;
        self.last = Some(a);
    }

    /// The request's outcome: the status code of the answer, or the error.
    pub fn outcome(&self) -> (r: Result<u16, HttpError>)
        ensures
            r == self.verdict(),
    {
        match self.last {
            None => Err(HttpError::Unknown),
            Some(Attempt::NotSent) => Err(HttpError::IoError),
            Some(Attempt::Failed) => Err(HttpError::DeadlineReached),
            Some(Attempt::Answered(code)) => if code >= 500 {
                Err(HttpError::Unknown)
            } else {
                Ok(code)
            },
        }
    }
}

/// The state after the tries `attempts`, made one by one while a try was
/// due; `None` if one of them came when none was due.
pub open spec fn replay(s: Retry, attempts: Seq<Attempt>) -> Option<Retry>
    decreases attempts.len(),
{
    if attempts.len() == 0 {
        Some(s)
    } else {
        match replay(s, attempts.drop_last()) {
            Some(t) => if t.can_attempt() {
                Some(t.after(attempts.last()))
            } else {
                None
            },
            None => None,
        }
    }
}

/// A request is tried at most `retries` times, nothing is tried after an
/// answer or after a POST could not be sent, and the outcome is what the
/// last try gave.
pub proof fn lemma_retry_run(method: Method, retries: u32, attempts: Seq<Attempt>)
    requires
        replay(Retry { method, retries, made: 0, last: None }, attempts) is Some,
    ensures
        ({
            let s = replay(Retry { method, retries, made: 0, last: None }, attempts).unwrap();
            &&& s.made == attempts.len()
            &&& attempts.len() <= retries
            &&& forall|i: int| 0 <= i < attempts.len() - 1 ==> !(#[trigger] attempts[i] is Answered)
            &&& method == Method::Post ==> forall|i: int|
                0 <= i < attempts.len() - 1 ==> !(#[trigger] attempts[i] is NotSent)
            &&& attempts.len() > 0 ==> s.verdict() == match attempts.last() {
                Attempt::NotSent => Err(HttpError::IoError),
                Attempt::Failed => Err(HttpError::DeadlineReached),
                Attempt::Answered(code) => if code >= 500 {
                    Err(HttpError::Unknown)
                } else {
                    Ok(code)
                },
            }
            &&& attempts.len() == 0 ==> s.verdict() == Err::<u16, HttpError>(HttpError::Unknown)
        }),
    decreases attempts.len(),
{
    if attempts.len() > 0 {
        let init = Retry { method, retries, made: 0, last: None };
        let prev = attempts.drop_last();
        lemma_retry_run(method, retries, prev);
        let t = replay(init, prev).unwrap();
        lemma_replay_keeps(init, prev);
        assert(t.can_attempt());
        assert(attempts.drop_last() == prev);
        let s = replay(init, attempts).unwrap();
        assert(s == t.after(attempts.last()));
        if prev.len() > 0 {
            lemma_replay_last(init, prev);
            assert(t.last == Some(prev.last()));
            assert(attempts[attempts.len() - 2] == prev.last());
        }
        assert forall|i: int| 0 <= i < attempts.len() - 1 implies !(#[trigger] attempts[i] is Answered) by {
            assert(prev[i] == attempts[i]);
        }
        if method == Method::Post {
            assert forall|i: int| 0 <= i < attempts.len() - 1 implies !(#[trigger] attempts[i] is NotSent) by {
                assert(prev[i] == attempts[i]);
            }
        }
    }
}

/// A GET whose every try goes unanswered is tried `retries` times and ends
/// in the last try's error.
pub proof fn lemma_get_uses_all_tries(retries: u32, attempts: Seq<Attempt>)
    requires
        replay(Retry { method: Method::Get, retries, made: 0, last: None }, attempts) is Some,
        forall|i: int| 0 <= i < attempts.len() ==> !(#[trigger] attempts[i] is Answered),
        attempts.len() < retries,
    ensures
        replay(Retry { method: Method::Get, retries, made: 0, last: None }, attempts).unwrap().can_attempt(),
{
    lemma_retry_run(Method::Get, retries, attempts);
    let s = replay(Retry { method: Method::Get, retries, made: 0, last: None }, attempts).unwrap();
    if attempts.len() > 0 {
        lemma_replay_last(Retry { method: Method::Get, retries, made: 0, last: None }, attempts);
        assert(!(attempts[attempts.len() - 1] is Answered));
    }
}

/// `k` tries that each went unanswered in time.
pub open spec fn timed_out(k: nat) -> Seq<Attempt> {
    Seq::new(k, |i: int| Attempt::Failed)
}

/// A try that was sent but got no answer in time is tried again while
/// tries remain, for a POST as for a GET: after `k < retries` such tries
/// another is due, and after `retries` of them none is and the request
/// ends in `DeadlineReached`.
pub proof fn lemma_timed_out_tries_go_on(method: Method, retries: u32, k: nat)
    requires
        k <= retries,
    ensures
        replay(Retry { method, retries, made: 0, last: None }, timed_out(k)) matches Some(s) && s.made == k
            && (k < retries ==> s.can_attempt())
            && (k == retries ==> !s.can_attempt())
            && (k > 0 ==> s.verdict() == Err::<u16, HttpError>(HttpError::DeadlineReached)),
    decreases k,
{
    let init = Retry { method, retries, made: 0, last: None };
    if k > 0 {
        lemma_timed_out_tries_go_on(method, retries, (k - 1) as nat);
        assert(timed_out(k).drop_last() =~= timed_out((k - 1) as nat));
        assert(timed_out(k).last() == Attempt::Failed);
        let t = replay(init, timed_out((k - 1) as nat)).unwrap();
        lemma_replay_keeps(init, timed_out((k - 1) as nat));
        assert(t.can_attempt());
        assert(replay(init, timed_out(k)) == Some(t.after(Attempt::Failed)));
        assert(t.after(Attempt::Failed).last == Some(Attempt::Failed));
    } else {
        assert(timed_out(0) =~= Seq::<Attempt>::empty());
        assert(replay(init, timed_out(0)) == Some(init));
    }
}

proof fn lemma_replay_last(s: Retry, attempts: Seq<Attempt>)
    requires
        replay(s, attempts) is Some,
        attempts.len() > 0,
    ensures
        replay(s, attempts).unwrap().last == Some(attempts.last()),
        replay(s, attempts).unwrap().method == s.method,
        replay(s, attempts).unwrap().retries == s.retries,
{
    lemma_replay_keeps(s, attempts.drop_last());
}

proof fn lemma_replay_keeps(s: Retry, attempts: Seq<Attempt>)
    requires
        replay(s, attempts) is Some,
    ensures
        replay(s, attempts).unwrap().method == s.method,
        replay(s, attempts).unwrap().retries == s.retries,
    decreases attempts.len(),
{
    if attempts.len() > 0 {
        lemma_replay_keeps(s, attempts.drop_last());
    }
}

/// `signed_by` names the signer and signature of `sig`.
pub open spec fn signed_by_is(signed_by: Option<SignedBy>, sig: SignatureV) -> bool {
    signed_by matches Some(sb) && sb.signer@ == sig.signer && sb.signature@ == sig.value
}

/// Reads the signed envelope that an answer's body holds.
pub fn open_envelope(body: &[u8]) -> (r: Result<SignedResponse, HttpError>)
    ensures
        match SignedResponseV::decode(body@) {
            Some(m) => r matches Ok(x) && x@ == m,
            None => r == Err::<SignedResponse, HttpError>(HttpError::Unknown),
        },
{
    match SignedResponse::decode(body) {
        Ok(m) => Ok(m),
        Err(_) => Err(HttpError::Unknown),
    }
}

/// The message that a signed envelope carries, with who signed it. The
/// envelope is refused when `signature_valid` is false, when its payload is
/// not a `T`, or when it has no signature.
pub fn fetch_and_parse_proto<T: ProtoMessage>(envelope: SignedResponse, signature_valid: bool) -> (r: Result<ApiResponse<T>, HttpError>)
    ensures
        !signature_valid ==> r matches Err(HttpError::Unknown),
        signature_valid ==> match T::decoded(envelope@.payload) {
            None => r matches Err(HttpError::Unknown),
            Some(m) => match envelope@.signature {
                None => r matches Err(HttpError::Unknown),
                Some(sig) => r matches Ok(a) && a.response@ == m && signed_by_is(a.signed_by, sig),
            },
        },
{
    if !signature_valid {
        return Err(HttpError::Unknown);
    }
    let response = match T::decode_bytes(envelope.payload.as_slice()) {
        Ok(m) => m,
        Err(_) => {
            return Err(HttpError::Unknown);
        },
    };
    match envelope.signature {
        Some(sig) => Ok(ApiResponse {
            response,
            signed_by: Some(SignedBy { signer: sig.signer, signature: sig.value }),
        }),
        None => Err(HttpError::Unknown),
    }
}

/// The message that a signed envelope carries, refused when
/// `signature_valid` is false or the payload is not a `T`.
pub fn decode_signed_proto<T: ProtoMessage>(envelope: &SignedResponse, signature_valid: bool) -> (r: Result<T, HttpError>)
    ensures
        !signature_valid ==> r matches Err(HttpError::Unknown),
        signature_valid ==> match T::decoded(envelope@.payload) {
            None => r matches Err(HttpError::Unknown),
            Some(m) => r matches Ok(x) && x@ == m,
        },
{
    if !signature_valid {
        return Err(HttpError::Unknown);
    }
    match T::decode_bytes(envelope.payload.as_slice()) {
        Ok(m) => Ok(m),
        Err(_) => Err(HttpError::Unknown),
    }
}


/// The inspection URL at `path` under `base`: in a dry run it carries a
/// `dryRun=true` query parameter, behind `&` when the URL already has a
/// query and behind `?` otherwise.
pub open spec fn insp_url_for(base: Seq<char>, dry_run: bool, path: Seq<char>) -> Seq<char> {
    base + path + (if !dry_run {
        seq![]
    } else if (base + path).contains('?') {
        "&dryRun=true"@
    } else {
        "?dryRun=true"@
    })
}

/// A media type that a request names in a header.
#[derive(Debug, Clone, Copy, PartialEq, Eq, Structural)]
pub enum MediaType {
    Json,
    Protobuf,
}

/// How a media type is written in a header.
pub open spec fn media_text(m: MediaType) -> Seq<char> {
    match m {
        MediaType::Json => "application/json"@,
        MediaType::Protobuf => "application/protobuf"@,
    }
}

impl MediaType {
    /// The header value of the media type.
    pub fn as_str(&self) -> (r: &'static str)
        ensures
            r@ == media_text(*self),
    {
        match self {
            MediaType::Json => "application/json",
            MediaType::Protobuf => "application/protobuf",
        }
    }
}

/// What answer a request asks for: any, or a protobuf one.
#[derive(Debug, Clone, Copy, PartialEq, Eq, Structural)]
pub enum Accept {
    Any,
    Protobuf,
}

/// The `Accept` header that asks for `a`: none for any answer.
pub open spec fn accept_header(a: Accept) -> Option<MediaType> {
    match a {
        Accept::Any => None,
        Accept::Protobuf => Some(MediaType::Protobuf),
    }
}

/// A request to send: its method, URL and body, the `content-type` and
/// `Accept` headers it carries (none when `None`), and the time and tries
/// it is given.
#[derive(Debug)]
pub struct HttpRequest {
    pub method: Method,
    pub url: String,
    pub body: Vec<u8>,
    pub content_type: Option<MediaType>,
    pub accept: Option<MediaType>,
    pub timeout_ms: u64,
    pub retries: u32,
}

/// `q` is a GET of `url` that asks for a protobuf answer and carries no
/// body, with the given time and tries.
pub open spec fn is_proto_get(q: HttpRequest, url: Seq<char>, timeout_ms: u64, retries: u32) -> bool {
    &&& q.method == Method::Get
    &&& q.url@ == url
    &&& q.body@.len() == 0
    &&& q.content_type is None
    &&& q.accept == Some(MediaType::Protobuf)
    &&& q.timeout_ms == timeout_ms
    &&& q.retries == retries
}

/// `q` is a POST of the protobuf `body` to `url` that asks for a protobuf
/// answer, with the given time and tries.
pub open spec fn is_proto_post(q: HttpRequest, url: Seq<char>, body: Seq<u8>, timeout_ms: u64, retries: u32) -> bool {
    &&& q.method == Method::Post
    &&& q.url@ == url
    &&& q.body@ == body
    &&& q.content_type == Some(MediaType::Protobuf)
    &&& q.accept == Some(MediaType::Protobuf)
    &&& q.timeout_ms == timeout_ms
    &&& q.retries == retries
}

impl HttpRequest {
    /// The tries of this request, none made yet.
    pub fn retry(&self) -> (r: Retry)
        ensures
            r == (Retry { method: self.method, retries: self.retries, made: 0, last: None }),
    {
        Retry::new(self.method, self.retries)
    }
}

impl DdcClient {
    /// A GET of `url`, asking for the answer that `accept` names.
    pub fn get_request(&self, url: String, accept: Accept) -> (r: HttpRequest)
        ensures
            r.method == Method::Get,
            r.url@ == url@,
            r.body@.len() == 0,
            r.content_type is None,
            r.accept == accept_header(accept),
            r.timeout_ms == self.timeout_ms,
            r.retries == self.retries,
    {
        HttpRequest {
            method: Method::Get,
            url,
            body: Vec::new(),
            content_type: None,
            accept: match accept {
                Accept::Any => None,
                Accept::Protobuf => Some(MediaType::Protobuf),
            },
            timeout_ms: self.timeout_ms,
            retries: self.retries,
        }
    }

    /// A POST of a protobuf body, asking for a protobuf answer.
    pub fn post_proto_request(&self, url: String, body: Vec<u8>) -> (r: HttpRequest)
        ensures
            is_proto_post(r, url@, body@, self.timeout_ms, self.retries),
    {
        HttpRequest {
            method: Method::Post,
            url,
            body,
            content_type: Some(MediaType::Protobuf),
            accept: Some(MediaType::Protobuf),
            timeout_ms: self.timeout_ms,
            retries: self.retries,
        }
    }

    /// A POST of a JSON body, asking for the answer that `accept` names.
    pub fn post_request(&self, url: String, body: Vec<u8>, accept: Accept) -> (r: HttpRequest)
        ensures
            r.method == Method::Post,
            r.url@ == url@,
            r.body@ == body@,
            r.content_type == Some(MediaType::Json),
            r.accept == accept_header(accept),
            r.timeout_ms == self.timeout_ms,
            r.retries == self.retries,
    {
        HttpRequest {
            method: Method::Post,
            url,
            body,
            content_type: Some(MediaType::Json),
            accept: match accept {
                Accept::Any => None,
                Accept::Protobuf => Some(MediaType::Protobuf),
            },
            timeout_ms: self.timeout_ms,
            retries: self.retries,
        }
    }

    /// The GET of a page of bucket aggregates of an era, asking for a
    /// protobuf answer.
    pub fn buckets_aggregates(&self, era_id: TcaEra, prev_token: Option<BucketId>, limit: Option<u32>) -> (r: HttpRequest)
        ensures
            is_proto_get(r, self.base_url@ + "/activity/v1/buckets?tcaId="@ + dec(era_id as nat)
                + opt_dec("&prevToken="@, prev_token) + opt_dec("&limit="@, opt_u32(limit)),
                self.timeout_ms, self.retries),
    {
        let url = self.buckets_aggregates_url(era_id, prev_token, limit);
        self.get_request(url, Accept::Protobuf)
    }
}

} // verus!
