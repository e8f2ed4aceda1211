//! What the activity tree's nodes say: usage totals, the activity of a
//! node, and the node keys that aggregates name.
use vstd::prelude::*;
use crate::primitives::NodePubKey;
use crate::proto::activity_tree::{
    lemma_activity_node_round_trip, ActivityNode, ActivityNodeV, ActivityTreeTraversedNode,
    BucketSubAggregate, EhdTreeNodeProviderAggregate, EhdTreeNodeProviderAggregateV,
    EhdTreeTraversedNode, EhdTreeTraversedNodeV, PhdNodeAggregateGroup, PhdTreeTraversedNode,
};

verus! {

/// Counter `w` (0 to 7) of a usage record, in field order: stored,
/// transferred, puts, gets, CPU, GPU, RAM, computations.
pub open spec fn counter(u: ActivityNodeV, w: int) -> u64 {
    if w == 0 { u.stored }
    else if w == 1 { u.transferred }
    else if w == 2 { u.put_count }
    else if w == 3 { u.get_count }
    else if w == 4 { u.cpu_units }
    else if w == 5 { u.gpu_units }
    else if w == 6 { u.ram_units }
    else { u.compute_count }
}

/// The sum of counter `w` over the usage that the providers report; a
/// provider without usage adds nothing.
pub open spec fn usage_total(ps: Seq<EhdTreeNodeProviderAggregateV>, w: int) -> int
    decreases ps.len(),
{
    if ps.len() == 0 {
        0
    } else {
        usage_total(ps.drop_last(), w) + provided(ps.last(), w)
    }
}

/// Counter `w` of the usage a provider reports, or nothing.
pub open spec fn provided(p: EhdTreeNodeProviderAggregateV, w: int) -> int {
    match p.provided_usage {
        Some(u) => counter(u, w) as int,
        None => 0int,
    }
}

/// Leaving one provider out takes exactly its usage off the total.
pub proof fn lemma_usage_total_remove(ps: Seq<EhdTreeNodeProviderAggregateV>, i: int, w: int)
    requires
        0 <= i < ps.len(),
    ensures
        usage_total(ps, w) == usage_total(ps.remove(i), w) + provided(ps[i], w),
    decreases ps.len(),
{
    if i == ps.len() - 1 {
        assert(ps.remove(i) =~= ps.drop_last());
    } else {
        lemma_usage_total_remove(ps.drop_last(), i, w);
        assert(ps.remove(i).drop_last() =~= ps.drop_last().remove(i));
        assert(ps.remove(i).last() == ps.last());
    }
}

/// Usage totals do not depend on the order of the providers: any
/// reordering of the same providers gives the same totals.
pub proof fn lemma_usage_total_reorder(ps1: Seq<EhdTreeNodeProviderAggregateV>, ps2: Seq<EhdTreeNodeProviderAggregateV>, w: int)
    requires
        ps1.to_multiset() == ps2.to_multiset(),
    ensures
        usage_total(ps1, w) == usage_total(ps2, w),
    decreases ps1.len(),
{
    broadcast use vstd::seq_lib::group_to_multiset_ensures, vstd::multiset::group_multiset_axioms;
    if ps1.len() == 0 {
        assert(ps2.to_multiset().len() == 0);
        assert(ps2.len() == 0);
    } else {
        let x = ps1.last();
        let rest1 = ps1.drop_last();
        assert(rest1.push(x) =~= ps1);
        assert(ps1.to_multiset() =~= rest1.to_multiset().insert(x));
        assert(ps2.to_multiset().count(x) > 0);
        assert(ps2.contains(x));
        let j = choose|j: int| 0 <= j < ps2.len() && ps2[j] == x;
        let rest2 = ps2.remove(j);
        assert(rest2.to_multiset() =~= ps2.to_multiset().remove(x));
        assert(rest1.to_multiset() =~= ps1.to_multiset().remove(x));
        lemma_usage_total_reorder(rest1, rest2, w);
        lemma_usage_total_remove(ps2, j, w);
    }
}

/// A node's cluster usage does not depend on the order of its providers:
/// two nodes with the same providers in any order have the same totals,
/// counter by counter.
pub proof fn lemma_cluster_usage_order(n1: EhdTreeTraversedNodeV, n2: EhdTreeTraversedNodeV)
    requires
        n1.providers.to_multiset() == n2.providers.to_multiset(),
    ensures
        forall|w: int| 0 <= w < 8 ==> #[trigger] usage_total(n1.providers, w) == usage_total(n2.providers, w),
        usage_fits(n1.providers) == usage_fits(n2.providers),
{
    assert forall|w: int| 0 <= w < 8 implies #[trigger] usage_total(n1.providers, w) == usage_total(n2.providers, w) by {
        lemma_usage_total_reorder(n1.providers, n2.providers, w);
    }
    if usage_fits(n1.providers) {
        assert forall|w: int| 0 <= w < 8 implies #[trigger] usage_total(n2.providers, w) <= u64::MAX by {
            assert(usage_total(n1.providers, w) == usage_total(n2.providers, w));
        }
    }
    if usage_fits(n2.providers) {
        assert forall|w: int| 0 <= w < 8 implies #[trigger] usage_total(n1.providers, w) <= u64::MAX by {
            assert(usage_total(n1.providers, w) == usage_total(n2.providers, w));
        }
    }
}

/// Every counter's total fits in a `u64`.
pub open spec fn usage_fits(ps: Seq<EhdTreeNodeProviderAggregateV>) -> bool {
    forall|w: int| 0 <= w < 8 ==> #[trigger] usage_total(ps, w) <= u64::MAX
}

/// A total over fewer providers is no larger.
pub proof fn lemma_usage_total_prefix(ps: Seq<EhdTreeNodeProviderAggregateV>, i: int, w: int)
    requires
        0 <= i <= ps.len(),
    ensures
        0 <= usage_total(ps.take(i), w) <= usage_total(ps, w),
    decreases ps.len() - i,
{
    if i < ps.len() {
        lemma_usage_total_prefix(ps, i + 1, w);
        assert(ps.take(i + 1).drop_last() =~= ps.take(i));
    } else {
        assert(ps.take(i) =~= ps);
    }
    lemma_usage_total_nonneg(ps.take(i), w);
}

proof fn lemma_usage_total_nonneg(ps: Seq<EhdTreeNodeProviderAggregateV>, w: int)
    ensures
        usage_total(ps, w) >= 0,
    decreases ps.len(),
{
    if ps.len() > 0 {
        lemma_usage_total_nonneg(ps.drop_last(), w);
    }
}

impl EhdTreeTraversedNode {
    /// The cluster's usage: each counter summed over the usage that the
    /// providers report.
    pub fn get_cluster_usage(&self) -> (r: ActivityNode)
        requires
            usage_fits(self@.providers),
        ensures
            forall|w: int| 0 <= w < 8 ==> #[trigger] counter(r@, w) == usage_total(self@.providers, w),
    {
        let ghost ps = self@.providers;
        let mut acc = ActivityNode::default();
        let mut i: usize = 0;
        proof {
            assert(ps.take(0) =~= Seq::<EhdTreeNodeProviderAggregateV>::empty());
        }
        while i < self.providers.len()
            invariant
                ps == self@.providers,
                ps.len() == self.providers@.len(),
                usage_fits(ps),
                0 <= i <= ps.len(),
                forall|w: int| 0 <= w < 8 ==> #[trigger] counter(acc@, w) == usage_total(ps.take(i as int), w),
            decreases ps.len() - i,
        {
            let ghost before = acc@;
            proof {
                assert(ps.take(i + 1).drop_last() =~= ps.take(i as int));
                assert(ps.take(i + 1).last() == ps[i as int]);
                assert forall|w: int| 0 <= w < 8 implies #[trigger] usage_total(ps.take(i + 1), w) <= u64::MAX by {
                    lemma_usage_total_prefix(ps, i + 1, w);
                    assert(usage_total(ps, w) <= u64::MAX);
                }
                assert(usage_total(ps.take(i + 1), 0) <= u64::MAX);
                assert(usage_total(ps.take(i + 1), 1) <= u64::MAX);
                assert(usage_total(ps.take(i + 1), 2) <= u64::MAX);
                assert(usage_total(ps.take(i + 1), 3) <= u64::MAX);
                assert(usage_total(ps.take(i + 1), 4) <= u64::MAX);
                assert(usage_total(ps.take(i + 1), 5) <= u64::MAX);
                assert(usage_total(ps.take(i + 1), 6) <= u64::MAX);
                assert(usage_total(ps.take(i + 1), 7) <= u64::MAX);
                assert(counter(before, 0) == usage_total(ps.take(i as int), 0));
                assert(counter(before, 1) == usage_total(ps.take(i as int), 1));
                assert(counter(before, 2) == usage_total(ps.take(i as int), 2));
                assert(counter(before, 3) == usage_total(ps.take(i as int), 3));
                assert(counter(before, 4) == usage_total(ps.take(i as int), 4));
                assert(counter(before, 5) == usage_total(ps.take(i as int), 5));
                assert(counter(before, 6) == usage_total(ps.take(i as int), 6));
                assert(counter(before, 7) == usage_total(ps.take(i as int), 7));
            }
            let provider: &EhdTreeNodeProviderAggregate = &self.providers[i];
            if let Some(usage) = &provider.provided_usage {
                acc.stored = acc.stored + usage.stored;
                acc.transferred = acc.transferred + usage.transferred;
                acc.put_count = acc.put_count + usage.put_count;
                acc.get_count = acc.get_count + usage.get_count;
                acc.cpu_units = acc.cpu_units + usage.cpu_units;
                acc.gpu_units = acc.gpu_units + usage.gpu_units;
                acc.ram_units = acc.ram_units + usage.ram_units;
                acc.compute_count = acc.compute_count + usage.compute_count;
            }
            i = i + 1;
        }
        proof {
            assert(ps.take(i as int) =~= ps);
        }
        acc
    }
}

impl ActivityTreeTraversedNode {
    /// The activity recorded at the node, if any.
    pub fn get_activity(&self) -> (r: Option<ActivityNode>)
        ensures
            r == self.activity,
    {
        self.activity
    }
}

impl PhdTreeTraversedNode {
    /// The collector as a node key, when its id has the 32 bytes of one.
    pub fn get_collector_key(&self) -> (r: Option<NodePubKey>)
        ensures
            self.collector_id@.len() == 32 ==> (r matches Some(k) && k@ == self.collector_id@),
            self.collector_id@.len() != 32 ==> r is None,
    {
        NodePubKey::from_slice(self.collector_id.as_slice())
    }
}

impl PhdNodeAggregateGroup {
    /// The node as a node key, when its key has 32 bytes.
    pub fn get_node_key(&self) -> (r: Option<NodePubKey>)
        ensures
            self.node_key@.len() == 32 ==> (r matches Some(k) && k@ == self.node_key@),
            self.node_key@.len() != 32 ==> r is None,
    {
        NodePubKey::from_slice(self.node_key.as_slice())
    }
}

impl BucketSubAggregate {
    /// The node as a node key, when its key has 32 bytes.
    pub fn get_node_key(&self) -> (r: Option<NodePubKey>)
        ensures
            self.node_key@.len() == 32 ==> (r matches Some(k) && k@ == self.node_key@),
            self.node_key@.len() != 32 ==> r is None,
    {
        NodePubKey::from_slice(self.node_key.as_slice())
    }
}

impl ActivityNode {
    /// The protobuf encoding of the record.
    pub fn to_proto_bytes(&self) -> (r: Vec<u8>)
        ensures
            r@ == self@.encode(),
    {
        self.encode_to_vec()
    }

    /// The record that the bytes encode, if they encode one.
    pub fn from_proto_bytes(bytes: &[u8]) -> (r: Option<ActivityNode>)
        ensures
            match ActivityNodeV::decode(bytes@) {
                Some(m) => r matches Some(x) && x@ == m,
                None => r is None,
            },
    {
        match ActivityNode::decode(bytes) {
            Ok(m) => Some(m),
            Err(_) => None,
        }
    }
}

/// An activity record read back from its encoding is the record itself.
pub proof fn lemma_activity_node_bytes_round_trip(m: ActivityNodeV)
    requires
        m.encode().len() <= u64::MAX,
    ensures
        ActivityNodeV::decode(m.encode()) == Some(m),
{
    lemma_activity_node_round_trip(m);
}

} // verus!
