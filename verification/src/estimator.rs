use crate::block::{BlockMetrics, BlockModel};
use crate::cache::{CacheModel, MeteringCache};
use crate::estimates::{
    column, compute_min_max_estimates, first_highest, first_lowest, lemma_kinds_complete,
    BlockPriorityEstimates, FlashblockResourceEstimates, ResourceEstimate, ResourceEstimates,
    RollingPriorityEstimates,
};
use crate::flashblock::FlashblockModel;
use crate::order::{by_fee, lemma_by_fee, sort_by_fee};
use crate::resource::{
    at_most, kinds, total_usage, usage, usage_extractor, ResourceDemand, ResourceKind,
};
use crate::rolling::{maxima, rolling_from, rolling_of};
use crate::transaction::MeteredTransaction;
use crate::u256::U256;
use vstd::prelude::*;

verus! {

/// What the first `count` transactions consumed of `kind`.
pub open spec fn prefix_usage(
    txs: Seq<MeteredTransaction>,
    kind: ResourceKind,
    count: int,
) -> nat {
    total_usage(txs.take(count), kind)
}

/// Whether the walk from the first transaction on has gathered `demand` at `i`, and not
/// before.
pub open spec fn is_threshold(
    txs: Seq<MeteredTransaction>,
    demand: nat,
    kind: ResourceKind,
    i: int,
) -> bool {
    &&& 0 <= i < txs.len()
    &&& prefix_usage(txs, kind, i + 1) >= demand
    &&& forall|j: int| 0 <= j < i ==> #[trigger] prefix_usage(txs, kind, j + 1) < demand
}

/// Whether `fee` is what `rank` picks among the fees that `remaining` pay, or `threshold`
/// where nothing remains. `rank` is given the last position and answers with a position;
/// an answer beyond the last one stands for the last one.
pub open spec fn picked<P: Fn(usize) -> usize>(
    remaining: Seq<MeteredTransaction>,
    threshold: U256,
    rank: P,
    fee: U256,
) -> bool {
    if remaining.len() == 0 {
        fee == threshold
    } else {
        exists|pos: usize|
            {
                &&& #[trigger] call_ensures(rank, ((remaining.len() - 1) as usize,), pos)
                &&& fee == remaining[at_most(
                    pos as nat,
                    (remaining.len() - 1) as nat,
                ) as int].priority_fee_per_gas
            }
    }
}

/// Whether `estimate` prices `demand` of `kind` against `txs` with the threshold at `i`.
pub open spec fn priced_at<P: Fn(usize) -> usize>(
    txs: Seq<MeteredTransaction>,
    demand: nat,
    kind: ResourceKind,
    rank: P,
    estimate: ResourceEstimate,
    i: int,
) -> bool {
    &&& is_threshold(txs, demand, kind, i)
    &&& estimate.threshold_priority_fee == txs[i].priority_fee_per_gas
    &&& picked(
        txs.skip(i + 1),
        estimate.threshold_priority_fee,
        rank,
        estimate.recommended_priority_fee,
    )
    &&& estimate.cumulative_usage == at_most(prefix_usage(txs, kind, i + 1), u128::MAX as nat)
    &&& estimate.supporting_transactions == i + 1
    &&& estimate.total_transactions == txs.len()
}

/// Whether `r` is the outcome of pricing `demand` of `kind` against `txs`: there is no price
/// exactly where there is no transaction or all of them together consumed less than `demand`.
pub open spec fn priced<P: Fn(usize) -> usize>(
    txs: Seq<MeteredTransaction>,
    demand: nat,
    kind: ResourceKind,
    rank: P,
    r: Option<ResourceEstimate>,
) -> bool {
    &&& r is None ==> txs.len() == 0 || total_usage(txs, kind) < demand
    &&& r is Some ==> exists|i: int| #[trigger] priced_at(txs, demand, kind, rank, r->0, i)
}

/// Core estimation algorithm.
///
/// Given a list of transactions sorted by priority fee (ascending) and a resource
/// demand, determines the minimum priority fee needed to "displace" enough existing
/// transactions to free up the required capacity.
///
/// # Algorithm
///
/// 1. Walk transactions from lowest to highest priority fee, accumulating resource usage.
/// 2. Stop when cumulative usage >= demand. This transaction's fee is the **threshold**:
///    paying at least this much would displace all lower-fee transactions.
/// 3. The **recommended** fee is that of the transaction above the threshold which
///    `percentile_rank` picks, providing a safety margin. It is given the last position
///    among those transactions and answers with the position to read.
///
/// # Example
///
/// ```text
/// Transactions (sorted by priority_fee ascending):
///   tx0: priority=1, gas=10
///   tx1: priority=2, gas=10
///   tx2: priority=3, gas=10
///
/// Demand: 15 gas
///
/// Walk:
///   cumulative=10 after tx0 (not enough)
///   cumulative=20 after tx1 (>= 15, threshold found)
///
/// threshold_fee = 2 (tx1's fee)
/// remaining = [tx2]
/// recommended_fee = 3 (50th percentile of remaining)
/// ```
pub fn compute_estimate_core<P: Fn(usize) -> usize>(
    transactions: &Vec<MeteredTransaction>,
    demand: u128,
    resource: ResourceKind,
    percentile_rank: &P,
) -> (r: Option<ResourceEstimate>)
    requires
        forall|last: usize| #[trigger] call_requires(*percentile_rank, (last,)),
    ensures
        priced(transactions@, demand as nat, resource, *percentile_rank, r),
{
    let ghost txs = transactions@;
    // Walk transactions low-to-high, accumulating resource usage until we have
    // enough capacity to satisfy the bundle's demand.
    let mut cumulative: u128 = 0;
    let mut idx: usize = 0;
    let mut found: bool = false;
    while idx < transactions.len() && !found
        invariant
            txs == transactions@,
            idx <= txs.len(),
            found ==> is_threshold(txs, demand as nat, resource, idx as int),
            !found ==> forall|j: int|
                0 <= j < idx ==> #[trigger] prefix_usage(txs, resource, j + 1) < demand,
            cumulative == at_most(
                prefix_usage(
                    txs,
                    resource,
                    if found {
                        idx + 1
                    } else {
                        idx as int
                    },
                ),
                u128::MAX as nat,
            ),
        decreases txs.len() - idx + (if found { 0int } else { 1int }),
    {
        proof {
            assert(txs.take(idx + 1).drop_last() =~= txs.take(idx as int));
        }
        cumulative = cumulative.saturating_add(usage_extractor(resource, &transactions[idx]));
        if cumulative >= demand {
            found = true;
        } else {
            idx += 1;
        }
    }
    // If we never accumulated enough, the bundle's demand exceeds total capacity.
    if !found {
        proof {
            assert(txs.take(idx as int) =~= txs);
            if txs.len() > 0 {
                assert(prefix_usage(txs, resource, (txs.len() - 1) + 1) < demand);
            }
        }
        return None;
    }
    // The threshold fee is the priority fee of the transaction where we crossed
    // the demand threshold. Paying this much displaces all transactions below.
    let threshold_fee = transactions[idx].priority_fee_per_gas;
    // For the recommended fee, look at transactions above the threshold and pick
    // one at the specified percentile. This provides a buffer above the minimum.
    let remaining: usize = transactions.len() - idx - 1;
    let recommended_fee = if remaining == 0 {
        threshold_fee
    } else {
        let last: usize = remaining - 1;
        let pos: usize = percentile_rank(last);
        let pos: usize = if pos < last {
            pos
        } else {
            last
        };
        transactions[idx + 1 + pos].priority_fee_per_gas
    };
    let estimate = ResourceEstimate {
        threshold_priority_fee: threshold_fee,
        recommended_priority_fee: recommended_fee,
        cumulative_usage: cumulative,
        supporting_transactions: idx + 1,
        total_transactions: transactions.len(),
    };
    let r: Option<ResourceEstimate> = Some(estimate);
    assert(priced_at(txs, demand as nat, resource, *percentile_rank, r->0, idx as int));
    r
}

/// Computes a fee estimate for a single resource type. A demand for nothing has no price.
pub fn compute_resource_estimate<P: Fn(usize) -> usize>(
    transactions: &Vec<MeteredTransaction>,
    demand: u128,
    resource: ResourceKind,
    percentile_rank: &P,
) -> (r: Option<ResourceEstimate>)
    requires
        forall|last: usize| #[trigger] call_requires(*percentile_rank, (last,)),
    ensures
        demand == 0 ==> r is None,
        demand > 0 ==> priced(transactions@, demand as nat, resource, *percentile_rank, r),
{
    if transactions.len() == 0 || demand == 0 {
        return None;
    }
    compute_estimate_core(transactions, demand, resource, percentile_rank)
}

/// The flashblocks of a block that hold transactions, by rising index.
pub open spec fn populated(block: BlockModel) -> Seq<FlashblockModel> {
    block.ordered().filter(|f: FlashblockModel| f.transactions.len() > 0)
}

/// The transactions of each populated flashblock by rising fee.
pub open spec fn sorted_parts(block: BlockModel) -> Seq<Seq<MeteredTransaction>> {
    populated(block).map_values(|f: FlashblockModel| by_fee(f.transactions))
}

/// All transactions of a block by rising fee.
pub open spec fn aggregate(block: BlockModel) -> Seq<MeteredTransaction> {
    by_fee(sorted_parts(block).flatten())
}

/// The transactions against which `kind` is priced in the flashblock whose sorted
/// transactions are `own`: those of the whole block where unused capacity is lost, and
/// otherwise its own.
pub open spec fn competitors(
    all: Seq<MeteredTransaction>,
    own: Seq<MeteredTransaction>,
    kind: ResourceKind,
) -> Seq<MeteredTransaction> {
    if kind == ResourceKind::ExecutionTime {
        all
    } else {
        own
    }
}

/// Whether `r` is the outcome of pricing what is asked for of `kind`, if anything.
pub open spec fn demand_priced<P: Fn(usize) -> usize>(
    txs: Seq<MeteredTransaction>,
    demand: Option<u128>,
    kind: ResourceKind,
    rank: P,
    r: Option<ResourceEstimate>,
) -> bool {
    match demand {
        None => r is None,
        Some(amount) => if amount == 0 {
            r is None
        } else {
            priced(txs, amount as nat, kind, rank, r)
        },
    }
}

/// Whether `estimates` prices `demand` in the flashblock with the sorted transactions `own`.
pub open spec fn flashblock_priced<P: Fn(usize) -> usize>(
    all: Seq<MeteredTransaction>,
    own: Seq<MeteredTransaction>,
    demand: ResourceDemand,
    rank: P,
    estimates: ResourceEstimates,
) -> bool {
    forall|kind: ResourceKind|
        demand_priced(
            competitors(all, own, kind),
            demand.of(kind),
            kind,
            rank,
            #[trigger] estimates.at(kind),
        )
}

/// Whether `estimates` prices `demand` in every populated flashblock of `block`, and holds
/// the lowest and the highest recommendation for each kind.
pub open spec fn block_priced<P: Fn(usize) -> usize>(
    block: BlockModel,
    demand: ResourceDemand,
    rank: P,
    estimates: BlockPriorityEstimates,
) -> bool {
    &&& estimates.block_number == block.block_number
    &&& estimates.flashblocks@.len() == populated(block).len()
    &&& forall|i: int|
        #![trigger estimates.flashblocks@[i]]
        0 <= i < populated(block).len() ==> {
            &&& estimates.flashblocks@[i].flashblock_index == populated(block)[i].flashblock_index
            &&& flashblock_priced(
                aggregate(block),
                sorted_parts(block)[i],
                demand,
                rank,
                estimates.flashblocks@[i].estimates,
            )
        }
    &&& forall|kind: ResourceKind|
        first_lowest(
            column(estimates.flashblocks@, kind),
            #[trigger] estimates.min_across_flashblocks.at(kind),
        )
    &&& forall|kind: ResourceKind|
        first_highest(
            column(estimates.flashblocks@, kind),
            #[trigger] estimates.max_across_flashblocks.at(kind),
        )
}

/// Whether `r` is the outcome of pricing `demand` in `block`: there are no estimates exactly
/// where no flashblock holds a transaction.
pub open spec fn block_outcome<P: Fn(usize) -> usize>(
    block: BlockModel,
    demand: ResourceDemand,
    rank: P,
    r: Option<BlockPriorityEstimates>,
) -> bool {
    &&& r is None <==> populated(block).len() == 0
    &&& r is Some ==> block_priced(block, demand, rank, r->0)
}

/// The block that is asked for: the one with the number, or the one that came in last.
pub open spec fn target_block(cache: CacheModel, block_number: Option<u64>) -> Option<BlockModel> {
    match block_number {
        Some(number) => cache.find(number),
        None => if cache.blocks.len() == 0 {
            None
        } else {
            Some(cache.blocks.last())
        },
    }
}

/// Whether `outcomes` are the outcomes of pricing `demand` in the blocks of the cache, from
/// the one that came in last to the one that came in first.
pub open spec fn cache_outcomes<P: Fn(usize) -> usize>(
    cache: CacheModel,
    demand: ResourceDemand,
    rank: P,
    outcomes: Seq<Option<BlockPriorityEstimates>>,
) -> bool {
    &&& outcomes.len() == cache.blocks.len()
    &&& forall|i: int|
        #![trigger outcomes[i]]
        0 <= i < outcomes.len() ==> block_outcome(
            cache.blocks.reverse()[i],
            demand,
            rank,
            outcomes[i],
        )
}

/// Whether `r` is the outcome of pricing `demand` in the block that is asked for.
pub open spec fn estimated<P: Fn(usize) -> usize>(
    cache: CacheModel,
    block_number: Option<u64>,
    demand: ResourceDemand,
    rank: P,
    r: Option<BlockPriorityEstimates>,
) -> bool {
    match target_block(cache, block_number) {
        None => r is None,
        Some(block) => block_outcome(block, demand, rank, r),
    }
}

/// Whether `r` is what the highest estimates of the cached blocks come to.
pub open spec fn rolling_estimated<P: Fn(usize) -> usize>(
    cache: CacheModel,
    demand: ResourceDemand,
    rank: P,
    r: Option<RollingPriorityEstimates>,
) -> bool {
    exists|outcomes: Seq<Option<BlockPriorityEstimates>>|
        {
            &&& #[trigger] cache_outcomes(cache, demand, rank, outcomes)
            &&& rolling_of(maxima(outcomes), r)
        }
}

/// The transactions of one flashblock by rising fee.
struct SortedFlashblock {
    flashblock_index: u64,
    transactions: Vec<MeteredTransaction>,
}

fn copied(refs: &Vec<&MeteredTransaction>) -> (r: Vec<MeteredTransaction>)
    ensures
        r@ == refs@.unref(),
{
    let mut r: Vec<MeteredTransaction> = Vec::new();
    let mut i: usize = 0;
    while i < refs.len()
        invariant
            i <= refs.len(),
            r@ == refs@.unref().take(i as int),
        decreases refs.len() - i,
    {
        r.push(*refs[i]);
        i += 1;
        assert(r@ =~= refs@.unref().take(i as int));
    }
    assert(refs@.unref().take(i as int) =~= refs@.unref());
    r
}

/// Collects the sorted transactions of the flashblocks that hold any.
fn sorted_flashblocks(block: &BlockMetrics) -> (r: Vec<SortedFlashblock>)
    requires
        block.wf(),
    ensures
        r@.len() == populated(block@).len(),
        forall|i: int|
            #![trigger r@[i]]
            0 <= i < r@.len() ==> r@[i].flashblock_index == populated(block@)[i].flashblock_index
                && r@[i].transactions@ == sorted_parts(block@)[i],
{
    let ghost ordered = block@.ordered();
    let ghost pred = |f: FlashblockModel| f.transactions.len() > 0;
    let flashblocks = block.flashblocks();
    let mut r: Vec<SortedFlashblock> = Vec::new();
    let mut i: usize = 0;
    assert(ordered.take(0).filter(pred) =~= Seq::empty()) by {
        reveal(Seq::filter);
    }
    while i < flashblocks.len()
        invariant
            i <= flashblocks.len(),
            flashblocks@.len() == ordered.len(),
            forall|k: int| 0 <= k < ordered.len() ==> (#[trigger] flashblocks@[k])@ == ordered[k],
            pred == (|f: FlashblockModel| f.transactions.len() > 0),
            r@.len() == ordered.take(i as int).filter(pred).len(),
            forall|k: int|
                #![trigger r@[k]]
                0 <= k < r@.len() ==> r@[k].flashblock_index == ordered.take(i as int).filter(
                    pred,
                )[k].flashblock_index && r@[k].transactions@ == by_fee(
                    ordered.take(i as int).filter(pred)[k].transactions,
                ),
        decreases flashblocks.len() - i,
    {
        broadcast use crate::flashblock::FlashblockMetrics::lemma_view_numbers;

        let flashblock = flashblocks[i];
        let sorted = copied(&flashblock.transactions_sorted_by_priority_fee());
        proof {
            reveal(Seq::filter);
            assert(ordered.take(i + 1).drop_last() =~= ordered.take(i as int));
            lemma_by_fee(flashblock@.transactions);
        }
        if sorted.len() > 0 {
            r.push(
                SortedFlashblock {
                    flashblock_index: flashblock.flashblock_index,
                    transactions: sorted,
                },
            );
        }
        i += 1;
    }
    assert(ordered.take(i as int) =~= ordered);
    r
}

/// Flattens the flashblocks into a single list for use-it-or-lose-it resources.
fn aggregate_transactions(
    flashblocks: &Vec<SortedFlashblock>,
    Ghost(parts): Ghost<Seq<Seq<MeteredTransaction>>>,
) -> (r: Vec<MeteredTransaction>)
    requires
        flashblocks@.len() == parts.len(),
        forall|i: int|
            #![trigger flashblocks@[i]]
            0 <= i < parts.len() ==> flashblocks@[i].transactions@ == parts[i],
    ensures
        r@ == by_fee(parts.flatten()),
{
    let mut all: Vec<MeteredTransaction> = Vec::new();
    let mut i: usize = 0;
    assert(parts.take(0).flatten() =~= Seq::empty());
    while i < flashblocks.len()
        invariant
            i <= flashblocks.len(),
            flashblocks@.len() == parts.len(),
            forall|k: int|
                #![trigger flashblocks@[k]]
                0 <= k < parts.len() ==> flashblocks@[k].transactions@ == parts[k],
            all@ == parts.take(i as int).flatten(),
        decreases flashblocks.len() - i,
    {
        let txs = &flashblocks[i].transactions;
        let mut k: usize = 0;
        let ghost before = all@;
        assert(before + parts[i as int].take(0) =~= before);
        while k < txs.len()
            invariant
                k <= txs.len(),
                i < parts.len(),
                txs@ == parts[i as int],
                all@ == before + parts[i as int].take(k as int),
            decreases txs.len() - k,
        {
            all.push(txs[k]);
            k += 1;
            assert(all@ =~= before + parts[i as int].take(k as int));
        }
        proof {
            assert(parts[i as int].take(k as int) =~= parts[i as int]);
            assert(parts.take(i + 1) =~= parts.take(i as int).push(parts[i as int]));
            parts.take(i as int).lemma_flatten_push(parts[i as int]);
        }
        i += 1;
    }
    assert(parts.take(i as int) =~= parts);
    sort_by_fee(&all)
}

/// Computes resource fee estimates based on cached flashblock metering data.
pub struct PriorityFeeEstimator<P> {
    /// Picks the point of the fee distribution (among transactions already scheduled above
    /// the threshold) that is returned as the recommendation: given the last position, it
    /// answers with a position.
    pub percentile_rank: P,
}

impl<P: Fn(usize) -> usize> PriorityFeeEstimator<P> {
    /// Whether the rank can be asked for every last position.
    pub open spec fn total_rank(self) -> bool {
        forall|last: usize| #[trigger] call_requires(self.percentile_rank, (last,))
    }

    /// Creates a new estimator that picks recommendations with `percentile_rank`.
    pub fn new(percentile_rank: P) -> (r: Self)
        ensures
            r.percentile_rank == percentile_rank,
    {
        Self { percentile_rank }
    }

    fn estimate_flashblock(
        &self,
        aggregate: &Vec<MeteredTransaction>,
        transactions: &Vec<MeteredTransaction>,
        demand: &ResourceDemand,
    ) -> (r: ResourceEstimates)
        requires
            self.total_rank(),
        ensures
            flashblock_priced(aggregate@, transactions@, *demand, self.percentile_rank, r),
    {
        let mut estimates = ResourceEstimates::default();
        let all = ResourceKind::all();
        let mut k: usize = 0;
        while k < 4
            invariant
                k <= 4,
                all@ == kinds(),
                self.total_rank(),
                forall|j: int|
                    #![trigger kinds()[j]]
                    k <= j < 4 ==> estimates.at(kinds()[j]) is None,
                forall|j: int|
                    #![trigger kinds()[j]]
                    0 <= j < k ==> demand_priced(
                        competitors(aggregate@, transactions@, kinds()[j]),
                        demand.of(kinds()[j]),
                        kinds()[j],
                        self.percentile_rank,
                        estimates.at(kinds()[j]),
                    ),
            decreases 4 - k,
        {
            let resource = all[k];
            let ghost before = estimates;
            proof {
                lemma_kinds_complete(resource);
                assert(kinds()[k as int] == resource);
            }
            if let Some(demand_value) = demand.demand_for(resource) {
                let estimate = if resource.use_it_or_lose_it() {
                    compute_resource_estimate(
                        aggregate,
                        demand_value,
                        resource,
                        &self.percentile_rank,
                    )
                } else {
                    compute_resource_estimate(
                        transactions,
                        demand_value,
                        resource,
                        &self.percentile_rank,
                    )
                };
                if let Some(est) = estimate {
                    estimates.set(resource, est);
                }
                assert(estimates.at(resource) == estimate);
            }
            proof {
                assert forall|j: int| #![trigger kinds()[j]] 0 <= j < 4 && j != k implies
                    estimates.at(kinds()[j]) == before.at(kinds()[j]) by {
                    assert(kinds()[j] != kinds()[k as int]);
                }
            }
            k += 1;
        }
        proof {
            assert forall|kind: ResourceKind|
                demand_priced(
                    competitors(aggregate@, transactions@, kind),
                    demand.of(kind),
                    kind,
                    self.percentile_rank,
                    #[trigger] estimates.at(kind),
                ) by {
                lemma_kinds_complete(kind);
            }
        }
        estimates
    }

    /// Returns fee estimates for `block`, or `None` where it holds no transaction.
    fn estimate_block(&self, block: &BlockMetrics, demand: ResourceDemand) -> (r: Option<
        BlockPriorityEstimates,
    >)
        requires
            block.wf(),
            self.total_rank(),
        ensures
            block_outcome(block@, demand, self.percentile_rank, r),
    {
        broadcast use crate::block::BlockMetrics::lemma_view_number;

        let flashblocks = sorted_flashblocks(block);
        if flashblocks.len() == 0 {
            return None;
        }
        let ghost parts = sorted_parts(block@);
        let aggregate = aggregate_transactions(&flashblocks, Ghost(parts));
        let mut estimates: Vec<FlashblockResourceEstimates> = Vec::new();
        let mut i: usize = 0;
        while i < flashblocks.len()
            invariant
                i <= flashblocks.len(),
                self.total_rank(),
                flashblocks@.len() == populated(block@).len(),
                parts == sorted_parts(block@),
                aggregate@ == crate::estimator::aggregate(block@),
                forall|k: int|
                    #![trigger flashblocks@[k]]
                    0 <= k < flashblocks@.len() ==> flashblocks@[k].flashblock_index == populated(
                        block@,
                    )[k].flashblock_index && flashblocks@[k].transactions@ == parts[k],
                estimates@.len() == i,
                forall|k: int|
                    #![trigger estimates@[k]]
                    0 <= k < i ==> {
                        &&& estimates@[k].flashblock_index == populated(block@)[k].flashblock_index
                        &&& flashblock_priced(
                            crate::estimator::aggregate(block@),
                            parts[k],
                            demand,
                            self.percentile_rank,
                            estimates@[k].estimates,
                        )
                    },
            decreases flashblocks.len() - i,
        {
            let flashblock = &flashblocks[i];
            let priced = self.estimate_flashblock(&aggregate, &flashblock.transactions, &demand);
            estimates.push(
                FlashblockResourceEstimates {
                    flashblock_index: flashblock.flashblock_index,
                    estimates: priced,
                },
            );
            i += 1;
        }
        let (min_across_flashblocks, max_across_flashblocks) = compute_min_max_estimates(
            &estimates,
        );
        Some(
            BlockPriorityEstimates {
                block_number: block.block_number,
                flashblocks: estimates,
                min_across_flashblocks,
                max_across_flashblocks,
            },
        )
    }

    /// Returns fee estimates for the provided block. If `block_number` is `None`
    /// the most recent block in the cache is used.
    ///
    /// Returns `None` if the cache is empty, the requested block is not cached,
    /// or no transactions exist in the cached flashblocks.
    pub fn estimate_for_block(
        &self,
        cache: &MeteringCache,
        block_number: Option<u64>,
        demand: ResourceDemand,
    ) -> (r: Option<BlockPriorityEstimates>)
        requires
            cache.wf(),
            self.total_rank(),
        ensures
            estimated(cache@, block_number, demand, self.percentile_rank, r),
    {
        match block_number {
            Some(target) => match cache.block(target) {
                Some(block) => self.estimate_block(block, demand),
                None => None,
            },
            None => {
                let blocks = cache.blocks_desc();
                if blocks.len() == 0 {
                    None
                } else {
                    assert(blocks@[0]@ == cache@.blocks.last());
                    self.estimate_block(blocks[0], demand)
                }
            },
        }
    }

    /// Returns rolling fee estimates aggregated across the most recent blocks in the cache.
    ///
    /// For each resource, computes estimates per block and takes the median recommended fee.
    /// The final `recommended_priority_fee` is the maximum across all resources.
    ///
    /// Returns `None` if the cache is empty, no blocks contain transaction data, or no
    /// resource could be estimated in any of them.
    pub fn estimate_rolling(&self, cache: &MeteringCache, demand: ResourceDemand) -> (r: Option<
        RollingPriorityEstimates,
    >)
        requires
            cache.wf(),
            self.total_rank(),
        ensures
            rolling_estimated(cache@, demand, self.percentile_rank, r),
    {
        let blocks = cache.blocks_desc();
        let ghost mut outcomes: Seq<Option<BlockPriorityEstimates>> = Seq::empty();
        let mut samples: Vec<ResourceEstimates> = Vec::new();
        let mut i: usize = 0;
        assert(maxima(outcomes) =~= Seq::empty()) by {
            reveal(Seq::filter);
        }
        while i < blocks.len()
            invariant
                i <= blocks.len(),
                self.total_rank(),
                blocks@.len() == cache@.blocks.len(),
                forall|k: int|
                    0 <= k < blocks@.len() ==> (#[trigger] blocks@[k]).wf() && blocks@[k]@
                        == cache@.blocks.reverse()[k],
                outcomes.len() == i,
                forall|k: int|
                    #![trigger outcomes[k]]
                    0 <= k < i ==> block_outcome(
                        cache@.blocks.reverse()[k],
                        demand,
                        self.percentile_rank,
                        outcomes[k],
                    ),
                samples@ == maxima(outcomes),
            decreases blocks.len() - i,
        {
            let outcome = self.estimate_block(blocks[i], demand);
            proof {
                reveal(Seq::filter);
                assert(outcomes.push(outcome).drop_last() =~= outcomes);
            }
            proof {
                outcomes = outcomes.push(outcome);
            }
            if let Some(estimates) = outcome {
                samples.push(estimates.max_across_flashblocks);
            }
            assert(samples@ =~= maxima(outcomes));
            i += 1;
        }
        assert(cache_outcomes(cache@, demand, self.percentile_rank, outcomes));
        rolling_from(&samples)
    }
}

} // verus!
