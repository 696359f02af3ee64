use crate::block::BlockModel;
use crate::bundle::MeterBundleResponse;
use crate::cache::CacheModel;
use crate::cache_laws::{law_recording_is_local, law_removing_is_local};
use crate::estimates::{
    column, first_highest, first_lowest, BlockPriorityEstimates, ResourceEstimate,
    ResourceEstimates, RollingPriorityEstimates,
};
use crate::estimator::{
    aggregate, block_outcome, block_priced, cache_outcomes, competitors, demand_priced, estimated,
    flashblock_priced, priced, priced_at, rolling_estimated, sorted_parts, target_block,
};
use crate::estimator_laws::{law_priced_where_possible, lemma_picked, lemma_threshold_order};
use crate::order::by_fee;
use crate::resource::{ResourceDemand, ResourceKind};
use crate::rolling::{fees_for, maxima, median_estimate, rolling_of};
use crate::rpc::{answers, fee_answer, MeteredPriorityFeeResponse, MeteringError};
use crate::transaction::{MeteredTransaction, TxHash};
use vstd::prelude::*;

verus! {

/// Whether a rank has one answer for each last position.
pub open spec fn single_valued<P: Fn(usize) -> usize>(rank: P) -> bool {
    forall|last: usize, a: usize, b: usize| #[trigger]
        call_ensures(rank, (last,), a) && #[trigger] call_ensures(rank, (last,), b) ==> a == b
}

/// Whether two estimates of a block agree in every field.
pub open spec fn same_estimates(a: BlockPriorityEstimates, b: BlockPriorityEstimates) -> bool {
    &&& a.block_number == b.block_number
    &&& a.flashblocks@ == b.flashblocks@
    &&& a.min_across_flashblocks == b.min_across_flashblocks
    &&& a.max_across_flashblocks == b.max_across_flashblocks
}

/// Whether two outcomes are both nothing, or estimates that agree in every field.
pub open spec fn same_outcome(
    a: Option<BlockPriorityEstimates>,
    b: Option<BlockPriorityEstimates>,
) -> bool {
    match (a, b) {
        (None, None) => true,
        (Some(x), Some(y)) => same_estimates(x, y),
        _ => false,
    }
}

/// A rank with one answer for each last position prices a demand in one way.
pub proof fn law_one_price<P: Fn(usize) -> usize>(
    txs: Seq<MeteredTransaction>,
    demand: nat,
    kind: ResourceKind,
    rank: P,
    a: Option<ResourceEstimate>,
    b: Option<ResourceEstimate>,
)
    requires
        single_valued(rank),
        priced(txs, demand, kind, rank, a),
        priced(txs, demand, kind, rank, b),
    ensures
        a == b,
{
    law_priced_where_possible(txs, demand, kind, rank, a);
    law_priced_where_possible(txs, demand, kind, rank, b);
    if a is Some {
        let i = choose|i: int| #[trigger] priced_at(txs, demand, kind, rank, a->0, i);
        let j = choose|j: int| #[trigger] priced_at(txs, demand, kind, rank, b->0, j);
        lemma_threshold_order(txs, kind, demand, demand, i, j);
        lemma_threshold_order(txs, kind, demand, demand, j, i);
        let remaining = txs.skip(i + 1);
        let threshold = a->0.threshold_priority_fee;
        if remaining.len() > 0 {
            let p = lemma_picked(remaining, threshold, rank, a->0.recommended_priority_fee);
            let q = lemma_picked(remaining, threshold, rank, b->0.recommended_priority_fee);
            assert(p == q);
        }
    }
}

/// Estimates that hold the same for every kind are the same.
proof fn lemma_estimates_by_kind(a: ResourceEstimates, b: ResourceEstimates)
    requires
        forall|kind: ResourceKind| #[trigger] a.at(kind) == b.at(kind),
    ensures
        a == b,
{
    assert(a.at(ResourceKind::GasUsed) == b.at(ResourceKind::GasUsed));
    assert(a.at(ResourceKind::ExecutionTime) == b.at(ResourceKind::ExecutionTime));
    assert(a.at(ResourceKind::StateRootTime) == b.at(ResourceKind::StateRootTime));
    assert(a.at(ResourceKind::DataAvailability) == b.at(ResourceKind::DataAvailability));
}

proof fn lemma_one_demand_price<P: Fn(usize) -> usize>(
    txs: Seq<MeteredTransaction>,
    demand: Option<u128>,
    kind: ResourceKind,
    rank: P,
    a: Option<ResourceEstimate>,
    b: Option<ResourceEstimate>,
)
    requires
        single_valued(rank),
        demand_priced(txs, demand, kind, rank, a),
        demand_priced(txs, demand, kind, rank, b),
    ensures
        a == b,
{
    if demand is Some && demand->0 > 0 {
        law_one_price(txs, demand->0 as nat, kind, rank, a, b);
    }
}

/// Of the estimates in a column, one is the first lowest, and one the first highest.
proof fn lemma_extremes_unique(
    col: Seq<Option<ResourceEstimate>>,
    a: Option<ResourceEstimate>,
    b: Option<ResourceEstimate>,
)
    ensures
        first_lowest(col, a) && first_lowest(col, b) ==> a == b,
        first_highest(col, a) && first_highest(col, b) ==> a == b,
{
    if a is Some && b is Some {
        let x = a->0;
        let y = b->0;
        if first_lowest(col, a) && first_lowest(col, b) {
            let i = choose|i: int|
                {
                    &&& 0 <= i < col.len()
                    &&& #[trigger] col[i] == Some(x)
                    &&& forall|j: int|
                        0 <= j < col.len() && (#[trigger] col[j]) is Some
                            ==> x.recommended_priority_fee@
                            <= col[j]->0.recommended_priority_fee@ && (j < i
                            ==> x.recommended_priority_fee@ < col[j]->0.recommended_priority_fee@)
                };
            let k = choose|i: int|
                {
                    &&& 0 <= i < col.len()
                    &&& #[trigger] col[i] == Some(y)
                    &&& forall|j: int|
                        0 <= j < col.len() && (#[trigger] col[j]) is Some
                            ==> y.recommended_priority_fee@
                            <= col[j]->0.recommended_priority_fee@ && (j < i
                            ==> y.recommended_priority_fee@ < col[j]->0.recommended_priority_fee@)
                };
            assert(col[i] is Some && col[k] is Some);
            assert(i == k);
        }
        if first_highest(col, a) && first_highest(col, b) {
            let i = choose|i: int|
                {
                    &&& 0 <= i < col.len()
                    &&& #[trigger] col[i] == Some(x)
                    &&& forall|j: int|
                        0 <= j < col.len() && (#[trigger] col[j]) is Some
                            ==> col[j]->0.recommended_priority_fee@
                            <= x.recommended_priority_fee@ && (j < i
                            ==> col[j]->0.recommended_priority_fee@ < x.recommended_priority_fee@)
                };
            let k = choose|i: int|
                {
                    &&& 0 <= i < col.len()
                    &&& #[trigger] col[i] == Some(y)
                    &&& forall|j: int|
                        0 <= j < col.len() && (#[trigger] col[j]) is Some
                            ==> col[j]->0.recommended_priority_fee@
                            <= y.recommended_priority_fee@ && (j < i
                            ==> col[j]->0.recommended_priority_fee@ < y.recommended_priority_fee@)
                };
            assert(col[i] is Some && col[k] is Some);
            assert(i == k);
        }
    } else {
        assert forall|x: ResourceEstimate| #[trigger] first_lowest(col, Some(x)) implies exists|
            i: int,
        |
            0 <= i < col.len() && (#[trigger] col[i]) is Some by {
            let s = Some(x);
            let i = choose|i: int| 0 <= i < col.len() && #[trigger] col[i] == Some(s->0);
            assert(col[i] is Some);
        }
        assert forall|x: ResourceEstimate| #[trigger] first_highest(col, Some(x)) implies exists|
            i: int,
        |
            0 <= i < col.len() && (#[trigger] col[i]) is Some by {
            let s = Some(x);
            let i = choose|i: int| 0 <= i < col.len() && #[trigger] col[i] == Some(s->0);
            assert(col[i] is Some);
        }
        if a is Some {
            assert(a == Some(a->0));
        }
        if b is Some {
            assert(b == Some(b->0));
        }
    }
}

/// A rank with one answer for each last position prices a block in one way.
pub proof fn law_one_outcome<P: Fn(usize) -> usize>(
    block: BlockModel,
    demand: ResourceDemand,
    rank: P,
    a: Option<BlockPriorityEstimates>,
    b: Option<BlockPriorityEstimates>,
)
    requires
        single_valued(rank),
        block_outcome(block, demand, rank, a),
        block_outcome(block, demand, rank, b),
    ensures
        same_outcome(a, b),
{
    if a is Some {
        let x = a->0;
        let y = b->0;
        assert forall|i: int| 0 <= i < x.flashblocks@.len() implies #[trigger] x.flashblocks@[i]
            == y.flashblocks@[i] by {
            let own = sorted_parts(block)[i];
            let p = x.flashblocks@[i].estimates;
            let q = y.flashblocks@[i].estimates;
            assert(flashblock_priced(aggregate(block), own, demand, rank, p));
            assert(flashblock_priced(aggregate(block), own, demand, rank, q));
            assert forall|kind: ResourceKind| #[trigger] p.at(kind) == q.at(kind) by {
                assert(demand_priced(
                    competitors(aggregate(block), own, kind),
                    demand.of(kind),
                    kind,
                    rank,
                    q.at(kind),
                ));
                lemma_one_demand_price(
                    competitors(aggregate(block), own, kind),
                    demand.of(kind),
                    kind,
                    rank,
                    p.at(kind),
                    q.at(kind),
                );
            }
            lemma_estimates_by_kind(p, q);
        }
        assert(x.flashblocks@ =~= y.flashblocks@);
        assert forall|kind: ResourceKind| #[trigger]
            x.min_across_flashblocks.at(kind) == y.min_across_flashblocks.at(kind) by {
            lemma_extremes_unique(
                column(x.flashblocks@, kind),
                x.min_across_flashblocks.at(kind),
                y.min_across_flashblocks.at(kind),
            );
        }
        lemma_estimates_by_kind(x.min_across_flashblocks, y.min_across_flashblocks);
        assert forall|kind: ResourceKind| #[trigger]
            x.max_across_flashblocks.at(kind) == y.max_across_flashblocks.at(kind) by {
            lemma_extremes_unique(
                column(x.flashblocks@, kind),
                x.max_across_flashblocks.at(kind),
                y.max_across_flashblocks.at(kind),
            );
        }
        lemma_estimates_by_kind(x.max_across_flashblocks, y.max_across_flashblocks);
    }
}

/// Two calls for one block give the same estimates.
pub proof fn law_one_estimate<P: Fn(usize) -> usize>(
    cache: CacheModel,
    block_number: Option<u64>,
    demand: ResourceDemand,
    rank: P,
    a: Option<BlockPriorityEstimates>,
    b: Option<BlockPriorityEstimates>,
)
    requires
        single_valued(rank),
        estimated(cache, block_number, demand, rank, a),
        estimated(cache, block_number, demand, rank, b),
    ensures
        same_outcome(a, b),
{
    if target_block(cache, block_number) is Some {
        law_one_outcome(target_block(cache, block_number)->0, demand, rank, a, b);
    }
}

/// The block with the number of a cached block is that block.
proof fn lemma_find_cached(cache: CacheModel, i: int)
    requires
        cache.valid(),
        0 <= i < cache.blocks.len(),
    ensures
        cache.find(cache.blocks[i].block_number) == Some(cache.blocks[i]),
{
    let number = cache.blocks[i].block_number;
    assert(cache.has_block(number));
    let k = cache.position(number);
    assert(0 <= k < cache.blocks.len() && cache.blocks[k].block_number == number);
    if k < i {
        assert(cache.blocks[k].block_number != cache.blocks[i].block_number);
    } else if i < k {
        assert(cache.blocks[i].block_number != cache.blocks[k].block_number);
    }
}

/// Without a block number, the block that came in last is priced: the estimates are those that
/// its number gives.
pub proof fn law_latest_block<P: Fn(usize) -> usize>(
    cache: CacheModel,
    demand: ResourceDemand,
    rank: P,
    without_number: Option<BlockPriorityEstimates>,
    with_number: Option<BlockPriorityEstimates>,
)
    requires
        cache.valid(),
        cache.blocks.len() > 0,
        single_valued(rank),
        estimated(cache, None, demand, rank, without_number),
        estimated(
            cache,
            Some(cache.blocks.last().block_number),
            demand,
            rank,
            with_number,
        ),
    ensures
        same_outcome(without_number, with_number),
        without_number is Some ==> without_number->0.block_number
            == cache.blocks.last().block_number,
{
    lemma_find_cached(cache, cache.blocks.len() - 1);
    law_one_outcome(cache.blocks.last(), demand, rank, without_number, with_number);
}

/// What is recorded in another block does not touch the estimates of a block that is still
/// there.
pub proof fn law_other_blocks_do_not_matter<P: Fn(usize) -> usize>(
    cache: CacheModel,
    block_number: u64,
    demand: ResourceDemand,
    rank: P,
    other: u64,
    index: u64,
    tx: MeteredTransaction,
    before: Option<BlockPriorityEstimates>,
    after: Option<BlockPriorityEstimates>,
)
    requires
        cache.valid(),
        0 < cache.max_blocks,
        single_valued(rank),
        other != block_number,
        cache.upsert(other, index, tx).has_block(block_number),
        estimated(cache, Some(block_number), demand, rank, before),
        estimated(cache.upsert(other, index, tx), Some(block_number), demand, rank, after),
    ensures
        same_outcome(before, after),
{
    let changed = cache.upsert(other, index, tx);
    law_recording_is_local(cache, other, index, tx);
    assert(changed.find(block_number) is Some);
    assert(changed.find(block_number) == cache.find(block_number));
    law_one_outcome(cache.find(block_number)->0, demand, rank, before, after);
}

/// What is taken out of another block does not touch the estimates of a block that is still
/// there.
pub proof fn law_removals_elsewhere_do_not_matter<P: Fn(usize) -> usize>(
    cache: CacheModel,
    block_number: u64,
    demand: ResourceDemand,
    rank: P,
    other: u64,
    index: u64,
    hash: TxHash,
    before: Option<BlockPriorityEstimates>,
    after: Option<BlockPriorityEstimates>,
)
    requires
        cache.valid(),
        0 < cache.max_blocks,
        single_valued(rank),
        other != block_number,
        cache.remove(other, index, hash).has_block(block_number),
        estimated(cache, Some(block_number), demand, rank, before),
        estimated(cache.remove(other, index, hash), Some(block_number), demand, rank, after),
    ensures
        same_outcome(before, after),
{
    let changed = cache.remove(other, index, hash);
    law_removing_is_local(cache, other, index, hash);
    assert(changed.find(block_number) is Some);
    assert(changed.find(block_number) == cache.find(block_number));
    law_one_outcome(cache.find(block_number)->0, demand, rank, before, after);
}

/// Unused execution time is lost, so that it is priced against the whole block: every
/// flashblock of the block has the same threshold for it. With a rank that has one answer for
/// each last position, it is one estimate for all flashblocks, and with it the lowest and the
/// highest.
pub proof fn law_execution_time_is_shared<P: Fn(usize) -> usize>(
    block: BlockModel,
    demand: ResourceDemand,
    rank: P,
    estimates: BlockPriorityEstimates,
    i: int,
    j: int,
)
    requires
        block_priced(block, demand, rank, estimates),
        0 <= i < estimates.flashblocks@.len(),
        0 <= j < estimates.flashblocks@.len(),
    ensures
        ({
            let a = estimates.flashblocks@[i].estimates.at(ResourceKind::ExecutionTime);
            let b = estimates.flashblocks@[j].estimates.at(ResourceKind::ExecutionTime);
            &&& a is Some <==> b is Some
            &&& a is Some ==> {
                &&& a->0.threshold_priority_fee == b->0.threshold_priority_fee
                &&& a->0.cumulative_usage == b->0.cumulative_usage
                &&& a->0.supporting_transactions == b->0.supporting_transactions
                &&& a->0.total_transactions == b->0.total_transactions
            }
            &&& single_valued(rank) ==> {
                &&& a == b
                &&& estimates.min_across_flashblocks.at(ResourceKind::ExecutionTime) == a
                &&& estimates.max_across_flashblocks.at(ResourceKind::ExecutionTime) == a
            }
        }),
{
    let kind = ResourceKind::ExecutionTime;
    let a = estimates.flashblocks@[i].estimates.at(kind);
    let b = estimates.flashblocks@[j].estimates.at(kind);
    let txs = aggregate(block);
    assert forall|k: int| 0 <= k < estimates.flashblocks@.len() implies demand_priced(
        txs,
        demand.of(kind),
        kind,
        rank,
        (#[trigger] estimates.flashblocks@[k]).estimates.at(kind),
    ) by {
        assert(flashblock_priced(
            txs,
            sorted_parts(block)[k],
            demand,
            rank,
            estimates.flashblocks@[k].estimates,
        ));
    }
    if demand.of(kind) is Some && demand.of(kind)->0 > 0 {
        let amount = demand.of(kind)->0 as nat;
        law_priced_where_possible(txs, amount, kind, rank, a);
        law_priced_where_possible(txs, amount, kind, rank, b);
        if a is Some {
            let p = choose|p: int| #[trigger] priced_at(txs, amount, kind, rank, a->0, p);
            let q = choose|q: int| #[trigger] priced_at(txs, amount, kind, rank, b->0, q);
            lemma_threshold_order(txs, kind, amount, amount, p, q);
            lemma_threshold_order(txs, kind, amount, amount, q, p);
        }
    }
    if single_valued(rank) {
        let col = column(estimates.flashblocks@, kind);
        assert forall|k: int| 0 <= k < col.len() implies #[trigger] col[k] == a by {
            assert(col[k] == estimates.flashblocks@[k].estimates.at(kind));
            lemma_one_demand_price(txs, demand.of(kind), kind, rank, col[k], a);
        }
        assert(col[j] == b);
        lemma_constant_column(col, a);
        lemma_extremes_unique(col, a, estimates.min_across_flashblocks.at(kind));
        lemma_extremes_unique(col, a, estimates.max_across_flashblocks.at(kind));
    }
}

proof fn lemma_constant_column(col: Seq<Option<ResourceEstimate>>, a: Option<ResourceEstimate>)
    requires
        col.len() > 0,
        forall|k: int| 0 <= k < col.len() ==> #[trigger] col[k] == a,
    ensures
        first_lowest(col, a),
        first_highest(col, a),
{
    assert(col[0] == a);
    if a is Some {
        assert(col[0] == Some(a->0));
    }
}

/// The rolling estimates are the medians of what each cached block gives when it is asked for by
/// its number, from the newest to the oldest: for a resource there is an estimate exactly where
/// some block has one, and its fees are the median of the highest recommendations.
pub proof fn law_rolling_of_blocks<P: Fn(usize) -> usize>(
    cache: CacheModel,
    demand: ResourceDemand,
    rank: P,
    of_blocks: Seq<Option<BlockPriorityEstimates>>,
    r: Option<RollingPriorityEstimates>,
)
    requires
        cache.valid(),
        single_valued(rank),
        of_blocks.len() == cache.blocks.len(),
        forall|i: int|
            #![trigger of_blocks[i]]
            0 <= i < of_blocks.len() ==> estimated(
                cache,
                Some(cache.blocks.reverse()[i].block_number),
                demand,
                rank,
                of_blocks[i],
            ),
        rolling_estimated(cache, demand, rank, r),
    ensures
        rolling_of(maxima(of_blocks), r),
        r is Some ==> forall|kind: ResourceKind|
            {
                let fees = fees_for(maxima(of_blocks), kind);
                let estimate = #[trigger] r->0.estimates.at(kind);
                &&& estimate is Some <==> fees.len() > 0
                &&& estimate is Some ==> estimate->0.recommended_priority_fee == by_fee(
                    fees,
                )[fees.len() as int / 2] && estimate->0.threshold_priority_fee == by_fee(
                    fees,
                )[fees.len() as int / 2]
            },
{
    let outcomes = choose|outcomes: Seq<Option<BlockPriorityEstimates>>|
        {
            &&& #[trigger] cache_outcomes(cache, demand, rank, outcomes)
            &&& rolling_of(maxima(outcomes), r)
        };
    assert forall|i: int| 0 <= i < outcomes.len() implies same_outcome(
        #[trigger] outcomes[i],
        of_blocks[i],
    ) by {
        let block = cache.blocks.reverse()[i];
        let at = cache.blocks.len() - 1 - i;
        assert(block == cache.blocks[at]);
        lemma_find_cached(cache, at);
        assert(estimated(cache, Some(block.block_number), demand, rank, of_blocks[i]));
        law_one_outcome(block, demand, rank, outcomes[i], of_blocks[i]);
    }
    lemma_same_maxima(outcomes, of_blocks);
    if r is Some {
        assert forall|kind: ResourceKind|
            {
                let fees = fees_for(maxima(of_blocks), kind);
                let estimate = #[trigger] r->0.estimates.at(kind);
                &&& estimate is Some <==> fees.len() > 0
                &&& estimate is Some ==> estimate->0.recommended_priority_fee == by_fee(
                    fees,
                )[fees.len() as int / 2] && estimate->0.threshold_priority_fee == by_fee(
                    fees,
                )[fees.len() as int / 2]
            } by {
            assert(r->0.estimates.at(kind) == median_estimate(
                fees_for(maxima(of_blocks), kind),
            ));
        }
    }
}

proof fn lemma_same_maxima(
    a: Seq<Option<BlockPriorityEstimates>>,
    b: Seq<Option<BlockPriorityEstimates>>,
)
    requires
        a.len() == b.len(),
        forall|i: int| 0 <= i < a.len() ==> same_outcome(#[trigger] a[i], b[i]),
    ensures
        maxima(a) == maxima(b),
    decreases a.len(),
{
    reveal(Seq::filter);
    if a.len() > 0 {
        let x = a.drop_last();
        let y = b.drop_last();
        assert forall|i: int| 0 <= i < x.len() implies same_outcome(#[trigger] x[i], y[i]) by {
            assert(same_outcome(a[i], b[i]));
        }
        lemma_same_maxima(x, y);
        let n = a.len() - 1;
        assert(same_outcome(a[n], b[n]));
        if a[n] is Some {
            assert(maxima(a) =~= maxima(x).push(a[n]->0.max_across_flashblocks));
            assert(maxima(b) =~= maxima(y).push(b[n]->0.max_across_flashblocks));
        }
    } else {
        assert(maxima(a) =~= maxima(b));
    }
}

/// The answer to a metered bundle reports the estimates that are had without a block number, and
/// where there are none, it says so.
pub proof fn law_answer_reports_estimates<P: Fn(usize) -> usize>(
    cache: CacheModel,
    rank: P,
    meter_bundle: MeterBundleResponse,
    demand: ResourceDemand,
    estimates: Option<BlockPriorityEstimates>,
    r: Result<MeteredPriorityFeeResponse, MeteringError>,
)
    requires
        single_valued(rank),
        estimated(cache, None, demand, rank, estimates),
        fee_answer(cache, rank, Ok((meter_bundle, demand)), r),
    ensures
        match estimates {
            None => r == Err::<MeteredPriorityFeeResponse, MeteringError>(
                MeteringError::FeeDataUnavailable,
            ),
            Some(x) => r is Ok && answers(meter_bundle, x, r->Ok_0),
        },
{
    if estimates is Some {
        let block = target_block(cache, None)->0;
        let used = choose|used: BlockPriorityEstimates|
            {
                &&& #[trigger] block_priced(block, demand, rank, used)
                &&& answers(meter_bundle, used, r->Ok_0)
            };
        law_one_outcome(block, demand, rank, estimates, Some(used));
    }
}

} // verus!
