use crate::block::BlockModel;
use crate::cache::CacheModel;
use crate::estimates::{
    column, first_highest, first_lowest, BlockPriorityEstimates, FlashblockResourceEstimates,
    ResourceEstimate, ResourceEstimates, RollingPriorityEstimates,
};
use crate::estimator::{
    aggregate, block_priced, cache_outcomes, competitors, demand_priced, flashblock_priced,
    is_threshold, picked, populated, prefix_usage, priced, priced_at,
    rolling_estimated, sorted_parts,
};
use crate::flashblock::FlashblockModel;
use crate::order::{ascending, by_fee, lemma_by_fee, Priced};
use crate::resource::{at_most, total_usage, ResourceDemand, ResourceKind};
use crate::rolling::{contributes, fees_for, maxima, median, median_estimate, rolling_of};
use crate::transaction::MeteredTransaction;
use crate::u256::U256;
use vstd::prelude::*;

verus! {

/// More transactions consume at least as much.
proof fn lemma_prefix_grows(txs: Seq<MeteredTransaction>, kind: ResourceKind, i: int, j: int)
    requires
        0 <= i <= j <= txs.len(),
    ensures
        prefix_usage(txs, kind, i) <= prefix_usage(txs, kind, j),
    decreases j,
{
    if i < j {
        lemma_prefix_grows(txs, kind, i, j - 1);
        assert(txs.take(j).drop_last() =~= txs.take(j - 1));
    }
}

/// The walk gathers a smaller demand no later than a larger one.
pub(crate) proof fn lemma_threshold_order(
    txs: Seq<MeteredTransaction>,
    kind: ResourceKind,
    smaller: nat,
    larger: nat,
    i: int,
    j: int,
)
    requires
        smaller <= larger,
        is_threshold(txs, smaller, kind, i),
        is_threshold(txs, larger, kind, j),
    ensures
        i <= j,
{
    if j < i {
        assert(prefix_usage(txs, kind, j + 1) < smaller);
    }
}

/// There is a price exactly where there are transactions and together they consumed what is
/// asked for.
pub proof fn law_priced_where_possible<P: Fn(usize) -> usize>(
    txs: Seq<MeteredTransaction>,
    demand: nat,
    kind: ResourceKind,
    rank: P,
    r: Option<ResourceEstimate>,
)
    requires
        priced(txs, demand, kind, rank, r),
    ensures
        r is Some <==> txs.len() > 0 && total_usage(txs, kind) >= demand,
{
    if r is Some {
        let i = choose|i: int| #[trigger] priced_at(txs, demand, kind, rank, r->0, i);
        lemma_prefix_grows(txs, kind, i + 1, txs.len() as int);
        assert(txs.take(txs.len() as int) =~= txs);
    }
}

/// The more is asked for, the higher the threshold fee, the more transactions have to be
/// displaced, and the more they consumed. What can be had in the larger amount can be had in
/// the smaller one.
pub proof fn law_monotonic_thresholds<P: Fn(usize) -> usize>(
    txs: Seq<MeteredTransaction>,
    kind: ResourceKind,
    rank: P,
    smaller: nat,
    larger: nat,
    low: Option<ResourceEstimate>,
    high: Option<ResourceEstimate>,
)
    requires
        ascending(txs),
        smaller <= larger,
        priced(txs, smaller, kind, rank, low),
        priced(txs, larger, kind, rank, high),
    ensures
        high is Some ==> {
            &&& low is Some
            &&& low->0.threshold_priority_fee@ <= high->0.threshold_priority_fee@
            &&& low->0.supporting_transactions <= high->0.supporting_transactions
            &&& low->0.cumulative_usage <= high->0.cumulative_usage
            &&& low->0.total_transactions == high->0.total_transactions
        },
{
    law_priced_where_possible(txs, smaller, kind, rank, low);
    law_priced_where_possible(txs, larger, kind, rank, high);
    if high is Some {
        let i = choose|i: int| #[trigger] priced_at(txs, smaller, kind, rank, low->0, i);
        let j = choose|j: int| #[trigger] priced_at(txs, larger, kind, rank, high->0, j);
        lemma_threshold_order(txs, kind, smaller, larger, i, j);
        lemma_prefix_grows(txs, kind, i + 1, j + 1);
        assert(txs[i].fee() <= txs[j].fee());
    }
}

/// Among transactions by rising fee, what is recommended is a fee that one of them pays, and
/// it is not below the threshold.
pub proof fn law_recommendation_covers_threshold<P: Fn(usize) -> usize>(
    txs: Seq<MeteredTransaction>,
    demand: nat,
    kind: ResourceKind,
    rank: P,
    estimate: ResourceEstimate,
)
    requires
        ascending(txs),
        priced(txs, demand, kind, rank, Some(estimate)),
    ensures
        estimate.threshold_priority_fee@ <= estimate.recommended_priority_fee@,
        estimate.recommended_priority_fee@ <= txs.last().priority_fee_per_gas@,
        exists|k: int|
            0 <= k < txs.len() && (#[trigger] txs[k]).priority_fee_per_gas
                == estimate.recommended_priority_fee,
{
    let r = Some(estimate);
    let i = choose|i: int| #[trigger] priced_at(txs, demand, kind, rank, r->0, i);
    let remaining = txs.skip(i + 1);
    let last = txs.len() - 1;
    if remaining.len() == 0 {
        assert(txs[i].fee() <= txs[last].fee());
    } else {
        let pos = lemma_picked(
            remaining,
            estimate.threshold_priority_fee,
            rank,
            estimate.recommended_priority_fee,
        );
        let k = i + 1 + at_most(pos as nat, (remaining.len() - 1) as nat);
        assert(remaining[k - (i + 1)] == txs[k]);
        assert(txs[i].fee() <= txs[k].fee());
        assert(txs[k].fee() <= txs[last].fee());
    }
}

/// The transactions that are displaced consumed what is asked for, those below the last of
/// them did not, and there are no more of them than there are transactions.
pub proof fn law_displaced_suffice<P: Fn(usize) -> usize>(
    txs: Seq<MeteredTransaction>,
    demand: nat,
    kind: ResourceKind,
    rank: P,
    estimate: ResourceEstimate,
)
    requires
        demand <= u128::MAX,
        priced(txs, demand, kind, rank, Some(estimate)),
    ensures
        1 <= estimate.supporting_transactions <= estimate.total_transactions,
        estimate.total_transactions == txs.len(),
        estimate.cumulative_usage >= demand,
        prefix_usage(txs, kind, estimate.supporting_transactions as int) >= demand,
        estimate.supporting_transactions > 1 ==> prefix_usage(
            txs,
            kind,
            estimate.supporting_transactions - 1,
        ) < demand,
{
    let r = Some(estimate);
    let i = choose|i: int| #[trigger] priced_at(txs, demand, kind, rank, r->0, i);
    if i > 0 {
        assert(prefix_usage(txs, kind, (i - 1) + 1) < demand);
    }
}

/// Two ranks price the same demands at the same threshold, with the same counts; one that never
/// answers with a smaller position never recommends a lower fee.
pub proof fn law_monotonic_percentiles<P: Fn(usize) -> usize, Q: Fn(usize) -> usize>(
    txs: Seq<MeteredTransaction>,
    demand: nat,
    kind: ResourceKind,
    lower_rank: P,
    higher_rank: Q,
    low: Option<ResourceEstimate>,
    high: Option<ResourceEstimate>,
)
    requires
        ascending(txs),
        priced(txs, demand, kind, lower_rank, low),
        priced(txs, demand, kind, higher_rank, high),
        forall|last: usize, a: usize, b: usize| #[trigger]
            call_ensures(lower_rank, (last,), a) && #[trigger] call_ensures(
                higher_rank,
                (last,),
                b,
            ) ==> a <= b,
    ensures
        low is Some <==> high is Some,
        low is Some ==> {
            &&& low->0.recommended_priority_fee@ <= high->0.recommended_priority_fee@
            &&& low->0.threshold_priority_fee == high->0.threshold_priority_fee
            &&& low->0.cumulative_usage == high->0.cumulative_usage
            &&& low->0.supporting_transactions == high->0.supporting_transactions
            &&& low->0.total_transactions == high->0.total_transactions
        },
{
    law_priced_where_possible(txs, demand, kind, lower_rank, low);
    law_priced_where_possible(txs, demand, kind, higher_rank, high);
    if low is Some {
        let i = choose|i: int| #[trigger] priced_at(txs, demand, kind, lower_rank, low->0, i);
        let j = choose|j: int| #[trigger] priced_at(txs, demand, kind, higher_rank, high->0, j);
        lemma_threshold_order(txs, kind, demand, demand, i, j);
        lemma_threshold_order(txs, kind, demand, demand, j, i);
        let remaining = txs.skip(i + 1);
        if remaining.len() > 0 {
            let last = (remaining.len() - 1) as nat;
            let a = lemma_picked(
                remaining,
                low->0.threshold_priority_fee,
                lower_rank,
                low->0.recommended_priority_fee,
            );
            let b = lemma_picked(
                remaining,
                high->0.threshold_priority_fee,
                higher_rank,
                high->0.recommended_priority_fee,
            );
            let p = i + 1 + at_most(a as nat, last);
            let q = i + 1 + at_most(b as nat, last);
            assert(remaining[p - (i + 1)] == txs[p] && remaining[q - (i + 1)] == txs[q]);
            assert(txs[p].fee() <= txs[q].fee());
        }
    }
}

/// The position at which a recommended fee was picked.
pub(crate) proof fn lemma_picked<P: Fn(usize) -> usize>(
    remaining: Seq<MeteredTransaction>,
    threshold: U256,
    rank: P,
    fee: U256,
) -> (pos: usize)
    requires
        picked(remaining, threshold, rank, fee),
        remaining.len() > 0,
    ensures
        call_ensures(rank, ((remaining.len() - 1) as usize,), pos),
        fee == remaining[at_most(
            pos as nat,
            (remaining.len() - 1) as nat,
        ) as int].priority_fee_per_gas,
{
    choose|pos: usize|
        {
            &&& #[trigger] call_ensures(rank, ((remaining.len() - 1) as usize,), pos)
            &&& fee == remaining[at_most(
                pos as nat,
                (remaining.len() - 1) as nat,
            ) as int].priority_fee_per_gas
        }
}

/// A rank that always answers with the last position, or beyond it, recommends the fee of the
/// last transaction, which is the highest of all where they come by rising fee. One that always
/// answers with the first position recommends the fee right above the threshold, if there is
/// one.
pub proof fn law_extreme_percentiles<P: Fn(usize) -> usize>(
    txs: Seq<MeteredTransaction>,
    demand: nat,
    kind: ResourceKind,
    rank: P,
    estimate: ResourceEstimate,
)
    requires
        priced(txs, demand, kind, rank, Some(estimate)),
    ensures
        (forall|last: usize, pos: usize| #[trigger]
            call_ensures(rank, (last,), pos) ==> pos >= last)
            ==> estimate.recommended_priority_fee == txs.last().priority_fee_per_gas,
        (forall|last: usize, pos: usize| #[trigger] call_ensures(rank, (last,), pos) ==> pos == 0)
            ==> estimate.recommended_priority_fee == (if estimate.supporting_transactions
            < txs.len() {
            txs[estimate.supporting_transactions as int].priority_fee_per_gas
        } else {
            estimate.threshold_priority_fee
        }),
{
    let r = Some(estimate);
    let i = choose|i: int| #[trigger] priced_at(txs, demand, kind, rank, r->0, i);
    let remaining = txs.skip(i + 1);
    if remaining.len() > 0 {
        let pos = lemma_picked(
            remaining,
            estimate.threshold_priority_fee,
            rank,
            estimate.recommended_priority_fee,
        );
        assert(remaining.last() == txs.last());
    }
}

/// The lowest and the highest recommendation for a resource are the estimates of some flashblock,
/// the first one where several recommend that fee, and every other one lies between them.
pub proof fn law_min_max(
    flashblocks: Seq<FlashblockResourceEstimates>,
    kind: ResourceKind,
    lowest: Option<ResourceEstimate>,
    highest: Option<ResourceEstimate>,
)
    requires
        first_lowest(column(flashblocks, kind), lowest),
        first_highest(column(flashblocks, kind), highest),
    ensures
        lowest is Some <==> highest is Some,
        lowest is Some <==> exists|i: int|
            0 <= i < flashblocks.len() && (#[trigger] flashblocks[i]).estimates.at(kind) is Some,
        lowest is Some ==> lowest->0.recommended_priority_fee@
            <= highest->0.recommended_priority_fee@,
        forall|i: int|
            0 <= i < flashblocks.len() && (#[trigger] flashblocks[i]).estimates.at(kind) is Some
                ==> {
                let fee = flashblocks[i].estimates.at(kind)->0.recommended_priority_fee@;
                lowest->0.recommended_priority_fee@ <= fee
                    <= highest->0.recommended_priority_fee@
            },
        lowest is Some ==> exists|i: int|
            {
                &&& 0 <= i < flashblocks.len()
                &&& (#[trigger] flashblocks[i]).estimates.at(kind) == lowest
                &&& forall|j: int|
                    0 <= j < i && (#[trigger] flashblocks[j]).estimates.at(kind) is Some
                        ==> lowest->0.recommended_priority_fee@ < flashblocks[j].estimates.at(
                        kind,
                    )->0.recommended_priority_fee@
            },
        highest is Some ==> exists|i: int|
            {
                &&& 0 <= i < flashblocks.len()
                &&& (#[trigger] flashblocks[i]).estimates.at(kind) == highest
                &&& forall|j: int|
                    0 <= j < i && (#[trigger] flashblocks[j]).estimates.at(kind) is Some
                        ==> highest->0.recommended_priority_fee@ > flashblocks[j].estimates.at(
                        kind,
                    )->0.recommended_priority_fee@
            },
{
    let col = column(flashblocks, kind);
    assert forall|i: int| 0 <= i < flashblocks.len() implies #[trigger] col[i]
        == flashblocks[i].estimates.at(kind) by {}
    if lowest is Some {
        let e = lowest->0;
        let i = choose|i: int|
            {
                &&& 0 <= i < col.len()
                &&& #[trigger] col[i] == Some(e)
                &&& forall|j: int|
                    0 <= j < col.len() && (#[trigger] col[j]) is Some
                        ==> e.recommended_priority_fee@ <= col[j]->0.recommended_priority_fee@ && (
                    j < i ==> e.recommended_priority_fee@ < col[j]->0.recommended_priority_fee@)
            };
        assert(flashblocks[i].estimates.at(kind) == lowest);
        assert forall|j: int|
            0 <= j < i && (#[trigger] flashblocks[j]).estimates.at(
                kind,
            ) is Some implies e.recommended_priority_fee@ < flashblocks[j].estimates.at(
            kind,
        )->0.recommended_priority_fee@ by {
            assert(col[j] is Some);
        }
        assert(highest is Some);
    }
    if highest is Some {
        let e = highest->0;
        let i = choose|i: int|
            {
                &&& 0 <= i < col.len()
                &&& #[trigger] col[i] == Some(e)
                &&& forall|j: int|
                    0 <= j < col.len() && (#[trigger] col[j]) is Some
                        ==> col[j]->0.recommended_priority_fee@ <= e.recommended_priority_fee@ && (
                    j < i ==> col[j]->0.recommended_priority_fee@ < e.recommended_priority_fee@)
            };
        assert(flashblocks[i].estimates.at(kind) == highest);
        assert forall|j: int|
            0 <= j < i && (#[trigger] flashblocks[j]).estimates.at(
                kind,
            ) is Some implies e.recommended_priority_fee@ > flashblocks[j].estimates.at(
            kind,
        )->0.recommended_priority_fee@ by {
            assert(col[j] is Some);
        }
        assert(lowest is Some);
    }
    assert forall|i: int|
        0 <= i < flashblocks.len() && (#[trigger] flashblocks[i]).estimates.at(
            kind,
        ) is Some implies lowest is Some && {
        let fee = flashblocks[i].estimates.at(kind)->0.recommended_priority_fee@;
        lowest->0.recommended_priority_fee@ <= fee <= highest->0.recommended_priority_fee@
    } by {
        assert(col[i] is Some);
    }
}

/// What is asked for in no amount, or not at all, has no price in any flashblock.
pub proof fn law_no_demand_no_price<P: Fn(usize) -> usize>(
    block: BlockModel,
    demand: ResourceDemand,
    rank: P,
    estimates: BlockPriorityEstimates,
    kind: ResourceKind,
    i: int,
)
    requires
        block_priced(block, demand, rank, estimates),
        0 <= i < estimates.flashblocks@.len(),
        demand.of(kind) is None || demand.of(kind) == Some(0u128),
    ensures
        estimates.flashblocks@[i].estimates.at(kind) is None,
        estimates.min_across_flashblocks.at(kind) is None,
        estimates.max_across_flashblocks.at(kind) is None,
{
    let flashblocks = estimates.flashblocks@;
    assert forall|k: int| 0 <= k < flashblocks.len() implies (
    #[trigger] flashblocks[k]).estimates.at(kind) is None by {
        assert(flashblock_priced(
            aggregate(block),
            sorted_parts(block)[k],
            demand,
            rank,
            flashblocks[k].estimates,
        ));
    }
    law_min_max(
        flashblocks,
        kind,
        estimates.min_across_flashblocks.at(kind),
        estimates.max_across_flashblocks.at(kind),
    );
}

/// The median is one of the fees; the fees before it in rising order are not higher, and
/// those after it are not lower.
pub proof fn law_median(fees: Seq<U256>)
    requires
        fees.len() > 0,
    ensures
        fees.contains(median(fees)),
        by_fee(fees).to_multiset() == fees.to_multiset(),
        forall|i: int|
            0 <= i <= fees.len() as int / 2 ==> (#[trigger] by_fee(fees)[i])@ <= median(fees)@,
        forall|i: int|
            fees.len() as int / 2 <= i < fees.len() ==> median(fees)@ <= (#[trigger] by_fee(
                fees,
            )[i])@,
{
    broadcast use vstd::seq_lib::group_to_multiset_ensures;

    lemma_by_fee(fees);
    let m = fees.len() as int / 2;
    let sorted = by_fee(fees);
    assert(sorted.contains(sorted[m]));
    assert(fees.to_multiset().count(median(fees)) > 0);
    assert forall|i: int| 0 <= i <= m implies (#[trigger] sorted[i])@ <= median(fees)@ by {
        assert(sorted[i].fee() <= sorted[m].fee());
    }
    assert forall|i: int| m <= i < fees.len() implies median(fees)@ <= (#[trigger] sorted[i])@ by {
        assert(sorted[m].fee() <= sorted[i].fee());
    }
}

/// The rolling recommendation is at least the median fee of every resource, and the median
/// fee of one of them.
pub proof fn law_rolling_recommendation(
    samples: Seq<ResourceEstimates>,
    r: RollingPriorityEstimates,
)
    requires
        rolling_of(samples, Some(r)),
    ensures
        forall|kind: ResourceKind|
            (#[trigger] fees_for(samples, kind)).len() > 0 ==> median(fees_for(samples, kind))@
                <= r.recommended_priority_fee@,
        exists|kind: ResourceKind|
            (#[trigger] fees_for(samples, kind)).len() > 0 && median(fees_for(samples, kind))
                == r.recommended_priority_fee,
        r.blocks_sampled <= samples.len(),
{
    let o = Some(r);
    assert forall|kind: ResourceKind|
        (#[trigger] fees_for(samples, kind)).len() > 0 implies median(fees_for(samples, kind))@
        <= r.recommended_priority_fee@ by {
        assert(o->0.estimates.at(kind) == median_estimate(fees_for(samples, kind)));
    }
    let kind = choose|kind: ResourceKind|
        (#[trigger] r.estimates.at(kind)) is Some && r.estimates.at(
            kind,
        )->0.recommended_priority_fee == r.recommended_priority_fee;
    assert(o->0.estimates.at(kind) == median_estimate(fees_for(samples, kind)));
    assert(fees_for(samples, kind).len() > 0);
    samples.lemma_filter_len(|e: ResourceEstimates| contributes(e));
}

/// No more blocks contribute to rolling estimates than the cache retains.
pub proof fn law_rolling_within_cache<P: Fn(usize) -> usize>(
    cache: CacheModel,
    demand: ResourceDemand,
    rank: P,
    r: RollingPriorityEstimates,
)
    requires
        cache.valid(),
        rolling_estimated(cache, demand, rank, Some(r)),
    ensures
        r.blocks_sampled <= cache.blocks.len() <= cache.max_blocks,
{
    let o = Some(r);
    let outcomes = choose|outcomes: Seq<Option<BlockPriorityEstimates>>|
        {
            &&& #[trigger] cache_outcomes(cache, demand, rank, outcomes)
            &&& rolling_of(maxima(outcomes), o)
        };
    law_rolling_recommendation(maxima(outcomes), r);
    outcomes.lemma_filter_len(|o: Option<BlockPriorityEstimates>| o is Some);
}

/// In every flashblock of a priced block, no recommendation is below its threshold.
pub proof fn law_block_recommendations<P: Fn(usize) -> usize>(
    block: BlockModel,
    demand: ResourceDemand,
    rank: P,
    estimates: BlockPriorityEstimates,
    kind: ResourceKind,
    i: int,
)
    requires
        block_priced(block, demand, rank, estimates),
        0 <= i < estimates.flashblocks@.len(),
        estimates.flashblocks@[i].estimates.at(kind) is Some,
    ensures
        ({
            let estimate = estimates.flashblocks@[i].estimates.at(kind)->0;
            estimate.threshold_priority_fee@ <= estimate.recommended_priority_fee@
        }),
{
    let estimate = estimates.flashblocks@[i].estimates.at(kind)->0;
    let txs = lemma_competitors(block, demand, rank, estimates, kind, i);
    law_recommendation_covers_threshold(txs, demand.of(kind)->0 as nat, kind, rank, estimate);
}

/// The transactions against which a resource is priced in a flashblock, by rising fee.
proof fn lemma_competitors<P: Fn(usize) -> usize>(
    block: BlockModel,
    demand: ResourceDemand,
    rank: P,
    estimates: BlockPriorityEstimates,
    kind: ResourceKind,
    i: int,
) -> (txs: Seq<MeteredTransaction>)
    requires
        block_priced(block, demand, rank, estimates),
        0 <= i < estimates.flashblocks@.len(),
    ensures
        txs == competitors(aggregate(block), sorted_parts(block)[i], kind),
        ascending(txs),
        demand_priced(
            txs,
            demand.of(kind),
            kind,
            rank,
            estimates.flashblocks@[i].estimates.at(kind),
        ),
{
    lemma_by_fee(sorted_parts(block).flatten());
    lemma_by_fee(populated(block)[i].transactions);
    assert(flashblock_priced(
        aggregate(block),
        sorted_parts(block)[i],
        demand,
        rank,
        estimates.flashblocks@[i].estimates,
    ));
    competitors(aggregate(block), sorted_parts(block)[i], kind)
}

/// The more of a resource is asked for, the higher its threshold in every flashblock.
pub proof fn law_block_monotonic<P: Fn(usize) -> usize>(
    block: BlockModel,
    rank: P,
    smaller: ResourceDemand,
    larger: ResourceDemand,
    low: BlockPriorityEstimates,
    high: BlockPriorityEstimates,
    kind: ResourceKind,
    i: int,
)
    requires
        block_priced(block, smaller, rank, low),
        block_priced(block, larger, rank, high),
        smaller.of(kind) is Some,
        larger.of(kind) is Some,
        0 < smaller.of(kind)->0 <= larger.of(kind)->0,
        0 <= i < populated(block).len(),
    ensures
        ({
            let a = low.flashblocks@[i].estimates.at(kind);
            let b = high.flashblocks@[i].estimates.at(kind);
            b is Some ==> a is Some && a->0.threshold_priority_fee@
                <= b->0.threshold_priority_fee@
        }),
{
    let txs = lemma_competitors(block, smaller, rank, low, kind, i);
    let same = lemma_competitors(block, larger, rank, high, kind, i);
    law_monotonic_thresholds(
        txs,
        kind,
        rank,
        smaller.of(kind)->0 as nat,
        larger.of(kind)->0 as nat,
        low.flashblocks@[i].estimates.at(kind),
        high.flashblocks@[i].estimates.at(kind),
    );
}

/// Sequences of sequences with the same items part by part have the same items in all.
proof fn lemma_flatten_same_items(
    a: Seq<Seq<MeteredTransaction>>,
    b: Seq<Seq<MeteredTransaction>>,
)
    requires
        a.len() == b.len(),
        forall|i: int|
            0 <= i < a.len() ==> (#[trigger] a[i]).to_multiset() == (#[trigger] b[i]).to_multiset(),
    ensures
        a.flatten().to_multiset() == b.flatten().to_multiset(),
    decreases a.len(),
{
    if a.len() == 0 {
        assert(a =~= b);
    } else {
        let x = a.drop_last();
        let y = b.drop_last();
        assert forall|i: int| 0 <= i < x.len() implies (#[trigger] x[i]).to_multiset() == (
        #[trigger] y[i]).to_multiset() by {
            assert(a[i].to_multiset() == b[i].to_multiset());
        }
        lemma_flatten_same_items(x, y);
        assert(a =~= x.push(a.last()));
        assert(b =~= y.push(b.last()));
        x.lemma_flatten_push(a.last());
        y.lemma_flatten_push(b.last());
        vstd::seq_lib::lemma_multiset_commutative(x.flatten(), a.last());
        vstd::seq_lib::lemma_multiset_commutative(y.flatten(), b.last());
        let n = a.len() - 1;
        assert(a[n].to_multiset() == b[n].to_multiset());
    }
}

/// Execution time is priced against all transactions of the block, each of them once, by
/// rising fee.
pub proof fn law_aggregate(block: BlockModel)
    ensures
        ascending(aggregate(block)),
        aggregate(block).to_multiset() == populated(block).map_values(
            |f: FlashblockModel| f.transactions,
        ).flatten().to_multiset(),
{
    let parts = sorted_parts(block);
    let plain = populated(block).map_values(|f: FlashblockModel| f.transactions);
    lemma_by_fee(parts.flatten());
    assert forall|i: int| 0 <= i < parts.len() implies (#[trigger] parts[i]).to_multiset() == (
    #[trigger] plain[i]).to_multiset() by {
        lemma_by_fee(populated(block)[i].transactions);
    }
    lemma_flatten_same_items(parts, plain);
}

} // verus!
