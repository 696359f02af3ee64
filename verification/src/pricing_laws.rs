use crate::agreement_laws::{law_one_price, law_rolling_of_blocks, single_valued};
use crate::block::{law_ordered_lists_all, BlockModel};
use crate::cache::CacheModel;
use crate::estimates::{
    BlockPriorityEstimates, ResourceEstimate, ResourceEstimates, RollingPriorityEstimates,
};
use crate::estimator::{
    aggregate, block_outcome, block_priced, competitors, demand_priced, estimated,
    flashblock_priced, populated, prefix_usage, priced, priced_at, rolling_estimated, sorted_parts,
};
use crate::estimator_laws::{
    law_aggregate, law_priced_where_possible, law_recommendation_covers_threshold, lemma_picked,
};
use crate::flashblock::FlashblockModel;
use crate::order::{ascending, by_fee, lemma_by_fee, Priced};
use crate::resource::{at_most, total_usage, usage, ResourceDemand, ResourceKind};
use crate::rolling::{contributes, fees_for, maxima, median, median_estimate, rolling_of};
use crate::stream_laws::lemma_contains_last;
use crate::sum_laws::{
    law_sum_by_order, lemma_filter_len_is_sum, lemma_filtered_usage, lemma_usage_is_sum,
};
use crate::transaction::MeteredTransaction;
use crate::u256::U256;
use vstd::prelude::*;

verus! {

/// The transactions that pay `fee` or less.
pub open spec fn paying_at_most(txs: Seq<MeteredTransaction>, fee: nat) -> Seq<
    MeteredTransaction,
> {
    txs.filter(|t: MeteredTransaction| t.priority_fee_per_gas@ <= fee)
}

/// The transactions that pay less than `fee`.
pub open spec fn paying_less(txs: Seq<MeteredTransaction>, fee: nat) -> Seq<MeteredTransaction> {
    txs.filter(|t: MeteredTransaction| t.priority_fee_per_gas@ < fee)
}

/// All transactions of a block, flashblock by flashblock.
pub open spec fn all_transactions(block: BlockModel) -> Seq<MeteredTransaction> {
    block.ordered().map_values(|f: FlashblockModel| f.transactions).flatten()
}

/// Where the first `n` transactions pass, what pass consumed at least as much as these.
proof fn lemma_covers(
    txs: Seq<MeteredTransaction>,
    pred: spec_fn(MeteredTransaction) -> bool,
    kind: ResourceKind,
    n: int,
)
    requires
        0 <= n <= txs.len(),
        forall|k: int| 0 <= k < n ==> pred(#[trigger] txs[k]),
    ensures
        total_usage(txs.filter(pred), kind) >= total_usage(txs.take(n), kind),
    decreases txs.len(),
{
    reveal(Seq::filter);
    if txs.len() > 0 {
        let earlier = txs.drop_last();
        let last = txs.last();
        if pred(last) {
            assert(earlier.filter(pred).push(last).drop_last() =~= earlier.filter(pred));
        }
        if n == txs.len() {
            assert(pred(txs[n - 1]));
            lemma_covers(earlier, pred, kind, n - 1);
            assert(earlier.take(n - 1) =~= earlier);
            assert(txs.take(n) =~= txs);
        } else {
            lemma_covers(earlier, pred, kind, n);
            assert(earlier.take(n) =~= txs.take(n));
        }
    } else {
        assert(txs.take(n) =~= txs);
    }
}

/// Where none from the position `n` on passes, what pass consumed no more than the first `n`.
proof fn lemma_within(
    txs: Seq<MeteredTransaction>,
    pred: spec_fn(MeteredTransaction) -> bool,
    kind: ResourceKind,
    n: int,
)
    requires
        0 <= n <= txs.len(),
        forall|k: int| n <= k < txs.len() ==> !pred(#[trigger] txs[k]),
    ensures
        total_usage(txs.filter(pred), kind) <= total_usage(txs.take(n), kind),
    decreases txs.len(),
{
    reveal(Seq::filter);
    if txs.len() > 0 {
        let earlier = txs.drop_last();
        let last = txs.last();
        if pred(last) {
            assert(earlier.filter(pred).push(last).drop_last() =~= earlier.filter(pred));
        }
        if n == txs.len() {
            lemma_within(earlier, pred, kind, n - 1);
            assert(earlier.take(n - 1) =~= earlier);
            assert(txs.take(n) =~= txs);
        } else {
            assert(!pred(txs[txs.len() - 1]));
            assert forall|k: int| n <= k < earlier.len() implies !pred(#[trigger] earlier[k]) by {
                assert(!pred(txs[k]));
            }
            lemma_within(earlier, pred, kind, n);
            assert(earlier.take(n) =~= txs.take(n));
        }
    } else {
        assert(txs.take(n) =~= txs);
    }
}

/// The threshold is the fee of the last transaction that has to be displaced. Against
/// transactions by rising fee, it is the lowest fee at which enough is displaced: those that pay
/// it or less consumed what is asked for, and those that pay less did not.
pub proof fn law_threshold_displaces<P: Fn(usize) -> usize>(
    txs: Seq<MeteredTransaction>,
    demand: nat,
    kind: ResourceKind,
    rank: P,
    estimate: ResourceEstimate,
)
    requires
        priced(txs, demand, kind, rank, Some(estimate)),
    ensures
        1 <= estimate.supporting_transactions <= txs.len(),
        estimate.total_transactions == txs.len(),
        estimate.threshold_priority_fee == txs[estimate.supporting_transactions
            - 1].priority_fee_per_gas,
        total_usage(txs.take(estimate.supporting_transactions as int), kind) >= demand,
        forall|n: int|
            0 < n < estimate.supporting_transactions ==> total_usage(#[trigger] txs.take(n), kind)
                < demand,
        estimate.cumulative_usage == total_usage(
            txs.take(estimate.supporting_transactions as int),
            kind,
        ) || (estimate.cumulative_usage == u128::MAX && total_usage(
            txs.take(estimate.supporting_transactions as int),
            kind,
        ) > u128::MAX),
        ascending(txs) ==> total_usage(
            paying_at_most(txs, estimate.threshold_priority_fee@),
            kind,
        ) >= demand,
        ascending(txs) && demand > 0 ==> total_usage(
            paying_less(txs, estimate.threshold_priority_fee@),
            kind,
        ) < demand,
{
    let r = Some(estimate);
    let i = choose|i: int| #[trigger] priced_at(txs, demand, kind, rank, r->0, i);
    assert forall|n: int| 0 < n < estimate.supporting_transactions implies total_usage(
        #[trigger] txs.take(n),
        kind,
    ) < demand by {
        assert(prefix_usage(txs, kind, (n - 1) + 1) < demand);
    }
    if ascending(txs) {
        let fee = estimate.threshold_priority_fee@;
        let upto = |t: MeteredTransaction| t.priority_fee_per_gas@ <= fee;
        let below = |t: MeteredTransaction| t.priority_fee_per_gas@ < fee;
        assert forall|k: int| 0 <= k < i + 1 implies upto(#[trigger] txs[k]) by {
            assert(txs[k].fee() <= txs[i].fee());
        }
        lemma_covers(txs, upto, kind, i + 1);
        assert forall|k: int| i <= k < txs.len() implies !below(#[trigger] txs[k]) by {
            assert(txs[i].fee() <= txs[k].fee());
        }
        lemma_within(txs, below, kind, i);
        if i > 0 {
            assert(prefix_usage(txs, kind, (i - 1) + 1) < demand);
        } else {
            assert(txs.take(0) =~= Seq::empty());
        }
    }
}

/// What is recommended is the fee at the position that the rank answers with, counted from the
/// transaction right above the displaced ones; a position beyond the last stands for the last.
/// Where all are displaced, it is the threshold.
pub proof fn law_recommendation_is_ranked<P: Fn(usize) -> usize>(
    txs: Seq<MeteredTransaction>,
    demand: nat,
    kind: ResourceKind,
    rank: P,
    estimate: ResourceEstimate,
)
    requires
        priced(txs, demand, kind, rank, Some(estimate)),
    ensures
        ({
            let displaced = estimate.supporting_transactions as int;
            let last = txs.len() - displaced - 1;
            if displaced == txs.len() {
                estimate.recommended_priority_fee == estimate.threshold_priority_fee
            } else {
                exists|pos: usize|
                    {
                        &&& #[trigger] call_ensures(rank, (last as usize,), pos)
                        &&& estimate.recommended_priority_fee == txs[displaced + (if pos <= last {
                            pos as int
                        } else {
                            last
                        })].priority_fee_per_gas
                    }
            }
        }),
{
    let r = Some(estimate);
    let i = choose|i: int| #[trigger] priced_at(txs, demand, kind, rank, r->0, i);
    let remaining = txs.skip(i + 1);
    if remaining.len() > 0 {
        let pos = lemma_picked(
            remaining,
            estimate.threshold_priority_fee,
            rank,
            estimate.recommended_priority_fee,
        );
        let last = remaining.len() - 1;
        assert(call_ensures(rank, (last as usize,), pos));
        assert(remaining[at_most(pos as nat, last as nat) as int] == txs[i + 1 + at_most(
            pos as nat,
            last as nat,
        )]);
    }
}

/// Filtering keeps what passes, in its order.
proof fn lemma_filter_indices(
    items: Seq<FlashblockModel>,
    pred: spec_fn(FlashblockModel) -> bool,
)
    requires
        forall|i: int, j: int|
            0 <= i < j < items.len() ==> (#[trigger] items[i]).flashblock_index < (
            #[trigger] items[j]).flashblock_index,
    ensures
        forall|i: int, j: int|
            0 <= i < j < items.filter(pred).len() ==> (#[trigger] items.filter(
                pred,
            )[i]).flashblock_index < (#[trigger] items.filter(pred)[j]).flashblock_index,
        forall|f: FlashblockModel| #[trigger]
            items.filter(pred).contains(f) <==> items.contains(f) && pred(f),
    decreases items.len(),
{
    reveal(Seq::filter);
    if items.len() > 0 {
        let earlier = items.drop_last();
        let last = items.last();
        assert forall|i: int, j: int| 0 <= i < j < earlier.len() implies (
        #[trigger] earlier[i]).flashblock_index < (#[trigger] earlier[j]).flashblock_index by {
            assert(items[i].flashblock_index < items[j].flashblock_index);
        }
        lemma_filter_indices(earlier, pred);
        assert forall|f: FlashblockModel| #[trigger] items.contains(f) == (earlier.contains(f) || f
            == last) by {
            lemma_contains_last(items, f);
        }
        if pred(last) {
            let kept = items.filter(pred);
            assert(kept.drop_last() =~= earlier.filter(pred));
            assert forall|f: FlashblockModel| #[trigger] kept.contains(f) == (earlier.filter(
                pred,
            ).contains(f) || f == last) by {
                lemma_contains_last(kept, f);
            }
            assert forall|i: int| 0 <= i < kept.len() - 1 implies (
            #[trigger] kept[i]).flashblock_index < last.flashblock_index by {
                assert(earlier.filter(pred)[i] == kept[i]);
                assert(earlier.filter(pred).contains(kept[i]));
                let k = choose|k: int| 0 <= k < earlier.len() && earlier[k] == kept[i];
                assert(items[k].flashblock_index < items[items.len() - 1].flashblock_index);
            }
        }
    }
}

/// The estimates of a block are those of its flashblocks with transactions, each of them once,
/// by rising index.
pub proof fn law_flashblocks_listed<P: Fn(usize) -> usize>(
    block: BlockModel,
    demand: ResourceDemand,
    rank: P,
    estimates: BlockPriorityEstimates,
)
    requires
        block.valid(),
        block_priced(block, demand, rank, estimates),
    ensures
        estimates.block_number == block.block_number,
        forall|i: int, j: int|
            0 <= i < j < estimates.flashblocks@.len() ==> (
            #[trigger] estimates.flashblocks@[i]).flashblock_index < (
            #[trigger] estimates.flashblocks@[j]).flashblock_index,
        forall|i: int|
            0 <= i < estimates.flashblocks@.len() ==> {
                let k = (#[trigger] estimates.flashblocks@[i]).flashblock_index;
                &&& block.flashblocks.contains_key(k)
                &&& block.flashblocks[k].transactions.len() > 0
                &&& populated(block)[i] == block.flashblocks[k]
            },
        forall|k: u64| #[trigger]
            block.flashblocks.contains_key(k) && block.flashblocks[k].transactions.len() > 0
                ==> exists|i: int|
                0 <= i < estimates.flashblocks@.len() && (
                #[trigger] estimates.flashblocks@[i]).flashblock_index == k,
{
    lemma_populated(block);
    let listed = populated(block);
    let shown = estimates.flashblocks@;
    assert forall|i: int, j: int| 0 <= i < j < shown.len() implies (
    #[trigger] shown[i]).flashblock_index < (#[trigger] shown[j]).flashblock_index by {
        assert(listed[i].flashblock_index < listed[j].flashblock_index);
    }
    assert forall|i: int| 0 <= i < shown.len() implies {
        let k = (#[trigger] shown[i]).flashblock_index;
        &&& block.flashblocks.contains_key(k)
        &&& block.flashblocks[k].transactions.len() > 0
        &&& listed[i] == block.flashblocks[k]
    } by {
        assert(listed[i].flashblock_index == shown[i].flashblock_index);
    }
    assert forall|k: u64| #[trigger]
        block.flashblocks.contains_key(k) && block.flashblocks[k].transactions.len()
            > 0 implies exists|i: int|
        0 <= i < shown.len() && (#[trigger] shown[i]).flashblock_index == k by {
        assert(listed.contains(block.flashblocks[k]));
        let i = choose|i: int| 0 <= i < listed.len() && listed[i] == block.flashblocks[k];
        assert(shown[i].flashblock_index == k);
    }
}

/// The populated flashblocks are those with transactions, by rising index.
proof fn lemma_populated(block: BlockModel)
    requires
        block.valid(),
    ensures
        forall|i: int, j: int|
            0 <= i < j < populated(block).len() ==> (
            #[trigger] populated(block)[i]).flashblock_index < (
            #[trigger] populated(block)[j]).flashblock_index,
        forall|i: int|
            0 <= i < populated(block).len() ==> {
                let f = #[trigger] populated(block)[i];
                &&& block.flashblocks.contains_key(f.flashblock_index)
                &&& block.flashblocks[f.flashblock_index] == f
                &&& f.transactions.len() > 0
            },
        forall|k: u64| #[trigger]
            block.flashblocks.contains_key(k) && block.flashblocks[k].transactions.len() > 0
                ==> populated(block).contains(block.flashblocks[k]),
{
    law_ordered_lists_all(block);
    let ordered = block.ordered();
    assert forall|i: int, j: int| 0 <= i < j < ordered.len() implies (
    #[trigger] ordered[i]).flashblock_index < (#[trigger] ordered[j]).flashblock_index by {
        assert(block.indices()[i] < block.indices()[j]);
    }
    lemma_filter_indices(ordered, |f: FlashblockModel| f.transactions.len() > 0);
    assert forall|i: int| 0 <= i < populated(block).len() implies {
        let f = #[trigger] populated(block)[i];
        &&& block.flashblocks.contains_key(f.flashblock_index)
        &&& block.flashblocks[f.flashblock_index] == f
        &&& f.transactions.len() > 0
    } by {
        let f = populated(block)[i];
        assert(populated(block).contains(f));
        let p = choose|p: int| 0 <= p < ordered.len() && ordered[p] == f;
        assert(ordered[p] == block.flashblocks[block.indices()[p]]);
        assert(block.indices().contains(block.indices()[p]));
    }
    assert forall|k: u64| #[trigger]
        block.flashblocks.contains_key(k) && block.flashblocks[k].transactions.len()
            > 0 implies populated(block).contains(block.flashblocks[k]) by {
        assert(block.indices().contains(k));
        let p = choose|p: int| 0 <= p < block.indices().len() && block.indices()[p] == k;
        assert(ordered[p] == block.flashblocks[k]);
        assert(ordered.contains(block.flashblocks[k]));
    }
}

/// There is a populated flashblock exactly where some flashblock holds a transaction.
pub(crate) proof fn lemma_any_populated(block: BlockModel)
    requires
        block.valid(),
    ensures
        populated(block).len() > 0 <==> exists|k: u64| #[trigger]
            block.flashblocks.contains_key(k) && block.flashblocks[k].transactions.len() > 0,
{
    lemma_populated(block);
    if populated(block).len() > 0 {
        let f = populated(block)[0];
        assert(block.flashblocks.contains_key(f.flashblock_index));
    }
    assert forall|k: u64| #[trigger]
        block.flashblocks.contains_key(k) && block.flashblocks[k].transactions.len()
            > 0 implies populated(block).len() > 0 by {
        assert(populated(block).contains(block.flashblocks[k]));
    }
}

/// Flashblocks without transactions add nothing.
proof fn lemma_flatten_populated(flashblocks: Seq<FlashblockModel>)
    ensures
        flashblocks.filter(|f: FlashblockModel| f.transactions.len() > 0).map_values(
            |f: FlashblockModel| f.transactions,
        ).flatten() == flashblocks.map_values(|f: FlashblockModel| f.transactions).flatten(),
    decreases flashblocks.len(),
{
    reveal(Seq::filter);
    let pred = |f: FlashblockModel| f.transactions.len() > 0;
    let txs_of = |f: FlashblockModel| f.transactions;
    if flashblocks.len() == 0 {
        assert(flashblocks.filter(pred).map_values(txs_of) =~= flashblocks.map_values(txs_of));
    } else {
        let earlier = flashblocks.drop_last();
        let last = flashblocks.last();
        lemma_flatten_populated(earlier);
        let all = earlier.map_values(txs_of);
        let some = earlier.filter(pred).map_values(txs_of);
        assert(flashblocks.map_values(txs_of) =~= all.push(last.transactions));
        all.lemma_flatten_push(last.transactions);
        if pred(last) {
            assert(flashblocks.filter(pred).map_values(txs_of) =~= some.push(last.transactions));
            some.lemma_flatten_push(last.transactions);
        } else {
            assert(all.flatten() + last.transactions =~= all.flatten());
        }
    }
}

/// Against which transactions a resource is priced: execution time against all transactions of
/// the block, every other resource against those of the flashblock itself.
pub open spec fn rivals(
    block: BlockModel,
    flashblock: FlashblockModel,
    kind: ResourceKind,
) -> Seq<MeteredTransaction> {
    if kind == ResourceKind::ExecutionTime {
        all_transactions(block)
    } else {
        flashblock.transactions
    }
}

/// Sums over what passes agree for sequences with the same items.
proof fn lemma_same_items(
    a: Seq<MeteredTransaction>,
    b: Seq<MeteredTransaction>,
    pred: spec_fn(MeteredTransaction) -> bool,
    kind: ResourceKind,
)
    requires
        a.to_multiset() == b.to_multiset(),
    ensures
        total_usage(a.filter(pred), kind) == total_usage(b.filter(pred), kind),
        total_usage(a, kind) == total_usage(b, kind),
        a.len() == b.len(),
        forall|t: MeteredTransaction| #[trigger] a.contains(t) <==> b.contains(t),
{
    broadcast use vstd::seq_lib::group_to_multiset_ensures;

    lemma_filtered_usage(a, pred, kind);
    lemma_filtered_usage(b, pred, kind);
    law_sum_by_order(
        a,
        b,
        |t: MeteredTransaction|
            if pred(t) {
                usage(t, kind)
            } else {
                0nat
            },
    );
    lemma_usage_is_sum(a, kind);
    lemma_usage_is_sum(b, kind);
    law_sum_by_order(a, b, |t: MeteredTransaction| usage(t, kind));
    assert(a.len() == a.to_multiset().len() == b.len());
    assert forall|t: MeteredTransaction| #[trigger] a.contains(t) <==> b.contains(t) by {
        assert(a.contains(t) <==> a.to_multiset().count(t) > 0);
        assert(b.contains(t) <==> b.to_multiset().count(t) > 0);
    }
}

/// The transactions that a resource is priced against, sorted, are its rivals.
proof fn lemma_rivals(block: BlockModel, i: int, kind: ResourceKind)
    requires
        0 <= i < populated(block).len(),
    ensures
        ({
            let txs = competitors(aggregate(block), sorted_parts(block)[i], kind);
            &&& ascending(txs)
            &&& txs.to_multiset() == rivals(block, populated(block)[i], kind).to_multiset()
        }),
{
    lemma_by_fee(populated(block)[i].transactions);
    law_aggregate(block);
    lemma_flatten_populated(block.ordered());
}

/// In a priced block, a resource has an estimate in a flashblock exactly where something of it is
/// asked for and its rivals together consumed as much. The estimate counts all of the rivals; its
/// threshold is a fee that one of them pays, and the lowest at which enough is displaced: those
/// that pay it or less consumed what is asked for, and those that pay less did not.
pub proof fn law_flashblock_estimate<P: Fn(usize) -> usize>(
    block: BlockModel,
    demand: ResourceDemand,
    rank: P,
    estimates: BlockPriorityEstimates,
    kind: ResourceKind,
    i: int,
)
    requires
        block.valid(),
        block_priced(block, demand, rank, estimates),
        0 <= i < estimates.flashblocks@.len(),
    ensures
        ({
            let k = estimates.flashblocks@[i].flashblock_index;
            let txs = rivals(block, block.flashblocks[k], kind);
            let r = estimates.flashblocks@[i].estimates.at(kind);
            &&& r is Some <==> demand.of(kind) is Some && 0 < demand.of(kind)->0 <= total_usage(
                txs,
                kind,
            )
            &&& r is Some ==> {
                let fee = r->0.threshold_priority_fee;
                &&& r->0.total_transactions == txs.len()
                &&& exists|t: MeteredTransaction| #[trigger]
                    txs.contains(t) && t.priority_fee_per_gas == fee
                &&& exists|t: MeteredTransaction| #[trigger]
                    txs.contains(t) && t.priority_fee_per_gas == r->0.recommended_priority_fee
                &&& fee@ <= r->0.recommended_priority_fee@
                &&& total_usage(paying_at_most(txs, fee@), kind) >= demand.of(kind)->0
                &&& total_usage(paying_less(txs, fee@), kind) < demand.of(kind)->0
            }
        }),
{
    law_flashblocks_listed(block, demand, rank, estimates);
    let k = estimates.flashblocks@[i].flashblock_index;
    assert(populated(block)[i] == block.flashblocks[k]);
    let txs = rivals(block, block.flashblocks[k], kind);
    let sorted = competitors(aggregate(block), sorted_parts(block)[i], kind);
    let r = estimates.flashblocks@[i].estimates.at(kind);
    lemma_rivals(block, i, kind);
    assert(flashblock_priced(
        aggregate(block),
        sorted_parts(block)[i],
        demand,
        rank,
        estimates.flashblocks@[i].estimates,
    ));
    assert(demand_priced(sorted, demand.of(kind), kind, rank, r));
    if demand.of(kind) is Some && demand.of(kind)->0 > 0 {
        let amount = demand.of(kind)->0 as nat;
        lemma_same_items(sorted, txs, |t: MeteredTransaction| true, kind);
        law_priced_where_possible(sorted, amount, kind, rank, r);
        if txs.len() == 0 {
            assert(total_usage(txs, kind) == 0);
        }
        if r is Some {
            let e = r->0;
            let fee = e.threshold_priority_fee@;
            assert(r == Some(e));
            law_threshold_displaces(sorted, amount, kind, rank, e);
            law_recommendation_covers_threshold(
                sorted,
                amount,
                kind,
                rank,
                e,
            );
            lemma_same_items(
                sorted,
                txs,
                |t: MeteredTransaction| t.priority_fee_per_gas@ <= fee,
                kind,
            );
            lemma_same_items(
                sorted,
                txs,
                |t: MeteredTransaction| t.priority_fee_per_gas@ < fee,
                kind,
            );
            let at = sorted[e.supporting_transactions - 1];
            assert(sorted.contains(at));
            assert(txs.contains(at));
            let q = choose|q: int|
                0 <= q < sorted.len() && (#[trigger] sorted[q]).priority_fee_per_gas
                    == e.recommended_priority_fee;
            assert(sorted.contains(sorted[q]));
            assert(txs.contains(sorted[q]));
        }
    }
}

/// What a resource other than execution time costs in a flashblock is a matter of that flashblock
/// alone: it is the price against its own transactions by rising fee, and two blocks that have a
/// flashblock in common price it there alike, whatever their other flashblocks hold.
pub proof fn law_flashblock_on_its_own<P: Fn(usize) -> usize>(
    a: BlockModel,
    b: BlockModel,
    demand: ResourceDemand,
    rank: P,
    x: BlockPriorityEstimates,
    y: BlockPriorityEstimates,
    kind: ResourceKind,
    i: int,
    j: int,
)
    requires
        a.valid(),
        b.valid(),
        block_priced(a, demand, rank, x),
        block_priced(b, demand, rank, y),
        0 <= i < x.flashblocks@.len(),
        0 <= j < y.flashblocks@.len(),
        x.flashblocks@[i].flashblock_index == y.flashblocks@[j].flashblock_index,
        a.flashblocks[x.flashblocks@[i].flashblock_index]
            == b.flashblocks[y.flashblocks@[j].flashblock_index],
        kind != ResourceKind::ExecutionTime,
    ensures
        demand.of(kind) is Some && demand.of(kind)->0 > 0 ==> priced(
            by_fee(a.flashblocks[x.flashblocks@[i].flashblock_index].transactions),
            demand.of(kind)->0 as nat,
            kind,
            rank,
            x.flashblocks@[i].estimates.at(kind),
        ),
        single_valued(rank) ==> x.flashblocks@[i].estimates.at(kind) == y.flashblocks@[
            j
        ].estimates.at(kind),
{
    law_flashblocks_listed(a, demand, rank, x);
    law_flashblocks_listed(b, demand, rank, y);
    let p = x.flashblocks@[i].estimates;
    let q = y.flashblocks@[j].estimates;
    assert(populated(a)[i] == a.flashblocks[x.flashblocks@[i].flashblock_index]);
    assert(populated(b)[j] == b.flashblocks[y.flashblocks@[j].flashblock_index]);
    let own = by_fee(populated(a)[i].transactions);
    assert(sorted_parts(a)[i] == own);
    assert(sorted_parts(b)[j] == own);
    assert(flashblock_priced(aggregate(a), own, demand, rank, p));
    assert(flashblock_priced(aggregate(b), own, demand, rank, q));
    assert(demand_priced(own, demand.of(kind), kind, rank, p.at(kind)));
    assert(demand_priced(own, demand.of(kind), kind, rank, q.at(kind)));
    if single_valued(rank) && demand.of(kind) is Some && demand.of(kind)->0 > 0 {
        law_one_price(own, demand.of(kind)->0 as nat, kind, rank, p.at(kind), q.at(kind));
    }
}

/// Which block is priced, and when there are estimates: the cached block with the number, or the
/// one that came in last where no number is given, and only where one of its flashblocks holds a
/// transaction.
pub proof fn law_priced_block<P: Fn(usize) -> usize>(
    cache: CacheModel,
    block_number: Option<u64>,
    demand: ResourceDemand,
    rank: P,
    r: Option<BlockPriorityEstimates>,
    at: int,
)
    requires
        cache.valid(),
        estimated(cache, block_number, demand, rank, r),
        0 <= at < cache.blocks.len(),
        match block_number {
            Some(number) => cache.blocks[at].block_number == number,
            None => at == cache.blocks.len() - 1,
        },
    ensures
        r is Some <==> exists|k: u64| #[trigger]
            cache.blocks[at].flashblocks.contains_key(k)
                && cache.blocks[at].flashblocks[k].transactions.len() > 0,
        r is Some ==> r->0.block_number == cache.blocks[at].block_number && block_priced(
            cache.blocks[at],
            demand,
            rank,
            r->0,
        ),
{
    let block = cache.blocks[at];
    if block_number is Some {
        let number = block_number->0;
        assert(cache.has_block(number));
        let k = cache.position(number);
        assert(0 <= k < cache.blocks.len() && cache.blocks[k].block_number == number);
        if k < at {
            assert(cache.blocks[k].block_number != cache.blocks[at].block_number);
        } else if at < k {
            assert(cache.blocks[at].block_number != cache.blocks[k].block_number);
        }
    }
    assert(block_outcome(block, demand, rank, r));
    lemma_any_populated(block);
}

/// Nothing is priced where the block that is asked for is not cached.
pub proof fn law_no_block_no_price<P: Fn(usize) -> usize>(
    cache: CacheModel,
    block_number: Option<u64>,
    demand: ResourceDemand,
    rank: P,
    r: Option<BlockPriorityEstimates>,
)
    requires
        estimated(cache, block_number, demand, rank, r),
        match block_number {
            Some(number) => forall|i: int|
                0 <= i < cache.blocks.len() ==> (#[trigger] cache.blocks[i]).block_number != number,
            None => cache.blocks.len() == 0,
        },
    ensures
        r is None,
{
}

/// A resource is priced in a flashblock against its rivals in rising order of their fees.
pub proof fn law_priced_against_rivals<P: Fn(usize) -> usize>(
    block: BlockModel,
    demand: ResourceDemand,
    rank: P,
    estimates: BlockPriorityEstimates,
    kind: ResourceKind,
    i: int,
)
    requires
        block.valid(),
        block_priced(block, demand, rank, estimates),
        0 <= i < estimates.flashblocks@.len(),
        demand.of(kind) is Some,
        demand.of(kind)->0 > 0,
    ensures
        exists|txs: Seq<MeteredTransaction>|
            {
                &&& #[trigger] priced(
                    txs,
                    demand.of(kind)->0 as nat,
                    kind,
                    rank,
                    estimates.flashblocks@[i].estimates.at(kind),
                )
                &&& txs.to_multiset() == rivals(
                    block,
                    block.flashblocks[estimates.flashblocks@[i].flashblock_index],
                    kind,
                ).to_multiset()
                &&& forall|p: int, q: int|
                    0 <= p <= q < txs.len() ==> (#[trigger] txs[p]).priority_fee_per_gas@ <= (
                    #[trigger] txs[q]).priority_fee_per_gas@
            },
{
    law_flashblocks_listed(block, demand, rank, estimates);
    lemma_rivals(block, i, kind);
    let txs = competitors(aggregate(block), sorted_parts(block)[i], kind);
    assert(flashblock_priced(
        aggregate(block),
        sorted_parts(block)[i],
        demand,
        rank,
        estimates.flashblocks@[i].estimates,
    ));
    assert(priced(
        txs,
        demand.of(kind)->0 as nat,
        kind,
        rank,
        estimates.flashblocks@[i].estimates.at(kind),
    ));
    assert(populated(block)[i]
        == block.flashblocks[estimates.flashblocks@[i].flashblock_index]);
    assert forall|p: int, q: int| 0 <= p <= q < txs.len() implies (
    #[trigger] txs[p]).priority_fee_per_gas@ <= (#[trigger] txs[q]).priority_fee_per_gas@ by {
        assert(txs[p].fee() <= txs[q].fee());
    }
}

/// Where no item from the position `n` on passes, no more than `n` do.
proof fn lemma_count_before<A>(items: Seq<A>, pred: spec_fn(A) -> bool, n: int)
    requires
        0 <= n <= items.len(),
        forall|k: int| n <= k < items.len() ==> !pred(#[trigger] items[k]),
    ensures
        items.filter(pred).len() <= n,
    decreases items.len(),
{
    reveal(Seq::filter);
    if items.len() > 0 {
        let earlier = items.drop_last();
        if n == items.len() {
            lemma_count_before(earlier, pred, n - 1);
        } else {
            assert(!pred(items[items.len() - 1]));
            assert forall|k: int| n <= k < earlier.len() implies !pred(#[trigger] earlier[k]) by {
                assert(!pred(items[k]));
            }
            lemma_count_before(earlier, pred, n);
        }
    }
}

/// Where none of the first `n` items passes, no more than the others do.
proof fn lemma_count_after<A>(items: Seq<A>, pred: spec_fn(A) -> bool, n: int)
    requires
        0 <= n <= items.len(),
        forall|k: int| 0 <= k < n ==> !pred(#[trigger] items[k]),
    ensures
        items.filter(pred).len() <= items.len() - n,
    decreases items.len(),
{
    reveal(Seq::filter);
    if items.len() > 0 {
        let earlier = items.drop_last();
        if n == items.len() {
            assert(!pred(items[items.len() - 1]));
            lemma_count_after(earlier, pred, n - 1);
        } else {
            lemma_count_after(earlier, pred, n);
        }
    }
}

proof fn lemma_count_in_any_order<A>(a: Seq<A>, b: Seq<A>, pred: spec_fn(A) -> bool)
    requires
        a.to_multiset() == b.to_multiset(),
    ensures
        a.filter(pred).len() == b.filter(pred).len(),
{
    lemma_filter_len_is_sum(a, pred);
    lemma_filter_len_is_sum(b, pred);
    law_sum_by_order(
        a,
        b,
        |x: A|
            if pred(x) {
                1nat
            } else {
                0nat
            },
    );
}

/// The median is one of the fees. No more than half of the fees are lower, and fewer than half of
/// them, rounded up, are higher.
pub proof fn law_median_is_in_the_middle(fees: Seq<U256>)
    requires
        fees.len() > 0,
    ensures
        fees.contains(median(fees)),
        fees.filter(|f: U256| f@ < median(fees)@).len() <= fees.len() / 2,
        fees.filter(|f: U256| f@ > median(fees)@).len() + fees.len() / 2 < fees.len(),
{
    broadcast use vstd::seq_lib::group_to_multiset_ensures;

    lemma_by_fee(fees);
    let sorted = by_fee(fees);
    let m = fees.len() as int / 2;
    let mid = median(fees)@;
    let lower = |f: U256| f@ < mid;
    let higher = |f: U256| f@ > mid;
    assert(sorted.contains(sorted[m]));
    assert(fees.to_multiset().count(median(fees)) > 0);
    assert forall|k: int| m <= k < sorted.len() implies !lower(#[trigger] sorted[k]) by {
        assert(sorted[m].fee() <= sorted[k].fee());
    }
    lemma_count_before(sorted, lower, m);
    assert forall|k: int| 0 <= k < m + 1 implies !higher(#[trigger] sorted[k]) by {
        assert(sorted[k].fee() <= sorted[m].fee());
    }
    lemma_count_after(sorted, higher, m + 1);
    lemma_count_in_any_order(sorted, fees, lower);
    lemma_count_in_any_order(sorted, fees, higher);
}

/// Whether a block has a highest estimate for `kind`.
pub open spec fn offers(outcome: Option<BlockPriorityEstimates>, kind: ResourceKind) -> bool {
    outcome is Some && outcome->0.max_across_flashblocks.at(kind) is Some
}

/// The fee that the highest estimate of a block recommends for `kind`.
pub open spec fn offered(outcome: Option<BlockPriorityEstimates>, kind: ResourceKind) -> U256 {
    outcome->0.max_across_flashblocks.at(kind)->0.recommended_priority_fee
}

/// What passes among the fees of the samples is what passes among the offers of the blocks.
proof fn lemma_offers(
    outcomes: Seq<Option<BlockPriorityEstimates>>,
    kind: ResourceKind,
    pred: spec_fn(U256) -> bool,
)
    ensures
        fees_for(maxima(outcomes), kind).filter(pred).len() == outcomes.filter(
            |o: Option<BlockPriorityEstimates>| offers(o, kind) && pred(offered(o, kind)),
        ).len(),
        forall|fee: U256|
            fees_for(maxima(outcomes), kind).contains(fee) ==> exists|i: int|
                0 <= i < outcomes.len() && offers(#[trigger] outcomes[i], kind) && offered(
                    outcomes[i],
                    kind,
                ) == fee,
    decreases outcomes.len(),
{
    reveal(Seq::filter);
    let all = |o: Option<BlockPriorityEstimates>| offers(o, kind) && pred(offered(o, kind));
    let fees = fees_for(maxima(outcomes), kind);
    if outcomes.len() == 0 {
        assert(maxima(outcomes) =~= Seq::empty());
        assert(fees =~= Seq::empty());
    } else {
        let earlier = outcomes.drop_last();
        let last = outcomes.last();
        lemma_offers(earlier, kind, pred);
        let before = maxima(earlier);
        let known = fees_for(before, kind);
        if last is Some {
            let sample = last->0.max_across_flashblocks;
            assert(maxima(outcomes) =~= before.push(sample));
            assert(before.push(sample).drop_last() =~= before);
            if sample.at(kind) is Some {
                assert(fees =~= known.push(offered(last, kind)));
                assert(known.push(offered(last, kind)).drop_last() =~= known);
            } else {
                assert(fees =~= known);
            }
        } else {
            assert(maxima(outcomes) =~= before);
        }
        assert forall|fee: U256| fees.contains(fee) implies exists|i: int|
            0 <= i < outcomes.len() && offers(#[trigger] outcomes[i], kind) && offered(
                outcomes[i],
                kind,
            ) == fee by {
            if known.contains(fee) {
                let i = choose|i: int|
                    0 <= i < earlier.len() && offers(#[trigger] earlier[i], kind) && offered(
                        earlier[i],
                        kind,
                    ) == fee;
                assert(outcomes[i] == earlier[i]);
            } else {
                let i = choose|i: int| 0 <= i < fees.len() && fees[i] == fee;
                if i < known.len() {
                    assert(known[i] == fee);
                }
                assert(outcomes[outcomes.len() - 1] == last);
            }
        }
    }
}

/// The rolling fee of a resource is the middle one of the fees that the highest estimates of the
/// blocks recommend: there is one exactly where some block offers one, it is the offer of a block,
/// no more than half of the offers are lower, and fewer than half of them, rounded up, are
/// higher. With a single offer it is that offer.
pub proof fn law_rolling_median(
    outcomes: Seq<Option<BlockPriorityEstimates>>,
    r: RollingPriorityEstimates,
    kind: ResourceKind,
)
    requires
        rolling_of(maxima(outcomes), Some(r)),
    ensures
        ({
            let offering = outcomes.filter(
                |o: Option<BlockPriorityEstimates>| offers(o, kind),
            );
            let estimate = r.estimates.at(kind);
            &&& estimate is Some <==> offering.len() > 0
            &&& estimate is Some ==> {
                let fee = estimate->0.recommended_priority_fee;
                &&& estimate->0.threshold_priority_fee == fee
                &&& estimate->0.cumulative_usage == 0
                &&& estimate->0.supporting_transactions == 0
                &&& estimate->0.total_transactions == 0
                &&& exists|i: int|
                    0 <= i < outcomes.len() && offers(#[trigger] outcomes[i], kind) && offered(
                        outcomes[i],
                        kind,
                    ) == fee
                &&& outcomes.filter(
                    |o: Option<BlockPriorityEstimates>|
                        offers(o, kind) && offered(o, kind)@ < fee@,
                ).len() <= offering.len() / 2
                &&& outcomes.filter(
                    |o: Option<BlockPriorityEstimates>|
                        offers(o, kind) && offered(o, kind)@ > fee@,
                ).len() + offering.len() / 2 < offering.len()
                &&& offering.len() == 1 ==> fee == offered(offering[0], kind)
            }
        }),
{
    let o = Some(r);
    let fees = fees_for(maxima(outcomes), kind);
    let any = |f: U256| true;
    let offering = outcomes.filter(|o: Option<BlockPriorityEstimates>| offers(o, kind));
    assert(o->0.estimates.at(kind) == median_estimate(fees));
    lemma_offers(outcomes, kind, any);
    lemma_filter_len_is_sum(fees, any);
    lemma_all_pass(fees, any);
    lemma_same_filter(
        outcomes,
        |o: Option<BlockPriorityEstimates>| offers(o, kind) && any(offered(o, kind)),
        |o: Option<BlockPriorityEstimates>| offers(o, kind),
    );
    assert(fees.len() == offering.len());
    if fees.len() > 0 {
        let fee = r.estimates.at(kind)->0.recommended_priority_fee;
        assert(fee == median(fees));
        law_median_is_in_the_middle(fees);
        let lower = |f: U256| f@ < median(fees)@;
        let higher = |f: U256| f@ > median(fees)@;
        lemma_offers(outcomes, kind, lower);
        lemma_offers(outcomes, kind, higher);
        lemma_same_filter(
            outcomes,
            |o: Option<BlockPriorityEstimates>| offers(o, kind) && lower(offered(o, kind)),
            |o: Option<BlockPriorityEstimates>| offers(o, kind) && offered(o, kind)@ < fee@,
        );
        lemma_same_filter(
            outcomes,
            |o: Option<BlockPriorityEstimates>| offers(o, kind) && higher(offered(o, kind)),
            |o: Option<BlockPriorityEstimates>| offers(o, kind) && offered(o, kind)@ > fee@,
        );
        assert(fees.contains(fee));
        if offering.len() == 1 {
            let i = choose|i: int|
                0 <= i < outcomes.len() && offers(#[trigger] outcomes[i], kind) && offered(
                    outcomes[i],
                    kind,
                ) == fee;
            outcomes.lemma_filter_contains(
                |o: Option<BlockPriorityEstimates>| offers(o, kind),
                i,
            );
            assert(offering.contains(outcomes[i]));
            assert(offering[0] == outcomes[i]);
        }
    }
}

proof fn lemma_all_pass<A>(items: Seq<A>, pred: spec_fn(A) -> bool)
    requires
        forall|x: A| #[trigger] pred(x),
    ensures
        items.filter(pred) == items,
    decreases items.len(),
{
    reveal(Seq::filter);
    if items.len() > 0 {
        lemma_all_pass(items.drop_last(), pred);
        assert(items =~= items.drop_last().push(items.last()));
    } else {
        assert(items.filter(pred) =~= items);
    }
}

proof fn lemma_same_filter<A>(items: Seq<A>, p: spec_fn(A) -> bool, q: spec_fn(A) -> bool)
    requires
        forall|x: A| #[trigger] p(x) == q(x),
    ensures
        items.filter(p) == items.filter(q),
    decreases items.len(),
{
    reveal(Seq::filter);
    if items.len() > 0 {
        lemma_same_filter(items.drop_last(), p, q);
        assert(p(items.last()) == q(items.last()));
    }
}

/// Whether a block has a highest estimate for any resource.
pub open spec fn offers_any(outcome: Option<BlockPriorityEstimates>) -> bool {
    outcome is Some && {
        let highest = outcome->0.max_across_flashblocks;
        ||| highest.gas_used is Some
        ||| highest.execution_time is Some
        ||| highest.state_root_time is Some
        ||| highest.data_availability is Some
    }
}

/// The rolling recommendation is the highest of the fees for the single resources, and the blocks
/// that are counted are those that offer an estimate for any of them. There are rolling
/// estimates exactly where there is such a block.
pub proof fn law_rolling_summary(
    outcomes: Seq<Option<BlockPriorityEstimates>>,
    r: Option<RollingPriorityEstimates>,
)
    requires
        rolling_of(maxima(outcomes), r),
    ensures
        r is Some <==> outcomes.filter(|o: Option<BlockPriorityEstimates>| offers_any(o)).len() > 0,
        r is Some ==> {
            &&& r->0.blocks_sampled == outcomes.filter(
                |o: Option<BlockPriorityEstimates>| offers_any(o),
            ).len()
            &&& forall|kind: ResourceKind|
                (#[trigger] r->0.estimates.at(kind)) is Some ==> r->0.estimates.at(
                    kind,
                )->0.recommended_priority_fee@ <= r->0.recommended_priority_fee@
            &&& exists|kind: ResourceKind|
                (#[trigger] r->0.estimates.at(kind)) is Some && r->0.estimates.at(
                    kind,
                )->0.recommended_priority_fee == r->0.recommended_priority_fee
        },
{
    lemma_sampled(outcomes);
    let sampled = outcomes.filter(|o: Option<BlockPriorityEstimates>| offers_any(o));
    if sampled.len() > 0 {
        assert(sampled.contains(sampled[0]));
        outcomes.lemma_filter_pred(|o: Option<BlockPriorityEstimates>| offers_any(o), 0);
        outcomes.lemma_filter_contains_rev(
            |o: Option<BlockPriorityEstimates>| offers_any(o),
            sampled[0],
        );
        let highest = sampled[0]->0.max_across_flashblocks;
        let kind = if highest.gas_used is Some {
            ResourceKind::GasUsed
        } else if highest.execution_time is Some {
            ResourceKind::ExecutionTime
        } else if highest.state_root_time is Some {
            ResourceKind::StateRootTime
        } else {
            ResourceKind::DataAvailability
        };
        assert(offers(sampled[0], kind));
        lemma_some_fee(outcomes, kind, sampled[0]);
        assert(fees_for(maxima(outcomes), kind).len() > 0);
    }
    if r is Some {
        let kind = choose|kind: ResourceKind|
            (#[trigger] r->0.estimates.at(kind)) is Some && r->0.estimates.at(
                kind,
            )->0.recommended_priority_fee == r->0.recommended_priority_fee;
        let fees = fees_for(maxima(outcomes), kind);
        assert(r->0.estimates.at(kind) == median_estimate(fees));
        lemma_offers(outcomes, kind, |f: U256| true);
        assert(fees.contains(fees[0]));
        let i = choose|i: int|
            0 <= i < outcomes.len() && offers(#[trigger] outcomes[i], kind) && offered(
                outcomes[i],
                kind,
            ) == fees[0];
        assert(offers_any(outcomes[i]));
        outcomes.lemma_filter_contains(|o: Option<BlockPriorityEstimates>| offers_any(o), i);
        assert(sampled.contains(outcomes[i]));
    }
}

/// A block with an offer gives a fee.
proof fn lemma_some_fee(
    outcomes: Seq<Option<BlockPriorityEstimates>>,
    kind: ResourceKind,
    outcome: Option<BlockPriorityEstimates>,
)
    requires
        outcomes.contains(outcome),
        offers(outcome, kind),
    ensures
        fees_for(maxima(outcomes), kind).len() > 0,
{
    let any = |f: U256| true;
    lemma_offers(outcomes, kind, any);
    lemma_all_pass(fees_for(maxima(outcomes), kind), any);
    let i = choose|i: int| 0 <= i < outcomes.len() && outcomes[i] == outcome;
    let pred = |o: Option<BlockPriorityEstimates>| offers(o, kind) && any(offered(o, kind));
    outcomes.lemma_filter_contains(pred, i);
    assert(outcomes.filter(pred).contains(outcomes[i]));
}

proof fn lemma_sampled(outcomes: Seq<Option<BlockPriorityEstimates>>)
    ensures
        maxima(outcomes).filter(|e: ResourceEstimates| contributes(e)).len()
            == outcomes.filter(|o: Option<BlockPriorityEstimates>| offers_any(o)).len(),
    decreases outcomes.len(),
{
    reveal(Seq::filter);
    if outcomes.len() == 0 {
        assert(maxima(outcomes) =~= Seq::empty());
    } else {
        let earlier = outcomes.drop_last();
        let last = outcomes.last();
        lemma_sampled(earlier);
        let before = maxima(earlier);
        if last is Some {
            let sample = last->0.max_across_flashblocks;
            assert(maxima(outcomes) =~= before.push(sample));
            assert(before.push(sample).drop_last() =~= before);
            assert(contributes(sample) == offers_any(last)) by {
                if offers_any(last) {
                    assert(sample.at(ResourceKind::GasUsed) is Some || sample.at(
                        ResourceKind::ExecutionTime,
                    ) is Some || sample.at(ResourceKind::StateRootTime) is Some || sample.at(
                        ResourceKind::DataAvailability,
                    ) is Some);
                }
            }
        } else {
            assert(maxima(outcomes) =~= before);
        }
    }
}

/// With one cached block, the rolling fee of a resource is what the highest estimate of that
/// block recommends for it.
pub proof fn law_rolling_of_one_block<P: Fn(usize) -> usize>(
    cache: CacheModel,
    demand: ResourceDemand,
    rank: P,
    of_block: BlockPriorityEstimates,
    r: RollingPriorityEstimates,
    kind: ResourceKind,
)
    requires
        cache.valid(),
        cache.blocks.len() == 1,
        single_valued(rank),
        estimated(
            cache,
            Some(cache.blocks[0].block_number),
            demand,
            rank,
            Some(of_block),
        ),
        rolling_estimated(cache, demand, rank, Some(r)),
    ensures
        r.estimates.at(kind) is Some <==> of_block.max_across_flashblocks.at(kind) is Some,
        r.estimates.at(kind) is Some ==> r.estimates.at(kind)->0.recommended_priority_fee
            == of_block.max_across_flashblocks.at(kind)->0.recommended_priority_fee,
{
    let of_blocks = seq![Some(of_block)];
    law_rolling_of_blocks(cache, demand, rank, of_blocks, Some(r));
    law_rolling_median(of_blocks, r, kind);
    let pred = |o: Option<BlockPriorityEstimates>| offers(o, kind);
    if offers(Some(of_block), kind) {
        of_blocks.lemma_filter_contains(pred, 0);
        assert(of_blocks.filter(pred).contains(of_blocks[0]));
    } else {
        lemma_count_before(of_blocks, pred, 0);
    }
}

} // verus!
