use crate::block::sum_of_totals;
use crate::bundle::TransactionResult;
use crate::estimates::ResourceEstimates;
use crate::execution::{
    executed, sum_of_fees, sum_of_gas, BundleExecution, SimulatedTransaction,
};
use crate::flashblock::FlashblockModel;
use crate::resource::{
    at_most, limit, total_usage, usage, ResourceDemand, ResourceKind, ResourceTotals,
};
use crate::sizing::{estimated_size, flz_length, size_of, sizes_of, sum, total_size};
use crate::transaction::{MeteredTransaction, TxHash};
use crate::u256::largest;
use vstd::prelude::*;

verus! {

/// What `amount` gives for each of some items, added up.
pub open spec fn sum_by<A>(items: Seq<A>, amount: spec_fn(A) -> nat) -> nat
    decreases items.len(),
{
    if items.len() == 0 {
        0
    } else {
        sum_by(items.drop_last(), amount) + amount(items.last())
    }
}

proof fn lemma_sum_by_remove<A>(items: Seq<A>, i: int, amount: spec_fn(A) -> nat)
    requires
        0 <= i < items.len(),
    ensures
        sum_by(items.remove(i), amount) + amount(items[i]) == sum_by(items, amount),
    decreases items.len(),
{
    if i == items.len() - 1 {
        assert(items.remove(i) =~= items.drop_last());
    } else {
        lemma_sum_by_remove(items.drop_last(), i, amount);
        assert(items.remove(i).drop_last() =~= items.drop_last().remove(i));
    }
}

/// A sum does not depend on the order of the items.
pub proof fn law_sum_by_order<A>(a: Seq<A>, b: Seq<A>, amount: spec_fn(A) -> nat)
    requires
        a.to_multiset() == b.to_multiset(),
    ensures
        sum_by(a, amount) == sum_by(b, amount),
    decreases a.len(),
{
    broadcast use vstd::seq_lib::group_to_multiset_ensures;

    assert(a.len() == a.to_multiset().len() == b.len());
    if a.len() > 0 {
        let x = a.last();
        assert(a.contains(x));
        assert(b.to_multiset().count(x) > 0);
        assert(b.contains(x));
        let j = choose|j: int| 0 <= j < b.len() && b[j] == x;
        assert(a.remove(a.len() - 1) =~= a.drop_last());
        assert(a.drop_last().to_multiset() =~= b.remove(j).to_multiset());
        law_sum_by_order(a.drop_last(), b.remove(j), amount);
        lemma_sum_by_remove(b, j, amount);
    }
}

pub(crate) proof fn lemma_sum_by_concat<A>(a: Seq<A>, b: Seq<A>, amount: spec_fn(A) -> nat)
    ensures
        sum_by(a + b, amount) == sum_by(a, amount) + sum_by(b, amount),
    decreases b.len(),
{
    if b.len() == 0 {
        assert(a + b =~= a);
    } else {
        lemma_sum_by_concat(a, b.drop_last(), amount);
        assert((a + b).drop_last() =~= a + b.drop_last());
    }
}

/// The number of items that pass is a sum of ones.
pub(crate) proof fn lemma_filter_len_is_sum<A>(items: Seq<A>, pred: spec_fn(A) -> bool)
    ensures
        items.filter(pred).len() == sum_by(
            items,
            |x: A|
                if pred(x) {
                    1nat
                } else {
                    0nat
                },
        ),
    decreases items.len(),
{
    reveal(Seq::filter);
    if items.len() > 0 {
        lemma_filter_len_is_sum(items.drop_last(), pred);
    }
}

/// What a transaction consumed of each resource is what its fields say.
pub proof fn law_usage_by_field(tx: MeteredTransaction)
    ensures
        usage(tx, ResourceKind::GasUsed) == tx.gas_used,
        usage(tx, ResourceKind::ExecutionTime) == tx.execution_time_us,
        usage(tx, ResourceKind::StateRootTime) == tx.state_root_time_us,
        usage(tx, ResourceKind::DataAvailability) == tx.data_availability_bytes,
{
}

/// What is asked for of each resource is what the fields of a demand say.
pub proof fn law_demand_by_field(demand: ResourceDemand, gas: u64, time: u128, root: u128, da: u64)
    ensures
        demand.gas_used == Some(gas) <==> demand.of(ResourceKind::GasUsed) == Some(gas as u128),
        demand.execution_time_us == Some(time) <==> demand.of(ResourceKind::ExecutionTime) == Some(
            time,
        ),
        demand.state_root_time_us == Some(root) <==> demand.of(ResourceKind::StateRootTime) == Some(
            root,
        ),
        demand.data_availability_bytes == Some(da) <==> demand.of(ResourceKind::DataAvailability)
            == Some(da as u128),
        demand.gas_used is None <==> demand.of(ResourceKind::GasUsed) is None,
        demand.data_availability_bytes is None <==> demand.of(
            ResourceKind::DataAvailability,
        ) is None,
{
}

/// The estimate for each resource is what the field for it holds.
pub proof fn law_estimate_by_field(estimates: ResourceEstimates)
    ensures
        estimates.at(ResourceKind::GasUsed) == estimates.gas_used,
        estimates.at(ResourceKind::ExecutionTime) == estimates.execution_time,
        estimates.at(ResourceKind::StateRootTime) == estimates.state_root_time,
        estimates.at(ResourceKind::DataAvailability) == estimates.data_availability,
{
}

/// The total of each resource is what the field for it holds, and its limit is the largest
/// number that fits in the field.
pub proof fn law_total_by_field(totals: ResourceTotals)
    ensures
        totals.amount(ResourceKind::GasUsed) == totals.gas_used,
        totals.amount(ResourceKind::ExecutionTime) == totals.execution_time_us,
        totals.amount(ResourceKind::StateRootTime) == totals.state_root_time_us,
        totals.amount(ResourceKind::DataAvailability) == totals.data_availability_bytes,
        limit(ResourceKind::GasUsed) == u64::MAX,
        limit(ResourceKind::ExecutionTime) == u128::MAX,
        limit(ResourceKind::StateRootTime) == u128::MAX,
        limit(ResourceKind::DataAvailability) == u64::MAX,
{
}

/// A capped amount is the smaller of the amount and the cap.
pub proof fn law_cap(amount: nat, max: nat)
    ensures
        at_most(amount, max) <= amount,
        at_most(amount, max) <= max,
        at_most(amount, max) == amount || at_most(amount, max) == max,
{
}

/// What transactions consumed together is the sum of what each consumed: one more transaction
/// adds its usage, and where none is there, it is nothing.
pub proof fn law_usage_adds_up(
    txs: Seq<MeteredTransaction>,
    tx: MeteredTransaction,
    kind: ResourceKind,
)
    ensures
        total_usage(Seq::empty(), kind) == 0,
        total_usage(txs.push(tx), kind) == total_usage(txs, kind) + usage(tx, kind),
        total_usage(seq![tx] + txs, kind) == usage(tx, kind) + total_usage(txs, kind),
{
    assert(txs.push(tx).drop_last() =~= txs);
    let f = |t: MeteredTransaction| usage(t, kind);
    lemma_usage_is_sum(txs, kind);
    lemma_usage_is_sum(seq![tx] + txs, kind);
    lemma_sum_by_concat(seq![tx], txs, f);
    assert(seq![tx].drop_last() =~= Seq::empty());
    assert(sum_by(seq![tx].drop_last(), f) == 0);
    assert(sum_by(seq![tx], f) == usage(tx, kind));
}

pub(crate) proof fn lemma_usage_is_sum(txs: Seq<MeteredTransaction>, kind: ResourceKind)
    ensures
        total_usage(txs, kind) == sum_by(txs, |t: MeteredTransaction| usage(t, kind)),
    decreases txs.len(),
{
    if txs.len() > 0 {
        lemma_usage_is_sum(txs.drop_last(), kind);
    }
}

/// What transactions consumed together does not depend on their order.
pub proof fn law_usage_in_any_order(
    a: Seq<MeteredTransaction>,
    b: Seq<MeteredTransaction>,
    kind: ResourceKind,
)
    requires
        a.to_multiset() == b.to_multiset(),
    ensures
        total_usage(a, kind) == total_usage(b, kind),
{
    lemma_usage_is_sum(a, kind);
    lemma_usage_is_sum(b, kind);
    law_sum_by_order(a, b, |t: MeteredTransaction| usage(t, kind));
}

/// The usage of the transactions that pass is a sum over all of them.
pub(crate) proof fn lemma_filtered_usage(
    txs: Seq<MeteredTransaction>,
    pred: spec_fn(MeteredTransaction) -> bool,
    kind: ResourceKind,
)
    ensures
        total_usage(txs.filter(pred), kind) == sum_by(
            txs,
            |t: MeteredTransaction|
                if pred(t) {
                    usage(t, kind)
                } else {
                    0nat
                },
        ),
    decreases txs.len(),
{
    reveal(Seq::filter);
    if txs.len() > 0 {
        let earlier = txs.drop_last();
        lemma_filtered_usage(earlier, pred, kind);
        if pred(txs.last()) {
            assert(earlier.filter(pred).push(txs.last()).drop_last() =~= earlier.filter(pred));
        }
    }
}

/// One more flashblock adds its totals to the sum over the flashblocks, and where none is
/// there, the sum is nothing.
pub proof fn law_totals_add_up(
    flashblocks: Seq<FlashblockModel>,
    flashblock: FlashblockModel,
    kind: ResourceKind,
)
    ensures
        sum_of_totals(Seq::empty(), kind) == 0,
        sum_of_totals(flashblocks.push(flashblock), kind) == sum_of_totals(flashblocks, kind)
            + flashblock.totals.amount(kind),
{
    assert(flashblocks.push(flashblock).drop_last() =~= flashblocks);
}

/// One more transaction adds its size to what a bundle takes up, and the order of the
/// transactions does not matter.
pub proof fn law_sizes_add_up(encoded: Seq<Vec<u8>>, tx: Vec<u8>, other: Seq<Vec<u8>>)
    ensures
        total_size(encoded.push(tx)) == total_size(encoded) + estimated_size(flz_length(tx@)),
        encoded.to_multiset() == other.to_multiset() ==> total_size(encoded) == total_size(other),
{
    assert(sizes_of(encoded.push(tx)).drop_last() =~= sizes_of(encoded));
    if encoded.to_multiset() == other.to_multiset() {
        let f = |e: Vec<u8>| size_of(e@) as nat;
        lemma_size_is_sum(encoded);
        lemma_size_is_sum(other);
        law_sum_by_order(encoded, other, f);
    }
}

proof fn lemma_size_is_sum(encoded: Seq<Vec<u8>>)
    ensures
        total_size(encoded) == sum_by(encoded, |e: Vec<u8>| size_of(e@) as nat),
    decreases encoded.len(),
{
    if encoded.len() > 0 {
        lemma_size_is_sum(encoded.drop_last());
        assert(sizes_of(encoded).drop_last() =~= sizes_of(encoded.drop_last()));
    }
}

/// One more size adds to a sum of sizes, and their order does not matter.
pub proof fn law_sum_of_sizes(sizes: Seq<u64>, size: u64, other: Seq<u64>)
    ensures
        sum(Seq::empty()) == 0,
        sum(sizes.push(size)) == sum(sizes) + size,
        sizes.to_multiset() == other.to_multiset() ==> sum(sizes) == sum(other),
{
    assert(sizes.push(size).drop_last() =~= sizes);
    if sizes.to_multiset() == other.to_multiset() {
        lemma_sum_is_sum_by(sizes);
        lemma_sum_is_sum_by(other);
        law_sum_by_order(sizes, other, |s: u64| s as nat);
    }
}

proof fn lemma_sum_is_sum_by(sizes: Seq<u64>)
    ensures
        sum(sizes) == sum_by(sizes, |s: u64| s as nat),
    decreases sizes.len(),
{
    if sizes.len() > 0 {
        lemma_sum_is_sum_by(sizes.drop_last());
    }
}

proof fn lemma_gas_and_fees_are_sums(txs: Seq<SimulatedTransaction>)
    ensures
        sum_of_gas(txs) == sum_by(txs, |t: SimulatedTransaction| t.gas_used as nat),
        sum_of_fees(txs) == sum_by(
            txs,
            |t: SimulatedTransaction| (t.gas_used * t.gas_price) as nat,
        ),
    decreases txs.len(),
{
    if txs.len() > 0 {
        lemma_gas_and_fees_are_sums(txs.drop_last());
    }
}

/// The gas that a bundle used is the sum of what its results report, and what it paid is the sum
/// of gas times price over its transactions, each as long as it fits.
pub proof fn law_bundle_totals(
    bundle_hash: TxHash,
    txs: Seq<SimulatedTransaction>,
    time: u128,
    root: u128,
    r: BundleExecution,
)
    requires
        executed(bundle_hash, txs, time, root, r),
    ensures
        ({
            let gas = sum_by(r.results@, |x: TransactionResult| x.gas_used as nat);
            let fees = sum_by(txs, |t: SimulatedTransaction| (t.gas_used * t.gas_price) as nat);
            &&& gas <= u64::MAX ==> r.total_gas_used == gas
            &&& gas > u64::MAX ==> r.total_gas_used == u64::MAX
            &&& fees <= largest() ==> r.total_gas_fees@ == fees
            &&& fees > largest() ==> r.total_gas_fees@ == largest()
        }),
{
    lemma_gas_and_fees_are_sums(txs);
    lemma_results_gas(txs, r.results@);
}

proof fn lemma_results_gas(txs: Seq<SimulatedTransaction>, results: Seq<TransactionResult>)
    requires
        results.len() == txs.len(),
        forall|i: int|
            0 <= i < txs.len() ==> (#[trigger] results[i]).gas_used == txs[i].gas_used,
    ensures
        sum_by(results, |x: TransactionResult| x.gas_used as nat) == sum_by(
            txs,
            |t: SimulatedTransaction| t.gas_used as nat,
        ),
    decreases txs.len(),
{
    if txs.len() > 0 {
        let r = results.drop_last();
        let t = txs.drop_last();
        assert forall|i: int| 0 <= i < t.len() implies (#[trigger] r[i]).gas_used
            == t[i].gas_used by {
            assert(results[i].gas_used == txs[i].gas_used);
        }
        lemma_results_gas(t, r);
        let n = txs.len() - 1;
        assert(results[n].gas_used == txs[n].gas_used);
    }
}

/// A bundle with one more transaction at its end used the gas of that transaction more, paid its
/// gas times its price more, and reports it last, with the earlier results as they were.
pub proof fn law_longer_bundle(
    bundle_hash: TxHash,
    txs: Seq<SimulatedTransaction>,
    tx: SimulatedTransaction,
    time: u128,
    root: u128,
    r: BundleExecution,
    longer: BundleExecution,
)
    requires
        executed(bundle_hash, txs, time, root, r),
        executed(bundle_hash, txs.push(tx), time, root, longer),
    ensures
        r.total_gas_used + tx.gas_used <= u64::MAX ==> longer.total_gas_used == r.total_gas_used
            + tx.gas_used,
        r.total_gas_fees@ + tx.gas_used * tx.gas_price <= largest() ==> longer.total_gas_fees@
            == r.total_gas_fees@ + tx.gas_used * tx.gas_price,
        longer.results@.len() == r.results@.len() + 1,
        longer.results@.last().tx_hash == tx.tx_hash,
        longer.results@.last().gas_used == tx.gas_used,
        forall|i: int|
            0 <= i < r.results@.len() ==> {
                let a = #[trigger] longer.results@[i];
                let b = r.results@[i];
                &&& a.tx_hash == b.tx_hash
                &&& a.gas_used == b.gas_used
                &&& a.gas_fees@ == b.gas_fees@
                &&& a.gas_price@ == b.gas_price@
                &&& a.execution_time_us == b.execution_time_us
            },
{
    assert(txs.push(tx).drop_last() =~= txs);
    assert(longer.results@[txs.len() as int] == longer.results@.last());
    assert((tx.gas_used * tx.gas_price) >= 0) by (nonlinear_arith)
        requires
            tx.gas_used >= 0,
            tx.gas_price >= 0,
    ;
    assert forall|i: int| 0 <= i < r.results@.len() implies {
        let a = #[trigger] longer.results@[i];
        let b = r.results@[i];
        &&& a.tx_hash == b.tx_hash
        &&& a.gas_used == b.gas_used
        &&& a.gas_fees@ == b.gas_fees@
        &&& a.gas_price@ == b.gas_price@
        &&& a.execution_time_us == b.execution_time_us
    } by {
        assert(txs.push(tx)[i] == txs[i]);
        assert(r.results@[i] == r.results@[i]);
    }
}

/// The totals of a bundle do not depend on the order of its transactions.
pub proof fn law_bundle_totals_in_any_order(
    bundle_hash: TxHash,
    a: Seq<SimulatedTransaction>,
    b: Seq<SimulatedTransaction>,
    time: u128,
    root: u128,
    x: BundleExecution,
    y: BundleExecution,
)
    requires
        a.to_multiset() == b.to_multiset(),
        executed(bundle_hash, a, time, root, x),
        executed(bundle_hash, b, time, root, y),
    ensures
        x.total_gas_used == y.total_gas_used,
        x.total_gas_fees@ == y.total_gas_fees@,
{
    lemma_gas_and_fees_are_sums(a);
    lemma_gas_and_fees_are_sums(b);
    law_sum_by_order(a, b, |t: SimulatedTransaction| t.gas_used as nat);
    law_sum_by_order(a, b, |t: SimulatedTransaction| (t.gas_used * t.gas_price) as nat);
}

} // verus!
