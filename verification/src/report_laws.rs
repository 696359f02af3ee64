use crate::block::BlockModel;
use crate::bundle::{AcceptedBundle, MeterBundleResponse, TransactionResult};
use crate::cache::CacheModel;
use crate::decimal::decimal;
use crate::estimates::{law_present_kinds, BlockPriorityEstimates, ResourceEstimates};
use crate::estimator::block_priced;
use crate::estimator_laws::law_min_max;
use crate::execution::{
    executed, reports_transaction, BundleExecution, SimulatedTransaction,
};
use crate::kafka::{decided, events_of, MessageAction};
use crate::pricing_laws::lemma_any_populated;
use crate::resource::{ResourceDemand, ResourceKind};
use crate::rpc::{
    answers, average_gas_price, demand_of, fee_answer, follows, lemma_names_differ, quotes,
    quotes_all, reports, MeteredPriorityFeeResponse, MeteringError, MeteringReply, MeteringStage,
    MeteringStep, ResourceFeeEstimateResponse,
};
use crate::sizing::{estimated_size, flz_length};
use crate::text_laws::law_resource_names;
use crate::transaction::TxHash;
use crate::u256::law_from_keeps_value;
use vstd::prelude::*;

verus! {

/// Estimates are quoted one by one: a resource is quoted exactly where it has an estimate, and
/// its quote writes the fees and the usage of the estimate in decimal and repeats its counts.
pub proof fn law_quotes(
    estimates: ResourceEstimates,
    responses: Seq<ResourceFeeEstimateResponse>,
    kind: ResourceKind,
)
    requires
        quotes_all(estimates, responses),
    ensures
        estimates.at(kind) is Some <==> exists|j: int|
            0 <= j < responses.len() && (#[trigger] responses[j]).resource@ == kind.camel_case(),
        forall|j: int|
            0 <= j < responses.len() && (#[trigger] responses[j]).resource@ == kind.camel_case()
                ==> {
                let estimate = estimates.at(kind)->0;
                &&& responses[j].threshold_priority_fee@ == decimal(
                    estimate.threshold_priority_fee@,
                )
                &&& responses[j].recommended_priority_fee@ == decimal(
                    estimate.recommended_priority_fee@,
                )
                &&& responses[j].cumulative_usage@ == decimal(estimate.cumulative_usage as nat)
                &&& responses[j].supporting_transactions == estimate.supporting_transactions
                &&& responses[j].total_transactions == estimate.total_transactions
            },
{
    law_present_kinds(estimates);
    let present = estimates.present();
    if estimates.at(kind) is Some {
        assert(present.contains(kind));
        let j = choose|j: int| 0 <= j < present.len() && present[j] == kind;
        assert(quotes(present[j], estimates.at(present[j])->0, responses[j]));
        assert(responses[j].resource@ == kind.camel_case());
    }
    assert forall|j: int|
        0 <= j < responses.len() && (#[trigger] responses[j]).resource@
            == kind.camel_case() implies present[j] == kind && estimates.at(kind) is Some by {
        assert(quotes(present[j], estimates.at(present[j])->0, responses[j]));
        if present[j] != kind {
            lemma_names_differ(present[j], kind);
        }
        assert(present.contains(present[j]));
    }
}

/// Quotes come in a fixed order: gas first, then execution time, then the state root, and data
/// availability last.
pub proof fn law_quotes_in_order(
    estimates: ResourceEstimates,
    responses: Seq<ResourceFeeEstimateResponse>,
    i: int,
    j: int,
)
    requires
        quotes_all(estimates, responses),
        0 <= i < j < responses.len(),
    ensures
        responses[j].resource@ != "gasUsed"@,
        responses[i].resource@ != "dataAvailability"@,
        responses[i].resource@ == "stateRootTime"@ ==> responses[j].resource@
            == "dataAvailability"@,
        responses[j].resource@ == "executionTime"@ ==> responses[i].resource@ == "gasUsed"@,
{
    law_present_kinds(estimates);
    let present = estimates.present();
    assert(quotes(present[i], estimates.at(present[i])->0, responses[i]));
    assert(quotes(present[j], estimates.at(present[j])->0, responses[j]));
    assert(present[i].place() < present[j].place());
    law_resource_names(present[i]);
    law_resource_names(present[j]);
}

/// In every answer, a resource is quoted for the next block and for the next flashblock exactly
/// where some flashblock of the priced block has an estimate for it. What is recommended for the
/// next block is the lowest fee that any flashblock recommends, and for the next flashblock the
/// highest.
pub proof fn law_guidance<P: Fn(usize) -> usize>(
    block: BlockModel,
    demand: ResourceDemand,
    rank: P,
    meter_bundle: MeterBundleResponse,
    estimates: BlockPriorityEstimates,
    response: MeteredPriorityFeeResponse,
    kind: ResourceKind,
)
    requires
        block_priced(block, demand, rank, estimates),
        answers(meter_bundle, estimates, response),
    ensures
        ({
            let shown = estimates.flashblocks@;
            let priced_somewhere = exists|i: int|
                0 <= i < shown.len() && (#[trigger] shown[i]).estimates.at(kind) is Some;
            &&& priced_somewhere <==> exists|j: int|
                0 <= j < response.next_block@.len() && (
                #[trigger] response.next_block@[j]).resource@ == kind.camel_case()
            &&& priced_somewhere <==> exists|j: int|
                0 <= j < response.next_flashblock@.len() && (
                #[trigger] response.next_flashblock@[j]).resource@ == kind.camel_case()
            &&& forall|j: int|
                0 <= j < response.next_block@.len() && (
                #[trigger] response.next_block@[j]).resource@ == kind.camel_case() ==> exists|
                    i: int,
                |
                    {
                        &&& 0 <= i < shown.len()
                        &&& (#[trigger] shown[i]).estimates.at(kind) is Some
                        &&& response.next_block@[j].recommended_priority_fee@ == decimal(
                            shown[i].estimates.at(kind)->0.recommended_priority_fee@,
                        )
                        &&& forall|k: int|
                            0 <= k < shown.len() && (#[trigger] shown[k]).estimates.at(
                                kind,
                            ) is Some ==> shown[i].estimates.at(kind)->0.recommended_priority_fee@
                                <= shown[k].estimates.at(kind)->0.recommended_priority_fee@
                    }
            &&& forall|j: int|
                0 <= j < response.next_flashblock@.len() && (
                #[trigger] response.next_flashblock@[j]).resource@ == kind.camel_case() ==> exists|
                    i: int,
                |
                    {
                        &&& 0 <= i < shown.len()
                        &&& (#[trigger] shown[i]).estimates.at(kind) is Some
                        &&& response.next_flashblock@[j].recommended_priority_fee@ == decimal(
                            shown[i].estimates.at(kind)->0.recommended_priority_fee@,
                        )
                        &&& forall|k: int|
                            0 <= k < shown.len() && (#[trigger] shown[k]).estimates.at(
                                kind,
                            ) is Some ==> shown[k].estimates.at(kind)->0.recommended_priority_fee@
                                <= shown[i].estimates.at(kind)->0.recommended_priority_fee@
                    }
        }),
{
    let shown = estimates.flashblocks@;
    let lowest = estimates.min_across_flashblocks.at(kind);
    let highest = estimates.max_across_flashblocks.at(kind);
    law_min_max(shown, kind, lowest, highest);
    law_quotes(estimates.min_across_flashblocks, response.next_block@, kind);
    law_quotes(estimates.max_across_flashblocks, response.next_flashblock@, kind);
    if lowest is Some {
        let i = choose|i: int|
            {
                &&& 0 <= i < shown.len()
                &&& (#[trigger] shown[i]).estimates.at(kind) == lowest
                &&& forall|j: int|
                    0 <= j < i && (#[trigger] shown[j]).estimates.at(kind) is Some
                        ==> lowest->0.recommended_priority_fee@ < shown[j].estimates.at(
                        kind,
                    )->0.recommended_priority_fee@
            };
        assert(shown[i].estimates.at(kind) == lowest);
        let h = choose|i: int|
            {
                &&& 0 <= i < shown.len()
                &&& (#[trigger] shown[i]).estimates.at(kind) == highest
                &&& forall|j: int|
                    0 <= j < i && (#[trigger] shown[j]).estimates.at(kind) is Some
                        ==> highest->0.recommended_priority_fee@ > shown[j].estimates.at(
                        kind,
                    )->0.recommended_priority_fee@
            };
        assert(shown[h].estimates.at(kind) == highest);
    }
}

/// In every answer, the metered bundle is the one that was handed in, and each flashblock of the
/// priced block is quoted with its own estimates, in the order of the flashblocks.
pub proof fn law_flashblock_quotes(
    meter_bundle: MeterBundleResponse,
    estimates: BlockPriorityEstimates,
    response: MeteredPriorityFeeResponse,
    kind: ResourceKind,
    i: int,
)
    requires
        answers(meter_bundle, estimates, response),
        0 <= i < estimates.flashblocks@.len(),
    ensures
        response.meter_bundle == meter_bundle,
        response.flashblock_estimates@.len() == estimates.flashblocks@.len(),
        ({
            let shown = response.flashblock_estimates@[i];
            let own = estimates.flashblocks@[i];
            &&& shown.flashblock_index == own.flashblock_index
            &&& own.estimates.at(kind) is Some <==> exists|j: int|
                0 <= j < shown.estimates@.len() && (#[trigger] shown.estimates@[j]).resource@
                    == kind.camel_case()
            &&& forall|j: int|
                0 <= j < shown.estimates@.len() && (#[trigger] shown.estimates@[j]).resource@
                    == kind.camel_case() ==> {
                    let estimate = own.estimates.at(kind)->0;
                    &&& shown.estimates@[j].threshold_priority_fee@ == decimal(
                        estimate.threshold_priority_fee@,
                    )
                    &&& shown.estimates@[j].recommended_priority_fee@ == decimal(
                        estimate.recommended_priority_fee@,
                    )
                    &&& shown.estimates@[j].cumulative_usage@ == decimal(
                        estimate.cumulative_usage as nat,
                    )
                    &&& shown.estimates@[j].supporting_transactions
                        == estimate.supporting_transactions
                    &&& shown.estimates@[j].total_transactions == estimate.total_transactions
                }
        }),
{
    let shown = response.flashblock_estimates@[i];
    law_quotes(estimates.flashblocks@[i].estimates, shown.estimates@, kind);
}

/// A request for fees is answered from the block that came in last: with the failure of the
/// metering where it failed, with the lack of fee data where that block holds no transaction, and
/// otherwise with its estimates.
pub proof fn law_fee_answer<P: Fn(usize) -> usize>(
    cache: CacheModel,
    rank: P,
    metered: Result<(MeterBundleResponse, ResourceDemand), MeteringError>,
    r: Result<MeteredPriorityFeeResponse, MeteringError>,
)
    requires
        cache.valid(),
        fee_answer(cache, rank, metered, r),
    ensures
        metered is Err ==> r is Err && r->Err_0 == metered->Err_0,
        metered is Ok ==> {
            let priced = cache.blocks.len() > 0 && exists|k: u64| #[trigger]
                cache.blocks.last().flashblocks.contains_key(k)
                    && cache.blocks.last().flashblocks[k].transactions.len() > 0;
            &&& !priced ==> r is Err && r->Err_0 is FeeDataUnavailable
            &&& priced ==> r is Ok && exists|estimates: BlockPriorityEstimates|
                {
                    &&& #[trigger] block_priced(
                        cache.blocks.last(),
                        metered->Ok_0.1,
                        rank,
                        estimates,
                    )
                    &&& answers(metered->Ok_0.0, estimates, r->Ok_0)
                }
        },
{
    if metered is Ok && cache.blocks.len() > 0 {
        assert(cache.blocks[cache.blocks.len() - 1].valid());
        lemma_any_populated(cache.blocks.last());
    }
}

/// The average gas price is what was paid divided by the gas used, rounded down, and nothing
/// where no gas was used.
pub proof fn law_average_gas_price(fees: nat, gas: u64)
    ensures
        gas == 0 ==> average_gas_price(fees, gas) == 0,
        gas > 0 ==> average_gas_price(fees, gas) * gas <= fees,
        gas > 0 ==> fees < (average_gas_price(fees, gas) + 1) * gas,
{
    if gas > 0 {
        let d = gas as int;
        let q = average_gas_price(fees, gas) as int;
        vstd::arithmetic::div_mod::lemma_fundamental_div_mod(fees as int, d);
        vstd::arithmetic::div_mod::lemma_mod_bound(fees as int, d);
        assert(q * d == d * q) by (nonlinear_arith);
        assert((q + 1) * d == q * d + d) by (nonlinear_arith);
    }
}

/// What is reported of a metered bundle is what its simulation gave: fees and average price in
/// decimal, the results, the gas and the times, on the state of the block with the number.
pub proof fn law_report(
    response: MeterBundleResponse,
    execution: BundleExecution,
    state_block_number: u64,
    price: nat,
)
    requires
        reports(response, execution, state_block_number),
        execution.total_gas_used > 0 ==> price * execution.total_gas_used
            <= execution.total_gas_fees@ < (price + 1) * execution.total_gas_used,
        execution.total_gas_used == 0 ==> price == 0,
    ensures
        response.bundle_gas_price@ == decimal(price),
        response.coinbase_diff@ == decimal(execution.total_gas_fees@),
        response.gas_fees@ == decimal(execution.total_gas_fees@),
        response.eth_sent_to_coinbase@ == "0"@,
        response.bundle_hash == execution.bundle_hash,
        response.results == execution.results,
        response.state_block_number == state_block_number,
        response.state_flashblock_index is None,
        response.total_gas_used == execution.total_gas_used,
        response.total_execution_time_us == execution.total_execution_time_us,
        response.state_root_time_us == execution.state_root_time_us,
{
    let gas = execution.total_gas_used;
    let fees = execution.total_gas_fees@;
    law_average_gas_price(fees, gas);
    if gas > 0 {
        let q = average_gas_price(fees, gas);
        assert(q == price) by (nonlinear_arith)
            requires
                q * gas <= fees,
                fees < (q + 1) * gas,
                price * gas <= fees,
                fees < (price + 1) * gas,
                gas > 0,
        ;
    }
}

/// What a simulated bundle asks for is what it used: its gas, its execution time and the size of
/// its encoding; nothing is asked for of the state root.
pub proof fn law_demand_of_bundle(execution: BundleExecution, da_usage: u64)
    ensures
        demand_of(execution, da_usage).gas_used == Some(execution.total_gas_used),
        demand_of(execution, da_usage).execution_time_us == Some(
            execution.total_execution_time_us,
        ),
        demand_of(execution, da_usage).state_root_time_us is None,
        demand_of(execution, da_usage).data_availability_bytes == Some(da_usage),
{
}

/// What is reported of a transaction: what it paid is its gas times its price, all of which goes
/// to the coinbase.
pub proof fn law_transaction_report(result: TransactionResult, tx: SimulatedTransaction)
    requires
        reports_transaction(result, tx),
    ensures
        result.gas_fees@ == decimal((tx.gas_used * tx.gas_price) as nat),
        result.coinbase_diff@ == decimal((tx.gas_used * tx.gas_price) as nat),
        result.gas_price@ == decimal(tx.gas_price as nat),
        result.gas_used == tx.gas_used,
        result.tx_hash == tx.tx_hash,
        result.from_address == tx.from_address,
        result.to_address == tx.to_address,
        result.value@ == decimal(tx.value@),
        result.execution_time_us == tx.execution_time_us,
        result.eth_sent_to_coinbase@ == "0"@,
{
}

/// A bundle is reported with a result for each of its transactions, in their order, under its own
/// hash and with the times that were measured.
pub proof fn law_bundle_report(
    bundle_hash: TxHash,
    txs: Seq<SimulatedTransaction>,
    time: u128,
    root: u128,
    r: BundleExecution,
    i: int,
)
    requires
        executed(bundle_hash, txs, time, root, r),
        0 <= i < txs.len(),
    ensures
        r.bundle_hash == bundle_hash,
        r.total_execution_time_us == time,
        r.state_root_time_us == root,
        r.results@.len() == txs.len(),
        r.results@[i].tx_hash == txs[i].tx_hash,
        r.results@[i].from_address == txs[i].from_address,
        r.results@[i].to_address == txs[i].to_address,
        r.results@[i].gas_used == txs[i].gas_used,
        r.results@[i].execution_time_us == txs[i].execution_time_us,
        r.results@[i].gas_price@ == decimal(txs[i].gas_price as nat),
        r.results@[i].gas_fees@ == decimal((txs[i].gas_used * txs[i].gas_price) as nat),
        r.results@[i].value@ == decimal(txs[i].value@),
{
}

/// A reply that fails ends the metering with the error that belongs to its stage and carries its
/// text, and a missing header ends it too.
pub proof fn law_failed_reply(stage: MeteringStage, reply: MeteringReply, step: MeteringStep)
    requires
        follows(stage, reply, step),
    ensures
        reply matches MeteringReply::Header(Err(e)) ==> step == MeteringStep::Failed(
            MeteringError::HeaderLookup(e),
        ),
        reply matches MeteringReply::Header(Ok(None)) ==> step == MeteringStep::Failed(
            MeteringError::HeaderMissing,
        ),
        reply matches MeteringReply::Bundle(Err(e)) ==> step == MeteringStep::Failed(
            MeteringError::BundleParse(e),
        ),
        reply matches MeteringReply::State(Err(e)) ==> step == MeteringStep::Failed(
            MeteringError::StateProvider(e),
        ),
        reply matches MeteringReply::Execution(Err(e)) ==> step == MeteringStep::Failed(
            MeteringError::Metering(e),
        ),
{
}

/// An accepted bundle is sent on exactly where it was metered against a flashblock and has as many
/// results as transactions. It goes out as one event for each transaction, in their order, at the
/// place of the bundle and that flashblock.
pub proof fn law_message(bundle: AcceptedBundle, action: MessageAction)
    requires
        decided(bundle, action),
    ensures
        ({
            let metering = bundle.meter_bundle_response;
            &&& action is SkipMissingFlashblockIndex <==> metering.state_flashblock_index is None
            &&& action is Publish <==> metering.state_flashblock_index is Some
                && metering.results@.len() == bundle.txs@.len()
            &&& action is SkipLengthMismatch <==> metering.state_flashblock_index is Some
                && metering.results@.len() != bundle.txs@.len()
            &&& action is Publish ==> {
                let events = action->Publish_0@;
                &&& events.len() == bundle.txs@.len()
                &&& forall|i: int|
                    0 <= i < events.len() ==> {
                        &&& (#[trigger] events[i]).block_number == bundle.block_number
                        &&& Some(events[i].flashblock_index) == metering.state_flashblock_index
                        &&& events[i].transaction.tx_hash == bundle.txs@[i].tx_hash
                        &&& events[i].transaction.gas_used == metering.results@[i].gas_used
                        &&& events[i].transaction.execution_time_us
                            == metering.results@[i].execution_time_us
                    }
            }
        }),
{
}

/// The event for a transaction of an accepted bundle carries the place of the bundle, the hash and
/// the fee of the transaction, what its own result says it used, and the size of its encoding.
pub proof fn law_event(bundle: AcceptedBundle, flashblock_index: u64, i: int)
    requires
        0 <= i < bundle.txs@.len(),
    ensures
        events_of(bundle, flashblock_index).len() == bundle.txs@.len(),
        ({
            let event = events_of(bundle, flashblock_index)[i];
            let tx = bundle.txs@[i];
            let result = bundle.meter_bundle_response.results@[i];
            &&& event.block_number == bundle.block_number
            &&& event.flashblock_index == flashblock_index
            &&& event.transaction.tx_hash == tx.tx_hash
            &&& event.transaction.priority_fee_per_gas@ == (
            if tx.max_priority_fee_per_gas is Some {
                tx.max_priority_fee_per_gas->0
            } else {
                tx.max_fee_per_gas
            })
            &&& event.transaction.gas_used == result.gas_used
            &&& event.transaction.execution_time_us == result.execution_time_us
            &&& event.transaction.state_root_time_us == 0
            &&& event.transaction.data_availability_bytes == estimated_size(
                flz_length(tx.encoded@),
            )
        }),
{
    law_from_keeps_value(0, bundle.txs@[i].max_fee_per_gas);
    if bundle.txs@[i].max_priority_fee_per_gas is Some {
        law_from_keeps_value(0, bundle.txs@[i].max_priority_fee_per_gas->0);
    }
}

} // verus!
