use crate::bundle::{AcceptedBundle, BundleTransaction, TransactionResult};
use crate::sizing::{fjord_bytes, size_of, ENCODING_LIMIT};
use crate::streams::TxMeteringEvent;
use crate::transaction::MeteredTransaction;
use crate::u256::{of_u128, U256};
use vstd::prelude::*;

verus! {

/// What is to be done with an accepted bundle.
#[derive(Debug)]
pub enum MessageAction {
    /// Send the events on, in this order.
    Publish(Vec<TxMeteringEvent>),
    /// The bundle was not metered against a flashblock: there is nothing to send.
    SkipMissingFlashblockIndex,
    /// The transactions and the results do not match up: there is nothing to send.
    SkipLengthMismatch,
}

/// The fee by which a transaction is ordered: the tip, or the fee cap of a transaction
/// without one.
pub open spec fn fee_of(tx: BundleTransaction) -> U256 {
    match tx.max_priority_fee_per_gas {
        Some(fee) => of_u128(fee),
        None => of_u128(tx.max_fee_per_gas),
    }
}

/// What is recorded of a transaction that takes up `size` bytes, and its result. The time spent
/// on the state root is not known of a single transaction.
pub open spec fn metered_with_size(
    tx: BundleTransaction,
    result: TransactionResult,
    size: u64,
) -> MeteredTransaction {
    MeteredTransaction {
        tx_hash: tx.tx_hash,
        priority_fee_per_gas: fee_of(tx),
        gas_used: result.gas_used,
        execution_time_us: result.execution_time_us,
        state_root_time_us: 0,
        data_availability_bytes: size,
    }
}

/// What is recorded of a transaction and its result.
pub open spec fn metered(tx: BundleTransaction, result: TransactionResult) -> MeteredTransaction {
    metered_with_size(tx, result, size_of(tx.encoded@))
}

/// The events that a bundle gives rise to, one for each transaction, in their order.
pub open spec fn events_of(bundle: AcceptedBundle, flashblock_index: u64) -> Seq<TxMeteringEvent> {
    Seq::new(
        bundle.txs@.len(),
        |i: int|
            TxMeteringEvent {
                block_number: bundle.block_number,
                flashblock_index,
                transaction: metered(
                    bundle.txs@[i],
                    bundle.meter_bundle_response.results@[i],
                ),
            },
    )
}

/// Whether every transaction can be sized.
pub open spec fn within_limit(txs: Seq<BundleTransaction>) -> bool {
    forall|i: int| 0 <= i < txs.len() ==> (#[trigger] txs[i]).encoded@.len() < ENCODING_LIMIT
}

/// Returns the fee by which a transaction is ordered.
pub fn calculate_priority_fee(tx: &BundleTransaction) -> (r: U256)
    ensures
        r == fee_of(*tx),
{
    match tx.max_priority_fee_per_gas {
        Some(fee) => U256::from(fee),
        None => U256::from(tx.max_fee_per_gas),
    }
}

/// Returns what is recorded of a transaction that takes up `size` bytes, and its result.
pub fn meter_transaction(tx: &BundleTransaction, result: &TransactionResult, size: u64) -> (r:
    MeteredTransaction)
    ensures
        r == metered_with_size(*tx, *result, size),
{
    MeteredTransaction {
        tx_hash: tx.tx_hash,
        priority_fee_per_gas: calculate_priority_fee(tx),
        gas_used: result.gas_used,
        execution_time_us: result.execution_time_us,
        state_root_time_us: 0,
        data_availability_bytes: size,
    }
}

/// Turns a bundle into one event for each transaction. Returns `None` if there are not as
/// many results as transactions.
pub fn publish_transactions(bundle: &AcceptedBundle, flashblock_index: u64) -> (r: Option<
    Vec<TxMeteringEvent>,
>)
    requires
        within_limit(bundle.txs@),
    ensures
        match r {
            Some(events) => {
                &&& bundle.txs@.len() == bundle.meter_bundle_response.results@.len()
                &&& events@ == events_of(*bundle, flashblock_index)
            },
            None => bundle.txs@.len() != bundle.meter_bundle_response.results@.len(),
        },
{
    if bundle.txs.len() != bundle.meter_bundle_response.results.len() {
        return None;
    }
    let mut events: Vec<TxMeteringEvent> = Vec::new();
    let mut i: usize = 0;
    while i < bundle.txs.len()
        invariant
            i <= bundle.txs.len(),
            bundle.txs@.len() == bundle.meter_bundle_response.results@.len(),
            within_limit(bundle.txs@),
            events@ == events_of(*bundle, flashblock_index).take(i as int),
        decreases bundle.txs.len() - i,
    {
        let tx = &bundle.txs[i];
        let result = &bundle.meter_bundle_response.results[i];
        let size: u64 = fjord_bytes(&tx.encoded);
        events.push(
            TxMeteringEvent {
                block_number: bundle.block_number,
                flashblock_index,
                transaction: meter_transaction(tx, result, size),
            },
        );
        i += 1;
        assert(events@ =~= events_of(*bundle, flashblock_index).take(i as int));
    }
    assert(events@ =~= events_of(*bundle, flashblock_index));
    Some(events)
}

/// Whether `action` is what is to be done with an accepted bundle: its events are sent on, unless
/// it was not metered against a flashblock or its results do not match its transactions.
pub open spec fn decided(bundle: AcceptedBundle, action: MessageAction) -> bool {
    match bundle.meter_bundle_response.state_flashblock_index {
        None => action is SkipMissingFlashblockIndex,
        Some(index) => if bundle.txs@.len() == bundle.meter_bundle_response.results@.len() {
            action is Publish && action->Publish_0@ == events_of(bundle, index)
        } else {
            action is SkipLengthMismatch
        },
    }
}

/// Decides what is to be done with an accepted bundle.
pub fn handle_message(bundle: &AcceptedBundle) -> (action: MessageAction)
    requires
        within_limit(bundle.txs@),
    ensures
        decided(*bundle, action),
{
    match bundle.meter_bundle_response.state_flashblock_index {
        None => MessageAction::SkipMissingFlashblockIndex,
        Some(flashblock_index) => match publish_transactions(bundle, flashblock_index) {
            Some(events) => MessageAction::Publish(events),
            None => MessageAction::SkipLengthMismatch,
        },
    }
}

} // verus!
