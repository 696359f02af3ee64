use crate::bundle::{Address, TransactionResult};
use crate::decimal::{decimal, decimal_text, u256_decimal};
use crate::resource::at_most;
use crate::transaction::TxHash;
use crate::u256::{largest, U256};
use vstd::prelude::*;
use vstd::string::*;

verus! {

/// What was measured of one executed transaction of a bundle.
#[derive(Debug, Clone, Copy)]
pub struct SimulatedTransaction {
    pub tx_hash: TxHash,
    pub from_address: Address,
    pub to_address: Option<Address>,
    pub value: U256,
    pub gas_price: u128,
    pub gas_used: u64,
    pub execution_time_us: u128,
}

/// What the simulation of a bundle came to.
#[derive(Debug)]
pub struct BundleExecution {
    pub results: Vec<TransactionResult>,
    pub total_gas_used: u64,
    pub total_gas_fees: U256,
    pub bundle_hash: TxHash,
    pub total_execution_time_us: u128,
    pub state_root_time_us: u128,
}

/// What a transaction paid for its gas.
pub open spec fn gas_fees(tx: SimulatedTransaction) -> nat {
    (tx.gas_used * tx.gas_price) as nat
}

/// The gas that some transactions used together.
pub open spec fn sum_of_gas(txs: Seq<SimulatedTransaction>) -> nat
    decreases txs.len(),
{
    if txs.len() == 0 {
        0
    } else {
        sum_of_gas(txs.drop_last()) + txs.last().gas_used as nat
    }
}

/// What some transactions paid for their gas together.
pub open spec fn sum_of_fees(txs: Seq<SimulatedTransaction>) -> nat
    decreases txs.len(),
{
    if txs.len() == 0 {
        0
    } else {
        sum_of_fees(txs.drop_last()) + gas_fees(txs.last())
    }
}

/// Whether `result` reports `tx`. All that the coinbase gains from it are the gas fees.
pub open spec fn reports_transaction(
    result: TransactionResult,
    tx: SimulatedTransaction,
) -> bool {
    &&& result.coinbase_diff@ == decimal(gas_fees(tx))
    &&& result.eth_sent_to_coinbase@ == "0"@
    &&& result.from_address == tx.from_address
    &&& result.gas_fees@ == decimal(gas_fees(tx))
    &&& result.gas_price@ == decimal(tx.gas_price as nat)
    &&& result.gas_used == tx.gas_used
    &&& result.to_address == tx.to_address
    &&& result.tx_hash == tx.tx_hash
    &&& result.value@ == decimal(tx.value@)
    &&& result.execution_time_us == tx.execution_time_us
}

/// Reports one executed transaction.
pub fn transaction_result(tx: &SimulatedTransaction) -> (r: TransactionResult)
    ensures
        reports_transaction(r, *tx),
{
    let fees = U256::product(tx.gas_used, tx.gas_price);
    TransactionResult {
        coinbase_diff: u256_decimal(&fees),
        eth_sent_to_coinbase: "0".to_string(),
        from_address: tx.from_address,
        gas_fees: u256_decimal(&fees),
        gas_price: decimal_text(tx.gas_price),
        gas_used: tx.gas_used,
        to_address: tx.to_address,
        tx_hash: tx.tx_hash,
        value: u256_decimal(&tx.value),
        execution_time_us: tx.execution_time_us,
    }
}

/// Whether `r` is the execution of a bundle with these transactions: a result for each of them,
/// in their order, and the totals. A sum that does not fit stays at the largest number.
pub open spec fn executed(
    bundle_hash: TxHash,
    txs: Seq<SimulatedTransaction>,
    total_execution_time_us: u128,
    state_root_time_us: u128,
    r: BundleExecution,
) -> bool {
    &&& r.results@.len() == txs.len()
    &&& forall|i: int|
        #![trigger r.results@[i]]
        0 <= i < txs.len() ==> reports_transaction(r.results@[i], txs[i])
    &&& r.total_gas_used == at_most(sum_of_gas(txs), u64::MAX as nat)
    &&& r.total_gas_fees@ == at_most(sum_of_fees(txs), largest())
    &&& r.bundle_hash == bundle_hash
    &&& r.total_execution_time_us == total_execution_time_us
    &&& r.state_root_time_us == state_root_time_us
}

/// Reports the executed transactions of a bundle, in their order, and adds up the gas that they
/// used and what they paid for it. A sum that does not fit stays at the largest number.
pub fn bundle_execution(
    bundle_hash: TxHash,
    txs: &Vec<SimulatedTransaction>,
    total_execution_time_us: u128,
    state_root_time_us: u128,
) -> (r: BundleExecution)
    ensures
        executed(bundle_hash, txs@, total_execution_time_us, state_root_time_us, r),
{
    let mut results: Vec<TransactionResult> = Vec::new();
    let mut total_gas_used: u64 = 0;
    let mut total_gas_fees = U256::zero();
    let mut i: usize = 0;
    while i < txs.len()
        invariant
            i <= txs.len(),
            results@.len() == i,
            forall|k: int|
                #![trigger results@[k]]
                0 <= k < i ==> reports_transaction(results@[k], txs@[k]),
            total_gas_used == at_most(sum_of_gas(txs@.take(i as int)), u64::MAX as nat),
            total_gas_fees@ == at_most(sum_of_fees(txs@.take(i as int)), largest()),
        decreases txs.len() - i,
    {
        proof {
            assert(txs@.take(i + 1).drop_last() =~= txs@.take(i as int));
        }
        let tx = &txs[i];
        results.push(transaction_result(tx));
        total_gas_used = total_gas_used.saturating_add(tx.gas_used);
        total_gas_fees = total_gas_fees.saturating_add(U256::product(tx.gas_used, tx.gas_price));
        i += 1;
    }
    assert(txs@.take(i as int) =~= txs@);
    BundleExecution {
        results,
        total_gas_used,
        total_gas_fees,
        bundle_hash,
        total_execution_time_us,
        state_root_time_us,
    }
}

} // verus!
