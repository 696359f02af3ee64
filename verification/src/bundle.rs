use crate::transaction::TxHash;
use vstd::prelude::*;

verus! {

/// A 20-byte account address.
pub type Address = [u8; 20];

/// The outcome of one simulated transaction.
#[derive(Debug, Clone)]
pub struct TransactionResult {
    pub coinbase_diff: String,
    pub eth_sent_to_coinbase: String,
    pub from_address: Address,
    pub gas_fees: String,
    pub gas_price: String,
    pub gas_used: u64,
    pub to_address: Option<Address>,
    pub tx_hash: TxHash,
    pub value: String,
    pub execution_time_us: u128,
}

/// The outcome of a metered bundle.
#[derive(Debug, Clone)]
pub struct MeterBundleResponse {
    /// Average gas price.
    pub bundle_gas_price: String,
    /// Bundle identifier.
    pub bundle_hash: TxHash,
    /// Total gas fees paid.
    pub coinbase_diff: String,
    /// ETH sent directly to coinbase.
    pub eth_sent_to_coinbase: String,
    /// Total gas fees.
    pub gas_fees: String,
    /// Per-transaction results.
    pub results: Vec<TransactionResult>,
    /// Block number used for state.
    pub state_block_number: u64,
    /// Flashblock used for state, if any.
    pub state_flashblock_index: Option<u64>,
    /// Total gas consumed.
    pub total_gas_used: u64,
    /// Total execution time in microseconds.
    pub total_execution_time_us: u128,
    /// Time spent on the state root in microseconds.
    pub state_root_time_us: u128,
}

/// What metering reads of a signed transaction.
#[derive(Debug)]
pub struct BundleTransaction {
    pub tx_hash: TxHash,
    /// The typed encoding of the transaction.
    pub encoded: Vec<u8>,
    /// The tip that the sender offers; `None` for transactions of a type without one.
    pub max_priority_fee_per_gas: Option<u128>,
    pub max_fee_per_gas: u128,
}

/// A bundle that was accepted for inclusion, with the outcome of metering it.
#[derive(Debug)]
pub struct AcceptedBundle {
    pub block_number: u64,
    pub txs: Vec<BundleTransaction>,
    pub meter_bundle_response: MeterBundleResponse,
}

} // verus!
