use crate::u256::U256;
use vstd::prelude::*;

verus! {

/// A 32-byte transaction hash.
pub type TxHash = [u8; 32];

/// Resources that one executed transaction consumed, with the fee that it paid.
#[derive(Debug, Clone, Copy)]
pub struct MeteredTransaction {
    pub tx_hash: TxHash,
    pub priority_fee_per_gas: U256,
    pub gas_used: u64,
    pub execution_time_us: u128,
    pub state_root_time_us: u128,
    pub data_availability_bytes: u64,
}

impl MeteredTransaction {
    /// A transaction that consumed nothing and paid no priority fee.
    pub fn zeroed(tx_hash: TxHash) -> (r: Self)
        ensures
            r.tx_hash == tx_hash,
            r.priority_fee_per_gas@ == 0,
            r.gas_used == 0,
            r.execution_time_us == 0,
            r.state_root_time_us == 0,
            r.data_availability_bytes == 0,
    {
        Self {
            tx_hash,
            priority_fee_per_gas: U256::zero(),
            gas_used: 0,
            execution_time_us: 0,
            state_root_time_us: 0,
            data_availability_bytes: 0,
        }
    }
}

} // verus!
