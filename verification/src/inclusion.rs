use crate::transaction::{MeteredTransaction, TxHash};
use vstd::prelude::*;

verus! {

/// What the metering pipeline reads of a flashblock.
#[derive(Debug)]
pub struct Flashblock {
    pub block_number: u64,
    pub index: u64,
    /// The encoded transactions in the order in which they were included.
    pub transactions: Vec<Vec<u8>>,
}

/// Message received from the flashblocks websocket feed.
#[derive(Debug)]
pub struct FlashblockInclusion {
    pub block_number: u64,
    pub flashblock_index: u64,
    /// Tx hashes included in this flashblock in priority-fee order.
    pub ordered_tx_hashes: Vec<TxHash>,
}

/// The Keccak-256 hash of `data`.
pub uninterp spec fn keccak(data: Seq<u8>) -> Seq<u8>;

/// `alloy_primitives::keccak256`: a 32-byte hash that depends on the bytes alone.
#[verifier::external_body]
fn keccak_hash(data: &Vec<u8>) -> (r: TxHash)
    ensures
        r@ == keccak(data@),
{
    alloy_primitives::keccak256(data).0
}

/// Returns the inclusion message that names `ordered_tx_hashes`. Where there is no hash, there
/// is no message.
pub fn inclusion_of(block_number: u64, flashblock_index: u64, ordered_tx_hashes: Vec<TxHash>) -> (r:
    Option<FlashblockInclusion>)
    ensures
        r == (if ordered_tx_hashes@.len() == 0 {
            None
        } else {
            Some(FlashblockInclusion { block_number, flashblock_index, ordered_tx_hashes })
        }),
{
    if ordered_tx_hashes.len() == 0 {
        None
    } else {
        Some(FlashblockInclusion { block_number, flashblock_index, ordered_tx_hashes })
    }
}

/// Whether `r` is the inclusion message of a flashblock: the hashes of its transactions in their
/// order, and none where it has no transactions.
pub open spec fn names_all(flashblock: Flashblock, r: Option<FlashblockInclusion>) -> bool {
    &&& r is None <==> flashblock.transactions@.len() == 0
    &&& r is Some ==> {
        &&& r->0.block_number == flashblock.block_number
        &&& r->0.flashblock_index == flashblock.index
        &&& r->0.ordered_tx_hashes@.len() == flashblock.transactions@.len()
        &&& forall|i: int|
            0 <= i < flashblock.transactions@.len() ==> (
            #[trigger] r->0.ordered_tx_hashes@[i])@ == keccak(flashblock.transactions@[i]@)
    }
}

/// Returns the inclusion message of a flashblock: the hashes of its transactions in their
/// order. A flashblock without transactions has none.
pub fn flashblock_inclusion_from_flashblock(flashblock: &Flashblock) -> (r: Option<
    FlashblockInclusion,
>)
    ensures
        names_all(*flashblock, r),
{
    let mut ordered_tx_hashes: Vec<TxHash> = Vec::new();
    let mut i: usize = 0;
    while i < flashblock.transactions.len()
        invariant
            i <= flashblock.transactions@.len(),
            ordered_tx_hashes@.len() == i,
            forall|k: int|
                0 <= k < i ==> (#[trigger] ordered_tx_hashes@[k])@ == keccak(
                    flashblock.transactions@[k]@,
                ),
        decreases flashblock.transactions.len() - i,
    {
        ordered_tx_hashes.push(keccak_hash(&flashblock.transactions[i]));
        i += 1;
    }
    inclusion_of(flashblock.block_number, flashblock.index, ordered_tx_hashes)
}

/// The transactions that `hashes` name, in the order of `hashes`. A hash that `pool` does not
/// know names none, and a repeated hash names its transaction once.
pub open spec fn matched(
    pool: Map<TxHash, MeteredTransaction>,
    hashes: Seq<TxHash>,
) -> Seq<MeteredTransaction>
    decreases hashes.len(),
{
    if hashes.len() == 0 {
        Seq::empty()
    } else {
        let earlier = hashes.drop_last();
        let hash = hashes.last();
        if pool.contains_key(hash) && !earlier.contains(hash) {
            matched(pool, earlier).push(pool[hash])
        } else {
            matched(pool, earlier)
        }
    }
}

} // verus!
