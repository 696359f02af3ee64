use crate::annotator::recorded;
use crate::block::BlockModel;
use crate::cache::{exceeds_cap, CacheModel};
use crate::cache_laws::{
    law_cache_stays_valid, law_eviction, law_flashblock_count, law_recorded_is_found,
    law_recording_is_local, law_remove_then_find, law_upsert_keeps_order, lemma_blocks_after,
    lemma_place_is_valid,
};
use crate::flashblock::{has_hash, hash_index, lemma_hash_index, FlashblockModel};
use crate::order::{by_fee, lemma_by_fee, lemma_by_fee_is_stable, Priced};
use crate::transaction::{MeteredTransaction, TxHash};
use crate::u256::U256;
use vstd::prelude::*;

verus! {

/// Ordering transactions keeps every one of them, puts a lower priority fee before a higher one,
/// and leaves those that pay the same in their order.
pub proof fn law_sorted_transactions(txs: Seq<MeteredTransaction>, fee: nat)
    ensures
        by_fee(txs).len() == txs.len(),
        by_fee(txs).to_multiset() == txs.to_multiset(),
        forall|i: int, j: int|
            0 <= i < j < txs.len() ==> (#[trigger] by_fee(txs)[i]).priority_fee_per_gas@ <= (
            #[trigger] by_fee(txs)[j]).priority_fee_per_gas@,
        by_fee(txs).filter(|t: MeteredTransaction| t.priority_fee_per_gas@ == fee) == txs.filter(
            |t: MeteredTransaction| t.priority_fee_per_gas@ == fee,
        ),
{
    lemma_by_fee(txs);
    lemma_by_fee_is_stable(txs, fee);
    let by_trait = |t: MeteredTransaction| t.fee() == fee;
    let by_field = |t: MeteredTransaction| t.priority_fee_per_gas@ == fee;
    assert(by_trait =~= by_field);
    assert forall|i: int, j: int| 0 <= i < j < txs.len() implies (
    #[trigger] by_fee(txs)[i]).priority_fee_per_gas@ <= (
    #[trigger] by_fee(txs)[j]).priority_fee_per_gas@ by {
        assert(by_fee(txs)[i].fee() <= by_fee(txs)[j].fee());
    }
}

/// Ordering fees keeps every one of them and puts a lower one before a higher one.
pub proof fn law_sorted_fees(fees: Seq<U256>)
    ensures
        by_fee(fees).len() == fees.len(),
        by_fee(fees).to_multiset() == fees.to_multiset(),
        forall|i: int, j: int|
            0 <= i < j < fees.len() ==> (#[trigger] by_fee(fees)[i])@ <= (
            #[trigger] by_fee(fees)[j])@,
{
    lemma_by_fee(fees);
    assert forall|i: int, j: int| 0 <= i < j < fees.len() implies (#[trigger] by_fee(fees)[i])@ <= (
    #[trigger] by_fee(fees)[j])@ by {
        assert(by_fee(fees)[i].fee() <= by_fee(fees)[j].fee());
    }
}

/// A transaction is found under a hash exactly where it is in the flashblock and has that hash.
pub proof fn law_found_transaction(
    flashblock: FlashblockModel,
    hash: TxHash,
    tx: MeteredTransaction,
)
    requires
        flashblock.valid(),
    ensures
        flashblock.find(hash) == Some(tx) <==> flashblock.transactions.contains(tx) && tx.tx_hash
            == hash,
        flashblock.find(hash) is None <==> forall|i: int|
            0 <= i < flashblock.transactions.len() ==> (
            #[trigger] flashblock.transactions[i]).tx_hash != hash,
{
    let txs = flashblock.transactions;
    if has_hash(txs, hash) {
        let at = hash_index(txs, hash);
        assert(txs.contains(txs[at]));
    }
    if txs.contains(tx) && tx.tx_hash == hash {
        let i = choose|i: int| 0 <= i < txs.len() && txs[i] == tx;
        lemma_hash_index(txs, i);
    }
}

/// Filtering keeps all where all pass.
proof fn lemma_filter_all<A>(items: Seq<A>, pred: spec_fn(A) -> bool)
    requires
        forall|i: int| 0 <= i < items.len() ==> pred(#[trigger] items[i]),
    ensures
        items.filter(pred) == items,
    decreases items.len(),
{
    reveal(Seq::filter);
    if items.len() > 0 {
        lemma_filter_all(items.drop_last(), pred);
        assert(pred(items[items.len() - 1]));
        assert(items.drop_last().push(items.last()) =~= items);
    }
}

/// Where one item fails, filtering takes out that one.
proof fn lemma_filter_all_but<A>(items: Seq<A>, pred: spec_fn(A) -> bool, at: int)
    requires
        0 <= at < items.len(),
        forall|i: int| 0 <= i < items.len() ==> pred(#[trigger] items[i]) == (i != at),
    ensures
        items.filter(pred) == items.remove(at),
    decreases items.len(),
{
    reveal(Seq::filter);
    let earlier = items.drop_last();
    assert(pred(items[items.len() - 1]) == (items.len() - 1 != at));
    if at == items.len() - 1 {
        lemma_filter_all(earlier, pred);
        assert(items.remove(at) =~= earlier);
    } else {
        lemma_filter_all_but(earlier, pred, at);
        assert(items.remove(at) =~= earlier.remove(at).push(items.last()));
    }
}

/// Taking a transaction out leaves all transactions with another hash, in their order, and the
/// place of the flashblock.
pub proof fn law_removal_filters(flashblock: FlashblockModel, hash: TxHash)
    requires
        flashblock.valid(),
    ensures
        flashblock.remove(hash).transactions == flashblock.transactions.filter(
            |t: MeteredTransaction| t.tx_hash != hash,
        ),
        flashblock.remove(hash).block_number == flashblock.block_number,
        flashblock.remove(hash).flashblock_index == flashblock.flashblock_index,
{
    let txs = flashblock.transactions;
    let others = |t: MeteredTransaction| t.tx_hash != hash;
    if has_hash(txs, hash) {
        let at = hash_index(txs, hash);
        assert(txs[at].tx_hash == hash);
        assert forall|i: int| 0 <= i < txs.len() implies others(#[trigger] txs[i]) == (i != at) by {
            if txs[i].tx_hash == hash {
                lemma_hash_index(txs, i);
            }
        }
        lemma_filter_all_but(txs, others, at);
    } else {
        lemma_filter_all(txs, others);
    }
}

/// How the totals of a flashblock move, resource by resource: recording a transaction under a new
/// hash adds what it consumed, up to the largest number that fits; taking one out subtracts what
/// it consumed, down to nothing; a transaction that replaces another does the one after the other.
pub proof fn law_totals_move(
    flashblock: FlashblockModel,
    tx: MeteredTransaction,
    known: MeteredTransaction,
)
    requires
        flashblock.valid(),
    ensures
        ({
            let before = flashblock.totals;
            let fresh = flashblock.upsert(tx).totals;
            let gas = before.gas_used + tx.gas_used;
            let time = before.execution_time_us + tx.execution_time_us;
            let root = before.state_root_time_us + tx.state_root_time_us;
            let bytes = before.data_availability_bytes + tx.data_availability_bytes;
            flashblock.find(tx.tx_hash) is None ==> {
                &&& fresh.gas_used == (if gas <= u64::MAX {
                    gas
                } else {
                    u64::MAX as int
                })
                &&& fresh.execution_time_us == (if time <= u128::MAX {
                    time
                } else {
                    u128::MAX as int
                })
                &&& fresh.state_root_time_us == (if root <= u128::MAX {
                    root
                } else {
                    u128::MAX as int
                })
                &&& fresh.data_availability_bytes == (if bytes <= u64::MAX {
                    bytes
                } else {
                    u64::MAX as int
                })
            }
        }),
        ({
            let before = flashblock.totals;
            let less = flashblock.remove(known.tx_hash).totals;
            flashblock.find(known.tx_hash) == Some(known) ==> {
                &&& less.gas_used == (if before.gas_used < known.gas_used {
                    0
                } else {
                    before.gas_used - known.gas_used
                })
                &&& less.execution_time_us == (if before.execution_time_us
                    < known.execution_time_us {
                    0
                } else {
                    before.execution_time_us - known.execution_time_us
                })
                &&& less.state_root_time_us == (if before.state_root_time_us
                    < known.state_root_time_us {
                    0
                } else {
                    before.state_root_time_us - known.state_root_time_us
                })
                &&& less.data_availability_bytes == (if before.data_availability_bytes
                    < known.data_availability_bytes {
                    0
                } else {
                    before.data_availability_bytes - known.data_availability_bytes
                })
            }
        }),
        flashblock.upsert(tx).totals == flashblock.remove(tx.tx_hash).upsert(tx).totals,
        flashblock.upsert(tx).block_number == flashblock.block_number,
        flashblock.upsert(tx).flashblock_index == flashblock.flashblock_index,
{
    law_remove_then_find(flashblock, tx.tx_hash);
}

/// A block is found under a number exactly where it is among the blocks and has that number.
pub proof fn law_found_block(cache: CacheModel, block_number: u64, block: BlockModel)
    requires
        cache.valid(),
    ensures
        cache.find(block_number) == Some(block) <==> cache.blocks.contains(block)
            && block.block_number == block_number,
        cache.find(block_number) is None <==> forall|i: int|
            0 <= i < cache.blocks.len() ==> (#[trigger] cache.blocks[i]).block_number
                != block_number,
{
    if cache.has_block(block_number) {
        let at = cache.position(block_number);
        assert(cache.blocks[at].block_number == block_number);
        assert(cache.blocks.contains(cache.blocks[at]));
        if cache.blocks.contains(block) && block.block_number == block_number {
            let i = choose|i: int| 0 <= i < cache.blocks.len() && cache.blocks[i] == block;
            if i < at {
                assert(cache.blocks[i].block_number != cache.blocks[at].block_number);
            } else if at < i {
                assert(cache.blocks[at].block_number != cache.blocks[i].block_number);
            }
        }
    } else if cache.blocks.contains(block) && block.block_number == block_number {
        let i = choose|i: int| 0 <= i < cache.blocks.len() && cache.blocks[i] == block;
        assert(cache.blocks[i].block_number == block_number);
    }
}

/// A flashblock is found at a place exactly where a block with that number holds it at that
/// index.
pub proof fn law_found_flashblock(
    cache: CacheModel,
    block_number: u64,
    index: u64,
    flashblock: FlashblockModel,
)
    requires
        cache.valid(),
    ensures
        cache.find_flashblock(block_number, index) == Some(flashblock) <==> exists|i: int|
            {
                &&& 0 <= i < cache.blocks.len()
                &&& (#[trigger] cache.blocks[i]).block_number == block_number
                &&& cache.blocks[i].flashblocks.contains_key(index)
                &&& cache.blocks[i].flashblocks[index] == flashblock
            },
        cache.find_flashblock(block_number, index) is None <==> forall|i: int|
            0 <= i < cache.blocks.len() && (#[trigger] cache.blocks[i]).block_number
                == block_number ==> !cache.blocks[i].flashblocks.contains_key(index),
{
    assert forall|i: int|
        0 <= i < cache.blocks.len() && (#[trigger] cache.blocks[i]).block_number
            == block_number implies cache.find(block_number) == Some(cache.blocks[i]) by {
        assert(cache.blocks.contains(cache.blocks[i]));
        law_found_block(cache, block_number, cache.blocks[i]);
    }
    if cache.has_block(block_number) {
        let at = cache.position(block_number);
        assert(cache.blocks[at].block_number == block_number);
    }
}

/// A place where nothing was recorded yet starts without transactions and without usage.
pub proof fn law_new_flashblock(cache: CacheModel, block_number: u64, index: u64)
    requires
        cache.find_flashblock(block_number, index) is None,
    ensures
        ({
            let flashblock = cache.flashblock_or_new(block_number, index);
            &&& flashblock.block_number == block_number
            &&& flashblock.flashblock_index == index
            &&& flashblock.transactions.len() == 0
            &&& flashblock.totals.gas_used == 0
            &&& flashblock.totals.execution_time_us == 0
            &&& flashblock.totals.state_root_time_us == 0
            &&& flashblock.totals.data_availability_bytes == 0
        }),
{
}

/// A block that is asked for a flashblock hands out the one that it holds at that index, and one
/// without transactions and without usage where it holds none.
pub proof fn law_flashblock_of_block(block: BlockModel, index: u64)
    ensures
        ({
            let flashblock = block.flashblock_or_new(index);
            &&& block.flashblocks.contains_key(index) ==> flashblock == block.flashblocks[index]
            &&& !block.flashblocks.contains_key(index) ==> {
                &&& flashblock.block_number == block.block_number
                &&& flashblock.flashblock_index == index
                &&& flashblock.transactions.len() == 0
                &&& flashblock.totals.gas_used == 0
                &&& flashblock.totals.execution_time_us == 0
                &&& flashblock.totals.state_root_time_us == 0
                &&& flashblock.totals.data_availability_bytes == 0
            }
        }),
        BlockModel::empty(index).block_number == index,
        BlockModel::empty(index).flashblocks.len() == 0,
        BlockModel::empty(index).totals.gas_used == 0,
        BlockModel::empty(index).totals.execution_time_us == 0,
        BlockModel::empty(index).totals.state_root_time_us == 0,
        BlockModel::empty(index).totals.data_availability_bytes == 0,
{
}

/// Recording a transaction goes beyond the number of flashblocks expected of a block exactly where
/// it puts in a new flashblock and the block had that many already. The limits of the cache stay.
pub proof fn law_cap_is_exceeded(
    cache: CacheModel,
    block_number: u64,
    index: u64,
    tx: MeteredTransaction,
    at: int,
)
    requires
        cache.valid(),
        0 < cache.max_blocks,
        0 <= at < cache.blocks.len(),
        cache.blocks[at].block_number == block_number,
    ensures
        exceeds_cap(cache, cache.upsert(block_number, index, tx), block_number, index) <==> {
            &&& !cache.blocks[at].flashblocks.contains_key(index)
            &&& cache.blocks[at].flashblocks.len() >= cache.flashblock_cap
        },
        cache.upsert(block_number, index, tx).flashblock_cap == cache.flashblock_cap,
        cache.upsert(block_number, index, tx).max_blocks == cache.max_blocks,
{
    assert(cache.blocks.contains(cache.blocks[at]));
    law_found_block(cache, block_number, cache.blocks[at]);
    law_flashblock_count(cache, block_number, index, tx);
}

/// The first flashblock of a block goes beyond the number expected only where none is expected.
pub proof fn law_cap_of_new_block(
    cache: CacheModel,
    block_number: u64,
    index: u64,
    tx: MeteredTransaction,
)
    requires
        cache.valid(),
        0 < cache.max_blocks,
        forall|i: int|
            0 <= i < cache.blocks.len() ==> (#[trigger] cache.blocks[i]).block_number
                != block_number,
    ensures
        exceeds_cap(cache, cache.upsert(block_number, index, tx), block_number, index)
            <==> cache.flashblock_cap == 0,
{
    law_flashblock_count(cache, block_number, index, tx);
}

/// Where nothing came in, nothing has gone beyond what is expected.
pub proof fn law_cap_holds_without_change(cache: CacheModel, block_number: u64, index: u64)
    ensures
        !exceeds_cap(cache, cache, block_number, index),
{
}

/// Taking a transaction out moves no block that is there. Asking for a block that is not there
/// brings it in as the newest, and the oldest makes way where there was no room.
pub proof fn law_removal_keeps_blocks(
    cache: CacheModel,
    block_number: u64,
    index: u64,
    hash: TxHash,
)
    requires
        cache.valid(),
        0 < cache.max_blocks,
    ensures
        ({
            let after = cache.remove(block_number, index, hash);
            let known = exists|i: int|
                0 <= i < cache.blocks.len() && (#[trigger] cache.blocks[i]).block_number
                    == block_number;
            &&& after.max_blocks == cache.max_blocks
            &&& after.flashblock_cap == cache.flashblock_cap
            &&& known ==> {
                &&& after.blocks.len() == cache.blocks.len()
                &&& forall|k: int|
                    0 <= k < after.blocks.len() ==> (#[trigger] after.blocks[k]).block_number
                        == cache.blocks[k].block_number
            }
            &&& !known ==> {
                &&& after.blocks.last().block_number == block_number
                &&& after.blocks.drop_last() == (if cache.blocks.len() == cache.max_blocks {
                    cache.blocks.drop_first()
                } else {
                    cache.blocks
                })
            }
        }),
{
    let flashblock = cache.flashblock_or_new(block_number, index).remove(hash);
    lemma_blocks_after(cache, block_number, index, flashblock);
}

/// Transactions with new hashes that are recorded one after the other stand behind those that
/// were there, in the order in which they came, and the other flashblocks of the block are as
/// they were.
pub proof fn law_recorded_in_order(
    cache: CacheModel,
    block_number: u64,
    index: u64,
    txs: Seq<MeteredTransaction>,
)
    requires
        cache.valid(),
        0 < cache.max_blocks,
        forall|i: int, j: int|
            0 <= i < j < txs.len() ==> (#[trigger] txs[i]).tx_hash != (#[trigger] txs[j]).tx_hash,
        forall|i: int, j: int|
            0 <= i < txs.len() && 0 <= j < cache.flashblock_or_new(
                block_number,
                index,
            ).transactions.len() ==> (#[trigger] txs[i]).tx_hash != (
            #[trigger] cache.flashblock_or_new(block_number, index).transactions[j]).tx_hash,
    ensures
        ({
            let after = recorded(cache, block_number, index, txs);
            &&& after.valid()
            &&& after.max_blocks == cache.max_blocks
            &&& after.flashblock_or_new(block_number, index).transactions
                == cache.flashblock_or_new(block_number, index).transactions + txs
            &&& txs.len() == 0 ==> after == cache
            &&& txs.len() > 0 ==> after.find_flashblock(block_number, index) is Some
            &&& forall|other: u64|
                other != index ==> #[trigger] after.find_flashblock(block_number, other)
                    == cache.find_flashblock(block_number, other)
        }),
    decreases txs.len(),
{
    let old_txs = cache.flashblock_or_new(block_number, index).transactions;
    if txs.len() == 0 {
        assert(old_txs + txs =~= old_txs);
    } else {
        let earlier = txs.drop_last();
        let last = txs.last();
        assert forall|i: int, j: int| 0 <= i < j < earlier.len() implies (
        #[trigger] earlier[i]).tx_hash != (#[trigger] earlier[j]).tx_hash by {
            assert(txs[i].tx_hash != txs[j].tx_hash);
        }
        assert forall|i: int, j: int|
            0 <= i < earlier.len() && 0 <= j < old_txs.len() implies (
        #[trigger] earlier[i]).tx_hash != (#[trigger] old_txs[j]).tx_hash by {
            assert(txs[i].tx_hash != old_txs[j].tx_hash);
        }
        law_recorded_in_order(cache, block_number, index, earlier);
        let before = recorded(cache, block_number, index, earlier);
        let flashblock = before.flashblock_or_new(block_number, index);
        law_cache_stays_valid(before, block_number, index, last, last.tx_hash);
        law_recorded_is_found(before, block_number, index, last);
        law_recording_is_local(before, block_number, index, last);
        law_eviction(before, block_number, index, last);
        lemma_place_is_valid(before, block_number, index);
        law_upsert_keeps_order(flashblock, last);
        assert(!has_hash(flashblock.transactions, last.tx_hash)) by {
            if has_hash(flashblock.transactions, last.tx_hash) {
                let p = hash_index(flashblock.transactions, last.tx_hash);
                assert(flashblock.transactions[p].tx_hash == last.tx_hash);
                assert(txs[txs.len() - 1] == last);
                if p < old_txs.len() {
                    assert(old_txs[p].tx_hash == last.tx_hash);
                } else {
                    assert(txs[p - old_txs.len()].tx_hash == last.tx_hash);
                }
            }
        }
        assert(flashblock.upsert(last).transactions =~= old_txs + txs);
        assert forall|other: u64| other != index implies #[trigger] recorded(
            cache,
            block_number,
            index,
            txs,
        ).find_flashblock(block_number, other) == cache.find_flashblock(block_number, other) by {
            assert(before.find_flashblock(block_number, other) == cache.find_flashblock(
                block_number,
                other,
            ));
        }
    }
}

} // verus!
