use crate::block::{law_ordered_lists_all, sum_of_totals, BlockModel};
use crate::cache::{distinct_numbers, lemma_set_block, lemma_with_block, CacheModel};
use crate::flashblock::{
    has_hash, hash_index, lemma_hash_index, lemma_upserted_distinct, without, FlashblockModel,
};
use crate::resource::{
    at_most, lemma_plus_minus_amounts, lemma_totals_by_amount, limit, total_usage, usage,
    ResourceKind,
};
use crate::transaction::{MeteredTransaction, TxHash};
use vstd::prelude::*;

verus! {

/// A transaction that was recorded is found under its hash, and every other hash leads where
/// it led before.
pub proof fn law_upsert_then_find(flashblock: FlashblockModel, tx: MeteredTransaction)
    requires
        flashblock.valid(),
    ensures
        flashblock.upsert(tx).find(tx.tx_hash) == Some(tx),
        forall|other: TxHash|
            other != tx.tx_hash ==> #[trigger] flashblock.upsert(tx).find(other)
                == flashblock.find(other),
{
    let before = flashblock.transactions;
    let after = flashblock.upsert(tx).transactions;
    lemma_upserted_distinct(before, tx);
    let at = if has_hash(before, tx.tx_hash) {
        hash_index(before, tx.tx_hash)
    } else {
        before.len() as int
    };
    assert(after[at] == tx);
    lemma_hash_index(after, at);
    assert forall|other: TxHash| other != tx.tx_hash implies #[trigger] flashblock.upsert(tx).find(
        other,
    ) == flashblock.find(other) by {
        if has_hash(before, other) {
            let i = hash_index(before, other);
            assert(after[i] == before[i]);
            lemma_hash_index(after, i);
        } else if has_hash(after, other) {
            let i = hash_index(after, other);
            assert(before[i].tx_hash == other);
        }
    }
}

/// A transaction with a known hash replaces the one that has it and moves nothing; one with a
/// new hash goes last.
pub proof fn law_upsert_keeps_order(flashblock: FlashblockModel, tx: MeteredTransaction)
    requires
        flashblock.valid(),
    ensures
        ({
            let before = flashblock.transactions;
            let after = flashblock.upsert(tx).transactions;
            &&& forall|i: int|
                0 <= i < before.len() ==> (#[trigger] after[i]) == (if before[i].tx_hash
                    == tx.tx_hash {
                    tx
                } else {
                    before[i]
                })
            &&& after.len() == before.len() + (if has_hash(before, tx.tx_hash) {
                0int
            } else {
                1int
            })
            &&& !has_hash(before, tx.tx_hash) ==> after.last() == tx
        }),
{
    let before = flashblock.transactions;
    let after = flashblock.upsert(tx).transactions;
    lemma_upserted_distinct(before, tx);
    assert forall|i: int| 0 <= i < before.len() implies (#[trigger] after[i]) == (
    if before[i].tx_hash == tx.tx_hash {
        tx
    } else {
        before[i]
    }) by {
        if before[i].tx_hash == tx.tx_hash {
            lemma_hash_index(before, i);
        }
    }
}

/// The position before the item at `at` was taken out of what stands at `i` after it.
spec fn shifted(i: int, at: int) -> int {
    if i < at {
        i
    } else {
        i + 1
    }
}

/// A transaction that was taken out is not found any more, and every other hash leads where
/// it led before.
pub proof fn law_remove_then_find(flashblock: FlashblockModel, hash: TxHash)
    requires
        flashblock.valid(),
    ensures
        flashblock.remove(hash).find(hash) is None,
        forall|other: TxHash|
            other != hash ==> #[trigger] flashblock.remove(hash).find(other) == flashblock.find(
                other,
            ),
{
    let before = flashblock.transactions;
    let after = flashblock.remove(hash).transactions;
    if has_hash(before, hash) {
        let at = hash_index(before, hash);
        assert(before[at].tx_hash == hash);
        law_flashblock_stays_valid(flashblock, before[at], hash);
        if has_hash(after, hash) {
            let i = hash_index(after, hash);
            let p = shifted(i, at);
            assert(after[i] == before[p]);
            lemma_hash_index(before, p);
        }
        assert forall|other: TxHash| other != hash implies #[trigger] flashblock.remove(hash).find(
            other,
        ) == flashblock.find(other) by {
            if has_hash(before, other) {
                let p = hash_index(before, other);
                assert(before[p].tx_hash == other);
                let i = if p < at {
                    p
                } else {
                    p - 1
                };
                assert(after[i] == before[p]);
                lemma_hash_index(after, i);
            } else if has_hash(after, other) {
                let i = hash_index(after, other);
                let p = shifted(i, at);
                assert(after[i] == before[p]);
            }
        }
    }
}

/// What was recorded or taken out leaves a valid flashblock valid.
pub proof fn law_flashblock_stays_valid(
    flashblock: FlashblockModel,
    tx: MeteredTransaction,
    hash: TxHash,
)
    requires
        flashblock.valid(),
    ensures
        flashblock.upsert(tx).valid(),
        flashblock.remove(hash).valid(),
{
    lemma_upserted_distinct(flashblock.transactions, tx);
}

proof fn lemma_total_push(txs: Seq<MeteredTransaction>, tx: MeteredTransaction, kind: ResourceKind)
    ensures
        total_usage(txs.push(tx), kind) == total_usage(txs, kind) + usage(tx, kind),
{
    assert(txs.push(tx).drop_last() =~= txs);
}

proof fn lemma_total_update(
    txs: Seq<MeteredTransaction>,
    i: int,
    tx: MeteredTransaction,
    kind: ResourceKind,
)
    requires
        0 <= i < txs.len(),
    ensures
        total_usage(txs.update(i, tx), kind) + usage(txs[i], kind) == total_usage(txs, kind)
            + usage(tx, kind),
        usage(txs[i], kind) <= total_usage(txs, kind),
    decreases txs.len(),
{
    if i == txs.len() - 1 {
        assert(txs.update(i, tx).drop_last() =~= txs.drop_last());
    } else {
        lemma_total_update(txs.drop_last(), i, tx, kind);
        assert(txs.update(i, tx).drop_last() =~= txs.drop_last().update(i, tx));
    }
}

proof fn lemma_total_remove(txs: Seq<MeteredTransaction>, i: int, kind: ResourceKind)
    requires
        0 <= i < txs.len(),
    ensures
        total_usage(txs.remove(i), kind) + usage(txs[i], kind) == total_usage(txs, kind),
    decreases txs.len(),
{
    if i == txs.len() - 1 {
        assert(txs.remove(i) =~= txs.drop_last());
    } else {
        lemma_total_remove(txs.drop_last(), i, kind);
        assert(txs.remove(i).drop_last() =~= txs.drop_last().remove(i));
    }
}

/// A flashblock without transactions has exact totals.
pub proof fn law_empty_is_exact(block_number: u64, flashblock_index: u64)
    ensures
        FlashblockModel::empty(block_number, flashblock_index).exact(),
{
}

/// Totals that are exact stay exact when a transaction is recorded, as long as the new sums
/// are within their limits.
pub proof fn law_upsert_keeps_exact(flashblock: FlashblockModel, tx: MeteredTransaction)
    requires
        flashblock.exact(),
        forall|kind: ResourceKind| #[trigger]
            total_usage(flashblock.upsert(tx).transactions, kind) <= limit(kind),
    ensures
        flashblock.upsert(tx).exact(),
{
    let txs = flashblock.transactions;
    assert forall|kind: ResourceKind| #[trigger]
        flashblock.upsert(tx).totals.amount(kind) == total_usage(
            flashblock.upsert(tx).transactions,
            kind,
        ) by {
        assert(flashblock.totals.amount(kind) == total_usage(txs, kind));
        if has_hash(txs, tx.tx_hash) {
            let i = hash_index(txs, tx.tx_hash);
            lemma_total_update(txs, i, tx, kind);
            lemma_plus_minus_amounts(flashblock.totals, txs[i], kind);
            lemma_plus_minus_amounts(flashblock.totals.minus(txs[i]), tx, kind);
        } else {
            lemma_total_push(txs, tx, kind);
            lemma_plus_minus_amounts(flashblock.totals, tx, kind);
        }
        assert(total_usage(flashblock.upsert(tx).transactions, kind) <= limit(kind));
    }
}

/// Totals that are exact stay exact when a transaction is taken out.
pub proof fn law_remove_keeps_exact(flashblock: FlashblockModel, hash: TxHash)
    requires
        flashblock.exact(),
    ensures
        flashblock.remove(hash).exact(),
{
    let txs = flashblock.transactions;
    assert forall|kind: ResourceKind| #[trigger]
        flashblock.remove(hash).totals.amount(kind) == total_usage(without(txs, hash), kind) by {
        assert(flashblock.totals.amount(kind) == total_usage(txs, kind));
        if has_hash(txs, hash) {
            let i = hash_index(txs, hash);
            lemma_total_remove(txs, i, kind);
            lemma_plus_minus_amounts(flashblock.totals, txs[i], kind);
        }
    }
}

/// Taking out a transaction that was recorded under a new hash brings back what was there
/// before, as long as no total has run into its limit.
pub proof fn law_remove_undoes_upsert(flashblock: FlashblockModel, tx: MeteredTransaction)
    requires
        flashblock.valid(),
        !has_hash(flashblock.transactions, tx.tx_hash),
        forall|kind: ResourceKind| #[trigger]
            flashblock.totals.amount(kind) + usage(tx, kind) <= limit(kind),
    ensures
        flashblock.upsert(tx).remove(tx.tx_hash) == flashblock,
{
    let before = flashblock.transactions;
    let added = flashblock.upsert(tx);
    let back = added.remove(tx.tx_hash);
    lemma_upserted_distinct(before, tx);
    assert(added.transactions[before.len() as int] == tx);
    lemma_hash_index(added.transactions, before.len() as int);
    assert(back.transactions =~= before);
    assert forall|kind: ResourceKind| #[trigger]
        back.totals.amount(kind) == flashblock.totals.amount(kind) by {
        assert(flashblock.totals.amount(kind) + usage(tx, kind) <= limit(kind));
        lemma_plus_minus_amounts(flashblock.totals, tx, kind);
        lemma_plus_minus_amounts(added.totals, tx, kind);
    }
    lemma_totals_by_amount(back.totals, flashblock.totals);
}

/// Putting a flashblock at a place makes it the one found there. Every other flashblock of the
/// block stays, and so does every other block that is not evicted.
proof fn lemma_set_flashblock(
    cache: CacheModel,
    block_number: u64,
    index: u64,
    flashblock: FlashblockModel,
)
    requires
        distinct_numbers(cache.blocks),
        cache.max_blocks > 0,
    ensures
        ({
            let after = cache.set_flashblock(block_number, index, flashblock);
            &&& distinct_numbers(after.blocks)
            &&& after.find_flashblock(block_number, index) == Some(flashblock)
            &&& forall|other: u64|
                other != index ==> #[trigger] after.find_flashblock(block_number, other)
                    == cache.find_flashblock(block_number, other)
            &&& forall|other: u64|
                other != block_number ==> #[trigger] after.find(other) == cache.with_block(
                    block_number,
                ).find(other)
        }),
{
    let ready = cache.with_block(block_number);
    lemma_with_block(cache, block_number);
    let block = ready.blocks[ready.position(block_number)];
    let changed = block.with_flashblock(index, flashblock).recomputed();
    lemma_set_block(ready, block_number, changed);
    let after = cache.set_flashblock(block_number, index, flashblock);
    assert(after.find(block_number) == Some(changed));
    assert forall|other: u64| other != index implies #[trigger] after.find_flashblock(
        block_number,
        other,
    ) == cache.find_flashblock(block_number, other) by {
        assert(changed.flashblocks == block.flashblocks.insert(index, flashblock));
    }
}

/// How the blocks stand after a flashblock has been put at a place. Where the block was there
/// or there was room, no block has gone; otherwise the oldest one has made way.
pub(crate) proof fn lemma_blocks_after(
    cache: CacheModel,
    block_number: u64,
    index: u64,
    flashblock: FlashblockModel,
)
    requires
        cache.valid(),
        0 < cache.max_blocks,
    ensures
        ({
            let after = cache.set_flashblock(block_number, index, flashblock);
            let full = cache.blocks.len() == cache.max_blocks;
            &&& after.max_blocks == cache.max_blocks
            &&& after.blocks.len() <= after.max_blocks
            &&& cache.has_block(block_number) ==> {
                &&& after.blocks.len() == cache.blocks.len()
                &&& forall|k: int|
                    0 <= k < after.blocks.len() ==> (#[trigger] after.blocks[k]).block_number
                        == cache.blocks[k].block_number
            }
            &&& !cache.has_block(block_number) ==> {
                &&& after.blocks.last().block_number == block_number
                &&& after.blocks.drop_last() == (if full {
                    cache.blocks.drop_first()
                } else {
                    cache.blocks
                })
            }
        }),
{
    let ready = cache.with_block(block_number);
    lemma_with_block(cache, block_number);
    let at = ready.position(block_number);
    assert(0 <= at < ready.blocks.len() && ready.blocks[at].block_number == block_number);
    let after = cache.set_flashblock(block_number, index, flashblock);
    assert forall|k: int| 0 <= k < ready.blocks.len() && k != at implies (
    #[trigger] ready.blocks[k]).block_number != block_number by {
        if k < at {
            assert(ready.blocks[k].block_number != ready.blocks[at].block_number);
        } else {
            assert(ready.blocks[at].block_number != ready.blocks[k].block_number);
        }
    }
    if !cache.has_block(block_number) {
        let newest = ready.blocks.len() - 1;
        assert(ready.blocks[newest].block_number == block_number);
        assert(at == newest);
        let pushed = cache.blocks.push(BlockModel::empty(block_number));
        if cache.blocks.len() == cache.max_blocks {
            assert(ready.blocks =~= pushed.skip(1));
            assert(after.blocks.drop_last() =~= cache.blocks.drop_first());
        } else {
            assert(ready.blocks =~= pushed);
            assert(after.blocks.drop_last() =~= cache.blocks);
        }
    }
}

pub(crate) proof fn lemma_place_is_valid(cache: CacheModel, block_number: u64, index: u64)
    requires
        cache.valid(),
    ensures
        ({
            let flashblock = cache.flashblock_or_new(block_number, index);
            &&& flashblock.valid()
            &&& flashblock.block_number == block_number
            &&& flashblock.flashblock_index == index
        }),
{
    if cache.has_block(block_number) {
        let i = cache.position(block_number);
        assert(cache.blocks[i].block_number == block_number && cache.blocks[i].valid());
    }
}

proof fn lemma_stays_valid(
    cache: CacheModel,
    block_number: u64,
    index: u64,
    flashblock: FlashblockModel,
)
    requires
        cache.valid(),
        0 < cache.max_blocks,
        flashblock.valid(),
        flashblock.block_number == block_number,
        flashblock.flashblock_index == index,
    ensures
        cache.set_flashblock(block_number, index, flashblock).valid(),
{
    let ready = cache.with_block(block_number);
    let after = cache.set_flashblock(block_number, index, flashblock);
    lemma_with_block(cache, block_number);
    lemma_blocks_after(cache, block_number, index, flashblock);
    lemma_set_flashblock(cache, block_number, index, flashblock);
    assert forall|i: int| 0 <= i < ready.blocks.len() implies (
    #[trigger] ready.blocks[i]).valid() by {
        if !cache.has_block(block_number) {
            let pushed = cache.blocks.push(BlockModel::empty(block_number));
            let d = pushed.len() - ready.blocks.len();
            assert(ready.blocks[i] == pushed[i + d]);
            if i + d < cache.blocks.len() {
                assert(cache.blocks[i + d].valid());
            }
        }
    }
    let at = ready.position(block_number);
    assert(0 <= at < ready.blocks.len() && ready.blocks[at].block_number == block_number);
    assert(ready.blocks[at].valid());
}

/// What was recorded or taken out leaves a valid cache valid.
pub proof fn law_cache_stays_valid(
    cache: CacheModel,
    block_number: u64,
    index: u64,
    tx: MeteredTransaction,
    hash: TxHash,
)
    requires
        cache.valid(),
        0 < cache.max_blocks,
    ensures
        cache.upsert(block_number, index, tx).valid(),
        cache.remove(block_number, index, hash).valid(),
{
    let flashblock = cache.flashblock_or_new(block_number, index);
    lemma_place_is_valid(cache, block_number, index);
    law_flashblock_stays_valid(flashblock, tx, hash);
    lemma_stays_valid(cache, block_number, index, flashblock.upsert(tx));
    lemma_stays_valid(cache, block_number, index, flashblock.remove(hash));
}

/// A transaction that was recorded is found at its place.
pub proof fn law_recorded_is_found(
    cache: CacheModel,
    block_number: u64,
    index: u64,
    tx: MeteredTransaction,
)
    requires
        cache.valid(),
        0 < cache.max_blocks,
    ensures
        ({
            let found = cache.upsert(block_number, index, tx).find_flashblock(block_number, index);
            &&& found == Some(cache.flashblock_or_new(block_number, index).upsert(tx))
            &&& found->0.find(tx.tx_hash) == Some(tx)
        }),
{
    let flashblock = cache.flashblock_or_new(block_number, index);
    lemma_place_is_valid(cache, block_number, index);
    lemma_set_flashblock(cache, block_number, index, flashblock.upsert(tx));
    law_upsert_then_find(flashblock, tx);
}

/// The number of flashblocks of the block with this number, none where it is not there.
pub open spec fn flashblock_count(cache: CacheModel, block_number: u64) -> nat {
    match cache.find(block_number) {
        Some(block) => block.flashblocks.len(),
        None => 0,
    }
}

/// Recording a transaction in a flashblock that is there leaves the number of flashblocks as
/// it is, and a new flashblock raises it by one.
pub proof fn law_flashblock_count(
    cache: CacheModel,
    block_number: u64,
    index: u64,
    tx: MeteredTransaction,
)
    requires
        cache.valid(),
        0 < cache.max_blocks,
    ensures
        ({
            let after = cache.upsert(block_number, index, tx);
            &&& after.find_flashblock(block_number, index) is Some
            &&& flashblock_count(after, block_number) == flashblock_count(cache, block_number) + (
            if cache.find_flashblock(block_number, index) is Some {
                0int
            } else {
                1int
            })
        }),
{
    let flashblock = cache.flashblock_or_new(block_number, index).upsert(tx);
    lemma_set_flashblock(cache, block_number, index, flashblock);
    let ready = cache.with_block(block_number);
    lemma_with_block(cache, block_number);
    let block = ready.find(block_number)->0;
    let changed = block.with_flashblock(index, flashblock).recomputed();
    lemma_set_block(ready, block_number, changed);
    assert(changed.flashblocks.dom() =~= block.flashblocks.dom().insert(index));
    if cache.has_block(block_number) {
        assert(cache.blocks[cache.position(block_number)].valid());
    }
}

/// A transaction that was taken out is not found at its place any more.
pub proof fn law_removed_is_gone(cache: CacheModel, block_number: u64, index: u64, hash: TxHash)
    requires
        cache.valid(),
        0 < cache.max_blocks,
    ensures
        ({
            let found = cache.remove(block_number, index, hash).find_flashblock(
                block_number,
                index,
            );
            &&& found == Some(cache.flashblock_or_new(block_number, index).remove(hash))
            &&& found->0.find(hash) is None
        }),
{
    let flashblock = cache.flashblock_or_new(block_number, index);
    lemma_place_is_valid(cache, block_number, index);
    lemma_set_flashblock(cache, block_number, index, flashblock.remove(hash));
    law_remove_then_find(flashblock, hash);
}

/// Recording a transaction touches no other flashblock of its block, and no other block but
/// one that makes way.
pub proof fn law_recording_is_local(
    cache: CacheModel,
    block_number: u64,
    index: u64,
    tx: MeteredTransaction,
)
    requires
        cache.valid(),
        0 < cache.max_blocks,
    ensures
        ({
            let after = cache.upsert(block_number, index, tx);
            let evicts = !cache.has_block(block_number) && cache.blocks.len() == cache.max_blocks;
            &&& forall|other: u64|
                other != index ==> #[trigger] after.find_flashblock(block_number, other)
                    == cache.find_flashblock(block_number, other)
            &&& forall|other: u64|
                other != block_number ==> #[trigger] after.find(other) == (if evicts && other
                    == cache.blocks[0].block_number {
                    None
                } else {
                    cache.find(other)
                })
        }),
{
    let flashblock = cache.flashblock_or_new(block_number, index).upsert(tx);
    lemma_set_flashblock(cache, block_number, index, flashblock);
    lemma_others_after_with_block(cache, block_number);
}

/// Taking a transaction out touches no other flashblock of its block, and no other block but
/// one that makes way where the block was not there.
pub proof fn law_removing_is_local(cache: CacheModel, block_number: u64, index: u64, hash: TxHash)
    requires
        cache.valid(),
        0 < cache.max_blocks,
    ensures
        ({
            let after = cache.remove(block_number, index, hash);
            let evicts = !cache.has_block(block_number) && cache.blocks.len() == cache.max_blocks;
            &&& forall|other: u64|
                other != index ==> #[trigger] after.find_flashblock(block_number, other)
                    == cache.find_flashblock(block_number, other)
            &&& forall|other: u64|
                other != block_number ==> #[trigger] after.find(other) == (if evicts && other
                    == cache.blocks[0].block_number {
                    None
                } else {
                    cache.find(other)
                })
        }),
{
    let flashblock = cache.flashblock_or_new(block_number, index).remove(hash);
    lemma_set_flashblock(cache, block_number, index, flashblock);
    lemma_others_after_with_block(cache, block_number);
}

proof fn lemma_others_after_with_block(cache: CacheModel, block_number: u64)
    requires
        cache.valid(),
        0 < cache.max_blocks,
    ensures
        ({
            let evicts = !cache.has_block(block_number) && cache.blocks.len() == cache.max_blocks;
            forall|other: u64|
                other != block_number ==> #[trigger] cache.with_block(block_number).find(other)
                    == (if evicts && other == cache.blocks[0].block_number {
                    None
                } else {
                    cache.find(other)
                })
        }),
{
    let evicts = !cache.has_block(block_number) && cache.blocks.len() == cache.max_blocks;
    let ready = cache.with_block(block_number);
    lemma_with_block(cache, block_number);
    let pushed = cache.blocks.push(BlockModel::empty(block_number));
    let d: int = if evicts {
        1
    } else {
        0
    };
    if !cache.has_block(block_number) {
        assert(ready.blocks =~= pushed.skip(d));
    }
    assert forall|other: u64| other != block_number implies #[trigger] ready.find(other) == (
    if evicts && other == cache.blocks[0].block_number {
        None
    } else {
        cache.find(other)
    }) by {
        if !cache.has_block(block_number) {
            if cache.has_block(other) {
                let p = cache.position(other);
                assert(cache.blocks[p].block_number == other);
                if p >= d {
                    assert(ready.blocks[p - d] == cache.blocks[p]);
                }
            }
            if ready.has_block(other) {
                let q = ready.position(other);
                assert(ready.blocks[q].block_number == other);
                assert(q < ready.blocks.len() - 1);
                assert(ready.blocks[q] == cache.blocks[q + d]);
                let p = cache.position(other);
                assert(cache.blocks[p].block_number == other);
                if p < q + d {
                    assert(cache.blocks[p].block_number != cache.blocks[q + d].block_number);
                } else if q + d < p {
                    assert(cache.blocks[q + d].block_number != cache.blocks[p].block_number);
                }
                if d == 1 {
                    assert(cache.blocks[0].block_number != cache.blocks[q + d].block_number);
                }
            }
        }
    }
}

/// There are never more blocks than allowed. A new block comes in as the newest; where there
/// was no room, the oldest block makes way, and the others stay as they are.
pub proof fn law_eviction(cache: CacheModel, block_number: u64, index: u64, tx: MeteredTransaction)
    requires
        cache.valid(),
        0 < cache.max_blocks,
    ensures
        ({
            let after = cache.upsert(block_number, index, tx);
            &&& after.max_blocks == cache.max_blocks
            &&& after.blocks.len() <= after.max_blocks
            &&& !cache.has_block(block_number) ==> {
                &&& after.blocks.last().block_number == block_number
                &&& after.blocks.drop_last() == (if cache.blocks.len() == cache.max_blocks {
                    cache.blocks.drop_first()
                } else {
                    cache.blocks
                })
            }
        }),
{
    let flashblock = cache.flashblock_or_new(block_number, index).upsert(tx);
    lemma_blocks_after(cache, block_number, index, flashblock);
}

/// A transaction for a block that is there moves no block.
pub proof fn law_known_block_stays_in_place(
    cache: CacheModel,
    block_number: u64,
    index: u64,
    tx: MeteredTransaction,
)
    requires
        cache.valid(),
        0 < cache.max_blocks,
        cache.has_block(block_number),
    ensures
        ({
            let after = cache.upsert(block_number, index, tx);
            &&& after.blocks.len() == cache.blocks.len()
            &&& forall|k: int|
                0 <= k < after.blocks.len() ==> (#[trigger] after.blocks[k]).block_number
                    == cache.blocks[k].block_number
        }),
{
    let flashblock = cache.flashblock_or_new(block_number, index).upsert(tx);
    lemma_blocks_after(cache, block_number, index, flashblock);
}

/// Whether the totals of a block are those of its flashblocks added up, each held at its
/// limit.
pub open spec fn totals_added_up(block: BlockModel) -> bool {
    forall|kind: ResourceKind| #[trigger]
        block.totals.amount(kind) == at_most(sum_of_totals(block.ordered(), kind), limit(kind))
}

/// After a transaction was recorded or taken out, the totals of its block are those of its
/// flashblocks added up.
pub proof fn law_block_totals(
    cache: CacheModel,
    block_number: u64,
    index: u64,
    tx: MeteredTransaction,
    hash: TxHash,
)
    requires
        cache.valid(),
        0 < cache.max_blocks,
    ensures
        totals_added_up(cache.upsert(block_number, index, tx).find(block_number)->0),
        totals_added_up(cache.remove(block_number, index, hash).find(block_number)->0),
{
    let flashblock = cache.flashblock_or_new(block_number, index);
    lemma_totals_after(cache, block_number, index, flashblock.upsert(tx));
    lemma_totals_after(cache, block_number, index, flashblock.remove(hash));
}

proof fn lemma_totals_after(
    cache: CacheModel,
    block_number: u64,
    index: u64,
    flashblock: FlashblockModel,
)
    requires
        cache.valid(),
        0 < cache.max_blocks,
    ensures
        totals_added_up(
            cache.set_flashblock(block_number, index, flashblock).find(block_number)->0,
        ),
{
    let ready = cache.with_block(block_number);
    lemma_with_block(cache, block_number);
    let block = ready.blocks[ready.position(block_number)].with_flashblock(index, flashblock);
    lemma_set_block(ready, block_number, block.recomputed());
    assert(block.recomputed().ordered() == block.ordered());
}

/// Recording a transaction once more changes nothing.
pub proof fn law_upsert_twice(flashblock: FlashblockModel, tx: MeteredTransaction)
    requires
        flashblock.valid(),
    ensures
        flashblock.upsert(tx).upsert(tx) == flashblock.upsert(tx),
{
    let once = flashblock.upsert(tx);
    let twice = once.upsert(tx);
    law_flashblock_stays_valid(flashblock, tx, tx.tx_hash);
    law_upsert_then_find(flashblock, tx);
    let at = hash_index(once.transactions, tx.tx_hash);
    assert(has_hash(once.transactions, tx.tx_hash) && once.transactions[at] == tx);
    assert(twice.transactions =~= once.transactions);
    assert forall|kind: ResourceKind| #[trigger]
        twice.totals.amount(kind) == once.totals.amount(kind) by {
        let kept = if has_hash(flashblock.transactions, tx.tx_hash) {
            flashblock.totals.minus(
                flashblock.transactions[hash_index(flashblock.transactions, tx.tx_hash)],
            )
        } else {
            flashblock.totals
        };
        lemma_plus_minus_amounts(kept, tx, kind);
        lemma_plus_minus_amounts(once.totals, tx, kind);
        lemma_plus_minus_amounts(once.totals.minus(tx), tx, kind);
    }
    lemma_totals_by_amount(twice.totals, once.totals);
}

/// Of two flashblocks that are put at one place, the later one stays.
proof fn lemma_set_flashblock_twice(
    cache: CacheModel,
    block_number: u64,
    index: u64,
    first: FlashblockModel,
    second: FlashblockModel,
)
    requires
        cache.valid(),
        0 < cache.max_blocks,
    ensures
        cache.set_flashblock(block_number, index, first).set_flashblock(block_number, index, second)
            == cache.set_flashblock(block_number, index, second),
{
    let ready = cache.with_block(block_number);
    lemma_with_block(cache, block_number);
    let at = ready.position(block_number);
    let block = ready.blocks[at];
    let once = cache.set_flashblock(block_number, index, first);
    let changed = block.with_flashblock(index, first).recomputed();
    lemma_set_block(ready, block_number, changed);
    assert(once.has_block(block_number) && once.find(block_number) == Some(changed));
    assert(once.blocks[at].block_number == block_number);
    let again = once.position(block_number);
    assert(0 <= again < once.blocks.len() && once.blocks[again].block_number == block_number);
    assert(again == at) by {
        if again < at {
            assert(once.blocks[again].block_number != once.blocks[at].block_number);
        } else if at < again {
            assert(once.blocks[at].block_number != once.blocks[again].block_number);
        }
    }
    assert(changed.with_flashblock(index, second).flashblocks =~= block.with_flashblock(
        index,
        second,
    ).flashblocks);
    let last = block.with_flashblock(index, second);
    assert(changed.with_flashblock(index, second).ordered() == last.ordered());
    assert(changed.with_flashblock(index, second).recomputed() == last.recomputed());
    assert(once.set_flashblock(block_number, index, second).blocks =~= cache.set_flashblock(
        block_number,
        index,
        second,
    ).blocks);
}

/// An event that is delivered twice leaves the cache as it is delivered once.
pub proof fn law_recording_twice(
    cache: CacheModel,
    block_number: u64,
    index: u64,
    tx: MeteredTransaction,
)
    requires
        cache.valid(),
        0 < cache.max_blocks,
    ensures
        cache.upsert(block_number, index, tx).upsert(block_number, index, tx) == cache.upsert(
            block_number,
            index,
            tx,
        ),
{
    let flashblock = cache.flashblock_or_new(block_number, index);
    lemma_place_is_valid(cache, block_number, index);
    law_recorded_is_found(cache, block_number, index, tx);
    law_upsert_twice(flashblock, tx);
    lemma_set_flashblock_twice(
        cache,
        block_number,
        index,
        flashblock.upsert(tx),
        flashblock.upsert(tx).upsert(tx),
    );
}

/// Taking out a transaction that was recorded under a new hash, in a flashblock that was
/// there, brings the cache back to what it was, as long as no total has run into its limit.
pub proof fn law_removing_undoes_recording(
    cache: CacheModel,
    block_number: u64,
    index: u64,
    tx: MeteredTransaction,
)
    requires
        cache.valid(),
        cache.find_flashblock(block_number, index) is Some,
        totals_added_up(cache.find(block_number)->0),
        cache.find_flashblock(block_number, index)->0.find(tx.tx_hash) is None,
        forall|kind: ResourceKind| #[trigger]
            cache.find_flashblock(block_number, index)->0.totals.amount(kind) + usage(tx, kind)
                <= limit(kind),
    ensures
        cache.upsert(block_number, index, tx).remove(block_number, index, tx.tx_hash) == cache,
{
    let flashblock = cache.flashblock_or_new(block_number, index);
    assert(cache.find_flashblock(block_number, index) == Some(flashblock));
    assert(cache.blocks.len() > 0);
    lemma_place_is_valid(cache, block_number, index);
    law_recorded_is_found(cache, block_number, index, tx);
    law_remove_undoes_upsert(flashblock, tx);
    lemma_set_flashblock_twice(cache, block_number, index, flashblock.upsert(tx), flashblock);
    lemma_put_back(cache, block_number, index);
}

/// Taking out a transaction that is not there changes nothing.
pub proof fn law_remove_unknown(flashblock: FlashblockModel, hash: TxHash)
    requires
        flashblock.find(hash) is None,
    ensures
        flashblock.remove(hash) == flashblock,
{
}

/// Taking a transaction that is not there out of a flashblock that is there changes nothing.
pub proof fn law_removing_unknown(cache: CacheModel, block_number: u64, index: u64, hash: TxHash)
    requires
        cache.valid(),
        cache.find_flashblock(block_number, index) is Some,
        totals_added_up(cache.find(block_number)->0),
        cache.find_flashblock(block_number, index)->0.find(hash) is None,
    ensures
        cache.remove(block_number, index, hash) == cache,
{
    let flashblock = cache.flashblock_or_new(block_number, index);
    assert(cache.find_flashblock(block_number, index) == Some(flashblock));
    law_remove_unknown(flashblock, hash);
    lemma_put_back(cache, block_number, index);
}

/// Putting the flashblock that is at a place there again changes nothing.
proof fn lemma_put_back(cache: CacheModel, block_number: u64, index: u64)
    requires
        cache.valid(),
        cache.find_flashblock(block_number, index) is Some,
        totals_added_up(cache.find(block_number)->0),
    ensures
        cache.set_flashblock(
            block_number,
            index,
            cache.flashblock_or_new(block_number, index),
        ) == cache,
{
    let flashblock = cache.flashblock_or_new(block_number, index);
    let block = cache.blocks[cache.position(block_number)];
    let same = block.with_flashblock(index, flashblock);
    assert(same.flashblocks =~= block.flashblocks);
    assert(same.ordered() == block.ordered());
    lemma_totals_by_amount(same.recomputed().totals, block.totals);
    assert(cache.set_flashblock(block_number, index, flashblock).blocks =~= cache.blocks);
}

proof fn lemma_total_concat(
    a: Seq<MeteredTransaction>,
    b: Seq<MeteredTransaction>,
    kind: ResourceKind,
)
    ensures
        total_usage(a + b, kind) == total_usage(a, kind) + total_usage(b, kind),
    decreases b.len(),
{
    if b.len() == 0 {
        assert(a + b =~= a);
    } else {
        lemma_total_concat(a, b.drop_last(), kind);
        assert((a + b).drop_last() =~= a + b.drop_last());
    }
}

proof fn lemma_exact_sum(flashblocks: Seq<FlashblockModel>, kind: ResourceKind)
    requires
        forall|i: int| 0 <= i < flashblocks.len() ==> (#[trigger] flashblocks[i]).exact(),
    ensures
        sum_of_totals(flashblocks, kind) == total_usage(
            flashblocks.map_values(|f: FlashblockModel| f.transactions).flatten(),
            kind,
        ),
    decreases flashblocks.len(),
{
    let parts = flashblocks.map_values(|f: FlashblockModel| f.transactions);
    if flashblocks.len() == 0 {
        assert(parts.flatten() =~= Seq::empty());
    } else {
        let earlier = flashblocks.drop_last();
        let last = flashblocks.last();
        let rest = earlier.map_values(|f: FlashblockModel| f.transactions);
        assert forall|i: int| 0 <= i < earlier.len() implies (#[trigger] earlier[i]).exact() by {
            assert(flashblocks[i].exact());
        }
        lemma_exact_sum(earlier, kind);
        assert(parts =~= rest.push(last.transactions));
        rest.lemma_flatten_push(last.transactions);
        lemma_total_concat(rest.flatten(), last.transactions, kind);
        assert(flashblocks[flashblocks.len() - 1].exact());
        assert(last.totals.amount(kind) == total_usage(last.transactions, kind));
    }
}

/// Where the totals of the flashblocks are exact and have been added up, the totals of the block
/// are the sums over all its transactions, as long as these are within their limits.
pub proof fn law_block_totals_exact(block: BlockModel, kind: ResourceKind)
    requires
        block.valid(),
        totals_added_up(block),
        forall|k: u64| #[trigger]
            block.flashblocks.contains_key(k) ==> block.flashblocks[k].exact(),
        total_usage(
            block.ordered().map_values(|f: FlashblockModel| f.transactions).flatten(),
            kind,
        ) <= limit(kind),
    ensures
        block.totals.amount(kind) == total_usage(
            block.ordered().map_values(|f: FlashblockModel| f.transactions).flatten(),
            kind,
        ),
{
    law_ordered_lists_all(block);
    assert forall|i: int| 0 <= i < block.ordered().len() implies (
    #[trigger] block.ordered()[i]).exact() by {
        assert(block.indices().contains(block.indices()[i]));
    }
    lemma_exact_sum(block.ordered(), kind);
}

} // verus!
