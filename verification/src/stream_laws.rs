use crate::annotator::{annotated, recorded};
use crate::bundle::AcceptedBundle;
use crate::cache::CacheModel;
use crate::cache_laws::{law_cache_stays_valid, law_recorded_is_found, law_upsert_then_find};
use crate::flashblock::{distinct_hashes, has_hash, hash_index, lemma_hash_index};
use crate::inclusion::{keccak, matched, names_all, Flashblock, FlashblockInclusion};
use crate::kafka::{events_of, metered};
use crate::lookup_laws::law_found_flashblock;
use crate::pool::own_hashes;
use crate::streams::{by_hash, comes_of, FlashblockOutcome, TxMeteringEvent};
use crate::transaction::{MeteredTransaction, TxHash};
use vstd::prelude::*;

verus! {

/// An inclusion message matches exactly the known transactions that it names, and each of
/// them once.
pub proof fn law_matched(pool: Map<TxHash, MeteredTransaction>, hashes: Seq<TxHash>)
    requires
        own_hashes(pool),
    ensures
        forall|tx: MeteredTransaction| #[trigger]
            matched(pool, hashes).contains(tx) <==> {
                &&& hashes.contains(tx.tx_hash)
                &&& pool.contains_key(tx.tx_hash)
                &&& pool[tx.tx_hash] == tx
            },
        distinct_hashes(matched(pool, hashes)),
    decreases hashes.len(),
{
    let all = matched(pool, hashes);
    if hashes.len() > 0 {
        let earlier = hashes.drop_last();
        let hash = hashes.last();
        let found = matched(pool, earlier);
        law_matched(pool, earlier);
        assert forall|h: TxHash| #[trigger] hashes.contains(h) == (earlier.contains(h) || h
            == hash) by {
            lemma_contains_last(hashes, h);
        }
        if pool.contains_key(hash) && !earlier.contains(hash) {
            assert(all == found.push(pool[hash]));
            assert forall|tx: MeteredTransaction| #[trigger]
                all.contains(tx) == (found.contains(tx) || tx == pool[hash]) by {
                lemma_contains_last(all, tx);
                assert(all.drop_last() =~= found);
            }
            assert forall|i: int| 0 <= i < found.len() implies (#[trigger] found[i]).tx_hash
                != hash by {
                assert(found.contains(found[i]));
            }
        }
    }
}

/// What a sequence contains is what stands before its last item, and that item.
pub(crate) proof fn lemma_contains_last<T>(items: Seq<T>, item: T)
    requires
        items.len() > 0,
    ensures
        items.contains(item) == (items.drop_last().contains(item) || item == items.last()),
{
    if items.contains(item) {
        let i = choose|i: int| 0 <= i < items.len() && items[i] == item;
        if i < items.len() - 1 {
            assert(items.drop_last()[i] == item);
        }
    }
    if items.drop_last().contains(item) {
        let i = choose|i: int| 0 <= i < items.drop_last().len() && items.drop_last()[i] == item;
        assert(items[i] == item);
    }
    assert(items[items.len() - 1] == items.last());
}

/// Matched transactions come in the order of the message: before a later one is named, the
/// earlier one has been.
pub proof fn law_matched_in_order(
    pool: Map<TxHash, MeteredTransaction>,
    hashes: Seq<TxHash>,
    i: int,
    j: int,
    q: int,
)
    requires
        own_hashes(pool),
        0 <= i < j < matched(pool, hashes).len(),
        0 <= q < hashes.len(),
        hashes[q] == matched(pool, hashes)[j].tx_hash,
    ensures
        hashes.take(q).contains(matched(pool, hashes)[i].tx_hash),
    decreases hashes.len(),
{
    let earlier = hashes.drop_last();
    let hash = hashes.last();
    let found = matched(pool, earlier);
    law_matched(pool, earlier);
    assert(i < found.len());
    assert(found.contains(found[i]));
    if q == hashes.len() - 1 {
        assert(hashes.take(q) =~= earlier);
    } else {
        assert(earlier[q] == hashes[q]);
        assert(earlier.contains(hashes[q]));
        assert(j < found.len()) by {
            if j == found.len() {
                assert(matched(pool, hashes)[j] == pool[hash]);
            }
        }
        law_matched_in_order(pool, earlier, i, j, q);
        assert(earlier.take(q) =~= hashes.take(q));
    }
}

/// What a snapshot holds are transactions of the cached flashblock, each of them once.
pub proof fn law_snapshot_is_cached(txs: Seq<MeteredTransaction>, hashes: Seq<TxHash>)
    requires
        distinct_hashes(txs),
    ensures
        own_hashes(by_hash(txs)),
        forall|tx: MeteredTransaction| #[trigger]
            matched(by_hash(txs), hashes).contains(tx) <==> txs.contains(tx) && hashes.contains(
                tx.tx_hash,
            ),
        distinct_hashes(matched(by_hash(txs), hashes)),
{
    let pool = by_hash(txs);
    assert forall|hash: TxHash| #[trigger] pool.contains_key(hash) implies pool[hash].tx_hash
        == hash by {
        assert(has_hash(txs, hash));
    }
    law_matched(pool, hashes);
    assert forall|tx: MeteredTransaction| #[trigger] txs.contains(tx) == (pool.contains_key(
        tx.tx_hash,
    ) && pool[tx.tx_hash] == tx) by {
        if txs.contains(tx) {
            let i = choose|i: int| 0 <= i < txs.len() && txs[i] == tx;
            lemma_hash_index(txs, i);
        }
        if pool.contains_key(tx.tx_hash) && pool[tx.tx_hash] == tx {
            let i = hash_index(txs, tx.tx_hash);
            assert(has_hash(txs, tx.tx_hash));
            assert(txs[i] == tx);
        }
    }
    assert forall|tx: MeteredTransaction| #[trigger]
        matched(pool, hashes).contains(tx) <==> txs.contains(tx) && hashes.contains(tx.tx_hash) by {
        assert(txs.contains(tx) == (pool.contains_key(tx.tx_hash) && pool[tx.tx_hash] == tx));
    }
}

/// What comes of an inclusion message. Nothing is cached exactly where no block with its number
/// holds a flashblock at its index. Otherwise a snapshot goes out exactly where a transaction of
/// that flashblock is named; it holds these transactions and no others, each once, under the
/// place of the message.
pub proof fn law_snapshot(cache: CacheModel, event: FlashblockInclusion, r: FlashblockOutcome)
    requires
        cache.valid(),
        comes_of(cache, event, r),
    ensures
        r is NotCached <==> forall|i: int|
            0 <= i < cache.blocks.len() && (#[trigger] cache.blocks[i]).block_number
                == event.block_number ==> !cache.blocks[i].flashblocks.contains_key(
                event.flashblock_index,
            ),
        forall|at: int|
            0 <= at < cache.blocks.len() && (#[trigger] cache.blocks[at]).block_number
                == event.block_number && cache.blocks[at].flashblocks.contains_key(
                event.flashblock_index,
            ) ==> {
                let cached = cache.blocks[at].flashblocks[event.flashblock_index].transactions;
                let named = |tx: MeteredTransaction|
                    cached.contains(tx) && event.ordered_tx_hashes@.contains(tx.tx_hash);
                &&& r is Snapshot <==> exists|tx: MeteredTransaction| #[trigger] named(tx)
                &&& r is Snapshot ==> {
                    let sent = r->Snapshot_0;
                    &&& sent.block_number == event.block_number
                    &&& sent.flashblock_index == event.flashblock_index
                    &&& forall|tx: MeteredTransaction|
                        sent.transactions@.contains(tx) <==> #[trigger] named(tx)
                    &&& sent.transactions@.no_duplicates()
                }
            },
        r is Snapshot ==> forall|i: int, j: int, q: int|
            #![trigger r->Snapshot_0.transactions@[i], r->Snapshot_0.transactions@[j],
                event.ordered_tx_hashes@[q]]
            {
                &&& 0 <= i < j < r->Snapshot_0.transactions@.len()
                &&& 0 <= q < event.ordered_tx_hashes@.len()
                &&& event.ordered_tx_hashes@[q] == r->Snapshot_0.transactions@[j].tx_hash
            } ==> event.ordered_tx_hashes@.take(q).contains(
                r->Snapshot_0.transactions@[i].tx_hash,
            ),
{
    let hashes = event.ordered_tx_hashes@;
    let place = cache.find_flashblock(event.block_number, event.flashblock_index);
    law_found_flashblock(cache, event.block_number, event.flashblock_index, place->0);
    if place is Some {
        let p = cache.position(event.block_number);
        assert(cache.blocks[p].block_number == event.block_number);
        assert(cache.blocks[p].valid());
        let txs = place->0.transactions;
        law_snapshot_is_cached(txs, hashes);
        let found = matched(by_hash(txs), hashes);
        assert forall|at: int|
            0 <= at < cache.blocks.len() && (#[trigger] cache.blocks[at]).block_number
                == event.block_number && cache.blocks[at].flashblocks.contains_key(
                event.flashblock_index,
            ) implies {
            let cached = cache.blocks[at].flashblocks[event.flashblock_index].transactions;
            let named = |tx: MeteredTransaction| cached.contains(tx) && hashes.contains(tx.tx_hash);
            &&& r is Snapshot <==> exists|tx: MeteredTransaction| #[trigger] named(tx)
            &&& r is Snapshot ==> {
                let sent = r->Snapshot_0;
                &&& sent.block_number == event.block_number
                &&& sent.flashblock_index == event.flashblock_index
                &&& forall|tx: MeteredTransaction|
                    sent.transactions@.contains(tx) <==> #[trigger] named(tx)
                &&& sent.transactions@.no_duplicates()
            }
        } by {
            let cached = cache.blocks[at].flashblocks[event.flashblock_index].transactions;
            let named = |tx: MeteredTransaction| cached.contains(tx) && hashes.contains(tx.tx_hash);
            law_found_flashblock(
                cache,
                event.block_number,
                event.flashblock_index,
                cache.blocks[at].flashblocks[event.flashblock_index],
            );
            assert(cached == txs);
            if found.len() > 0 {
                assert(found.contains(found[0]));
                assert(named(found[0]));
            }
            assert forall|tx: MeteredTransaction| #[trigger] named(tx) implies found.contains(
                tx,
            ) by {}
        }
        if r is Snapshot {
            assert forall|i: int, j: int, q: int|
                #![trigger found[i], found[j], hashes[q]]
                0 <= i < j < found.len() && 0 <= q < hashes.len() && hashes[q]
                    == found[j].tx_hash implies hashes.take(q).contains(found[i].tx_hash) by {
                law_matched_in_order(by_hash(txs), hashes, i, j, q);
            }
        }
    }
}

/// A flashblock with transactions is announced with the hash of each, in their order, under its
/// own place, and one without is not announced.
pub proof fn law_announced(flashblock: Flashblock, r: Option<FlashblockInclusion>, i: int)
    requires
        names_all(flashblock, r),
        0 <= i < flashblock.transactions@.len(),
    ensures
        r is Some,
        r->0.block_number == flashblock.block_number,
        r->0.flashblock_index == flashblock.index,
        r->0.ordered_tx_hashes@.len() == flashblock.transactions@.len(),
        r->0.ordered_tx_hashes@[i]@ == keccak(flashblock.transactions@[i]@),
{
}

/// A message that names no pending transaction changes neither the cache nor what is pending.
pub proof fn law_unknown_hashes_change_nothing(
    cache: CacheModel,
    pending: Map<TxHash, MeteredTransaction>,
    block_number: u64,
    index: u64,
    hashes: Seq<TxHash>,
)
    requires
        forall|hash: TxHash| #[trigger] hashes.contains(hash) ==> !pending.contains_key(hash),
    ensures
        matched(pending, hashes).len() == 0,
        recorded(cache, block_number, index, matched(pending, hashes)) == cache,
        pending.remove_keys(hashes.to_set()) == pending,
    decreases hashes.len(),
{
    if hashes.len() > 0 {
        let earlier = hashes.drop_last();
        assert forall|hash: TxHash| #[trigger] earlier.contains(hash) implies !pending.contains_key(
            hash,
        ) by {
            lemma_contains_last(hashes, hash);
        }
        law_unknown_hashes_change_nothing(cache, pending, block_number, index, earlier);
        lemma_contains_last(hashes, hashes.last());
    }
    assert(pending.remove_keys(hashes.to_set()) =~= pending);
}

/// Once a message has named a pending transaction it is pending no more, so that the same
/// message matches nothing when it comes again. What it has not named stays pending.
pub proof fn law_included_once(pending: Map<TxHash, MeteredTransaction>, hashes: Seq<TxHash>)
    ensures
        matched(pending.remove_keys(hashes.to_set()), hashes).len() == 0,
        forall|hash: TxHash|
            !hashes.contains(hash) && #[trigger] pending.contains_key(hash) ==> {
                &&& pending.remove_keys(hashes.to_set()).contains_key(hash)
                &&& pending.remove_keys(hashes.to_set())[hash] == pending[hash]
            },
{
    lemma_matched_none(pending.remove_keys(hashes.to_set()), hashes);
}

proof fn lemma_matched_none(pool: Map<TxHash, MeteredTransaction>, hashes: Seq<TxHash>)
    requires
        forall|hash: TxHash| #[trigger] hashes.contains(hash) ==> !pool.contains_key(hash),
    ensures
        matched(pool, hashes).len() == 0,
    decreases hashes.len(),
{
    if hashes.len() > 0 {
        let earlier = hashes.drop_last();
        assert forall|hash: TxHash| #[trigger] earlier.contains(hash) implies !pool.contains_key(
            hash,
        ) by {
            lemma_contains_last(hashes, hash);
        }
        lemma_matched_none(pool, earlier);
        lemma_contains_last(hashes, hashes.last());
    }
}

/// Transactions that were recorded one after the other are all found at their place.
pub proof fn law_all_recorded_are_found(
    cache: CacheModel,
    block_number: u64,
    index: u64,
    txs: Seq<MeteredTransaction>,
)
    requires
        cache.valid(),
        0 < cache.max_blocks,
        distinct_hashes(txs),
    ensures
        recorded(cache, block_number, index, txs).valid(),
        recorded(cache, block_number, index, txs).max_blocks == cache.max_blocks,
        forall|tx: MeteredTransaction| #[trigger]
            txs.contains(tx) ==> recorded(cache, block_number, index, txs).flashblock_or_new(
                block_number,
                index,
            ).find(tx.tx_hash) == Some(tx),
    decreases txs.len(),
{
    if txs.len() > 0 {
        let earlier = txs.drop_last();
        let last = txs.last();
        assert(distinct_hashes(earlier)) by {
            assert forall|i: int, j: int| 0 <= i < j < earlier.len() implies (
            #[trigger] earlier[i]).tx_hash != (#[trigger] earlier[j]).tx_hash by {
                assert(txs[i].tx_hash != txs[j].tx_hash);
            }
        }
        law_all_recorded_are_found(cache, block_number, index, earlier);
        let before = recorded(cache, block_number, index, earlier);
        law_cache_stays_valid(before, block_number, index, last, last.tx_hash);
        law_recorded_is_found(before, block_number, index, last);
        let flashblock = before.flashblock_or_new(block_number, index);
        if before.has_block(block_number) {
            assert(before.blocks[before.position(block_number)].valid());
        }
        law_upsert_then_find(flashblock, last);
        assert forall|tx: MeteredTransaction| #[trigger] txs.contains(tx) implies recorded(
            cache,
            block_number,
            index,
            txs,
        ).flashblock_or_new(block_number, index).find(tx.tx_hash) == Some(tx) by {
            lemma_contains_last(txs, tx);
            if tx != last {
                let i = choose|i: int| 0 <= i < earlier.len() && earlier[i] == tx;
                assert(txs[i].tx_hash != txs[txs.len() - 1].tx_hash);
                assert(earlier.contains(tx));
                assert(flashblock.upsert(last).find(tx.tx_hash) == flashblock.find(tx.tx_hash));
            }
        }
    }
}

/// A pending transaction that an inclusion message names is found at the place that the
/// message gives.
pub proof fn law_included_is_cached(
    cache: CacheModel,
    pending: Map<TxHash, MeteredTransaction>,
    block_number: u64,
    index: u64,
    hashes: Seq<TxHash>,
    hash: TxHash,
)
    requires
        cache.valid(),
        0 < cache.max_blocks,
        own_hashes(pending),
        hashes.contains(hash),
        pending.contains_key(hash),
    ensures
        recorded(cache, block_number, index, matched(pending, hashes)).flashblock_or_new(
            block_number,
            index,
        ).find(hash) == Some(pending[hash]),
{
    law_matched(pending, hashes);
    assert(matched(pending, hashes).contains(pending[hash]));
    law_all_recorded_are_found(cache, block_number, index, matched(pending, hashes));
}

/// What an inclusion message does. What it names is pending no more, and all else stays pending.
/// Every pending transaction that it names is found at the place that it gives, and as many are
/// counted as have left. Where it names none, the cache stays as it is.
pub proof fn law_annotated(
    pending: Map<TxHash, MeteredTransaction>,
    before: CacheModel,
    event: FlashblockInclusion,
    left: Map<TxHash, MeteredTransaction>,
    after: CacheModel,
    r: (usize, bool),
)
    requires
        before.valid(),
        0 < before.max_blocks,
        own_hashes(pending),
        annotated(pending, before, event, left, after, r),
    ensures
        forall|hash: TxHash| #[trigger]
            left.contains_key(hash) <==> pending.contains_key(hash)
                && !event.ordered_tx_hashes@.contains(hash),
        forall|hash: TxHash| #[trigger]
            left.contains_key(hash) ==> left[hash] == pending[hash],
        forall|hash: TxHash| #[trigger]
            pending.contains_key(hash) && event.ordered_tx_hashes@.contains(hash)
                ==> after.flashblock_or_new(event.block_number, event.flashblock_index).find(hash)
                == Some(pending[hash]),
        pending.dom().finite() ==> r.0 == pending.len() - left.len(),
        r.0 == 0 ==> after == before && !r.1,
{
    let hashes = event.ordered_tx_hashes@;
    let found = matched(pending, hashes);
    assert forall|hash: TxHash| #[trigger] left.contains_key(hash) <==> pending.contains_key(hash)
        && !hashes.contains(hash) by {
        assert(hashes.to_set().contains(hash) == hashes.contains(hash));
    }
    assert forall|hash: TxHash| #[trigger]
        pending.contains_key(hash) && hashes.contains(hash) implies after.flashblock_or_new(
        event.block_number,
        event.flashblock_index,
    ).find(hash) == Some(pending[hash]) by {
        law_included_is_cached(
            before,
            pending,
            event.block_number,
            event.flashblock_index,
            hashes,
            hash,
        );
    }
    if pending.dom().finite() {
        law_matched(pending, hashes);
        let names = found.map_values(|tx: MeteredTransaction| tx.tx_hash);
        assert(names.no_duplicates()) by {
            assert forall|i: int, j: int| 0 <= i < names.len() && 0 <= j < names.len() && i
                != j implies names[i] != names[j] by {
                if i < j {
                    assert(found[i].tx_hash != found[j].tx_hash);
                } else {
                    assert(found[j].tx_hash != found[i].tx_hash);
                }
            }
        }
        names.unique_seq_to_set();
        assert forall|hash: TxHash| #[trigger] names.to_set().contains(hash) <==> (
        pending.contains_key(hash) && hashes.contains(hash)) by {
            if names.contains(hash) {
                let i = choose|i: int| 0 <= i < names.len() && names[i] == hash;
                assert(found.contains(found[i]));
            }
            if pending.contains_key(hash) && hashes.contains(hash) {
                assert(found.contains(pending[hash]));
                let i = choose|i: int| 0 <= i < found.len() && found[i] == pending[hash];
                assert(names[i] == hash);
                assert(names.contains(hash));
            }
        }
        assert(left.dom().subset_of(pending.dom()));
        vstd::set_lib::lemma_len_subset(left.dom(), pending.dom());
        vstd::set_lib::lemma_set_disjoint_lens(names.to_set(), left.dom());
        assert(names.to_set() + left.dom() =~= pending.dom());
    }
}

/// The events of an accepted bundle, recorded one after the other, make each of its
/// transactions found with what it consumed.
pub proof fn law_published_are_found(
    cache: CacheModel,
    bundle: AcceptedBundle,
    flashblock_index: u64,
    i: int,
)
    requires
        cache.valid(),
        0 < cache.max_blocks,
        forall|a: int, b: int|
            0 <= a < b < bundle.txs@.len() ==> (#[trigger] bundle.txs@[a]).tx_hash != (
            #[trigger] bundle.txs@[b]).tx_hash,
        0 <= i < bundle.txs@.len(),
    ensures
        recorded(
            cache,
            bundle.block_number,
            flashblock_index,
            events_of(bundle, flashblock_index).map_values(|e: TxMeteringEvent| e.transaction),
        ).flashblock_or_new(bundle.block_number, flashblock_index).find(bundle.txs@[i].tx_hash)
            == Some(metered(bundle.txs@[i], bundle.meter_bundle_response.results@[i])),
{
    let txs = events_of(bundle, flashblock_index).map_values(|e: TxMeteringEvent| e.transaction);
    assert forall|a: int, b: int| 0 <= a < b < txs.len() implies (#[trigger] txs[a]).tx_hash != (
    #[trigger] txs[b]).tx_hash by {
        assert(bundle.txs@[a].tx_hash != bundle.txs@[b].tx_hash);
    }
    law_all_recorded_are_found(cache, bundle.block_number, flashblock_index, txs);
    assert(txs.contains(txs[i]));
}

} // verus!
