use crate::cache::{exceeds_cap, CacheModel, MeteringCache};
use crate::flashblock::{distinct_hashes, has_hash, hash_index, lemma_hash_index};
use crate::inclusion::{matched, FlashblockInclusion};
use crate::pool::TransactionPool;
use crate::transaction::{MeteredTransaction, TxHash};
use vstd::prelude::*;

verus! {

/// Message emitted by the Kafka ingest task once a transaction has been processed.
#[derive(Debug, Clone, Copy)]
pub struct TxMeteringEvent {
    pub block_number: u64,
    pub flashblock_index: u64,
    pub transaction: MeteredTransaction,
}

/// Output sent to downstream components when a flashblock snapshot is ready.
#[derive(Debug)]
pub struct FlashblockSnapshot {
    pub block_number: u64,
    pub flashblock_index: u64,
    pub transactions: Vec<MeteredTransaction>,
}

/// What comes of an inclusion message.
#[derive(Debug)]
pub enum FlashblockOutcome {
    /// No transaction of the flashblock has been cached.
    NotCached,
    /// None of the included transactions has been cached.
    NoMatch,
    /// The cached transactions among the included ones, to be sent on.
    Snapshot(FlashblockSnapshot),
}

/// The transactions by their hash.
pub open spec fn by_hash(txs: Seq<MeteredTransaction>) -> Map<TxHash, MeteredTransaction> {
    Map::new(|hash: TxHash| has_hash(txs, hash), |hash: TxHash| txs[hash_index(txs, hash)])
}

/// Records the metered transaction in the cache. Returns the number of cached blocks, and
/// whether this put in a flashblock beyond the number expected of a block.
pub fn handle_tx_event(cache: &mut MeteringCache, event: TxMeteringEvent) -> (r: (usize, bool))
    requires
        old(cache).wf(),
        old(cache)@.max_blocks > 0,
    ensures
        final(cache).wf(),
        final(cache)@ == old(cache)@.upsert(
            event.block_number,
            event.flashblock_index,
            event.transaction,
        ),
        r.0 == final(cache)@.blocks.len(),
        r.1 == exceeds_cap(
            old(cache)@,
            final(cache)@,
            event.block_number,
            event.flashblock_index,
        ),
{
    let over_cap = cache.upsert_transaction(
        event.block_number,
        event.flashblock_index,
        event.transaction,
    );
    (cache.len(), over_cap)
}

/// Whether `r` is what comes of an inclusion message: the cached transactions of its flashblock
/// that it names, in the order of the message, if there are any.
pub open spec fn comes_of(
    cache: CacheModel,
    event: FlashblockInclusion,
    r: FlashblockOutcome,
) -> bool {
    match cache.find_flashblock(event.block_number, event.flashblock_index) {
        None => r is NotCached,
        Some(flashblock) => {
            let found = matched(by_hash(flashblock.transactions), event.ordered_tx_hashes@);
            if found.len() == 0 {
                r is NoMatch
            } else {
                &&& r is Snapshot
                &&& r->Snapshot_0.block_number == event.block_number
                &&& r->Snapshot_0.flashblock_index == event.flashblock_index
                &&& r->Snapshot_0.transactions@ == found
            }
        },
    }
}

/// Matches an inclusion message with the cached transactions of its flashblock.
pub fn handle_flashblock_event(cache: &MeteringCache, event: &FlashblockInclusion) -> (r:
    FlashblockOutcome)
    requires
        cache.wf(),
    ensures
        comes_of(cache@, *event, r),
{
    let flashblock = match cache.flashblock(event.block_number, event.flashblock_index) {
        Some(flashblock) => flashblock,
        None => {
            return FlashblockOutcome::NotCached;
        },
    };
    let ghost txs = flashblock@.transactions;
    let cached = flashblock.transactions();
    proof {
        flashblock.lemma_wf_view();
    }
    let mut pool = TransactionPool::new();
    let mut i: usize = 0;
    assert(pool@ =~= by_hash(txs.take(0)));
    while i < cached.len()
        invariant
            i <= cached.len(),
            cached@.unref() == txs,
            distinct_hashes(txs),
            pool.wf(),
            pool@ == by_hash(txs.take(i as int)),
        decreases cached.len() - i,
    {
        let tx = *cached[i];
        assert(tx == cached@.unref()[i as int]);
        pool.put(tx);
        proof {
            lemma_by_hash_push(txs.take(i as int), tx);
            assert(txs.take(i + 1) =~= txs.take(i as int).push(tx));
        }
        i += 1;
    }
    assert(txs.take(i as int) =~= txs);
    let ghost known = pool@;
    let hashes = &event.ordered_tx_hashes;
    let mut transactions: Vec<MeteredTransaction> = Vec::new();
    let mut k: usize = 0;
    assert(known.remove_keys(hashes@.take(0).to_set()) =~= known);
    while k < hashes.len()
        invariant
            k <= hashes.len(),
            pool.wf(),
            pool@ == known.remove_keys(hashes@.take(k as int).to_set()),
            transactions@ == matched(known, hashes@.take(k as int)),
        decreases hashes.len() - k,
    {
        proof {
            assert(hashes@.take(k + 1).drop_last() =~= hashes@.take(k as int));
            lemma_remove_next(known, hashes@, k as int);
        }
        if let Some(tx) = pool.take(&hashes[k]) {
            transactions.push(tx);
        }
        k += 1;
    }
    assert(hashes@.take(k as int) =~= hashes@);
    if transactions.len() == 0 {
        return FlashblockOutcome::NoMatch;
    }
    FlashblockOutcome::Snapshot(
        FlashblockSnapshot {
            block_number: event.block_number,
            flashblock_index: event.flashblock_index,
            transactions,
        },
    )
}

/// A transaction with a new hash adds one entry.
proof fn lemma_by_hash_push(txs: Seq<MeteredTransaction>, tx: MeteredTransaction)
    requires
        distinct_hashes(txs.push(tx)),
    ensures
        by_hash(txs.push(tx)) == by_hash(txs).insert(tx.tx_hash, tx),
{
    let longer = txs.push(tx);
    assert(distinct_hashes(txs)) by {
        assert forall|i: int, j: int| 0 <= i < j < txs.len() implies (#[trigger] txs[i]).tx_hash
            != (#[trigger] txs[j]).tx_hash by {
            assert(longer[i] == txs[i] && longer[j] == txs[j]);
        }
    }
    assert forall|hash: TxHash| #[trigger] has_hash(longer, hash) == (has_hash(txs, hash) || hash
        == tx.tx_hash) by {
        if has_hash(txs, hash) {
            let i = hash_index(txs, hash);
            assert(longer[i].tx_hash == hash);
        }
        if hash == tx.tx_hash {
            assert(longer[txs.len() as int].tx_hash == hash);
        }
        if has_hash(longer, hash) && hash != tx.tx_hash {
            let i = hash_index(longer, hash);
            assert(txs[i].tx_hash == hash);
        }
    }
    assert forall|hash: TxHash| #[trigger] has_hash(longer, hash) implies longer[hash_index(
        longer,
        hash,
    )] == (if hash == tx.tx_hash {
        tx
    } else {
        txs[hash_index(txs, hash)]
    }) by {
        let i = hash_index(longer, hash);
        lemma_hash_index(longer, i);
        if hash == tx.tx_hash {
            lemma_hash_index(longer, txs.len() as int);
        } else {
            lemma_hash_index(txs, i);
        }
    }
    assert(by_hash(longer) =~= by_hash(txs).insert(tx.tx_hash, tx));
}

/// Taking the hash at `k` out as well leaves what the first `k + 1` hashes leave.
pub(crate) proof fn lemma_remove_next(
    pool: Map<TxHash, MeteredTransaction>,
    hashes: Seq<TxHash>,
    k: int,
)
    requires
        0 <= k < hashes.len(),
    ensures
        pool.remove_keys(hashes.take(k).to_set()).remove(hashes[k]) == pool.remove_keys(
            hashes.take(k + 1).to_set(),
        ),
        pool.remove_keys(hashes.take(k).to_set()).contains_key(hashes[k]) == (pool.contains_key(
            hashes[k],
        ) && !hashes.take(k).contains(hashes[k])),
{
    let longer = hashes.take(k + 1);
    assert forall|hash: TxHash| #[trigger]
        longer.contains(hash) == (hashes.take(k).contains(hash) || hash == hashes[k]) by {
        if hashes.take(k).contains(hash) {
            let i = choose|i: int| 0 <= i < k && hashes.take(k)[i] == hash;
            assert(longer[i] == hash);
        }
        if hash == hashes[k] {
            assert(longer[k] == hash);
        }
        if longer.contains(hash) && hash != hashes[k] {
            let i = choose|i: int| 0 <= i < longer.len() && longer[i] == hash;
            assert(hashes.take(k)[i] == hash);
        }
    }
    assert(pool.remove_keys(hashes.take(k).to_set()).remove(hashes[k]) =~= pool.remove_keys(
        hashes.take(k + 1).to_set(),
    ));
}

} // verus!
