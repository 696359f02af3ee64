use crate::cache::{exceeds_cap, CacheModel, MeteringCache};
use crate::cache_laws::law_flashblock_count;
use crate::inclusion::{matched, FlashblockInclusion};
use crate::pool::{own_hashes, TransactionPool};
use crate::streams::lemma_remove_next;
use crate::transaction::{MeteredTransaction, TxHash};
use vstd::prelude::*;

verus! {

/// The cache with `txs` recorded one after the other in the flashblock at this place.
pub open spec fn recorded(
    cache: CacheModel,
    block_number: u64,
    flashblock_index: u64,
    txs: Seq<MeteredTransaction>,
) -> CacheModel
    decreases txs.len(),
{
    if txs.len() == 0 {
        cache
    } else {
        recorded(cache, block_number, flashblock_index, txs.drop_last()).upsert(
            block_number,
            flashblock_index,
            txs.last(),
        )
    }
}

/// Whether an inclusion message turns what is pending into `left` and the cache into `after`: the
/// pending transactions that it names are recorded in its order, the others stay pending. `r` is
/// the number of recorded transactions, and whether this put in a flashblock beyond the number
/// expected of a block.
pub open spec fn annotated(
    pending: Map<TxHash, MeteredTransaction>,
    before: CacheModel,
    event: FlashblockInclusion,
    left: Map<TxHash, MeteredTransaction>,
    after: CacheModel,
    r: (usize, bool),
) -> bool {
    &&& left == pending.remove_keys(event.ordered_tx_hashes@.to_set())
    &&& after == recorded(
        before,
        event.block_number,
        event.flashblock_index,
        matched(pending, event.ordered_tx_hashes@),
    )
    &&& r.0 == matched(pending, event.ordered_tx_hashes@).len()
    &&& r.1 == exceeds_cap(before, after, event.block_number, event.flashblock_index)
}

/// Holds metered transactions back until the flashblocks feed tells where they were
/// included, and records them in the cache then.
#[derive(Debug)]
pub struct ResourceAnnotator {
    pending: TransactionPool,
}

impl View for ResourceAnnotator {
    type V = Map<TxHash, MeteredTransaction>;

    /// The pending transactions by their hash.
    closed spec fn view(&self) -> Map<TxHash, MeteredTransaction> {
        self.pending@
    }
}

impl ResourceAnnotator {
    /// The pending transactions are well formed.
    pub closed spec fn wf(self) -> bool {
        self.pending.wf()
    }

    /// What well-formedness says of the view.
    pub broadcast proof fn lemma_wf_view(self)
        requires
            #[trigger] self.wf(),
        ensures
            own_hashes(self@),
    {
        self.pending.lemma_wf_view();
    }

    /// An annotator without pending transactions.
    pub fn new() -> (r: Self)
        ensures
            r.wf(),
            r@ == Map::<TxHash, MeteredTransaction>::empty(),
    {
        Self { pending: TransactionPool::new() }
    }

    /// Holds `tx` back until its inclusion is known.
    pub fn handle_tx_event(&mut self, tx: MeteredTransaction)
        requires
            old(self).wf(),
        ensures
            final(self).wf(),
            final(self)@ == old(self)@.insert(tx.tx_hash, tx),
    {
        self.pending.put(tx);
    }

    /// Records the pending transactions that the message names in the cache, in the order of
    /// the message. Those that it does not name stay pending. Returns the number of recorded
    /// transactions, and whether this put in a flashblock beyond the number expected of a block.
    pub fn handle_flashblock_event(
        &mut self,
        cache: &mut MeteringCache,
        event: &FlashblockInclusion,
    ) -> (r: (usize, bool))
        requires
            old(self).wf(),
            old(cache).wf(),
            old(cache)@.max_blocks > 0,
        ensures
            final(self).wf(),
            final(cache).wf(),
            annotated(old(self)@, old(cache)@, *event, final(self)@, final(cache)@, r),
    {
        let ghost known = self@;
        let hashes = &event.ordered_tx_hashes;
        let mut count: usize = 0;
        let mut over_cap = false;
        let mut k: usize = 0;
        assert(known.remove_keys(hashes@.take(0).to_set()) =~= known);
        while k < hashes.len()
            invariant
                k <= hashes.len(),
                count <= k,
                hashes == event.ordered_tx_hashes,
                known == old(self)@,
                self.wf(),
                cache.wf(),
                cache@.max_blocks == old(cache)@.max_blocks,
                cache@.flashblock_cap == old(cache)@.flashblock_cap,
                old(cache)@.max_blocks > 0,
                self@ == known.remove_keys(hashes@.take(k as int).to_set()),
                cache@ == recorded(
                    old(cache)@,
                    event.block_number,
                    event.flashblock_index,
                    matched(known, hashes@.take(k as int)),
                ),
                count == matched(known, hashes@.take(k as int)).len(),
                count == 0 ==> cache@ == old(cache)@,
                count > 0 ==> cache@.find_flashblock(
                    event.block_number,
                    event.flashblock_index,
                ) is Some,
                over_cap == exceeds_cap(
                    old(cache)@,
                    cache@,
                    event.block_number,
                    event.flashblock_index,
                ),
            decreases hashes.len() - k,
        {
            proof {
                assert(hashes@.take(k + 1).drop_last() =~= hashes@.take(k as int));
                lemma_remove_next(known, hashes@, k as int);
            }
            if let Some(tx) = self.pending.take(&hashes[k]) {
                let ghost before = cache@;
                proof {
                    cache.lemma_wf_view();
                    law_flashblock_count(
                        before,
                        event.block_number,
                        event.flashblock_index,
                        tx,
                    );
                }
                let over = cache.upsert_transaction(event.block_number, event.flashblock_index, tx);
                over_cap = over_cap || over;
                count += 1;
                proof {
                    let earlier = matched(known, hashes@.take(k as int));
                    assert(earlier.push(tx).drop_last() =~= earlier);
                }
            }
            k += 1;
        }
        assert(hashes@.take(k as int) =~= hashes@);
        (count, over_cap)
    }
}

} // verus!
