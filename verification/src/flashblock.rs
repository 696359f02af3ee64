use crate::indexed::{
    has_key, index_map_get, index_map_insert, index_map_len, index_map_new,
    index_map_shift_remove, index_map_values, key_index, pairs_of,
};
use crate::order::{by_fee, insert_by_fee, sort_by_fee};
use crate::resource::ResourceTotals;
use crate::transaction::{MeteredTransaction, TxHash};
use indexmap::IndexMap;
use vstd::prelude::*;

verus! {

/// Whether some transaction has the hash `hash`.
pub open spec fn has_hash(txs: Seq<MeteredTransaction>, hash: TxHash) -> bool {
    exists|i: int| 0 <= i < txs.len() && (#[trigger] txs[i]).tx_hash == hash
}

/// The position of the transaction with the hash `hash`.
pub open spec fn hash_index(txs: Seq<MeteredTransaction>, hash: TxHash) -> int {
    choose|i: int| 0 <= i < txs.len() && (#[trigger] txs[i]).tx_hash == hash
}

/// Whether no two transactions have the same hash.
pub open spec fn distinct_hashes(txs: Seq<MeteredTransaction>) -> bool {
    forall|i: int, j: int|
        0 <= i < j < txs.len() ==> (#[trigger] txs[i]).tx_hash != (#[trigger] txs[j]).tx_hash
}

/// The transactions with `tx` in place of the one with its hash, or last where there is none.
pub open spec fn upserted(txs: Seq<MeteredTransaction>, tx: MeteredTransaction) -> Seq<
    MeteredTransaction,
> {
    if has_hash(txs, tx.tx_hash) {
        txs.update(hash_index(txs, tx.tx_hash), tx)
    } else {
        txs.push(tx)
    }
}

/// The transactions without the one that has the hash `hash`, in their order.
pub open spec fn without(txs: Seq<MeteredTransaction>, hash: TxHash) -> Seq<MeteredTransaction> {
    if has_hash(txs, hash) {
        txs.remove(hash_index(txs, hash))
    } else {
        txs
    }
}

/// What the metrics of a flashblock stand for.
#[verifier::ext_equal]
pub struct FlashblockModel {
    pub block_number: u64,
    pub flashblock_index: u64,
    /// The transactions in the order in which their hashes were first seen.
    pub transactions: Seq<MeteredTransaction>,
    pub totals: ResourceTotals,
}

impl FlashblockModel {
    /// A flashblock without transactions.
    pub open spec fn empty(block_number: u64, flashblock_index: u64) -> Self {
        FlashblockModel {
            block_number,
            flashblock_index,
            transactions: Seq::empty(),
            totals: ResourceTotals::nothing(),
        }
    }

    /// The flashblock with `tx` recorded. The totals lose the usage of the transaction that
    /// it replaces, if any, and gain its own.
    pub open spec fn upsert(self, tx: MeteredTransaction) -> Self {
        let kept = if has_hash(self.transactions, tx.tx_hash) {
            self.totals.minus(self.transactions[hash_index(self.transactions, tx.tx_hash)])
        } else {
            self.totals
        };
        FlashblockModel {
            transactions: upserted(self.transactions, tx),
            totals: kept.plus(tx),
            ..self
        }
    }

    /// The transaction with the hash `hash`, if there is one.
    pub open spec fn find(self, hash: TxHash) -> Option<MeteredTransaction> {
        if has_hash(self.transactions, hash) {
            Some(self.transactions[hash_index(self.transactions, hash)])
        } else {
            None
        }
    }

    /// The flashblock without the transaction that has the hash `hash`.
    pub open spec fn remove(self, hash: TxHash) -> Self {
        FlashblockModel {
            transactions: without(self.transactions, hash),
            totals: match self.find(hash) {
                Some(tx) => self.totals.minus(tx),
                None => self.totals,
            },
            ..self
        }
    }

    /// Whether no two transactions have the same hash.
    pub open spec fn valid(self) -> bool {
        distinct_hashes(self.transactions)
    }

    /// Whether the totals are exactly the sums over the transactions.
    pub open spec fn exact(self) -> bool {
        self.totals.exact_for(self.transactions)
    }
}

/// Metrics for a single flashblock within a block.
#[derive(Debug)]
pub struct FlashblockMetrics {
    pub block_number: u64,
    pub flashblock_index: u64,
    /// Transactions keyed by hash in insertion order.
    pub(crate) transactions: IndexMap<TxHash, MeteredTransaction>,
    pub(crate) totals: ResourceTotals,
}

impl View for FlashblockMetrics {
    type V = FlashblockModel;

    closed spec fn view(&self) -> FlashblockModel {
        FlashblockModel {
            block_number: self.block_number,
            flashblock_index: self.flashblock_index,
            transactions: pairs_of(self.transactions).map_values(
                |pair: (TxHash, MeteredTransaction)| pair.1,
            ),
            totals: self.totals,
        }
    }
}

impl FlashblockMetrics {
    /// Every transaction is stored under its own hash, and no hash is stored twice.
    pub closed spec fn wf(self) -> bool {
        &&& forall|i: int|
            0 <= i < pairs_of(self.transactions).len() ==> (#[trigger] pairs_of(
                self.transactions,
            )[i]).0 == pairs_of(self.transactions)[i].1.tx_hash
        &&& distinct_hashes(self@.transactions)
    }

    /// The numbers that the view holds are those of the fields.
    pub(crate) broadcast proof fn lemma_view_numbers(self)
        ensures
            (#[trigger] self@).block_number == self.block_number,
            self@.flashblock_index == self.flashblock_index,
    {
    }

    /// What well-formedness says of the view.
    pub broadcast proof fn lemma_wf_view(self)
        requires
            #[trigger] self.wf(),
        ensures
            self@.valid(),
    {
    }

    proof fn lemma_keys_are_hashes(self, hash: TxHash)
        requires
            self.wf(),
        ensures
            has_key(pairs_of(self.transactions), hash) == has_hash(self@.transactions, hash),
            has_hash(self@.transactions, hash) ==> key_index(pairs_of(self.transactions), hash)
                == hash_index(self@.transactions, hash),
    {
        let pairs = pairs_of(self.transactions);
        let txs = self@.transactions;
        if has_key(pairs, hash) {
            let i = key_index(pairs, hash);
            assert(txs[i].tx_hash == hash);
        }
        if has_hash(txs, hash) {
            let i = hash_index(txs, hash);
            assert(pairs[i].0 == hash);
            let k = key_index(pairs, hash);
            assert(txs[k].tx_hash == hash);
        }
    }

    /// Metrics of a flashblock without transactions.
    pub fn new(block_number: u64, flashblock_index: u64) -> (r: Self)
        ensures
            r.wf(),
            r@ == FlashblockModel::empty(block_number, flashblock_index),
    {
        let r = Self {
            block_number,
            flashblock_index,
            transactions: index_map_new(),
            totals: ResourceTotals::default(),
        };
        assert(r@.transactions =~= Seq::empty());
        r
    }

    /// Records `tx`. A transaction with its hash is replaced where it stands.
    pub fn upsert_transaction(&mut self, tx: MeteredTransaction)
        requires
            old(self).wf(),
        ensures
            final(self).wf(),
            final(self)@ == old(self)@.upsert(tx),
    {
        let tx_hash = tx.tx_hash;
        proof {
            self.lemma_keys_are_hashes(tx_hash);
        }
        if let Some(existing) = index_map_get(&self.transactions, &tx_hash) {
            self.totals.subtract(existing);
        }
        self.totals.accumulate(&tx);
        let _ = index_map_insert(&mut self.transactions, tx_hash, tx);
        proof {
            let txs = old(self)@.transactions;
            assert(self@.transactions =~= upserted(txs, tx));
            lemma_upserted_distinct(txs, tx);
        }
    }

    /// Takes the transaction with the hash `tx_hash` out and returns it.
    pub fn remove_transaction(&mut self, tx_hash: &TxHash) -> (removed: Option<MeteredTransaction>)
        requires
            old(self).wf(),
        ensures
            final(self).wf(),
            final(self)@ == old(self)@.remove(*tx_hash),
            removed == old(self)@.find(*tx_hash),
    {
        proof {
            self.lemma_keys_are_hashes(*tx_hash);
        }
        let removed = index_map_shift_remove(&mut self.transactions, tx_hash);
        if let Some(ref tx) = removed {
            self.totals.subtract(tx);
        }
        proof {
            let txs = old(self)@.transactions;
            assert(self@.transactions =~= without(txs, *tx_hash));
        }
        removed
    }

    /// Returns the running totals.
    pub fn totals(&self) -> (r: ResourceTotals)
        ensures
            r == self@.totals,
    {
        self.totals
    }

    /// Returns the transactions in insertion order.
    pub fn transactions(&self) -> (r: Vec<&MeteredTransaction>)
        ensures
            r@.unref() == self@.transactions,
    {
        let r = index_map_values(&self.transactions);
        assert(r@.unref() =~= self@.transactions);
        r
    }

    /// Returns the transactions from the lowest priority fee to the highest. Transactions
    /// that pay the same stay in insertion order.
    pub fn transactions_sorted_by_priority_fee(&self) -> (r: Vec<&MeteredTransaction>)
        ensures
            r@.unref() == by_fee(self@.transactions),
    {
        let txs = self.transactions();
        proof {
            lemma_by_fee_unref(txs@);
        }
        sort_by_fee(&txs)
    }

    /// Returns the number of transactions.
    pub fn len(&self) -> (r: usize)
        ensures
            r == self@.transactions.len(),
    {
        index_map_len(&self.transactions)
    }

    /// Returns whether there is no transaction.
    pub fn is_empty(&self) -> (r: bool)
        ensures
            r == (self@.transactions.len() == 0),
    {
        self.len() == 0
    }
}

/// Ordering references orders what they refer to.
proof fn lemma_by_fee_unref(refs: Seq<&MeteredTransaction>)
    ensures
        by_fee(refs).unref() == by_fee(refs.unref()),
    decreases refs.len(),
{
    if refs.len() == 0 {
        assert(by_fee(refs).unref() =~= by_fee(refs.unref()));
    } else {
        lemma_by_fee_unref(refs.drop_last());
        assert(refs.drop_last().unref() =~= refs.unref().drop_last());
        lemma_insert_unref(by_fee(refs.drop_last()), refs.last());
    }
}

proof fn lemma_insert_unref(refs: Seq<&MeteredTransaction>, item: &MeteredTransaction)
    ensures
        insert_by_fee(refs, item).unref() == insert_by_fee(refs.unref(), *item),
    decreases refs.len(),
{
    if refs.len() == 0 || refs.last().priority_fee_per_gas@ <= item.priority_fee_per_gas@ {
        assert(refs.push(item).unref() =~= refs.unref().push(*item));
    } else {
        lemma_insert_unref(refs.drop_last(), item);
        assert(refs.drop_last().unref() =~= refs.unref().drop_last());
        assert(insert_by_fee(refs.drop_last(), item).push(refs.last()).unref()
            =~= insert_by_fee(refs.drop_last(), item).unref().push(*refs.last()));
    }
}

/// Where hashes are distinct, a hash stands at one position only.
pub proof fn lemma_hash_index(txs: Seq<MeteredTransaction>, i: int)
    requires
        distinct_hashes(txs),
        0 <= i < txs.len(),
    ensures
        has_hash(txs, txs[i].tx_hash),
        hash_index(txs, txs[i].tx_hash) == i,
{
    let k = hash_index(txs, txs[i].tx_hash);
    assert(txs[i].tx_hash == txs[i].tx_hash);
    assert(0 <= k < txs.len() && txs[k].tx_hash == txs[i].tx_hash);
    if k < i {
        assert(txs[k].tx_hash != txs[i].tx_hash);
    } else if i < k {
        assert(txs[i].tx_hash != txs[k].tx_hash);
    }
}

/// Recording a transaction keeps the hashes distinct.
pub proof fn lemma_upserted_distinct(txs: Seq<MeteredTransaction>, tx: MeteredTransaction)
    requires
        distinct_hashes(txs),
    ensures
        distinct_hashes(upserted(txs, tx)),
{
}

} // verus!
