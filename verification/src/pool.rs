use crate::indexed::{
    has_key, index_map_insert, index_map_new, index_map_shift_remove, key_index, pairs_of,
};
use crate::transaction::{MeteredTransaction, TxHash};
use indexmap::IndexMap;
use vstd::prelude::*;

verus! {

/// Whether every transaction stands under its own hash.
pub open spec fn own_hashes(pool: Map<TxHash, MeteredTransaction>) -> bool {
    forall|hash: TxHash| #[trigger] pool.contains_key(hash) ==> pool[hash].tx_hash == hash
}

/// Metered transactions to be looked up by hash and taken out.
#[derive(Debug)]
pub struct TransactionPool {
    by_hash: IndexMap<TxHash, MeteredTransaction>,
}

impl View for TransactionPool {
    type V = Map<TxHash, MeteredTransaction>;

    closed spec fn view(&self) -> Map<TxHash, MeteredTransaction> {
        Map::new(
            |hash: TxHash| has_key(pairs_of(self.by_hash), hash),
            |hash: TxHash| pairs_of(self.by_hash)[key_index(pairs_of(self.by_hash), hash)].1,
        )
    }
}

impl TransactionPool {
    /// No hash stands twice, and each stands with the transaction that has it.
    pub closed spec fn wf(self) -> bool {
        &&& forall|i: int, j: int|
            0 <= i < j < pairs_of(self.by_hash).len() ==> (#[trigger] pairs_of(self.by_hash)[i]).0
                != (#[trigger] pairs_of(self.by_hash)[j]).0
        &&& forall|i: int|
            0 <= i < pairs_of(self.by_hash).len() ==> (#[trigger] pairs_of(self.by_hash)[i]).0
                == pairs_of(self.by_hash)[i].1.tx_hash
    }

    /// What well-formedness says of the view.
    pub broadcast proof fn lemma_wf_view(self)
        requires
            #[trigger] self.wf(),
        ensures
            own_hashes(self@),
    {
        assert forall|hash: TxHash| #[trigger] self@.contains_key(hash) implies self@[hash].tx_hash
            == hash by {
            let i = key_index(pairs_of(self.by_hash), hash);
            assert(pairs_of(self.by_hash)[i].0 == hash);
        }
    }

    proof fn lemma_only_index(self, i: int)
        requires
            self.wf(),
            0 <= i < pairs_of(self.by_hash).len(),
        ensures
            key_index(pairs_of(self.by_hash), pairs_of(self.by_hash)[i].0) == i,
    {
        let pairs = pairs_of(self.by_hash);
        let k = key_index(pairs, pairs[i].0);
        assert(pairs[i].0 == pairs[i].0);
        assert(0 <= k < pairs.len() && pairs[k].0 == pairs[i].0);
        if k < i {
            assert(pairs[k].0 != pairs[i].0);
        } else if i < k {
            assert(pairs[i].0 != pairs[k].0);
        }
    }

    /// A pool without transactions.
    pub fn new() -> (r: Self)
        ensures
            r.wf(),
            r@ == Map::<TxHash, MeteredTransaction>::empty(),
    {
        let r = Self { by_hash: index_map_new() };
        assert(r@ =~= Map::empty());
        r
    }

    /// Puts `tx` in under its hash, in place of one that is there.
    pub fn put(&mut self, tx: MeteredTransaction)
        requires
            old(self).wf(),
        ensures
            final(self).wf(),
            final(self)@ == old(self)@.insert(tx.tx_hash, tx),
    {
        let _ = index_map_insert(&mut self.by_hash, tx.tx_hash, tx);
        proof {
            let before = pairs_of(old(self).by_hash);
            let after = pairs_of(self.by_hash);
            assert(self.wf());
            assert forall|hash: TxHash| #[trigger]
                has_key(after, hash) == (has_key(before, hash) || hash == tx.tx_hash) by {
                if has_key(before, hash) {
                    let i = key_index(before, hash);
                    assert(after[i].0 == hash);
                }
                if hash == tx.tx_hash {
                    if has_key(before, hash) {
                        assert(after[key_index(before, hash)].0 == hash);
                    } else {
                        assert(after[before.len() as int].0 == hash);
                    }
                }
                if has_key(after, hash) && hash != tx.tx_hash {
                    let i = key_index(after, hash);
                    assert(after[i].0 == hash);
                    assert(before[i].0 == hash);
                }
            }
            assert forall|hash: TxHash| #[trigger] has_key(after, hash) implies after[key_index(
                after,
                hash,
            )].1 == (if hash == tx.tx_hash {
                tx
            } else {
                before[key_index(before, hash)].1
            }) by {
                let i = key_index(after, hash);
                assert(0 <= i < after.len() && after[i].0 == hash);
                if hash == tx.tx_hash {
                    if has_key(before, hash) {
                        self.lemma_only_index(key_index(before, hash));
                    } else {
                        self.lemma_only_index(before.len() as int);
                    }
                } else {
                    assert(before[i].0 == hash);
                    old(self).lemma_only_index(i);
                }
            }
            assert(self@ =~= old(self)@.insert(tx.tx_hash, tx));
        }
    }

    /// Takes the transaction with the hash `hash` out and returns it.
    pub fn take(&mut self, hash: &TxHash) -> (r: Option<MeteredTransaction>)
        requires
            old(self).wf(),
        ensures
            final(self).wf(),
            final(self)@ == old(self)@.remove(*hash),
            r == (if old(self)@.contains_key(*hash) {
                Some(old(self)@[*hash])
            } else {
                None
            }),
    {
        let r = index_map_shift_remove(&mut self.by_hash, hash);
        proof {
            let before = pairs_of(old(self).by_hash);
            let after = pairs_of(self.by_hash);
            let gone = key_index(before, *hash);
            assert(self.wf());
            if has_key(before, *hash) {
                assert forall|h: TxHash| #[trigger] has_key(after, h) == (has_key(before, h) && h
                    != *hash) by {
                    if has_key(after, h) {
                        let i = key_index(after, h);
                        assert(after[i].0 == h);
                        let j = if i < gone {
                            i
                        } else {
                            i + 1
                        };
                        assert(before[j].0 == h);
                        if h == *hash {
                            old(self).lemma_only_index(j);
                        }
                    }
                    if has_key(before, h) && h != *hash {
                        let j = key_index(before, h);
                        assert(before[j].0 == h);
                        let i = if j < gone {
                            j
                        } else {
                            j - 1
                        };
                        assert(after[i].0 == h);
                    }
                }
                assert forall|h: TxHash| #[trigger] has_key(after, h) implies after[key_index(
                    after,
                    h,
                )].1 == before[key_index(before, h)].1 by {
                    let i = key_index(after, h);
                    assert(0 <= i < after.len() && after[i].0 == h);
                    let j = if i < gone {
                        i
                    } else {
                        i + 1
                    };
                    assert(before[j].0 == h);
                    old(self).lemma_only_index(j);
                }
            }
            assert(self@ =~= old(self)@.remove(*hash));
        }
        r
    }
}

} // verus!
