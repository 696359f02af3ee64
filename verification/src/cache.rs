use crate::block::{BlockMetrics, BlockModel};
use crate::flashblock::{FlashblockMetrics, FlashblockModel};
use crate::transaction::{MeteredTransaction, TxHash};
use std::collections::{HashMap, VecDeque};
use vstd::prelude::*;

verus! {

/// Number of flashblocks that a block is expected to have at most.
pub const DEFAULT_FLASHBLOCKS_PER_BLOCK: usize = 10;

/// The last `max` blocks.
pub open spec fn keep_newest(blocks: Seq<BlockModel>, max: nat) -> Seq<BlockModel> {
    if blocks.len() > max {
        blocks.skip(blocks.len() - max)
    } else {
        blocks
    }
}

/// Whether no two blocks have the same number.
pub open spec fn distinct_numbers(blocks: Seq<BlockModel>) -> bool {
    forall|i: int, j: int|
        0 <= i < j < blocks.len() ==> (#[trigger] blocks[i]).block_number != (
        #[trigger] blocks[j]).block_number
}

/// What a cache stands for.
#[verifier::ext_equal]
pub struct CacheModel {
    pub max_blocks: usize,
    /// The number of flashblocks that a block is expected to have at most.
    pub flashblock_cap: usize,
    /// The blocks in the order in which they came in, the oldest first.
    pub blocks: Seq<BlockModel>,
}

impl CacheModel {
    /// Whether the blocks are valid, their numbers distinct, and no more of them than allowed.
    pub open spec fn valid(self) -> bool {
        &&& distinct_numbers(self.blocks)
        &&& self.blocks.len() <= self.max_blocks
        &&& forall|i: int| 0 <= i < self.blocks.len() ==> (#[trigger] self.blocks[i]).valid()
    }

    /// Whether there is a block with this number.
    pub open spec fn has_block(self, block_number: u64) -> bool {
        exists|i: int|
            0 <= i < self.blocks.len() && (#[trigger] self.blocks[i]).block_number == block_number
    }

    /// The position of the block with this number.
    pub open spec fn position(self, block_number: u64) -> int {
        choose|i: int|
            0 <= i < self.blocks.len() && (#[trigger] self.blocks[i]).block_number == block_number
    }

    /// The block with this number, if there is one.
    pub open spec fn find(self, block_number: u64) -> Option<BlockModel> {
        if self.has_block(block_number) {
            Some(self.blocks[self.position(block_number)])
        } else {
            None
        }
    }

    /// The flashblock at this place, if there is one.
    pub open spec fn find_flashblock(self, block_number: u64, index: u64) -> Option<
        FlashblockModel,
    > {
        match self.find(block_number) {
            Some(block) => if block.flashblocks.contains_key(index) {
                Some(block.flashblocks[index])
            } else {
                None
            },
            None => None,
        }
    }

    /// The cache with a block of this number. Where there was none, an empty one has come
    /// in as the newest, and the oldest have gone as far as there were too many.
    pub open spec fn with_block(self, block_number: u64) -> Self {
        if self.has_block(block_number) {
            self
        } else {
            CacheModel {
                blocks: keep_newest(
                    self.blocks.push(BlockModel::empty(block_number)),
                    self.max_blocks as nat,
                ),
                ..self
            }
        }
    }

    /// The cache with `block` in place of the block with this number.
    pub open spec fn set_block(self, block_number: u64, block: BlockModel) -> Self {
        CacheModel {
            blocks: self.blocks.update(self.position(block_number), block),
            ..self
        }
    }

    /// The cache with `flashblock` put at this place, and the totals of the block added up
    /// afresh.
    pub open spec fn set_flashblock(
        self,
        block_number: u64,
        index: u64,
        flashblock: FlashblockModel,
    ) -> Self {
        let cache = self.with_block(block_number);
        let block = cache.blocks[cache.position(block_number)];
        cache.set_block(block_number, block.with_flashblock(index, flashblock).recomputed())
    }

    /// The flashblock at this place, or one without transactions where there is none.
    pub open spec fn flashblock_or_new(self, block_number: u64, index: u64) -> FlashblockModel {
        match self.find_flashblock(block_number, index) {
            Some(flashblock) => flashblock,
            None => FlashblockModel::empty(block_number, index),
        }
    }

    /// The cache with `tx` recorded in the flashblock at this place.
    pub open spec fn upsert(self, block_number: u64, index: u64, tx: MeteredTransaction) -> Self {
        self.set_flashblock(
            block_number,
            index,
            self.flashblock_or_new(block_number, index).upsert(tx),
        )
    }

    /// The cache without the transaction `hash` in the flashblock at this place.
    pub open spec fn remove(self, block_number: u64, index: u64, hash: TxHash) -> Self {
        self.set_flashblock(
            block_number,
            index,
            self.flashblock_or_new(block_number, index).remove(hash),
        )
    }
}

/// Whether a flashblock has come in at this place that takes its block beyond the number of
/// flashblocks expected of it.
pub open spec fn exceeds_cap(
    before: CacheModel,
    after: CacheModel,
    block_number: u64,
    index: u64,
) -> bool {
    &&& before.find_flashblock(block_number, index) is None
    &&& after.find_flashblock(block_number, index) is Some
    &&& after.find(block_number)->0.flashblocks.len() > before.flashblock_cap
}

/// A block that was put in is there, and it is the one that was there or an empty one.
pub proof fn lemma_with_block(cache: CacheModel, block_number: u64)
    requires
        distinct_numbers(cache.blocks),
        cache.max_blocks > 0,
    ensures
        cache.with_block(block_number).has_block(block_number),
        distinct_numbers(cache.with_block(block_number).blocks),
        cache.with_block(block_number).find(block_number) == Some(
            match cache.find(block_number) {
                Some(block) => block,
                None => BlockModel::empty(block_number),
            },
        ),
{
    if !cache.has_block(block_number) {
        let pushed = cache.blocks.push(BlockModel::empty(block_number));
        let after = cache.with_block(block_number);
        let newest = after.blocks.len() - 1;
        assert(after.blocks[newest] == BlockModel::empty(block_number));
        assert forall|i: int, j: int| 0 <= i < j < after.blocks.len() implies (
        #[trigger] after.blocks[i]).block_number != (#[trigger] after.blocks[j]).block_number by {
            let d = pushed.len() - after.blocks.len();
            assert(after.blocks[i] == pushed[i + d] && after.blocks[j] == pushed[j + d]);
            assert(pushed[i + d] == cache.blocks[i + d]);
            if j < newest {
                assert(pushed[j + d] == cache.blocks[j + d]);
            }
        }
        let p = after.position(block_number);
        assert(0 <= p < after.blocks.len() && after.blocks[p].block_number == block_number);
        if p < newest {
            assert(after.blocks[p].block_number != after.blocks[newest].block_number);
        }
    }
}

/// Putting a block in the place of one with its number makes it the one found there and
/// changes no other.
pub proof fn lemma_set_block(cache: CacheModel, block_number: u64, block: BlockModel)
    requires
        distinct_numbers(cache.blocks),
        cache.has_block(block_number),
        block.block_number == block_number,
    ensures
        cache.set_block(block_number, block).find(block_number) == Some(block),
        distinct_numbers(cache.set_block(block_number, block).blocks),
        forall|other: u64|
            other != block_number ==> #[trigger] cache.set_block(block_number, block).find(other)
                == cache.find(other),
{
    let after = cache.set_block(block_number, block);
    let i = cache.position(block_number);
    assert(after.blocks[i].block_number == block_number);
    let k = after.position(block_number);
    assert(0 <= k < after.blocks.len() && after.blocks[k].block_number == block_number);
    if k != i {
        assert(cache.blocks[k].block_number == block_number);
        assert(cache.blocks[i].block_number == block_number);
    }
    assert forall|other: u64| other != block_number implies #[trigger] after.find(other)
        == cache.find(other) by {
        if cache.has_block(other) {
            let p = cache.position(other);
            assert(after.blocks[p].block_number == other);
            let q = after.position(other);
            assert(0 <= q < after.blocks.len() && after.blocks[q].block_number == other);
            assert(cache.blocks[q].block_number == other);
            assert(p == q) by {
                if p < q {
                    assert(cache.blocks[p].block_number != cache.blocks[q].block_number);
                } else if q < p {
                    assert(cache.blocks[q].block_number != cache.blocks[p].block_number);
                }
            }
        } else if after.has_block(other) {
            let q = after.position(other);
            assert(cache.blocks[q].block_number == other);
        }
    }
}

/// `std::collections::VecDeque::get_mut`: a reference to the block at `i`, through which
/// that block and nothing else can be changed.
#[verifier::external_body]
fn deque_get_mut<'a>(blocks: &'a mut VecDeque<BlockMetrics>, i: usize) -> (found: Option<
    &'a mut BlockMetrics,
>)
    ensures
        match found {
            Some(block) => {
                &&& i < old(blocks)@.len()
                &&& *block == old(blocks)@[i as int]
                &&& final(blocks)@ == old(blocks)@.update(i as int, *final(block))
            },
            None => i >= old(blocks)@.len() && final(blocks)@ == old(blocks)@,
        },
{
    blocks.get_mut(i)
}

/// In-memory cache maintaining metering data for the most recent blocks.
#[derive(Debug)]
pub struct MeteringCache {
    max_blocks: usize,
    blocks: VecDeque<BlockMetrics>,
    block_index: HashMap<u64, usize>,
    default_flashblocks_per_block: usize,
}

impl View for MeteringCache {
    type V = CacheModel;

    closed spec fn view(&self) -> CacheModel {
        CacheModel {
            max_blocks: self.max_blocks,
            flashblock_cap: self.default_flashblocks_per_block,
            blocks: self.blocks@.map_values(|b: BlockMetrics| b@),
        }
    }
}

impl MeteringCache {
    /// The blocks are well formed and their numbers distinct.
    spec fn blocks_wf(self) -> bool {
        &&& forall|i: int| 0 <= i < self.blocks@.len() ==> (#[trigger] self.blocks@[i]).wf()
        &&& distinct_numbers(self@.blocks)
    }

    /// The index leads from each block number to the position of its block, and from no
    /// other number anywhere.
    spec fn index_wf(self) -> bool {
        &&& forall|i: int|
            #![trigger self.blocks@[i]]
            0 <= i < self.blocks@.len() ==> self.block_index@.contains_key(
                self.blocks@[i]@.block_number,
            ) && self.block_index@[self.blocks@[i]@.block_number] == i
        &&& forall|n: u64| #[trigger]
            self.block_index@.contains_key(n) ==> {
                &&& self.block_index@[n] < self.blocks@.len()
                &&& self.blocks@[self.block_index@[n] as int]@.block_number == n
            }
    }

    /// The blocks are well formed, their numbers distinct and found through the index, and
    /// there are no more of them than allowed.
    pub closed spec fn wf(self) -> bool {
        &&& self.blocks_wf()
        &&& self.index_wf()
        &&& self.blocks@.len() <= self.max_blocks
    }

    /// What well-formedness says of the view.
    pub broadcast proof fn lemma_wf_view(self)
        requires
            #[trigger] self.wf(),
        ensures
            self@.valid(),
    {
        assert forall|i: int| 0 <= i < self@.blocks.len() implies (
        #[trigger] self@.blocks[i]).valid() by {
            self.blocks@[i].lemma_wf_view();
        }
    }

    proof fn lemma_index(self, n: u64)
        requires
            self.blocks_wf(),
            self.index_wf(),
        ensures
            self.block_index@.contains_key(n) == self@.has_block(n),
            self@.has_block(n) ==> self.block_index@[n] == self@.position(n),
    {
        if self.block_index@.contains_key(n) {
            let i = self.block_index@[n] as int;
            assert(self@.blocks[i].block_number == n);
        }
        if self@.has_block(n) {
            let i = self@.position(n);
            assert(self.blocks@[i]@.block_number == n);
        }
    }

    /// Creates a new cache retaining at most `max_blocks` recent blocks.
    pub fn new(max_blocks: usize) -> (r: Self)
        ensures
            r.wf(),
            r@ == (CacheModel {
                max_blocks,
                flashblock_cap: DEFAULT_FLASHBLOCKS_PER_BLOCK,
                blocks: Seq::empty(),
            }),
    {
        let r = Self {
            max_blocks,
            blocks: VecDeque::new(),
            block_index: HashMap::new(),
            default_flashblocks_per_block: DEFAULT_FLASHBLOCKS_PER_BLOCK,
        };
        assert(r@.blocks =~= Seq::empty());
        r
    }

    /// Returns the number of blocks that the cache retains at most.
    pub fn max_blocks(&self) -> (r: usize)
        ensures
            r == self@.max_blocks,
    {
        self.max_blocks
    }

    /// Sets the number of flashblocks that a block is expected to have at most.
    pub fn set_default_flashblocks_per_block(&mut self, cap: usize)
        requires
            old(self).wf(),
        ensures
            final(self).wf(),
            final(self)@ == (CacheModel { flashblock_cap: cap, ..old(self)@ }),
    {
        self.default_flashblocks_per_block = cap;
        assert(self@.blocks =~= old(self)@.blocks);
    }

    /// Returns the block with this number, if there is one.
    pub fn block(&self, block_number: u64) -> (r: Option<&BlockMetrics>)
        requires
            self.wf(),
        ensures
            match r {
                Some(block) => block.wf() && self@.find(block_number) == Some(block@),
                None => self@.find(block_number) is None,
            },
    {
        proof {
            self.lemma_index(block_number);
        }
        match self.block_index.get(&block_number) {
            Some(idx) => {
                let i: usize = *idx;
                Some(&self.blocks[i])
            },
            None => None,
        }
    }

    /// Returns the block with this number for changing. Where there is none, an empty one
    /// comes in as the newest, and the oldest blocks go as far as there are too many.
    pub fn block_mut(&mut self, block_number: u64) -> (r: &mut BlockMetrics)
        requires
            old(self).wf(),
            old(self)@.max_blocks > 0,
        ensures
            r.wf(),
            old(self)@.with_block(block_number).find(block_number) == Some(r@),
            final(self)@ == old(self)@.with_block(block_number).set_block(block_number, final(r)@),
            final(r).wf() && final(r)@.block_number == block_number ==> final(self).wf(),
    {
        proof {
            self.lemma_index(block_number);
        }
        if !self.block_index.contains_key(&block_number) {
            let block = BlockMetrics::new(block_number);
            self.blocks.push_back(block);
            let idx: usize = self.blocks.len() - 1;
            let _ = self.block_index.insert(block_number, idx);
            proof {
                let n = old(self)@.blocks.len() as int;
                assert(self@.blocks =~= old(self)@.blocks.push(BlockModel::empty(block_number)));
                assert forall|i: int| 0 <= i < n implies (
                #[trigger] self.blocks@[i])@.block_number != block_number by {
                    assert(old(self)@.blocks[i].block_number != block_number);
                }
            }
            self.evict_if_needed();
            proof {
                let newest = self@.blocks.len() - 1;
                assert(self@.blocks[newest] == BlockModel::empty(block_number));
                assert(self@.has_block(block_number));
            }
        }
        proof {
            self.lemma_index(block_number);
        }
        let idx: usize = *self.block_index.get(&block_number).unwrap();
        deque_get_mut(&mut self.blocks, idx).unwrap()
    }

    /// Returns the flashblock at this place, if there is one.
    pub fn flashblock(&self, block_number: u64, flashblock_index: u64) -> (r: Option<
        &FlashblockMetrics,
    >)
        requires
            self.wf(),
        ensures
            match r {
                Some(f) => f.wf() && self@.find_flashblock(block_number, flashblock_index) == Some(
                    f@,
                ),
                None => self@.find_flashblock(block_number, flashblock_index) is None,
            },
    {
        match self.block(block_number) {
            Some(block) => block.flashblock(flashblock_index),
            None => None,
        }
    }

    /// Records `tx` in the flashblock at this place, which is put in if need be. Returns
    /// whether this put in a flashblock beyond the number expected of a block.
    pub fn upsert_transaction(
        &mut self,
        block_number: u64,
        flashblock_index: u64,
        tx: MeteredTransaction,
    ) -> (over_cap: bool)
        requires
            old(self).wf(),
            old(self)@.max_blocks > 0,
        ensures
            final(self).wf(),
            final(self)@ == old(self)@.upsert(block_number, flashblock_index, tx),
            over_cap == exceeds_cap(old(self)@, final(self)@, block_number, flashblock_index),
    {
        let flashblock_cap = self.default_flashblocks_per_block;
        proof {
            lemma_with_block(self@, block_number);
        }
        let block = self.block_mut(block_number);
        let (flashblock, is_new_flashblock) = block.flashblock_mut(flashblock_index);
        flashblock.upsert_transaction(tx);
        let over_cap = is_new_flashblock && block.flashblock_count() > flashblock_cap;
        block.recompute_totals();
        proof {
            lemma_set_block(old(self)@.with_block(block_number), block_number, block@);
        }
        over_cap
    }

    /// Takes the transaction with the hash `tx_hash` out of the flashblock at this place and
    /// returns it. Block and flashblock are put in if need be.
    pub fn remove_transaction(
        &mut self,
        block_number: u64,
        flashblock_index: u64,
        tx_hash: &TxHash,
    ) -> (removed: Option<MeteredTransaction>)
        requires
            old(self).wf(),
            old(self)@.max_blocks > 0,
        ensures
            final(self).wf(),
            final(self)@ == old(self)@.remove(block_number, flashblock_index, *tx_hash),
            removed == old(self)@.flashblock_or_new(block_number, flashblock_index).find(*tx_hash),
    {
        let block = self.block_mut(block_number);
        let (flashblock, _) = block.flashblock_mut(flashblock_index);
        let removed = flashblock.remove_transaction(tx_hash);
        block.recompute_totals();
        removed
    }

    /// Returns the number of blocks.
    pub fn len(&self) -> (r: usize)
        ensures
            r == self@.blocks.len(),
    {
        self.blocks.len()
    }

    /// Returns whether there is no block.
    pub fn is_empty(&self) -> (r: bool)
        ensures
            r == (self@.blocks.len() == 0),
    {
        self.blocks.len() == 0
    }

    /// Returns the blocks from the one that came in last to the one that came in first.
    pub fn blocks_desc(&self) -> (r: Vec<&BlockMetrics>)
        requires
            self.wf(),
        ensures
            r@.len() == self@.blocks.len(),
            forall|i: int|
                0 <= i < r@.len() ==> (#[trigger] r@[i]).wf() && r@[i]@
                    == self@.blocks.reverse()[i],
    {
        let mut r: Vec<&BlockMetrics> = Vec::new();
        let mut i: usize = self.blocks.len();
        while i > 0
            invariant
                self.wf(),
                i <= self.blocks.len(),
                r@.len() == self.blocks.len() - i,
                forall|k: int|
                    0 <= k < r@.len() ==> (#[trigger] r@[k]).wf() && r@[k]@
                        == self@.blocks.reverse()[k],
            decreases i,
        {
            i -= 1;
            r.push(&self.blocks[i]);
        }
        r
    }

    fn evict_if_needed(&mut self)
        requires
            old(self).blocks_wf(),
            old(self).index_wf(),
        ensures
            final(self).blocks_wf(),
            final(self).index_wf(),
            final(self)@ == (CacheModel {
                blocks: keep_newest(old(self)@.blocks, old(self)@.max_blocks as nat),
                ..old(self)@
            }),
    {
        while self.blocks.len() > self.max_blocks
            invariant
                self.blocks_wf(),
                self.index_wf(),
                self@.max_blocks == old(self)@.max_blocks,
                self@.flashblock_cap == old(self)@.flashblock_cap,
                self@.blocks.len() <= old(self)@.blocks.len(),
                self@.blocks == old(self)@.blocks.skip(
                    old(self)@.blocks.len() - self@.blocks.len(),
                ),
                self@.blocks.len() == old(self)@.blocks.len() || self@.blocks.len()
                    >= self@.max_blocks,
            decreases self.blocks.len(),
        {
            let ghost before = self@;
            if let Some(oldest) = self.blocks.pop_front() {
                let _ = self.block_index.remove(&oldest.block_number);
            }
            assert(self@.blocks =~= before.blocks.skip(1));
            // Rebuild the index: every position has moved.
            self.rebuild_index();
        }
        assert(self@.blocks =~= keep_newest(old(self)@.blocks, old(self)@.max_blocks as nat));
    }

    fn rebuild_index(&mut self)
        requires
            old(self).blocks_wf(),
        ensures
            final(self).blocks_wf(),
            final(self).index_wf(),
            final(self)@ == old(self)@,
    {
        self.block_index.clear();
        let mut idx: usize = 0;
        while idx < self.blocks.len()
            invariant
                idx <= self.blocks@.len(),
                self.blocks == old(self).blocks,
                self.max_blocks == old(self).max_blocks,
                self.default_flashblocks_per_block == old(self).default_flashblocks_per_block,
                self.blocks_wf(),
                forall|i: int|
                    #![trigger self.blocks@[i]]
                    0 <= i < idx ==> self.block_index@.contains_key(self.blocks@[i]@.block_number)
                        && self.block_index@[self.blocks@[i]@.block_number] == i,
                forall|n: u64| #[trigger]
                    self.block_index@.contains_key(n) ==> {
                        &&& self.block_index@[n] < idx
                        &&& self.blocks@[self.block_index@[n] as int]@.block_number == n
                    },
            decreases self.blocks.len() - idx,
        {
            broadcast use crate::block::BlockMetrics::lemma_view_number;

            let number: u64 = self.blocks[idx].block_number;
            assert(number == self.blocks@[idx as int]@.block_number);
            assert forall|i: int| 0 <= i < idx implies (#[trigger] self.blocks@[i])@.block_number
                != number by {
                assert(self@.blocks[i].block_number != self@.blocks[idx as int].block_number);
            }
            let _ = self.block_index.insert(number, idx);
            idx += 1;
        }
    }
}

} // verus!
