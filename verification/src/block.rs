use crate::flashblock::{FlashblockMetrics, FlashblockModel};
use crate::resource::{at_most, lemma_totals_by_amount, limit, ResourceKind, ResourceTotals};
use std::collections::BTreeMap;
use vstd::prelude::*;
use vstd::std_specs::cmp::OrdSpec;
use vstd::std_specs::iter::IteratorSpec;

verus! {

/// Whether the numbers rise from each to the next.
pub open spec fn increasing(keys: Seq<u64>) -> bool {
    forall|i: int, j: int| 0 <= i < j < keys.len() ==> (#[trigger] keys[i]) < (#[trigger] keys[j])
}

/// The numbers of a finite set, from the smallest to the largest.
pub open spec fn in_order(keys: Set<u64>) -> Seq<u64> {
    choose|s: Seq<u64>| increasing(s) && s.to_set() == keys
}

/// What stands before the last of some rising numbers is also there in the other sequence
/// that ends with it.
proof fn lemma_without_last(a: Seq<u64>, b: Seq<u64>)
    requires
        increasing(a),
        a.to_set() == b.to_set(),
        a.len() > 0,
        b.len() > 0,
        a.last() == b.last(),
    ensures
        a.drop_last().to_set().subset_of(b.drop_last().to_set()),
{
    let before = a.drop_last();
    let other = b.drop_last();
    assert forall|k: u64| #[trigger] before.to_set().contains(k) implies other.to_set().contains(
        k,
    ) by {
        assert(before.contains(k));
        let p = choose|p: int| 0 <= p < before.len() && before[p] == k;
        assert(a[p] == k && a[p] < a[a.len() - 1]);
        assert(a.to_set().contains(k));
        assert(b.contains(k));
        let q = choose|q: int| 0 <= q < b.len() && b[q] == k;
        assert(other[q] == k);
        assert(other.contains(k));
    }
}

/// A set of numbers can be written down in rising order in one way only.
pub proof fn lemma_in_order_unique(a: Seq<u64>, b: Seq<u64>)
    requires
        increasing(a),
        increasing(b),
        a.to_set() == b.to_set(),
    ensures
        a == b,
    decreases a.len(),
{
    if a.len() == 0 {
        if b.len() > 0 {
            assert(b.to_set().contains(b[0]));
            assert(a.contains(b[0]));
        }
        assert(a =~= b);
    } else {
        assert(a.to_set().contains(a.last()));
        assert(b.contains(a.last()));
        let j = choose|j: int| 0 <= j < b.len() && b[j] == a.last();
        assert(b.to_set().contains(b.last()));
        assert(a.contains(b.last()));
        let i = choose|i: int| 0 <= i < a.len() && a[i] == b.last();
        assert(a.last() == b.last()) by {
            if j < b.len() - 1 {
                assert(b[j] < b[b.len() - 1]);
            }
            if i < a.len() - 1 {
                assert(a[i] < a[a.len() - 1]);
            }
        }
        let x = a.last();
        lemma_without_last(a, b);
        lemma_without_last(b, a);
        assert(a.drop_last().to_set() =~= b.drop_last().to_set());
        lemma_in_order_unique(a.drop_last(), b.drop_last());
        assert(a =~= a.drop_last().push(x));
        assert(b =~= b.drop_last().push(x));
    }
}

/// The rising order of the numbers of `s` is `s` itself where `s` rises.
pub proof fn lemma_in_order(s: Seq<u64>)
    requires
        increasing(s),
    ensures
        in_order(s.to_set()) == s,
{
    lemma_in_order_unique(in_order(s.to_set()), s);
}

/// The largest number of a finite set.
proof fn lemma_largest(keys: Set<u64>) -> (largest: u64)
    requires
        keys.finite(),
        keys.len() > 0,
    ensures
        keys.contains(largest),
        forall|k: u64| #[trigger] keys.contains(k) ==> k <= largest,
    decreases keys.len(),
{
    let some = keys.choose();
    let rest = keys.remove(some);
    if rest.len() == 0 {
        assert forall|k: u64| #[trigger] keys.contains(k) implies k <= some by {
            if k != some {
                assert(rest.contains(k));
            }
        }
        some
    } else {
        let largest = lemma_largest(rest);
        assert forall|k: u64| #[trigger] keys.contains(k) implies k <= some || k <= largest by {
            if k != some {
                assert(rest.contains(k));
            }
        }
        if largest < some {
            some
        } else {
            largest
        }
    }
}

/// The numbers of a finite set can be written down in rising order.
proof fn lemma_rising(keys: Set<u64>) -> (s: Seq<u64>)
    requires
        keys.finite(),
    ensures
        increasing(s),
        s.to_set() == keys,
    decreases keys.len(),
{
    if keys.len() == 0 {
        let s = Seq::<u64>::empty();
        assert(s.to_set() =~= keys);
        s
    } else {
        let largest = lemma_largest(keys);
        let rest = lemma_rising(keys.remove(largest));
        let s = rest.push(largest);
        assert forall|i: int| 0 <= i < rest.len() implies (#[trigger] rest[i]) < largest by {
            assert(rest.to_set().contains(rest[i]));
        }
        assert(s.to_set() =~= keys) by {
            assert forall|k: u64| #[trigger] s.to_set().contains(k) == keys.contains(k) by {
                if keys.contains(k) {
                    if k == largest {
                        assert(s[rest.len() as int] == k);
                    } else {
                        assert(rest.to_set().contains(k));
                        let i = choose|i: int| 0 <= i < rest.len() && rest[i] == k;
                        assert(s[i] == k);
                    }
                }
                if s.to_set().contains(k) {
                    let i = choose|i: int| 0 <= i < s.len() && s[i] == k;
                    if i < rest.len() {
                        assert(rest.to_set().contains(rest[i]));
                    }
                }
            }
        }
        s
    }
}

/// The indices of a block rise and are those of its flashblocks, each of them once, and the
/// flashblocks stand in that order.
pub proof fn law_ordered_lists_all(block: BlockModel)
    requires
        block.valid(),
    ensures
        increasing(block.indices()),
        forall|k: u64| #[trigger]
            block.indices().contains(k) <==> block.flashblocks.contains_key(k),
        block.indices().len() == block.flashblocks.len(),
        block.ordered().len() == block.flashblocks.len(),
        forall|i: int|
            0 <= i < block.ordered().len() ==> {
                &&& (#[trigger] block.ordered()[i]) == block.flashblocks[block.indices()[i]]
                &&& block.ordered()[i].flashblock_index == block.indices()[i]
            },
{
    let keys = block.flashblocks.dom();
    let s = lemma_rising(keys);
    lemma_in_order(s);
    assert(block.indices() == s);
    assert(s.no_duplicates());
    s.unique_seq_to_set();
    assert forall|k: u64| #[trigger] s.contains(k) <==> block.flashblocks.contains_key(k) by {
        assert(s.to_set().contains(k) == keys.contains(k));
    }
    assert forall|i: int| 0 <= i < block.ordered().len() implies {
        &&& (#[trigger] block.ordered()[i]) == block.flashblocks[block.indices()[i]]
        &&& block.ordered()[i].flashblock_index == block.indices()[i]
    } by {
        assert(s.contains(s[i]));
    }
}

/// The order in which a tree map hands out its `u64` keys is the rising one.
proof fn lemma_increasing(keys: Seq<u64>)
    requires
        vstd::std_specs::btree::increasing_seq(keys),
    ensures
        increasing(keys),
{
    assert forall|i: int, j: int| 0 <= i < j < keys.len() implies (#[trigger] keys[i]) < (
    #[trigger] keys[j]) by {
        assert(keys[i].cmp_spec(&keys[j]) is Less);
    }
}

/// What the running totals of `flashblocks` say of `kind`, added up.
pub open spec fn sum_of_totals(flashblocks: Seq<FlashblockModel>, kind: ResourceKind) -> nat
    decreases flashblocks.len(),
{
    if flashblocks.len() == 0 {
        0
    } else {
        sum_of_totals(flashblocks.drop_last(), kind) + flashblocks.last().totals.amount(kind)
    }
}

/// What the metrics of a block stand for.
#[verifier::ext_equal]
pub struct BlockModel {
    pub block_number: u64,
    /// The flashblocks by their index.
    pub flashblocks: Map<u64, FlashblockModel>,
    pub totals: ResourceTotals,
}

impl BlockModel {
    /// A block without flashblocks.
    pub open spec fn empty(block_number: u64) -> Self {
        BlockModel {
            block_number,
            flashblocks: Map::empty(),
            totals: ResourceTotals::nothing(),
        }
    }

    /// The flashblock indices in rising order.
    pub open spec fn indices(self) -> Seq<u64> {
        in_order(self.flashblocks.dom())
    }

    /// The flashblocks by rising index.
    pub open spec fn ordered(self) -> Seq<FlashblockModel> {
        self.indices().map_values(|k: u64| self.flashblocks[k])
    }

    /// The flashblock at `index`, or one without transactions where there is none.
    pub open spec fn flashblock_or_new(self, index: u64) -> FlashblockModel {
        if self.flashblocks.contains_key(index) {
            self.flashblocks[index]
        } else {
            FlashblockModel::empty(self.block_number, index)
        }
    }

    /// The block with `flashblock` at `index`.
    pub open spec fn with_flashblock(self, index: u64, flashblock: FlashblockModel) -> Self {
        BlockModel { flashblocks: self.flashblocks.insert(index, flashblock), ..self }
    }

    /// Whether there are finitely many flashblocks, and every one is valid, belongs to this
    /// block and stands under its own index.
    pub open spec fn valid(self) -> bool {
        &&& self.flashblocks.dom().finite()
        &&& forall|k: u64| #[trigger]
            self.flashblocks.contains_key(k) ==> {
                &&& self.flashblocks[k].valid()
                &&& self.flashblocks[k].flashblock_index == k
                &&& self.flashblocks[k].block_number == self.block_number
            }
    }

    /// The block with its totals added up afresh from those of its flashblocks, each held
    /// at its limit.
    pub open spec fn recomputed(self) -> Self {
        BlockModel {
            totals: ResourceTotals::of_amounts(
                |kind: ResourceKind| at_most(sum_of_totals(self.ordered(), kind), limit(kind)),
            ),
            ..self
        }
    }
}

/// Aggregated metrics for a block, including per-flashblock breakdown.
#[derive(Debug)]
pub struct BlockMetrics {
    pub block_number: u64,
    pub(crate) flashblocks: BTreeMap<u64, FlashblockMetrics>,
    pub(crate) totals: ResourceTotals,
}

impl View for BlockMetrics {
    type V = BlockModel;

    closed spec fn view(&self) -> BlockModel {
        BlockModel {
            block_number: self.block_number,
            flashblocks: self.flashblocks@.map_values(|f: FlashblockMetrics| f@),
            totals: self.totals,
        }
    }
}

/// `std::collections::BTreeMap::get_mut`: a reference to the value under `index`, through
/// which that value and nothing else can be changed.
#[verifier::external_body]
fn tree_get_mut<'a>(
    map: &'a mut BTreeMap<u64, FlashblockMetrics>,
    index: &u64,
) -> (found: Option<&'a mut FlashblockMetrics>)
    ensures
        match found {
            Some(flashblock) => {
                &&& old(map)@.contains_key(*index)
                &&& *flashblock == old(map)@[*index]
                &&& final(map)@ == old(map)@.insert(*index, *final(flashblock))
            },
            None => !old(map)@.contains_key(*index) && final(map)@ == old(map)@,
        },
{
    map.get_mut(index)
}

impl BlockMetrics {
    /// Every flashblock is well formed, belongs to this block and stands under its own index.
    pub closed spec fn wf(self) -> bool {
        forall|k: u64| #[trigger]
            self.flashblocks@.contains_key(k) ==> {
                &&& self.flashblocks@[k].wf()
                &&& self.flashblocks@[k]@.flashblock_index == k
                &&& self.flashblocks@[k]@.block_number == self.block_number
            }
    }

    /// The number that the view holds is that of the field.
    pub(crate) broadcast proof fn lemma_view_number(self)
        ensures
            (#[trigger] self@).block_number == self.block_number,
    {
    }

    /// What well-formedness says of the view.
    pub broadcast proof fn lemma_wf_view(self)
        requires
            #[trigger] self.wf(),
        ensures
            self@.valid(),
    {
        assert(self@.flashblocks.dom() =~= self.flashblocks@.dom());
        assert forall|k: u64| #[trigger] self@.flashblocks.contains_key(k) implies {
            &&& self@.flashblocks[k].valid()
            &&& self@.flashblocks[k].flashblock_index == k
            &&& self@.flashblocks[k].block_number == self@.block_number
        } by {
            assert(self.flashblocks@.contains_key(k));
            self.flashblocks@[k].lemma_wf_view();
        }
    }

    /// Metrics of a block without flashblocks.
    pub fn new(block_number: u64) -> (r: Self)
        ensures
            r.wf(),
            r@ == BlockModel::empty(block_number),
    {
        let r = Self {
            block_number,
            flashblocks: BTreeMap::new(),
            totals: ResourceTotals::default(),
        };
        assert(r@.flashblocks =~= Map::empty());
        r
    }

    /// Returns the number of flashblocks.
    pub fn flashblock_count(&self) -> (r: usize)
        ensures
            r == self@.flashblocks.len(),
    {
        assert(self@.flashblocks.dom() =~= self.flashblocks@.dom());
        self.flashblocks.len()
    }

    /// Returns the flashblocks by rising index.
    pub fn flashblocks(&self) -> (r: Vec<&FlashblockMetrics>)
        requires
            self.wf(),
        ensures
            r@.len() == self@.ordered().len(),
            forall|i: int|
                0 <= i < r@.len() ==> (#[trigger] r@[i]).wf() && r@[i]@ == self@.ordered()[i],
    {
        let values = self.flashblocks.values();
        let ghost keys = choose|key_seq: Seq<u64>|
            {
                &&& vstd::std_specs::btree::increasing_seq(key_seq)
                &&& key_seq.to_set() == self.flashblocks@.dom()
                &&& key_seq.no_duplicates()
                &&& values.remaining() == key_seq.map(|i: int, k| &self.flashblocks@[k])
            };
        proof {
            lemma_increasing(keys);
            lemma_in_order(keys);
            assert(self@.flashblocks.dom() =~= self.flashblocks@.dom());
        }
        let mut r: Vec<&FlashblockMetrics> = Vec::new();
        for flashblock in it: values
            invariant
                it.seq() == keys.map(|i: int, k| &self.flashblocks@[k]),
                r@ == it.seq().take(it.index()),
        {
            r.push(flashblock);
        }
        proof {
            assert forall|i: int| 0 <= i < r@.len() implies (#[trigger] r@[i]).wf() && r@[i]@
                == self@.ordered()[i] by {
                assert(keys.to_set().contains(keys[i]));
            }
        }
        r
    }

    /// Returns the flashblock at `flashblock_index`, if there is one.
    pub fn flashblock(&self, flashblock_index: u64) -> (r: Option<&FlashblockMetrics>)
        requires
            self.wf(),
        ensures
            match r {
                Some(f) => {
                    &&& self@.flashblocks.contains_key(flashblock_index)
                    &&& f.wf()
                    &&& f@ == self@.flashblocks[flashblock_index]
                },
                None => !self@.flashblocks.contains_key(flashblock_index),
            },
    {
        self.flashblocks.get(&flashblock_index)
    }

    /// Returns the flashblock at `flashblock_index` for changing, and whether it was put in
    /// by this call because there was none.
    pub fn flashblock_mut(&mut self, flashblock_index: u64) -> (r: (&mut FlashblockMetrics, bool))
        requires
            old(self).wf(),
        ensures
            r.1 == !old(self)@.flashblocks.contains_key(flashblock_index),
            r.0.wf(),
            r.0@ == old(self)@.flashblock_or_new(flashblock_index),
            r.0@.flashblock_index == flashblock_index,
            r.0@.block_number == old(self)@.block_number,
            final(self)@ == old(self)@.with_flashblock(flashblock_index, final(r.0)@),
            ({
                &&& final(r.0).wf()
                &&& final(r.0)@.flashblock_index == flashblock_index
                &&& final(r.0)@.block_number == old(self)@.block_number
            }) ==> final(self).wf(),
    {
        let is_new = !self.flashblocks.contains_key(&flashblock_index);
        if is_new {
            let _ = self.flashblocks.insert(
                flashblock_index,
                FlashblockMetrics::new(self.block_number, flashblock_index),
            );
        }
        let entry = tree_get_mut(&mut self.flashblocks, &flashblock_index).unwrap();
        (entry, is_new)
    }

    /// Returns the totals as they were last added up.
    pub fn totals(&self) -> (r: ResourceTotals)
        ensures
            r == self@.totals,
    {
        self.totals
    }

    /// Adds the totals up afresh from those of the flashblocks.
    pub(crate) fn recompute_totals(&mut self)
        requires
            old(self).wf(),
        ensures
            final(self).wf(),
            final(self)@ == old(self)@.recomputed(),
    {
        let mut totals = ResourceTotals::default();
        {
            let flashblocks = self.flashblocks();
            let ghost ordered = self@.ordered();
            let mut i: usize = 0;
            while i < flashblocks.len()
                invariant
                    i <= flashblocks.len(),
                    flashblocks.len() == ordered.len(),
                    forall|k: int|
                        0 <= k < ordered.len() ==> (#[trigger] flashblocks@[k])@ == ordered[k],
                    forall|kind: ResourceKind| #[trigger]
                        totals.amount(kind) == at_most(
                            sum_of_totals(ordered.take(i as int), kind),
                            limit(kind),
                        ),
                decreases flashblocks.len() - i,
            {
                totals.absorb(&flashblocks[i].totals());
                proof {
                    assert(ordered.take(i + 1).drop_last() =~= ordered.take(i as int));
                }
                i += 1;
            }
            assert(ordered.take(i as int) =~= ordered);
        }
        self.totals = totals;
        proof {
            assert(self@.flashblocks =~= old(self)@.flashblocks);
            lemma_totals_by_amount(self@.totals, old(self)@.recomputed().totals);
        }
    }
}

} // verus!
