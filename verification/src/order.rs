use crate::transaction::MeteredTransaction;
use crate::u256::U256;
use vstd::prelude::*;

verus! {

/// A value that is ordered by the priority fee it stands for.
pub trait Priced: Copy {
    /// The fee that the value stands for.
    spec fn fee(self) -> nat;

    /// Returns the fee that the value stands for.
    fn priority_fee(&self) -> (r: U256)
        ensures
            r@ == self.fee(),
    ;
}

impl Priced for U256 {
    open spec fn fee(self) -> nat {
        self@
    }

    fn priority_fee(&self) -> (r: U256) {
        *self
    }
}

impl Priced for MeteredTransaction {
    open spec fn fee(self) -> nat {
        self.priority_fee_per_gas@
    }

    fn priority_fee(&self) -> (r: U256) {
        self.priority_fee_per_gas
    }
}

impl<'a> Priced for &'a MeteredTransaction {
    open spec fn fee(self) -> nat {
        self.priority_fee_per_gas@
    }

    fn priority_fee(&self) -> (r: U256) {
        self.priority_fee_per_gas
    }
}

/// Whether fees never fall from one item to the next.
pub open spec fn ascending<T: Priced>(items: Seq<T>) -> bool {
    forall|i: int, j: int|
        0 <= i <= j < items.len() ==> (#[trigger] items[i]).fee() <= (#[trigger] items[j]).fee()
}

/// An ascending sequence with `item` put in after every item whose fee is not larger.
pub open spec fn insert_by_fee<T: Priced>(items: Seq<T>, item: T) -> Seq<T>
    decreases items.len(),
{
    if items.len() == 0 || items.last().fee() <= item.fee() {
        items.push(item)
    } else {
        insert_by_fee(items.drop_last(), item).push(items.last())
    }
}

/// The items from the lowest fee to the highest; items with one fee keep their order.
pub open spec fn by_fee<T: Priced>(items: Seq<T>) -> Seq<T>
    decreases items.len(),
{
    if items.len() == 0 {
        items
    } else {
        insert_by_fee(by_fee(items.drop_last()), items.last())
    }
}

/// Two ascending sequences merged; at one fee the items of `a` come first.
spec fn merged<T: Priced>(a: Seq<T>, b: Seq<T>) -> Seq<T>
    decreases a.len() + b.len(),
{
    if a.len() == 0 {
        b
    } else if b.len() == 0 {
        a
    } else if a[0].fee() <= b[0].fee() {
        seq![a[0]] + merged(a.drop_first(), b)
    } else {
        seq![b[0]] + merged(a, b.drop_first())
    }
}

proof fn lemma_insert<T: Priced>(items: Seq<T>, item: T)
    requires
        ascending(items),
    ensures
        ascending(insert_by_fee(items, item)),
        insert_by_fee(items, item).to_multiset() == items.to_multiset().insert(item),
        insert_by_fee(items, item).len() == items.len() + 1,
        forall|i: int|
            0 <= i <= items.len() ==> (#[trigger] insert_by_fee(items, item)[i]) == item
                || items.contains(insert_by_fee(items, item)[i]),
    decreases items.len(),
{
    broadcast use vstd::seq_lib::group_to_multiset_ensures;

    if items.len() == 0 || items.last().fee() <= item.fee() {
        assert forall|i: int| 0 <= i <= items.len() implies (#[trigger] insert_by_fee(
            items,
            item,
        )[i]) == item || items.contains(insert_by_fee(items, item)[i]) by {
            if i < items.len() {
                assert(items.push(item)[i] == items[i]);
            }
        }
    } else {
        let front = items.drop_last();
        lemma_insert(front, item);
        assert(items =~= front.push(items.last()));
        let r = insert_by_fee(items, item);
        assert(r.to_multiset() =~= items.to_multiset().insert(item));
        assert forall|i: int| 0 <= i <= items.len() implies (#[trigger] r[i]) == item
            || items.contains(r[i]) by {
            if i < items.len() {
                if r[i] != item {
                    assert(front.contains(r[i]));
                    let j = choose|j: int| 0 <= j < front.len() && front[j] == r[i];
                    assert(items[j] == r[i]);
                }
            } else {
                assert(items[items.len() - 1] == r[i]);
            }
        }
        assert forall|i: int, j: int| 0 <= i <= j < r.len() implies (#[trigger] r[i]).fee() <= (
        #[trigger] r[j]).fee() by {
            if j == r.len() - 1 && i < j {
                let s = insert_by_fee(front, item);
                assert(s[i] == r[i]);
                if s[i] != item {
                    assert(front.contains(s[i]));
                    let k = choose|k: int| 0 <= k < front.len() && front[k] == s[i];
                    assert(items[k] == s[i]);
                    assert(items[items.len() - 1] == items.last());
                }
            }
        }
    }
}

/// Insertion seen from the low end.
proof fn lemma_insert_front<T: Priced>(items: Seq<T>, item: T)
    requires
        ascending(items),
    ensures
        items.len() > 0 && items[0].fee() <= item.fee() ==> insert_by_fee(items, item)
            == seq![items[0]] + insert_by_fee(items.drop_first(), item),
        items.len() == 0 || items[0].fee() > item.fee() ==> insert_by_fee(items, item)
            == seq![item] + items,
    decreases items.len(),
{
    if items.len() == 0 {
        assert(items.push(item) =~= seq![item] + items);
    } else if items.last().fee() <= item.fee() {
        assert(items[0].fee() <= items[items.len() - 1].fee());
        let rest = items.drop_first();
        assert(rest.len() > 0 ==> rest.last() == items.last());
        assert(items.push(item) =~= seq![items[0]] + rest.push(item));
    } else {
        let front = items.drop_last();
        lemma_insert_front(front, item);
        if items[0].fee() <= item.fee() {
            assert(front.len() > 0);
            let rest = items.drop_first();
            assert(rest.drop_last() =~= front.drop_first());
            assert(rest.last() == items.last());
            assert(insert_by_fee(front, item).push(items.last()) =~= seq![items[0]]
                + insert_by_fee(front.drop_first(), item).push(items.last()));
        } else {
            assert((seq![item] + front).push(items.last()) =~= seq![item] + items);
        }
    }
}

proof fn lemma_merged_ascending<T: Priced>(a: Seq<T>, b: Seq<T>)
    requires
        ascending(a),
        ascending(b),
    ensures
        ascending(merged(a, b)),
        merged(a, b).len() == a.len() + b.len(),
        forall|i: int|
            0 <= i < merged(a, b).len() ==> a.contains(#[trigger] merged(a, b)[i]) || b.contains(
                merged(a, b)[i],
            ),
    decreases a.len() + b.len(),
{
    let m = merged(a, b);
    if a.len() == 0 || b.len() == 0 {
    } else {
        let from_a = a[0].fee() <= b[0].fee();
        let (head, a1, b1) = if from_a {
            (a[0], a.drop_first(), b)
        } else {
            (b[0], a, b.drop_first())
        };
        lemma_merged_ascending(a1, b1);
        let rest = merged(a1, b1);
        assert(m == seq![head] + rest);
        assert forall|i: int| 0 <= i < m.len() implies a.contains(#[trigger] m[i]) || b.contains(
            m[i],
        ) by {
            if i > 0 {
                assert(m[i] == rest[i - 1]);
                if a1.contains(rest[i - 1]) {
                    let k = choose|k: int| 0 <= k < a1.len() && a1[k] == rest[i - 1];
                    assert(a.contains(if from_a { a[k + 1] } else { a[k] }));
                } else {
                    let k = choose|k: int| 0 <= k < b1.len() && b1[k] == rest[i - 1];
                    assert(b.contains(if from_a { b[k] } else { b[k + 1] }));
                }
            }
        }
        assert forall|i: int, j: int| 0 <= i <= j < m.len() implies (#[trigger] m[i]).fee() <= (
        #[trigger] m[j]).fee() by {
            if i == 0 {
                if a.contains(m[j]) {
                    let k = choose|k: int| 0 <= k < a.len() && a[k] == m[j];
                    assert(a[0].fee() <= a[k].fee());
                } else {
                    let k = choose|k: int| 0 <= k < b.len() && b[k] == m[j];
                    assert(b[0].fee() <= b[k].fee());
                }
            } else {
                assert(m[i] == rest[i - 1] && m[j] == rest[j - 1]);
            }
        }
    }
}

/// Inserting into a merge is merging with an insertion.
proof fn lemma_insert_into_merged<T: Priced>(a: Seq<T>, b: Seq<T>, item: T)
    requires
        ascending(a),
        ascending(b),
    ensures
        insert_by_fee(merged(a, b), item) == merged(a, insert_by_fee(b, item)),
    decreases a.len() + b.len(),
{
    let m = merged(a, b);
    lemma_merged_ascending(a, b);
    lemma_insert_front(m, item);
    lemma_insert_front(b, item);
    let c = insert_by_fee(b, item);
    if a.len() == 0 {
    } else if b.len() == 0 {
        let one = seq![item];
        assert(c =~= one);
        if a[0].fee() <= item.fee() {
            lemma_insert_into_merged(a.drop_first(), b, item);
            assert(merged(a, c) == seq![a[0]] + merged(a.drop_first(), c));
        } else {
            assert(c.drop_first() =~= b);
            assert(merged(a, c) == seq![item] + merged(a, c.drop_first()));
        }
    } else if a[0].fee() <= b[0].fee() {
        assert(m == seq![a[0]] + merged(a.drop_first(), b));
        assert(m.drop_first() =~= merged(a.drop_first(), b));
        if a[0].fee() <= item.fee() {
            lemma_insert_into_merged(a.drop_first(), b, item);
            assert(c[0] == (if b[0].fee() <= item.fee() { b[0] } else { item }));
            assert(merged(a, c) == seq![a[0]] + merged(a.drop_first(), c));
        } else {
            assert(c == seq![item] + b);
            assert(c.drop_first() =~= b);
            assert(merged(a, c) == seq![item] + merged(a, c.drop_first()));
        }
    } else {
        assert(m == seq![b[0]] + merged(a, b.drop_first()));
        assert(m.drop_first() =~= merged(a, b.drop_first()));
        if b[0].fee() <= item.fee() {
            lemma_insert_into_merged(a, b.drop_first(), item);
            assert(c == seq![b[0]] + insert_by_fee(b.drop_first(), item));
            assert(c.drop_first() =~= insert_by_fee(b.drop_first(), item));
            assert(merged(a, c) == seq![b[0]] + merged(a, c.drop_first()));
        } else {
            assert(c == seq![item] + b);
            assert(c.drop_first() =~= b);
            assert(merged(a, c) == seq![item] + merged(a, c.drop_first()));
        }
    }
}

/// Ordering by fee keeps the items and makes them ascend.
pub proof fn lemma_by_fee<T: Priced>(items: Seq<T>)
    ensures
        ascending(by_fee(items)),
        by_fee(items).to_multiset() == items.to_multiset(),
        by_fee(items).len() == items.len(),
    decreases items.len(),
{
    broadcast use vstd::seq_lib::group_to_multiset_ensures;

    if items.len() > 0 {
        lemma_by_fee(items.drop_last());
        lemma_insert(by_fee(items.drop_last()), items.last());
        assert(items =~= items.drop_last().push(items.last()));
    }
}

/// Items that share a fee come out in the order in which they went in.
pub proof fn lemma_by_fee_is_stable<T: Priced>(items: Seq<T>, fee: nat)
    ensures
        by_fee(items).filter(|t: T| t.fee() == fee) == items.filter(|t: T| t.fee() == fee),
    decreases items.len(),
{
    let pred = |t: T| t.fee() == fee;
    reveal(Seq::filter);
    if items.len() > 0 {
        lemma_by_fee_is_stable(items.drop_last(), fee);
        lemma_by_fee(items.drop_last());
        lemma_insert_filtered(by_fee(items.drop_last()), items.last(), fee);
    }
}

/// Insertion appends to the items of its own fee and leaves those of every other fee.
proof fn lemma_insert_filtered<T: Priced>(items: Seq<T>, item: T, fee: nat)
    requires
        ascending(items),
    ensures
        insert_by_fee(items, item).filter(|t: T| t.fee() == fee) == (if item.fee() == fee {
            items.filter(|t: T| t.fee() == fee).push(item)
        } else {
            items.filter(|t: T| t.fee() == fee)
        }),
    decreases items.len(),
{
    let pred = |t: T| t.fee() == fee;
    reveal(Seq::filter);
    if items.len() == 0 || items.last().fee() <= item.fee() {
        assert(items.push(item).drop_last() =~= items);
    } else {
        let front = items.drop_last();
        lemma_insert_filtered(front, item, fee);
        assert(insert_by_fee(items, item).drop_last() =~= insert_by_fee(front, item));
    }
}

/// Ordering two parts and merging them orders the whole.
proof fn lemma_by_fee_of_parts<T: Priced>(a: Seq<T>, b: Seq<T>)
    ensures
        by_fee(a + b) == merged(by_fee(a), by_fee(b)),
    decreases b.len(),
{
    lemma_by_fee(a);
    lemma_by_fee(b);
    if b.len() == 0 {
        assert(a + b =~= a);
        assert(merged(by_fee(a), by_fee(b)) =~= by_fee(a));
    } else {
        let front = b.drop_last();
        lemma_by_fee(front);
        lemma_by_fee_of_parts(a, front);
        assert((a + b).drop_last() =~= a + front);
        lemma_insert_into_merged(by_fee(a), by_fee(front), b.last());
    }
}

/// Merges two ascending sequences.
fn merge_by_fee<T: Priced>(a: &Vec<T>, b: &Vec<T>) -> (r: Vec<T>)
    ensures
        r@ == merged(a@, b@),
{
    let mut r: Vec<T> = Vec::new();
    let mut i: usize = 0;
    let mut j: usize = 0;
    assert(a@.skip(0) =~= a@ && b@.skip(0) =~= b@);
    assert(r@ + merged(a@, b@) =~= merged(a@, b@));
    while i < a.len() && j < b.len()
        invariant
            i <= a.len(),
            j <= b.len(),
            r@ + merged(a@.skip(i as int), b@.skip(j as int)) == merged(a@, b@),
        decreases a.len() - i + b.len() - j,
    {
        let ghost before = r@;
        let ghost s = a@.skip(i as int);
        let ghost t = b@.skip(j as int);
        if b[j].priority_fee().less_than(&a[i].priority_fee()) {
            assert(t.drop_first() =~= b@.skip(j + 1));
            r.push(b[j]);
            j += 1;
            assert(before + (seq![t[0]] + merged(s, t.drop_first())) =~= r@ + merged(
                s,
                t.drop_first(),
            ));
        } else {
            assert(s.drop_first() =~= a@.skip(i + 1));
            r.push(a[i]);
            i += 1;
            assert(before + (seq![s[0]] + merged(s.drop_first(), t)) =~= r@ + merged(
                s.drop_first(),
                t,
            ));
        }
    }
    while i < a.len()
        invariant
            i <= a.len(),
            i < a.len() ==> j == b.len(),
            j <= b.len(),
            r@ + merged(a@.skip(i as int), b@.skip(j as int)) == merged(a@, b@),
        decreases a.len() - i,
    {
        let ghost before = r@;
        let ghost s = a@.skip(i as int);
        let ghost t = b@.skip(j as int);
        r.push(a[i]);
        i += 1;
        assert(t.len() == 0);
        assert(before + s =~= r@ + a@.skip(i as int));
        assert(merged(a@.skip(i as int), t) =~= a@.skip(i as int));
    }
    while j < b.len()
        invariant
            i == a.len(),
            j <= b.len(),
            r@ + merged(a@.skip(i as int), b@.skip(j as int)) == merged(a@, b@),
        decreases b.len() - j,
    {
        let ghost before = r@;
        let ghost t = b@.skip(j as int);
        r.push(b[j]);
        j += 1;
        assert(before + t =~= r@ + b@.skip(j as int));
    }
    assert(r@ + merged(a@.skip(i as int), b@.skip(j as int)) =~= r@);
    r
}

/// Orders `items[lo..hi]` by fee.
fn sort_range_by_fee<T: Priced>(items: &Vec<T>, lo: usize, hi: usize) -> (r: Vec<T>)
    requires
        lo <= hi <= items.len(),
    ensures
        r@ == by_fee(items@.subrange(lo as int, hi as int)),
    decreases hi - lo,
{
    let ghost range = items@.subrange(lo as int, hi as int);
    if hi - lo <= 1 {
        let mut r: Vec<T> = Vec::new();
        if lo < hi {
            r.push(items[lo]);
        }
        proof {
            assert(r@ =~= range);
            if lo < hi {
                assert(range.drop_last() =~= Seq::<T>::empty());
                assert(by_fee(range.drop_last()) =~= Seq::<T>::empty());
                assert(by_fee(range) =~= range);
            }
        }
        r
    } else {
        let mid: usize = lo + (hi - lo) / 2;
        let a = sort_range_by_fee(items, lo, mid);
        let b = sort_range_by_fee(items, mid, hi);
        proof {
            let left = items@.subrange(lo as int, mid as int);
            let right = items@.subrange(mid as int, hi as int);
            assert(left + right =~= range);
            lemma_by_fee_of_parts(left, right);
        }
        merge_by_fee(&a, &b)
    }
}

/// Returns the items from the lowest fee to the highest; items with one fee keep their order.
pub fn sort_by_fee<T: Priced>(items: &Vec<T>) -> (r: Vec<T>)
    ensures
        r@ == by_fee(items@),
{
    assert(items@.subrange(0, items.len() as int) =~= items@);
    sort_range_by_fee(items, 0, items.len())
}

} // verus!
