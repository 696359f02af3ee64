use crate::resource::{kinds, ResourceKind};
use crate::stream_laws::lemma_contains_last;
use crate::u256::U256;
use vstd::prelude::*;

verus! {

/// Fee estimate for a single resource type.
///
/// The estimation algorithm answers: "What priority fee would my bundle need to pay
/// to displace enough lower-paying transactions to free up the resources I need?"
#[derive(Debug, Clone, Copy)]
pub struct ResourceEstimate {
    /// Minimum fee to displace enough capacity for the bundle's resource demand.
    pub threshold_priority_fee: U256,
    /// Recommended fee based on a percentile of transactions above the threshold.
    /// Provides a safety margin over the bare minimum.
    pub recommended_priority_fee: U256,
    /// Total resource usage of transactions at or below the threshold.
    pub cumulative_usage: u128,
    /// Number of transactions that would be displaced at the threshold fee.
    pub supporting_transactions: usize,
    /// Total transactions considered in the estimate.
    pub total_transactions: usize,
}

/// Per-resource fee estimates.
///
/// Each field corresponds to a resource type. `None` indicates the resource
/// was not requested or could not be estimated (e.g., demand exceeds capacity).
#[derive(Debug, Clone, Copy)]
pub struct ResourceEstimates {
    pub gas_used: Option<ResourceEstimate>,
    pub execution_time: Option<ResourceEstimate>,
    pub state_root_time: Option<ResourceEstimate>,
    pub data_availability: Option<ResourceEstimate>,
}

impl Default for ResourceEstimates {
    /// No estimate for any resource.
    fn default() -> (r: Self)
        ensures
            forall|kind: ResourceKind| (#[trigger] r.at(kind)) is None,
    {
        ResourceEstimates {
            gas_used: None,
            execution_time: None,
            state_root_time: None,
            data_availability: None,
        }
    }
}

impl ResourceEstimates {
    /// The estimate for `kind`, if there is one.
    pub open spec fn at(self, kind: ResourceKind) -> Option<ResourceEstimate> {
        match kind {
            ResourceKind::GasUsed => self.gas_used,
            ResourceKind::ExecutionTime => self.execution_time,
            ResourceKind::StateRootTime => self.state_root_time,
            ResourceKind::DataAvailability => self.data_availability,
        }
    }

    /// The kinds that have an estimate, in the fixed order of the kinds.
    pub open spec fn present(self) -> Seq<ResourceKind> {
        kinds().filter(|kind: ResourceKind| self.at(kind) is Some)
    }

    /// Returns the estimate for the given resource kind.
    pub fn get(&self, kind: ResourceKind) -> (r: Option<&ResourceEstimate>)
        ensures
            match r {
                Some(estimate) => self.at(kind) == Some(*estimate),
                None => self.at(kind) is None,
            },
    {
        match kind {
            ResourceKind::GasUsed => self.gas_used.as_ref(),
            ResourceKind::ExecutionTime => self.execution_time.as_ref(),
            ResourceKind::StateRootTime => self.state_root_time.as_ref(),
            ResourceKind::DataAvailability => self.data_availability.as_ref(),
        }
    }

    /// Sets the estimate for the given resource kind.
    pub fn set(&mut self, kind: ResourceKind, estimate: ResourceEstimate)
        ensures
            final(self).at(kind) == Some(estimate),
            forall|other: ResourceKind|
                other != kind ==> #[trigger] final(self).at(other) == old(self).at(other),
    {
        match kind {
            ResourceKind::GasUsed => self.gas_used = Some(estimate),
            ResourceKind::ExecutionTime => self.execution_time = Some(estimate),
            ResourceKind::StateRootTime => self.state_root_time = Some(estimate),
            ResourceKind::DataAvailability => self.data_availability = Some(estimate),
        }
    }

    /// Returns all present estimates with their resource kind, in the fixed order of the
    /// kinds.
    pub fn iter(&self) -> (r: Vec<(ResourceKind, &ResourceEstimate)>)
        ensures
            r@.len() == self.present().len(),
            forall|i: int|
                0 <= i < r@.len() ==> (#[trigger] r@[i]).0 == self.present()[i] && self.at(
                    r@[i].0,
                ) == Some(*r@[i].1),
    {
        let all = ResourceKind::all();
        let mut r: Vec<(ResourceKind, &ResourceEstimate)> = Vec::new();
        let ghost pred = |kind: ResourceKind| self.at(kind) is Some;
        let mut k: usize = 0;
        assert(kinds().take(0).filter(pred) =~= Seq::empty()) by {
            reveal(Seq::filter);
        }
        while k < 4
            invariant
                k <= 4,
                all@ == kinds(),
                pred == (|kind: ResourceKind| self.at(kind) is Some),
                r@.len() == kinds().take(k as int).filter(pred).len(),
                forall|i: int|
                    0 <= i < r@.len() ==> (#[trigger] r@[i]).0 == kinds().take(k as int).filter(
                        pred,
                    )[i] && self.at(r@[i].0) == Some(*r@[i].1),
            decreases 4 - k,
        {
            let kind = all[k];
            proof {
                reveal(Seq::filter);
                assert(kinds().take(k + 1).drop_last() =~= kinds().take(k as int));
            }
            if let Some(estimate) = self.get(kind) {
                r.push((kind, estimate));
            }
            k += 1;
        }
        assert(kinds().take(4) =~= kinds());
        r
    }

    /// Returns true if no estimates are present.
    pub fn is_empty(&self) -> (r: bool)
        ensures
            r == (forall|kind: ResourceKind| (#[trigger] self.at(kind)) is None),
    {
        let r = self.gas_used.is_none() && self.execution_time.is_none()
            && self.state_root_time.is_none() && self.data_availability.is_none();
        proof {
            if !r {
                assert(self.at(ResourceKind::GasUsed) is Some
                    || self.at(ResourceKind::ExecutionTime) is Some
                    || self.at(ResourceKind::StateRootTime) is Some
                    || self.at(ResourceKind::DataAvailability) is Some);
            }
        }
        r
    }
}

/// Estimates for a specific flashblock index.
#[derive(Debug, Clone, Copy)]
pub struct FlashblockResourceEstimates {
    pub flashblock_index: u64,
    pub estimates: ResourceEstimates,
}

/// Aggregated estimates for a block.
#[derive(Debug, Clone)]
pub struct BlockPriorityEstimates {
    pub block_number: u64,
    pub flashblocks: Vec<FlashblockResourceEstimates>,
    /// Minimum recommended fee across all flashblocks (easiest inclusion).
    pub min_across_flashblocks: ResourceEstimates,
    /// Maximum recommended fee across all flashblocks (most competitive).
    pub max_across_flashblocks: ResourceEstimates,
}

/// Rolling estimates aggregated across multiple recent blocks.
#[derive(Debug, Clone, Copy)]
pub struct RollingPriorityEstimates {
    /// Number of blocks that contributed to this estimate.
    pub blocks_sampled: usize,
    /// Per-resource estimates (median across sampled blocks).
    pub estimates: ResourceEstimates,
    /// Single recommended fee: maximum across all resources.
    pub recommended_priority_fee: U256,
}

/// What each flashblock has for `kind`.
pub open spec fn column(
    flashblocks: Seq<FlashblockResourceEstimates>,
    kind: ResourceKind,
) -> Seq<Option<ResourceEstimate>> {
    flashblocks.map_values(|f: FlashblockResourceEstimates| f.estimates.at(kind))
}

/// Whether `r` is the first of the estimates in `column` that recommend the lowest fee, or
/// `None` where there is no estimate.
pub open spec fn first_lowest(
    column: Seq<Option<ResourceEstimate>>,
    r: Option<ResourceEstimate>,
) -> bool {
    match r {
        None => forall|j: int| 0 <= j < column.len() ==> (#[trigger] column[j]) is None,
        Some(e) => exists|i: int|
            {
                &&& 0 <= i < column.len()
                &&& #[trigger] column[i] == Some(e)
                &&& forall|j: int|
                    0 <= j < column.len() && (#[trigger] column[j]) is Some
                        ==> e.recommended_priority_fee@ <= column[j]->0.recommended_priority_fee@
                        && (j < i ==> e.recommended_priority_fee@
                        < column[j]->0.recommended_priority_fee@)
            },
    }
}

/// Whether `r` is the first of the estimates in `column` that recommend the highest fee, or
/// `None` where there is no estimate.
pub open spec fn first_highest(
    column: Seq<Option<ResourceEstimate>>,
    r: Option<ResourceEstimate>,
) -> bool {
    match r {
        None => forall|j: int| 0 <= j < column.len() ==> (#[trigger] column[j]) is None,
        Some(e) => exists|i: int|
            {
                &&& 0 <= i < column.len()
                &&& #[trigger] column[i] == Some(e)
                &&& forall|j: int|
                    0 <= j < column.len() && (#[trigger] column[j]) is Some
                        ==> column[j]->0.recommended_priority_fee@ <= e.recommended_priority_fee@
                        && (j < i ==> column[j]->0.recommended_priority_fee@
                        < e.recommended_priority_fee@)
            },
    }
}

proof fn lemma_first_lowest_push(
    column: Seq<Option<ResourceEstimate>>,
    best: Option<ResourceEstimate>,
    next: Option<ResourceEstimate>,
)
    requires
        first_lowest(column, best),
    ensures
        first_lowest(
            column.push(next),
            match (best, next) {
                (Some(b), Some(n)) => if n.recommended_priority_fee@ < b.recommended_priority_fee@ {
                    next
                } else {
                    best
                },
                (None, _) => next,
                (_, None) => best,
            },
        ),
{
    let longer = column.push(next);
    assert(longer[column.len() as int] == next);
    if best is Some {
        let b = best->0;
        let i = choose|i: int|
            {
                &&& 0 <= i < column.len()
                &&& #[trigger] column[i] == Some(b)
                &&& forall|j: int|
                    0 <= j < column.len() && (#[trigger] column[j]) is Some
                        ==> b.recommended_priority_fee@ <= column[j]->0.recommended_priority_fee@
                        && (j < i ==> b.recommended_priority_fee@
                        < column[j]->0.recommended_priority_fee@)
            };
        assert(longer[i] == Some(b));
        assert forall|j: int| 0 <= j < column.len() implies #[trigger] longer[j] == column[j] by {}
    } else {
        assert forall|j: int| 0 <= j < column.len() implies (#[trigger] longer[j]) is None by {
            assert(column[j] is None);
        }
    }
}

proof fn lemma_first_highest_push(
    column: Seq<Option<ResourceEstimate>>,
    best: Option<ResourceEstimate>,
    next: Option<ResourceEstimate>,
)
    requires
        first_highest(column, best),
    ensures
        first_highest(
            column.push(next),
            match (best, next) {
                (Some(b), Some(n)) => if b.recommended_priority_fee@ < n.recommended_priority_fee@ {
                    next
                } else {
                    best
                },
                (None, _) => next,
                (_, None) => best,
            },
        ),
{
    let longer = column.push(next);
    assert(longer[column.len() as int] == next);
    if best is Some {
        let b = best->0;
        let i = choose|i: int|
            {
                &&& 0 <= i < column.len()
                &&& #[trigger] column[i] == Some(b)
                &&& forall|j: int|
                    0 <= j < column.len() && (#[trigger] column[j]) is Some
                        ==> column[j]->0.recommended_priority_fee@ <= b.recommended_priority_fee@
                        && (j < i ==> column[j]->0.recommended_priority_fee@
                        < b.recommended_priority_fee@)
            };
        assert(longer[i] == Some(b));
        assert forall|j: int| 0 <= j < column.len() implies #[trigger] longer[j] == column[j] by {}
    } else {
        assert forall|j: int| 0 <= j < column.len() implies (#[trigger] longer[j]) is None by {
            assert(column[j] is None);
        }
    }
}

/// Every kind is one of the four that are listed.
pub proof fn lemma_kinds_complete(kind: ResourceKind)
    ensures
        kinds().len() == 4,
        kind == kinds()[0] || kind == kinds()[1] || kind == kinds()[2] || kind == kinds()[3],
        forall|i: int, j: int| 0 <= i < j < 4 ==> kinds()[i] != kinds()[j],
{
}

/// Whether each of some kinds comes before the next in the fixed order.
spec fn rising(items: Seq<ResourceKind>) -> bool {
    forall|i: int, j: int|
        0 <= i < j < items.len() ==> (#[trigger] items[i]).place() < (#[trigger] items[j]).place()
}

proof fn lemma_filter_rising(items: Seq<ResourceKind>, pred: spec_fn(ResourceKind) -> bool)
    requires
        rising(items),
    ensures
        rising(items.filter(pred)),
        forall|kind: ResourceKind| #[trigger]
            items.filter(pred).contains(kind) <==> items.contains(kind) && pred(kind),
    decreases items.len(),
{
    reveal(Seq::filter);
    if items.len() > 0 {
        let earlier = items.drop_last();
        let last = items.last();
        lemma_filter_rising(earlier, pred);
        assert forall|kind: ResourceKind| #[trigger] items.contains(kind) == (earlier.contains(kind)
            || kind == last) by {
            lemma_contains_last(items, kind);
        }
        if pred(last) {
            let kept = items.filter(pred);
            assert(kept.drop_last() =~= earlier.filter(pred));
            assert forall|kind: ResourceKind| #[trigger] kept.contains(kind) == (earlier.filter(
                pred,
            ).contains(kind) || kind == last) by {
                lemma_contains_last(kept, kind);
            }
            assert forall|i: int| 0 <= i < kept.len() - 1 implies (#[trigger] kept[i]).place()
                < last.place() by {
                assert(earlier.filter(pred)[i] == kept[i]);
                assert(earlier.filter(pred).contains(kept[i]));
                let k = choose|k: int| 0 <= k < earlier.len() && earlier[k] == kept[i];
                assert(items[k].place() < items[items.len() - 1].place());
            }
        }
    }
}

/// The kinds that are listed are those with an estimate, each of them once, in the fixed order.
pub proof fn law_present_kinds(estimates: ResourceEstimates)
    ensures
        forall|kind: ResourceKind| #[trigger]
            estimates.present().contains(kind) <==> estimates.at(kind) is Some,
        forall|i: int, j: int|
            0 <= i < j < estimates.present().len() ==> (#[trigger] estimates.present()[i]).place()
                < (#[trigger] estimates.present()[j]).place(),
{
    lemma_filter_rising(kinds(), |kind: ResourceKind| estimates.at(kind) is Some);
    assert forall|kind: ResourceKind| #[trigger] kinds().contains(kind) by {
        lemma_kinds_complete(kind);
    }
}

/// Computes the minimum and maximum recommended fees across all flashblocks.
///
/// Returns two `ResourceEstimates`:
/// - First: For each resource, the estimate with the lowest recommended fee (easiest inclusion).
/// - Second: For each resource, the estimate with the highest recommended fee (most competitive).
///
/// Where several flashblocks recommend that fee, the estimate is that of the first of them.
pub fn compute_min_max_estimates(flashblocks: &Vec<FlashblockResourceEstimates>) -> (r: (
    ResourceEstimates,
    ResourceEstimates,
))
    ensures
        forall|kind: ResourceKind|
            first_lowest(column(flashblocks@, kind), #[trigger] r.0.at(kind)),
        forall|kind: ResourceKind|
            first_highest(column(flashblocks@, kind), #[trigger] r.1.at(kind)),
{
    let mut min_estimates = ResourceEstimates::default();
    let mut max_estimates = ResourceEstimates::default();
    let all = ResourceKind::all();
    let mut i: usize = 0;
    while i < flashblocks.len()
        invariant
            i <= flashblocks.len(),
            all@ == kinds(),
            forall|kind: ResourceKind|
                first_lowest(
                    column(flashblocks@.take(i as int), kind),
                    #[trigger] min_estimates.at(kind),
                ),
            forall|kind: ResourceKind|
                first_highest(
                    column(flashblocks@.take(i as int), kind),
                    #[trigger] max_estimates.at(kind),
                ),
        decreases flashblocks.len() - i,
    {
        let ghost done = flashblocks@.take(i as int);
        let ghost next = flashblocks@[i as int];
        let mut k: usize = 0;
        while k < 4
            invariant
                k <= 4,
                i < flashblocks.len(),
                all@ == kinds(),
                next == flashblocks@[i as int],
                forall|j: int|
                    #![trigger kinds()[j]]
                    0 <= j < 4 ==> first_lowest(
                        if j < k {
                            column(done, kinds()[j]).push(next.estimates.at(kinds()[j]))
                        } else {
                            column(done, kinds()[j])
                        },
                        min_estimates.at(kinds()[j]),
                    ),
                forall|j: int|
                    #![trigger kinds()[j]]
                    0 <= j < 4 ==> first_highest(
                        if j < k {
                            column(done, kinds()[j]).push(next.estimates.at(kinds()[j]))
                        } else {
                            column(done, kinds()[j])
                        },
                        max_estimates.at(kinds()[j]),
                    ),
            decreases 4 - k,
        {
            let resource = all[k];
            let ghost min_before = min_estimates;
            let ghost max_before = max_estimates;
            proof {
                lemma_kinds_complete(resource);
                assert(kinds()[k as int] == resource);
                lemma_first_lowest_push(
                    column(done, resource),
                    min_estimates.at(resource),
                    next.estimates.at(resource),
                );
                lemma_first_highest_push(
                    column(done, resource),
                    max_estimates.at(resource),
                    next.estimates.at(resource),
                );
            }
            if let Some(estimate) = flashblocks[i].estimates.get(resource) {
                let lower = match min_estimates.get(resource) {
                    Some(current) => estimate.recommended_priority_fee.less_than(
                        &current.recommended_priority_fee,
                    ),
                    None => true,
                };
                if lower {
                    min_estimates.set(resource, *estimate);
                }
                let higher = match max_estimates.get(resource) {
                    Some(current) => current.recommended_priority_fee.less_than(
                        &estimate.recommended_priority_fee,
                    ),
                    None => true,
                };
                if higher {
                    max_estimates.set(resource, *estimate);
                }
            }
            proof {
                assert forall|j: int| #![trigger kinds()[j]] 0 <= j < 4 && j != k implies
                    min_estimates.at(kinds()[j]) == min_before.at(kinds()[j]) && max_estimates.at(
                    kinds()[j],
                ) == max_before.at(kinds()[j]) by {
                    assert(kinds()[j] != kinds()[k as int]);
                }
            }
            k += 1;
        }
        proof {
            assert forall|kind: ResourceKind|
                first_lowest(
                    column(flashblocks@.take(i + 1), kind),
                    #[trigger] min_estimates.at(kind),
                ) && first_highest(
                    column(flashblocks@.take(i + 1), kind),
                    max_estimates.at(kind),
                ) by {
                lemma_kinds_complete(kind);
                assert(column(flashblocks@.take(i + 1), kind) =~= column(done, kind).push(
                    next.estimates.at(kind),
                ));
            }
        }
        i += 1;
    }
    assert(flashblocks@.take(i as int) =~= flashblocks@);
    (min_estimates, max_estimates)
}

} // verus!
