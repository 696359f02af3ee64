use crate::estimates::{
    lemma_kinds_complete, BlockPriorityEstimates, ResourceEstimate, ResourceEstimates,
    RollingPriorityEstimates,
};
use crate::order::{by_fee, lemma_by_fee, sort_by_fee};
use crate::resource::{kinds, ResourceKind};
use crate::u256::U256;
use vstd::prelude::*;

verus! {

/// The fees that the samples with an estimate for `kind` recommend.
pub open spec fn fees_for(samples: Seq<ResourceEstimates>, kind: ResourceKind) -> Seq<U256> {
    samples.filter(|e: ResourceEstimates| e.at(kind) is Some).map_values(
        |e: ResourceEstimates| e.at(kind)->0.recommended_priority_fee,
    )
}

/// The median of some fees; of an even number of them, the upper one of the middle two.
pub open spec fn median(fees: Seq<U256>) -> U256 {
    by_fee(fees)[fees.len() as int / 2]
}

/// The estimate that stands for `fees`: their median and no counts.
pub open spec fn median_estimate(fees: Seq<U256>) -> Option<ResourceEstimate> {
    if fees.len() == 0 {
        None
    } else {
        Some(
            ResourceEstimate {
                threshold_priority_fee: median(fees),
                recommended_priority_fee: median(fees),
                cumulative_usage: 0,
                supporting_transactions: 0,
                total_transactions: 0,
            },
        )
    }
}

/// Whether a sample has an estimate for any resource.
pub open spec fn contributes(sample: ResourceEstimates) -> bool {
    exists|kind: ResourceKind| (#[trigger] sample.at(kind)) is Some
}

/// Whether `fee` is the highest that `estimates` recommends for any resource.
pub open spec fn highest_recommended(estimates: ResourceEstimates, fee: U256) -> bool {
    &&& exists|kind: ResourceKind|
        (#[trigger] estimates.at(kind)) is Some && estimates.at(kind)->0.recommended_priority_fee
            == fee
    &&& forall|kind: ResourceKind|
        (#[trigger] estimates.at(kind)) is Some ==> estimates.at(kind)->0.recommended_priority_fee@
            <= fee@
}

/// Whether `r` is what the samples come to: nothing where none of them contributes, and
/// otherwise the median of each resource, the highest of the medians, and the number of
/// samples that contributed.
pub open spec fn rolling_of(
    samples: Seq<ResourceEstimates>,
    r: Option<RollingPriorityEstimates>,
) -> bool {
    &&& r is None <==> forall|kind: ResourceKind| (#[trigger] fees_for(samples, kind)).len() == 0
    &&& r is Some ==> {
        &&& forall|kind: ResourceKind| #[trigger]
            r->0.estimates.at(kind) == median_estimate(fees_for(samples, kind))
        &&& highest_recommended(r->0.estimates, r->0.recommended_priority_fee)
        &&& r->0.blocks_sampled == samples.filter(|e: ResourceEstimates| contributes(e)).len()
    }
}

/// The highest estimates of the blocks that have any.
pub open spec fn maxima(outcomes: Seq<Option<BlockPriorityEstimates>>) -> Seq<ResourceEstimates> {
    outcomes.filter(|o: Option<BlockPriorityEstimates>| o is Some).map_values(
        |o: Option<BlockPriorityEstimates>| o->0.max_across_flashblocks,
    )
}

/// Collects the fees that the samples recommend for `kind`.
fn collect_fees(samples: &Vec<ResourceEstimates>, kind: ResourceKind) -> (r: Vec<U256>)
    ensures
        r@ == fees_for(samples@, kind),
{
    let ghost pred = |e: ResourceEstimates| e.at(kind) is Some;
    let mut r: Vec<U256> = Vec::new();
    let mut i: usize = 0;
    assert(fees_for(samples@.take(0), kind) =~= Seq::empty()) by {
        reveal(Seq::filter);
    }
    while i < samples.len()
        invariant
            i <= samples.len(),
            pred == (|e: ResourceEstimates| e.at(kind) is Some),
            r@ == fees_for(samples@.take(i as int), kind),
        decreases samples.len() - i,
    {
        proof {
            reveal(Seq::filter);
            assert(samples@.take(i + 1).drop_last() =~= samples@.take(i as int));
        }
        if let Some(estimate) = samples[i].get(kind) {
            r.push(estimate.recommended_priority_fee);
        }
        i += 1;
        assert(r@ =~= fees_for(samples@.take(i as int), kind));
    }
    assert(samples@.take(i as int) =~= samples@);
    r
}

/// Counts the samples that have an estimate for any resource.
fn count_contributing(samples: &Vec<ResourceEstimates>) -> (r: usize)
    ensures
        r == samples@.filter(|e: ResourceEstimates| contributes(e)).len(),
{
    let ghost pred = |e: ResourceEstimates| contributes(e);
    let mut r: usize = 0;
    let mut i: usize = 0;
    assert(samples@.take(0).filter(pred).len() == 0) by {
        reveal(Seq::filter);
    }
    while i < samples.len()
        invariant
            i <= samples.len(),
            r <= i,
            pred == (|e: ResourceEstimates| contributes(e)),
            r == samples@.take(i as int).filter(pred).len(),
        decreases samples.len() - i,
    {
        proof {
            reveal(Seq::filter);
            assert(samples@.take(i + 1).drop_last() =~= samples@.take(i as int));
        }
        if !samples[i].is_empty() {
            r += 1;
        }
        i += 1;
    }
    assert(samples@.take(i as int) =~= samples@);
    r
}

/// Sums up the highest estimates of several blocks: the median recommended fee for each
/// resource, and the maximum of these across the resources.
pub fn rolling_from(samples: &Vec<ResourceEstimates>) -> (r: Option<RollingPriorityEstimates>)
    ensures
        rolling_of(samples@, r),
{
    let mut estimates = ResourceEstimates::default();
    let mut max_fee = U256::zero();
    let all = ResourceKind::all();
    let mut k: usize = 0;
    while k < 4
        invariant
            k <= 4,
            all@ == kinds(),
            forall|j: int|
                #![trigger kinds()[j]]
                0 <= j < k ==> estimates.at(kinds()[j]) == median_estimate(
                    fees_for(samples@, kinds()[j]),
                ),
            forall|j: int|
                #![trigger kinds()[j]]
                k <= j < 4 ==> estimates.at(kinds()[j]) is None,
            forall|kind: ResourceKind|
                (#[trigger] estimates.at(kind)) is Some ==> estimates.at(
                    kind,
                )->0.recommended_priority_fee@ <= max_fee@,
            (max_fee@ == 0 && forall|kind: ResourceKind| (#[trigger] estimates.at(kind)) is None)
                || highest_recommended(estimates, max_fee),
        decreases 4 - k,
    {
        let resource = all[k];
        let ghost before = estimates;
        let ghost max_before = max_fee;
        let fees = collect_fees(samples, resource);
        proof {
            lemma_kinds_complete(resource);
            assert(kinds()[k as int] == resource);
            lemma_by_fee(fees@);
        }
        if fees.len() > 0 {
            let sorted = sort_by_fee(&fees);
            let median_fee = sorted[sorted.len() / 2];
            max_fee = max_fee.larger(median_fee);
            estimates.set(
                resource,
                ResourceEstimate {
                    threshold_priority_fee: median_fee,
                    recommended_priority_fee: median_fee,
                    cumulative_usage: 0,
                    supporting_transactions: 0,
                    total_transactions: 0,
                },
            );
            proof {
                assert(estimates.at(resource)->0.recommended_priority_fee == median_fee);
                if highest_recommended(before, max_before) {
                    let w = choose|kind: ResourceKind|
                        (#[trigger] before.at(kind)) is Some && before.at(
                            kind,
                        )->0.recommended_priority_fee == max_before;
                    assert(w != resource) by {
                        assert(before.at(kinds()[k as int]) is None);
                    }
                    assert(estimates.at(w) == before.at(w));
                }
                crate::u256::lemma_view_injective(max_fee, median_fee);
                crate::u256::lemma_view_injective(max_fee, max_before);
            }
        }
        proof {
            assert forall|j: int| #![trigger kinds()[j]] 0 <= j < 4 && j != k implies estimates.at(
                kinds()[j],
            ) == before.at(kinds()[j]) by {
                assert(kinds()[j] != kinds()[k as int]);
            }
        }
        k += 1;
    }
    proof {
        assert forall|kind: ResourceKind| #[trigger]
            estimates.at(kind) == median_estimate(fees_for(samples@, kind)) by {
            lemma_kinds_complete(kind);
        }
    }
    if estimates.is_empty() {
        proof {
            assert forall|kind: ResourceKind| (#[trigger] fees_for(samples@, kind)).len() == 0 by {
                assert(estimates.at(kind) is None);
            }
        }
        return None;
    }
    proof {
        let kind = choose|kind: ResourceKind| (#[trigger] estimates.at(kind)) is Some;
        assert(fees_for(samples@, kind).len() > 0);
    }
    Some(
        RollingPriorityEstimates {
            blocks_sampled: count_contributing(samples),
            estimates,
            recommended_priority_fee: max_fee,
        },
    )
}

} // verus!
