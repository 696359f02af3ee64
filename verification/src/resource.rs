use crate::transaction::MeteredTransaction;
use vstd::prelude::*;

verus! {

/// Resources that influence flashblock inclusion ordering.
#[derive(Debug, Clone, Copy, PartialEq, Eq, Structural, PartialOrd, Ord, Hash)]
pub enum ResourceKind {
    GasUsed,
    ExecutionTime,
    StateRootTime,
    DataAvailability,
}

/// The resource kinds, in their fixed order.
pub open spec fn kinds() -> Seq<ResourceKind> {
    seq![
        ResourceKind::GasUsed,
        ResourceKind::ExecutionTime,
        ResourceKind::StateRootTime,
        ResourceKind::DataAvailability,
    ]
}

/// The largest amount that a running total of `kind` can hold.
pub open spec fn limit(kind: ResourceKind) -> nat {
    match kind {
        ResourceKind::GasUsed | ResourceKind::DataAvailability => u64::MAX as nat,
        ResourceKind::ExecutionTime | ResourceKind::StateRootTime => u128::MAX as nat,
    }
}

/// `amount`, or `max` where `amount` is larger.
pub open spec fn at_most(amount: nat, max: nat) -> nat {
    if amount > max {
        max
    } else {
        amount
    }
}

/// What `tx` consumed of `kind`.
pub open spec fn usage(tx: MeteredTransaction, kind: ResourceKind) -> nat {
    match kind {
        ResourceKind::GasUsed => tx.gas_used as nat,
        ResourceKind::ExecutionTime => tx.execution_time_us as nat,
        ResourceKind::StateRootTime => tx.state_root_time_us as nat,
        ResourceKind::DataAvailability => tx.data_availability_bytes as nat,
    }
}

/// What the transactions of `txs` consumed of `kind` together.
pub open spec fn total_usage(txs: Seq<MeteredTransaction>, kind: ResourceKind) -> nat
    decreases txs.len(),
{
    if txs.len() == 0 {
        0
    } else {
        total_usage(txs.drop_last(), kind) + usage(txs.last(), kind)
    }
}

impl ResourceKind {
    /// Returns all resource kinds in a fixed order.
    pub fn all() -> (r: [ResourceKind; 4])
        ensures
            r@ == kinds(),
    {
        let r: [ResourceKind; 4] = [
            ResourceKind::GasUsed,
            ResourceKind::ExecutionTime,
            ResourceKind::StateRootTime,
            ResourceKind::DataAvailability,
        ];
        assert(r@ =~= kinds());
        r
    }

    /// Returns `true` if this resource is "use-it-or-lose-it", meaning capacity
    /// that isn't consumed in one flashblock cannot be reclaimed in later ones.
    ///
    /// Execution time is the canonical example: the block builder has a fixed
    /// time budget per block, and unused time in flashblock 0 doesn't roll over
    /// to flashblock 1. For these resources, the estimator aggregates usage
    /// across all flashblocks rather than evaluating each flashblock in isolation.
    ///
    /// Other resources like gas and DA bytes are bounded per block but are
    /// evaluated per flashblock since their limits apply independently.
    pub fn use_it_or_lose_it(self) -> (r: bool)
        ensures
            r == (self == ResourceKind::ExecutionTime),
    {
        matches!(self, ResourceKind::ExecutionTime)
    }

    /// The place of the resource in the fixed order.
    pub open spec fn place(self) -> int {
        match self {
            ResourceKind::GasUsed => 0,
            ResourceKind::ExecutionTime => 1,
            ResourceKind::StateRootTime => 2,
            ResourceKind::DataAvailability => 3,
        }
    }

    /// The name of the resource in responses.
    pub open spec fn camel_case(self) -> Seq<char> {
        match self {
            ResourceKind::GasUsed => "gasUsed"@,
            ResourceKind::ExecutionTime => "executionTime"@,
            ResourceKind::StateRootTime => "stateRootTime"@,
            ResourceKind::DataAvailability => "dataAvailability"@,
        }
    }

    /// Returns the name of the resource in responses.
    pub fn as_camel_case(&self) -> (r: &'static str)
        ensures
            r@ == self.camel_case(),
    {
        match self {
            ResourceKind::GasUsed => "gasUsed",
            ResourceKind::ExecutionTime => "executionTime",
            ResourceKind::StateRootTime => "stateRootTime",
            ResourceKind::DataAvailability => "dataAvailability",
        }
    }
}

/// Returns what `tx` consumed of `resource`.
pub fn usage_extractor(resource: ResourceKind, tx: &MeteredTransaction) -> (r: u128)
    ensures
        r == usage(*tx, resource),
{
    match resource {
        ResourceKind::GasUsed => tx.gas_used as u128,
        ResourceKind::ExecutionTime => tx.execution_time_us,
        ResourceKind::StateRootTime => tx.state_root_time_us,
        ResourceKind::DataAvailability => tx.data_availability_bytes as u128,
    }
}

/// Amount of resources required by the bundle being priced.
#[derive(Debug, Clone, Copy)]
pub struct ResourceDemand {
    pub gas_used: Option<u64>,
    pub execution_time_us: Option<u128>,
    pub state_root_time_us: Option<u128>,
    pub data_availability_bytes: Option<u64>,
}

impl Default for ResourceDemand {
    /// No resource is required.
    fn default() -> (r: Self)
        ensures
            r.gas_used is None,
            r.execution_time_us is None,
            r.state_root_time_us is None,
            r.data_availability_bytes is None,
    {
        ResourceDemand {
            gas_used: None,
            execution_time_us: None,
            state_root_time_us: None,
            data_availability_bytes: None,
        }
    }
}

impl ResourceDemand {
    /// The amount of `resource` required, if any was asked for.
    pub open spec fn of(self, resource: ResourceKind) -> Option<u128> {
        match resource {
            ResourceKind::GasUsed => match self.gas_used {
                Some(v) => Some(v as u128),
                None => None,
            },
            ResourceKind::ExecutionTime => self.execution_time_us,
            ResourceKind::StateRootTime => self.state_root_time_us,
            ResourceKind::DataAvailability => match self.data_availability_bytes {
                Some(v) => Some(v as u128),
                None => None,
            },
        }
    }

    /// Returns the amount of `resource` required, if any was asked for.
    pub fn demand_for(&self, resource: ResourceKind) -> (r: Option<u128>)
        ensures
            r == self.of(resource),
    {
        match resource {
            ResourceKind::GasUsed => match self.gas_used {
                Some(v) => Some(v as u128),
                None => None,
            },
            ResourceKind::ExecutionTime => self.execution_time_us,
            ResourceKind::StateRootTime => self.state_root_time_us,
            ResourceKind::DataAvailability => match self.data_availability_bytes {
                Some(v) => Some(v as u128),
                None => None,
            },
        }
    }
}

/// Running totals of the resources that a group of transactions consumed. A total
/// that would leave the range of its type stays at the end of the range.
#[derive(Debug, Clone, Copy)]
pub struct ResourceTotals {
    pub gas_used: u64,
    pub execution_time_us: u128,
    pub state_root_time_us: u128,
    pub data_availability_bytes: u64,
}

impl Default for ResourceTotals {
    /// Nothing consumed.
    fn default() -> (r: Self)
        ensures
            r == ResourceTotals::nothing(),
    {
        ResourceTotals {
            gas_used: 0,
            execution_time_us: 0,
            state_root_time_us: 0,
            data_availability_bytes: 0,
        }
    }
}

impl ResourceTotals {
    /// Nothing consumed.
    pub open spec fn nothing() -> Self {
        ResourceTotals {
            gas_used: 0,
            execution_time_us: 0,
            state_root_time_us: 0,
            data_availability_bytes: 0,
        }
    }

    /// The totals with the amount `amounts(kind)` of each kind.
    pub open spec fn of_amounts(amounts: spec_fn(ResourceKind) -> nat) -> Self {
        ResourceTotals {
            gas_used: amounts(ResourceKind::GasUsed) as u64,
            execution_time_us: amounts(ResourceKind::ExecutionTime) as u128,
            state_root_time_us: amounts(ResourceKind::StateRootTime) as u128,
            data_availability_bytes: amounts(ResourceKind::DataAvailability) as u64,
        }
    }

    /// The total of `kind`.
    pub open spec fn amount(self, kind: ResourceKind) -> nat {
        match kind {
            ResourceKind::GasUsed => self.gas_used as nat,
            ResourceKind::ExecutionTime => self.execution_time_us as nat,
            ResourceKind::StateRootTime => self.state_root_time_us as nat,
            ResourceKind::DataAvailability => self.data_availability_bytes as nat,
        }
    }

    /// The totals with the usage of `tx` counted in, each held below its limit.
    pub open spec fn plus(self, tx: MeteredTransaction) -> Self {
        ResourceTotals {
            gas_used: self.gas_used.saturating_add(tx.gas_used),
            execution_time_us: self.execution_time_us.saturating_add(tx.execution_time_us),
            state_root_time_us: self.state_root_time_us.saturating_add(tx.state_root_time_us),
            data_availability_bytes: self.data_availability_bytes.saturating_add(
                tx.data_availability_bytes,
            ),
        }
    }

    /// The totals with the usage of `tx` taken out, none going below zero.
    pub open spec fn minus(self, tx: MeteredTransaction) -> Self {
        ResourceTotals {
            gas_used: self.gas_used.saturating_sub(tx.gas_used),
            execution_time_us: self.execution_time_us.saturating_sub(tx.execution_time_us),
            state_root_time_us: self.state_root_time_us.saturating_sub(tx.state_root_time_us),
            data_availability_bytes: self.data_availability_bytes.saturating_sub(
                tx.data_availability_bytes,
            ),
        }
    }

    /// Whether these are exactly the sums of what `txs` consumed.
    pub open spec fn exact_for(self, txs: Seq<MeteredTransaction>) -> bool {
        forall|kind: ResourceKind| #[trigger] self.amount(kind) == total_usage(txs, kind)
    }

    /// Counts the usage of `tx` in.
    pub(crate) fn accumulate(&mut self, tx: &MeteredTransaction)
        ensures
            *final(self) == old(self).plus(*tx),
    {
        self.gas_used = self.gas_used.saturating_add(tx.gas_used);
        self.execution_time_us = self.execution_time_us.saturating_add(tx.execution_time_us);
        self.state_root_time_us = self.state_root_time_us.saturating_add(tx.state_root_time_us);
        self.data_availability_bytes = self.data_availability_bytes.saturating_add(
            tx.data_availability_bytes,
        );
    }

    /// Takes the usage of `tx` out.
    pub(crate) fn subtract(&mut self, tx: &MeteredTransaction)
        ensures
            *final(self) == old(self).minus(*tx),
    {
        self.gas_used = self.gas_used.saturating_sub(tx.gas_used);
        self.execution_time_us = self.execution_time_us.saturating_sub(tx.execution_time_us);
        self.state_root_time_us = self.state_root_time_us.saturating_sub(tx.state_root_time_us);
        self.data_availability_bytes = self.data_availability_bytes.saturating_sub(
            tx.data_availability_bytes,
        );
    }

    /// Counts in the totals of another group of transactions.
    pub(crate) fn absorb(&mut self, other: &ResourceTotals)
        ensures
            forall|kind: ResourceKind| #[trigger]
                final(self).amount(kind) == at_most(
                    old(self).amount(kind) + other.amount(kind),
                    limit(kind),
                ),
    {
        self.gas_used = self.gas_used.saturating_add(other.gas_used);
        self.execution_time_us = self.execution_time_us.saturating_add(other.execution_time_us);
        self.state_root_time_us = self.state_root_time_us.saturating_add(other.state_root_time_us);
        self.data_availability_bytes = self.data_availability_bytes.saturating_add(
            other.data_availability_bytes,
        );
    }
}

/// Totals with the same amount of every kind are the same totals.
pub proof fn lemma_totals_by_amount(a: ResourceTotals, b: ResourceTotals)
    requires
        forall|kind: ResourceKind| #[trigger] a.amount(kind) == b.amount(kind),
    ensures
        a == b,
{
    assert(a.amount(ResourceKind::GasUsed) == b.amount(ResourceKind::GasUsed));
    assert(a.amount(ResourceKind::ExecutionTime) == b.amount(ResourceKind::ExecutionTime));
    assert(a.amount(ResourceKind::StateRootTime) == b.amount(ResourceKind::StateRootTime));
    assert(a.amount(ResourceKind::DataAvailability) == b.amount(ResourceKind::DataAvailability));
}

/// Counting a transaction in adds its usage to every total that stays below its limit,
/// and taking one out subtracts it from every total that is large enough.
pub proof fn lemma_plus_minus_amounts(
    totals: ResourceTotals,
    tx: MeteredTransaction,
    kind: ResourceKind,
)
    ensures
        totals.plus(tx).amount(kind) == at_most(totals.amount(kind) + usage(tx, kind), limit(kind)),
        totals.minus(tx).amount(kind) == (if totals.amount(kind) < usage(tx, kind) {
            0
        } else {
            (totals.amount(kind) - usage(tx, kind)) as nat
        }),
{
}

} // verus!
