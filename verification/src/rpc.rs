use crate::bundle::MeterBundleResponse;
use crate::cache::{CacheModel, MeteringCache};
use crate::decimal::{decimal, decimal_text, u256_decimal, u256_div};
use crate::estimates::{
    law_present_kinds, BlockPriorityEstimates, ResourceEstimate, ResourceEstimates,
};
use crate::estimator::{block_priced, populated, target_block, PriorityFeeEstimator};
use crate::execution::BundleExecution;
use crate::resource::{ResourceDemand, ResourceKind};
use crate::sizing::{bundle_da_usage, sizable, total_size};
use crate::u256::U256;
use vstd::prelude::*;
use vstd::string::*;

verus! {

/// Human-friendly representation of a resource fee quote.
#[derive(Debug, Clone)]
pub struct ResourceFeeEstimateResponse {
    pub resource: String,
    pub threshold_priority_fee: String,
    pub recommended_priority_fee: String,
    pub cumulative_usage: String,
    pub supporting_transactions: u64,
    pub total_transactions: u64,
}

/// Priority-fee estimates for a single flashblock index.
#[derive(Debug, Clone)]
pub struct FlashblockFeeEstimatesResponse {
    pub flashblock_index: u64,
    pub estimates: Vec<ResourceFeeEstimateResponse>,
}

/// Response payload for `base_meteredPriorityFeePerGas`.
#[derive(Debug, Clone)]
pub struct MeteredPriorityFeeResponse {
    pub meter_bundle: MeterBundleResponse,
    pub flashblock_estimates: Vec<FlashblockFeeEstimatesResponse>,
    pub next_block: Vec<ResourceFeeEstimateResponse>,
    pub next_flashblock: Vec<ResourceFeeEstimateResponse>,
}

/// What kind of error a caller is answered with.
#[derive(Debug, Clone, Copy, PartialEq, Eq, Structural)]
pub enum ErrorKind {
    /// The node could not do its part.
    Internal,
    /// The request was not in order.
    InvalidParams,
}

/// Why a request was not answered. The texts are those of the underlying errors.
#[derive(Debug)]
pub enum MeteringError {
    HeaderLookup(String),
    HeaderMissing,
    BundleParse(String),
    StateProvider(String),
    Metering(String),
    FeeDataUnavailable,
}

impl MeteringError {
    /// Returns what kind of error this is.
    pub fn kind(&self) -> (r: ErrorKind)
        ensures
            r == (if self is BundleParse {
                ErrorKind::InvalidParams
            } else {
                ErrorKind::Internal
            }),
    {
        match self {
            MeteringError::BundleParse(_) => ErrorKind::InvalidParams,
            _ => ErrorKind::Internal,
        }
    }

    /// The message that the caller is given.
    pub open spec fn text(self) -> Seq<char> {
        match self {
            MeteringError::HeaderLookup(e) => "Failed to get latest header: "@ + e@,
            MeteringError::HeaderMissing => "Latest block not found"@,
            MeteringError::BundleParse(e) => "Failed to parse bundle: "@ + e@,
            MeteringError::StateProvider(e) => "Failed to get state provider: "@ + e@,
            MeteringError::Metering(e) => "Bundle metering failed: "@ + e@,
            MeteringError::FeeDataUnavailable => "Priority fee data unavailable"@,
        }
    }

    /// Returns the message that the caller is given.
    pub fn message(&self) -> (r: String)
        ensures
            r@ == self.text(),
    {
        match self {
            MeteringError::HeaderLookup(e) => "Failed to get latest header: ".to_string().concat(
                e.as_str(),
            ),
            MeteringError::HeaderMissing => "Latest block not found".to_string(),
            MeteringError::BundleParse(e) => "Failed to parse bundle: ".to_string().concat(
                e.as_str(),
            ),
            MeteringError::StateProvider(e) => "Failed to get state provider: ".to_string().concat(
                e.as_str(),
            ),
            MeteringError::Metering(e) => "Bundle metering failed: ".to_string().concat(e.as_str()),
            MeteringError::FeeDataUnavailable => "Priority fee data unavailable".to_string(),
        }
    }
}

/// How far the metering of a bundle has come, and with it what is to be done next.
#[derive(Debug, Clone, Copy)]
pub enum MeteringStage {
    /// Look up the latest header.
    Header,
    /// Parse the bundle.
    Bundle { state_block_number: u64 },
    /// Open the state of the header's block.
    State { state_block_number: u64, da_usage: u64 },
    /// Simulate the bundle on that state.
    Execution { state_block_number: u64, da_usage: u64 },
}

/// What came of the work that a stage asks for. An error carries its text.
#[derive(Debug)]
pub enum MeteringReply {
    /// The number of the latest block, or `None` where there is no block.
    Header(Result<Option<u64>, String>),
    /// The encoded transactions of the parsed bundle.
    Bundle(Result<Vec<Vec<u8>>, String>),
    State(Result<(), String>),
    Execution(Result<BundleExecution, String>),
}

/// What follows from a reply.
#[derive(Debug)]
pub enum MeteringStep {
    Continue(MeteringStage),
    Done(MeterBundleResponse, ResourceDemand),
    Failed(MeteringError),
}

impl MeteringStage {
    /// Whether `reply` is a reply to the work that this stage asks for. The transactions of
    /// a bundle have to be ones that can be sized.
    pub open spec fn expects(self, reply: MeteringReply) -> bool {
        match (self, reply) {
            (MeteringStage::Header, MeteringReply::Header(_)) => true,
            (MeteringStage::Bundle { .. }, MeteringReply::Bundle(parsed)) => parsed is Ok
                ==> sizable(parsed->Ok_0@),
            (MeteringStage::State { .. }, MeteringReply::State(_)) => true,
            (MeteringStage::Execution { .. }, MeteringReply::Execution(_)) => true,
            _ => false,
        }
    }
}

/// The average price of gas, rounded down; zero where no gas was used.
pub open spec fn average_gas_price(total_gas_fees: nat, total_gas_used: u64) -> nat {
    if total_gas_used == 0 {
        0
    } else {
        total_gas_fees / total_gas_used as nat
    }
}

/// Whether `response` reports `execution` on the state of the block with this number.
pub open spec fn reports(
    response: MeterBundleResponse,
    execution: BundleExecution,
    state_block_number: u64,
) -> bool {
    &&& response.bundle_gas_price@ == decimal(
        average_gas_price(execution.total_gas_fees@, execution.total_gas_used),
    )
    &&& response.bundle_hash == execution.bundle_hash
    &&& response.coinbase_diff@ == decimal(execution.total_gas_fees@)
    &&& response.eth_sent_to_coinbase@ == "0"@
    &&& response.gas_fees@ == decimal(execution.total_gas_fees@)
    &&& response.results == execution.results
    &&& response.state_block_number == state_block_number
    &&& response.state_flashblock_index is None
    &&& response.total_gas_used == execution.total_gas_used
    &&& response.total_execution_time_us == execution.total_execution_time_us
    &&& response.state_root_time_us == execution.state_root_time_us
}

/// What a simulated bundle asks for. The state root is not priced.
pub open spec fn demand_of(execution: BundleExecution, da_usage: u64) -> ResourceDemand {
    ResourceDemand {
        gas_used: Some(execution.total_gas_used),
        execution_time_us: Some(execution.total_execution_time_us),
        state_root_time_us: None,
        data_availability_bytes: Some(da_usage),
    }
}

/// Returns the average price of gas in decimal.
pub fn bundle_gas_price(total_gas_fees: &U256, total_gas_used: u64) -> (r: String)
    ensures
        r@ == decimal(average_gas_price(total_gas_fees@, total_gas_used)),
{
    if total_gas_used > 0 {
        let gas = U256::from(total_gas_used);
        assert(gas@ == total_gas_used);
        u256_decimal(&u256_div(total_gas_fees, &gas))
    } else {
        decimal_text(0)
    }
}

/// Builds the response to a simulated bundle, and what the bundle asks for.
pub fn report_execution(execution: BundleExecution, state_block_number: u64, da_usage: u64) -> (r: (
    MeterBundleResponse,
    ResourceDemand,
))
    ensures
        reports(r.0, execution, state_block_number),
        r.1 == demand_of(execution, da_usage),
{
    let response = MeterBundleResponse {
        bundle_gas_price: bundle_gas_price(&execution.total_gas_fees, execution.total_gas_used),
        bundle_hash: execution.bundle_hash,
        coinbase_diff: u256_decimal(&execution.total_gas_fees),
        eth_sent_to_coinbase: "0".to_string(),
        gas_fees: u256_decimal(&execution.total_gas_fees),
        results: execution.results,
        state_block_number,
        state_flashblock_index: None,
        total_gas_used: execution.total_gas_used,
        total_execution_time_us: execution.total_execution_time_us,
        state_root_time_us: execution.state_root_time_us,
    };
    let resource_demand = ResourceDemand {
        gas_used: Some(execution.total_gas_used),
        execution_time_us: Some(execution.total_execution_time_us),
        state_root_time_us: None,
        data_availability_bytes: Some(da_usage),
    };
    (response, resource_demand)
}

/// Whether `step` is what follows from `reply` at `stage`.
pub open spec fn follows(stage: MeteringStage, reply: MeteringReply, step: MeteringStep) -> bool {
    match (stage, reply) {
        (MeteringStage::Header, MeteringReply::Header(looked_up)) => match looked_up {
            Err(e) => step == MeteringStep::Failed(MeteringError::HeaderLookup(e)),
            Ok(None) => step == MeteringStep::Failed(MeteringError::HeaderMissing),
            Ok(Some(number)) => step == MeteringStep::Continue(
                MeteringStage::Bundle { state_block_number: number },
            ),
        },
        (
            MeteringStage::Bundle { state_block_number },
            MeteringReply::Bundle(parsed),
        ) => match parsed {
            Err(e) => step == MeteringStep::Failed(MeteringError::BundleParse(e)),
            Ok(encoded) => step == MeteringStep::Continue(
                MeteringStage::State {
                    state_block_number,
                    da_usage: total_size(encoded@) as u64,
                },
            ),
        },
        (
            MeteringStage::State { state_block_number, da_usage },
            MeteringReply::State(opened),
        ) => match opened {
            Err(e) => step == MeteringStep::Failed(MeteringError::StateProvider(e)),
            Ok(_) => step == MeteringStep::Continue(
                MeteringStage::Execution { state_block_number, da_usage },
            ),
        },
        (
            MeteringStage::Execution { state_block_number, da_usage },
            MeteringReply::Execution(executed),
        ) => match executed {
            Err(e) => step == MeteringStep::Failed(MeteringError::Metering(e)),
            Ok(execution) => {
                &&& step is Done
                &&& reports(step->Done_0, execution, state_block_number)
                &&& step->Done_1 == demand_of(execution, da_usage)
            },
        },
        _ => false,
    }
}

/// Carries the metering of a bundle on by one reply.
pub fn advance(stage: MeteringStage, reply: MeteringReply) -> (step: MeteringStep)
    requires
        stage.expects(reply),
    ensures
        follows(stage, reply, step),
{
    match (stage, reply) {
        (MeteringStage::Header, MeteringReply::Header(looked_up)) => match looked_up {
            Err(e) => MeteringStep::Failed(MeteringError::HeaderLookup(e)),
            Ok(None) => MeteringStep::Failed(MeteringError::HeaderMissing),
            Ok(Some(state_block_number)) => MeteringStep::Continue(
                MeteringStage::Bundle { state_block_number },
            ),
        },
        (
            MeteringStage::Bundle { state_block_number },
            MeteringReply::Bundle(parsed),
        ) => match parsed {
            Err(e) => MeteringStep::Failed(MeteringError::BundleParse(e)),
            Ok(encoded) => {
                let da_usage: u64 = bundle_da_usage(&encoded);
                MeteringStep::Continue(MeteringStage::State { state_block_number, da_usage })
            },
        },
        (
            MeteringStage::State { state_block_number, da_usage },
            MeteringReply::State(opened),
        ) => match opened {
            Err(e) => MeteringStep::Failed(MeteringError::StateProvider(e)),
            Ok(_) => MeteringStep::Continue(
                MeteringStage::Execution { state_block_number, da_usage },
            ),
        },
        (
            MeteringStage::Execution { state_block_number, da_usage },
            MeteringReply::Execution(executed),
        ) => match executed {
            Err(e) => MeteringStep::Failed(MeteringError::Metering(e)),
            Ok(execution) => {
                let (response, demand) = report_execution(execution, state_block_number, da_usage);
                MeteringStep::Done(response, demand)
            },
        },
        _ => vstd::pervasive::unreached(),
    }
}

/// Whether `response` quotes `estimate` for `resource`.
pub open spec fn quotes(
    resource: ResourceKind,
    estimate: ResourceEstimate,
    response: ResourceFeeEstimateResponse,
) -> bool {
    &&& response.resource@ == resource.camel_case()
    &&& response.threshold_priority_fee@ == decimal(estimate.threshold_priority_fee@)
    &&& response.recommended_priority_fee@ == decimal(estimate.recommended_priority_fee@)
    &&& response.cumulative_usage@ == decimal(estimate.cumulative_usage as nat)
    &&& response.supporting_transactions == estimate.supporting_transactions
    &&& response.total_transactions == estimate.total_transactions
}

/// Whether `responses` quotes all estimates that there are, in the fixed order of the
/// resources.
pub open spec fn quotes_all(
    estimates: ResourceEstimates,
    responses: Seq<ResourceFeeEstimateResponse>,
) -> bool {
    &&& responses.len() == estimates.present().len()
    &&& forall|i: int|
        #![trigger responses[i]]
        0 <= i < responses.len() ==> quotes(
            estimates.present()[i],
            estimates.at(estimates.present()[i])->0,
            responses[i],
        )
}

/// Whether `response` is the answer that reports `estimates` beside the metered bundle: the
/// quotes of each flashblock, the lowest ones for the next block and the highest ones for
/// the next flashblock.
pub open spec fn answers(
    meter_bundle: MeterBundleResponse,
    estimates: BlockPriorityEstimates,
    response: MeteredPriorityFeeResponse,
) -> bool {
    &&& response.meter_bundle == meter_bundle
    &&& response.flashblock_estimates@.len() == estimates.flashblocks@.len()
    &&& forall|i: int|
        #![trigger response.flashblock_estimates@[i]]
        0 <= i < estimates.flashblocks@.len() ==> {
            &&& response.flashblock_estimates@[i].flashblock_index
                == estimates.flashblocks@[i].flashblock_index
            &&& quotes_all(
                estimates.flashblocks@[i].estimates,
                response.flashblock_estimates@[i].estimates@,
            )
        }
    &&& quotes_all(estimates.min_across_flashblocks, response.next_block@)
    &&& quotes_all(estimates.max_across_flashblocks, response.next_flashblock@)
}

/// Quotes one estimate.
pub fn to_response(resource: ResourceKind, estimate: &ResourceEstimate) -> (r:
    ResourceFeeEstimateResponse)
    ensures
        quotes(resource, *estimate, r),
{
    ResourceFeeEstimateResponse {
        resource: resource.as_camel_case().to_string(),
        threshold_priority_fee: u256_decimal(&estimate.threshold_priority_fee),
        recommended_priority_fee: u256_decimal(&estimate.recommended_priority_fee),
        cumulative_usage: decimal_text(estimate.cumulative_usage),
        supporting_transactions: estimate.supporting_transactions as u64,
        total_transactions: estimate.total_transactions as u64,
    }
}

/// Quotes all estimates that there are, in the fixed order of the resources.
pub fn ordered_resource_estimates(estimates: &ResourceEstimates) -> (r: Vec<
    ResourceFeeEstimateResponse,
>)
    ensures
        quotes_all(*estimates, r@),
{
    let entries = estimates.iter();
    let mut r: Vec<ResourceFeeEstimateResponse> = Vec::new();
    let mut i: usize = 0;
    while i < entries.len()
        invariant
            i <= entries.len(),
            entries@.len() == estimates.present().len(),
            forall|k: int|
                0 <= k < entries@.len() ==> (#[trigger] entries@[k]).0 == estimates.present()[k]
                    && estimates.at(entries@[k].0) == Some(*entries@[k].1),
            r@.len() == i,
            forall|k: int|
                #![trigger r@[k]]
                0 <= k < i ==> quotes(
                    estimates.present()[k],
                    estimates.at(estimates.present()[k])->0,
                    r@[k],
                ),
        decreases entries.len() - i,
    {
        let (resource, estimate) = entries[i];
        assert(resource == entries@[i as int].0);
        r.push(to_response(resource, estimate));
        i += 1;
    }
    r
}

/// Builds the answer that reports `estimates` beside the metered bundle.
pub fn build_priority_fee_response(
    meter_bundle: MeterBundleResponse,
    estimates: &BlockPriorityEstimates,
) -> (r: MeteredPriorityFeeResponse)
    ensures
        answers(meter_bundle, *estimates, r),
{
    let mut flashblock_estimates: Vec<FlashblockFeeEstimatesResponse> = Vec::new();
    let mut i: usize = 0;
    while i < estimates.flashblocks.len()
        invariant
            i <= estimates.flashblocks.len(),
            flashblock_estimates@.len() == i,
            forall|k: int|
                #![trigger flashblock_estimates@[k]]
                0 <= k < i ==> {
                    &&& flashblock_estimates@[k].flashblock_index
                        == estimates.flashblocks@[k].flashblock_index
                    &&& quotes_all(
                        estimates.flashblocks@[k].estimates,
                        flashblock_estimates@[k].estimates@,
                    )
                },
        decreases estimates.flashblocks.len() - i,
    {
        let flashblock = &estimates.flashblocks[i];
        flashblock_estimates.push(
            FlashblockFeeEstimatesResponse {
                flashblock_index: flashblock.flashblock_index,
                estimates: ordered_resource_estimates(&flashblock.estimates),
            },
        );
        i += 1;
    }
    let next_block = ordered_resource_estimates(&estimates.min_across_flashblocks);
    let next_flashblock = ordered_resource_estimates(&estimates.max_across_flashblocks);
    MeteredPriorityFeeResponse { meter_bundle, flashblock_estimates, next_block, next_flashblock }
}

/// Whether there is a cached block to price a bundle against: the one that came in last,
/// where it holds a transaction.
pub open spec fn fee_data(cache: CacheModel) -> bool {
    match target_block(cache, None) {
        Some(block) => populated(block).len() > 0,
        None => false,
    }
}

/// What the metering of a bundle came to: the response to it and what it asks for, or why it
/// failed.
pub type MeteringOutcome = Result<(MeterBundleResponse, ResourceDemand), MeteringError>;

/// Whether `r` is the answer to a bundle with this metering outcome: a failure is itself the
/// answer, and so is the lack of fee data; otherwise it reports the estimates of the block that
/// came in last beside the metered bundle.
pub open spec fn fee_answer<P: Fn(usize) -> usize>(
    cache: CacheModel,
    rank: P,
    metered: MeteringOutcome,
    r: Result<MeteredPriorityFeeResponse, MeteringError>,
) -> bool {
    match metered {
        Err(e) => r == Err::<MeteredPriorityFeeResponse, MeteringError>(e),
        Ok((meter_bundle, demand)) => if fee_data(cache) {
            r is Ok && exists|estimates: BlockPriorityEstimates|
                {
                    &&& #[trigger] block_priced(
                        target_block(cache, None)->0,
                        demand,
                        rank,
                        estimates,
                    )
                    &&& answers(meter_bundle, estimates, r->Ok_0)
                }
        } else {
            r == Err::<MeteredPriorityFeeResponse, MeteringError>(MeteringError::FeeDataUnavailable)
        },
    }
}

/// Answers a request to meter a bundle: with the response to it, or with the failure.
pub fn meter_bundle(metered: MeteringOutcome) -> (r: Result<MeterBundleResponse, MeteringError>)
    ensures
        r == (match metered {
            Ok((response, _)) => Ok::<MeterBundleResponse, MeteringError>(response),
            Err(e) => Err(e),
        }),
{
    match metered {
        Ok((response, _)) => Ok(response),
        Err(e) => Err(e),
    }
}

/// Answers a request for the fees that would get a bundle included, from the block that came
/// in last.
pub fn metered_priority_fee_per_gas<P: Fn(usize) -> usize>(
    estimator: &PriorityFeeEstimator<P>,
    cache: &MeteringCache,
    metered: MeteringOutcome,
) -> (r: Result<MeteredPriorityFeeResponse, MeteringError>)
    requires
        cache.wf(),
        estimator.total_rank(),
    ensures
        fee_answer(cache@, estimator.percentile_rank, metered, r),
{
    match metered {
        Err(e) => Err(e),
        Ok((meter_bundle, resource_demand)) => {
            match estimator.estimate_for_block(cache, None, resource_demand) {
                Some(estimates) => {
                    let response = build_priority_fee_response(meter_bundle, &estimates);
                    assert(answers(meter_bundle, estimates, response));
                    Ok(response)
                },
                None => Err(MeteringError::FeeDataUnavailable),
            }
        },
    }
}

impl MeteringStage {
    /// The number of replies that have gone before this stage.
    pub open spec fn replies(self) -> nat {
        match self {
            MeteringStage::Header => 0,
            MeteringStage::Bundle { .. } => 1,
            MeteringStage::State { .. } => 2,
            MeteringStage::Execution { .. } => 3,
        }
    }
}

/// Every reply leads to the next stage or to the end, so that four replies are enough.
pub proof fn law_metering_progresses(
    stage: MeteringStage,
    reply: MeteringReply,
    next: MeteringStage,
)
    requires
        follows(stage, reply, MeteringStep::Continue(next)),
    ensures
        next.replies() == stage.replies() + 1,
        next.replies() < 4,
{
}

/// A bundle that goes through all stages is reported on the state of the latest block,
/// whatever block it was meant for, and asks for what its simulation used and its encoding
/// takes up.
pub proof fn law_complete_metering(
    number: u64,
    encoded: Vec<Vec<u8>>,
    execution: BundleExecution,
    looked_up: MeteringStep,
    parsed: MeteringStep,
    opened: MeteringStep,
    executed: MeteringStep,
)
    requires
        sizable(encoded@),
        follows(MeteringStage::Header, MeteringReply::Header(Ok(Some(number))), looked_up),
        follows(looked_up->Continue_0, MeteringReply::Bundle(Ok(encoded)), parsed),
        follows(parsed->Continue_0, MeteringReply::State(Ok(())), opened),
        follows(opened->Continue_0, MeteringReply::Execution(Ok(execution)), executed),
    ensures
        looked_up is Continue,
        parsed is Continue,
        opened is Continue,
        executed is Done,
        reports(executed->Done_0, execution, number),
        executed->Done_1 == demand_of(execution, total_size(encoded@) as u64),
{
}

/// Every resource that has an estimate is quoted, and none is quoted twice.
pub proof fn law_each_resource_quoted_once(
    estimates: ResourceEstimates,
    responses: Seq<ResourceFeeEstimateResponse>,
)
    requires
        quotes_all(estimates, responses),
    ensures
        forall|kind: ResourceKind|
            (#[trigger] estimates.at(kind)) is Some ==> exists|i: int|
                0 <= i < responses.len() && quotes(
                    kind,
                    estimates.at(kind)->0,
                    #[trigger] responses[i],
                ),
        forall|i: int, j: int|
            0 <= i < j < responses.len() ==> (#[trigger] responses[i]).resource@ != (
            #[trigger] responses[j]).resource@,
{
    law_present_kinds(estimates);
    let present = estimates.present();
    assert forall|kind: ResourceKind| (#[trigger] estimates.at(kind)) is Some implies exists|i: int|
        0 <= i < responses.len() && quotes(
            kind,
            estimates.at(kind)->0,
            #[trigger] responses[i],
        ) by {
        assert(present.contains(kind));
        let i = choose|i: int| 0 <= i < present.len() && present[i] == kind;
        assert(quotes(kind, estimates.at(kind)->0, responses[i]));
    }
    assert forall|i: int, j: int| 0 <= i < j < responses.len() implies (
    #[trigger] responses[i]).resource@ != (#[trigger] responses[j]).resource@ by {
        assert(present[i].place() < present[j].place());
        lemma_names_differ(present[i], present[j]);
    }
}

/// Different resources have different names.
pub proof fn lemma_names_differ(a: ResourceKind, b: ResourceKind)
    requires
        a != b,
    ensures
        a.camel_case() != b.camel_case(),
{
    reveal_strlit("gasUsed");
    reveal_strlit("executionTime");
    reveal_strlit("stateRootTime");
    reveal_strlit("dataAvailability");
    assert(a.camel_case()[0] != b.camel_case()[0]);
}

} // verus!
