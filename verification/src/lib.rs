//! Transaction metering: what executed transactions consumed, cached for recent blocks, and the
//! priority fee that a bundle has to pay to find room among them.

pub mod agreement_laws;
pub mod annotator;
pub mod block;
pub mod bundle;
pub mod cache;
pub mod cache_laws;
pub mod decimal;
pub mod estimates;
pub mod estimator;
pub mod estimator_laws;
pub mod execution;
pub mod flashblock;
pub mod inclusion;
pub mod indexed;
pub mod kafka;
pub mod lookup_laws;
pub mod order;
pub mod pool;
pub mod pricing_laws;
pub mod report_laws;
pub mod resource;
pub mod rolling;
pub mod rpc;
pub mod settings;
pub mod sizing;
pub mod stream_laws;
pub mod streams;
pub mod sum_laws;
pub mod text_laws;
pub mod transaction;
pub mod u256;

pub use annotator::ResourceAnnotator;
pub use block::BlockMetrics;
pub use bundle::{
    AcceptedBundle, Address, BundleTransaction, MeterBundleResponse, TransactionResult,
};
pub use cache::MeteringCache;
pub use estimates::{
    BlockPriorityEstimates, FlashblockResourceEstimates, ResourceEstimate, ResourceEstimates,
    RollingPriorityEstimates,
};
pub use estimator::PriorityFeeEstimator;
pub use execution::{BundleExecution, SimulatedTransaction};
pub use flashblock::FlashblockMetrics;
pub use inclusion::{Flashblock, FlashblockInclusion};
pub use resource::{ResourceDemand, ResourceKind, ResourceTotals};
pub use rpc::{
    FlashblockFeeEstimatesResponse, MeteredPriorityFeeResponse, MeteringError,
    ResourceFeeEstimateResponse,
};
pub use settings::{MeteringKafkaSettings, NodeOptions};
pub use streams::{FlashblockSnapshot, TxMeteringEvent};
pub use transaction::{MeteredTransaction, TxHash};
pub use u256::U256;
