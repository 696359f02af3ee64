use metering::estimates::compute_min_max_estimates;
use metering::estimator::{compute_estimate_core, compute_resource_estimate};
use metering::rolling::rolling_from;
use metering::{
    FlashblockResourceEstimates, MeteredTransaction, MeteringCache, PriorityFeeEstimator,
    ResourceDemand, ResourceEstimate, ResourceEstimates, ResourceKind, U256,
};

fn tx(priority: u64, usage: u64) -> MeteredTransaction {
    MeteredTransaction {
        tx_hash: [0; 32],
        priority_fee_per_gas: U256::from(priority),
        gas_used: usage,
        execution_time_us: usage as u128,
        state_root_time_us: usage as u128,
        data_availability_bytes: usage,
    }
}

fn hashed(hash: u8, priority: u64, usage: u64) -> MeteredTransaction {
    let mut tx = tx(priority, usage);
    tx.tx_hash[31] = hash;
    tx
}

fn rank(percentile: f64) -> impl Fn(usize) -> usize {
    move |last| (last as f64 * percentile).round() as usize
}

fn estimate(fee: u64) -> ResourceEstimate {
    ResourceEstimate {
        threshold_priority_fee: U256::from(fee),
        recommended_priority_fee: U256::from(fee),
        cumulative_usage: 1,
        supporting_transactions: 1,
        total_transactions: 1,
    }
}

fn gas_only(fee: u64) -> ResourceEstimates {
    let mut estimates = ResourceEstimates::default();
    estimates.set(ResourceKind::GasUsed, estimate(fee));
    estimates
}

#[test]
fn compute_estimate_basic() {
    let txs = vec![tx(1, 10), tx(2, 10), tx(3, 10)];
    let quote =
        compute_estimate_core(&txs, 15, ResourceKind::GasUsed, &rank(0.5)).expect("quote");
    assert_eq!(quote.threshold_priority_fee, U256::from(2u64));
    assert_eq!(quote.recommended_priority_fee, U256::from(3u64));
    assert_eq!(quote.cumulative_usage, 20);
    assert_eq!(quote.supporting_transactions, 2);
}

#[test]
fn demand_that_is_met_exactly() {
    let txs = vec![tx(1, 10), tx(2, 10), tx(3, 10)];
    let quote = compute_estimate_core(&txs, 10, ResourceKind::GasUsed, &rank(0.0)).unwrap();
    assert_eq!(quote.threshold_priority_fee, U256::from(1u64));
    assert_eq!(quote.recommended_priority_fee, U256::from(2u64));
    assert_eq!(quote.supporting_transactions, 1);
    assert_eq!(quote.total_transactions, 3);
}

#[test]
fn last_transaction_is_recommended_where_nothing_remains() {
    let txs = vec![tx(1, 10), tx(2, 10), tx(3, 10)];
    let quote = compute_estimate_core(&txs, 30, ResourceKind::ExecutionTime, &rank(0.5)).unwrap();
    assert_eq!(quote.threshold_priority_fee, U256::from(3u64));
    assert_eq!(quote.recommended_priority_fee, U256::from(3u64));
    assert_eq!(quote.cumulative_usage, 30);
    assert_eq!(quote.supporting_transactions, 3);
}

#[test]
fn too_large_a_demand_has_no_price() {
    let txs = vec![tx(1, 10), tx(2, 10)];
    assert!(compute_estimate_core(&txs, 21, ResourceKind::GasUsed, &rank(0.5)).is_none());
    assert!(compute_estimate_core(&vec![], 0, ResourceKind::GasUsed, &rank(0.5)).is_none());
    assert!(compute_resource_estimate(&vec![], 1, ResourceKind::GasUsed, &rank(0.5)).is_none());
}

#[test]
fn no_demand_has_no_price() {
    let txs = vec![tx(1, 10), tx(2, 10)];
    assert!(compute_resource_estimate(&txs, 0, ResourceKind::GasUsed, &rank(0.5)).is_none());
    assert!(compute_resource_estimate(&txs, 1, ResourceKind::GasUsed, &rank(0.5)).is_some());
    // The core takes nothing to be gathered at the first transaction.
    let quote = compute_estimate_core(&txs, 0, ResourceKind::GasUsed, &rank(0.5)).unwrap();
    assert_eq!(quote.threshold_priority_fee, U256::from(1u64));
}

#[test]
fn percentiles_pick_among_what_remains() {
    let txs: Vec<MeteredTransaction> = (1..=6).map(|fee| tx(fee, 10)).collect();
    let pick = |percentile: f64| {
        compute_estimate_core(&txs, 10, ResourceKind::GasUsed, &rank(percentile))
            .unwrap()
            .recommended_priority_fee
    };
    assert_eq!(pick(0.0), U256::from(2u64));
    assert_eq!(pick(0.25), U256::from(3u64));
    assert_eq!(pick(0.5), U256::from(4u64));
    assert_eq!(pick(1.0), U256::from(6u64));
    // A position beyond the last one stands for the last one.
    let beyond = compute_estimate_core(&txs, 10, ResourceKind::GasUsed, &|_| usize::MAX).unwrap();
    assert_eq!(beyond.recommended_priority_fee, U256::from(6u64));
}

#[test]
fn thresholds_rise_with_the_demand() {
    let txs: Vec<MeteredTransaction> = (1..=9).map(|fee| tx(fee * fee, 7)).collect();
    let mut last = U256::zero();
    for demand in 1..=63u128 {
        let quote =
            compute_resource_estimate(&txs, demand, ResourceKind::DataAvailability, &rank(0.5))
                .unwrap();
        assert!(!quote.threshold_priority_fee.less_than(&last));
        assert!(!quote.recommended_priority_fee.less_than(&quote.threshold_priority_fee));
        assert!(quote.cumulative_usage >= demand);
        assert!(quote.supporting_transactions <= quote.total_transactions);
        last = quote.threshold_priority_fee;
    }
    assert_eq!(last, U256::from(81u64));
    assert!(
        compute_resource_estimate(&txs, 64, ResourceKind::DataAvailability, &rank(0.5)).is_none()
    );
}

#[test]
fn gathered_usage_stops_at_its_limit() {
    let mut big = tx(1, 0);
    big.execution_time_us = u128::MAX - 1;
    let txs = vec![big, tx(2, 5)];
    let quote =
        compute_estimate_core(&txs, u128::MAX, ResourceKind::ExecutionTime, &rank(0.5)).unwrap();
    assert_eq!(quote.cumulative_usage, u128::MAX);
    assert_eq!(quote.supporting_transactions, 2);
}

#[test]
fn resources_are_listed_in_order() {
    let all = ResourceKind::all();
    let names: Vec<&str> = all.iter().map(|kind| kind.as_camel_case()).collect();
    assert_eq!(
        names,
        vec!["gasUsed", "executionTime", "stateRootTime", "dataAvailability"]
    );
    let shared: Vec<bool> = all.iter().map(|kind| kind.use_it_or_lose_it()).collect();
    assert_eq!(shared, vec![false, true, false, false]);
}

#[test]
fn demand_is_read_by_kind() {
    let demand = ResourceDemand {
        gas_used: Some(1),
        execution_time_us: Some(2),
        state_root_time_us: None,
        data_availability_bytes: Some(4),
    };
    assert_eq!(demand.demand_for(ResourceKind::GasUsed), Some(1));
    assert_eq!(demand.demand_for(ResourceKind::ExecutionTime), Some(2));
    assert_eq!(demand.demand_for(ResourceKind::StateRootTime), None);
    assert_eq!(demand.demand_for(ResourceKind::DataAvailability), Some(4));
    assert_eq!(ResourceDemand::default().demand_for(ResourceKind::GasUsed), None);
}

#[test]
fn estimates_are_kept_by_kind() {
    let mut estimates = ResourceEstimates::default();
    assert!(estimates.is_empty());
    assert!(estimates.iter().is_empty());
    estimates.set(ResourceKind::DataAvailability, estimate(4));
    estimates.set(ResourceKind::GasUsed, estimate(1));
    estimates.set(ResourceKind::GasUsed, estimate(2));
    assert!(!estimates.is_empty());
    let fee = |kind| estimates.get(kind).map(|e| e.recommended_priority_fee);
    assert_eq!(fee(ResourceKind::GasUsed), Some(U256::from(2u64)));
    assert_eq!(fee(ResourceKind::ExecutionTime), None);
    assert_eq!(fee(ResourceKind::DataAvailability), Some(U256::from(4u64)));
    let listed: Vec<ResourceKind> = estimates.iter().iter().map(|(kind, _)| *kind).collect();
    assert_eq!(listed, vec![ResourceKind::GasUsed, ResourceKind::DataAvailability]);
}

#[test]
fn lowest_and_highest_across_flashblocks() {
    let mut flashblocks: Vec<FlashblockResourceEstimates> = Vec::new();
    for (index, fee) in [(0u64, 5u64), (1, 2), (2, 9), (3, 2), (4, 9)] {
        let mut estimates = gas_only(fee);
        if let Some(mut e) = estimates.get(ResourceKind::GasUsed).copied() {
            e.total_transactions = index as usize;
            estimates.set(ResourceKind::GasUsed, e);
        }
        flashblocks.push(FlashblockResourceEstimates { flashblock_index: index, estimates });
    }
    let (min, max) = compute_min_max_estimates(&flashblocks);
    let lowest = min.get(ResourceKind::GasUsed).unwrap();
    let highest = max.get(ResourceKind::GasUsed).unwrap();
    assert_eq!(lowest.recommended_priority_fee, U256::from(2u64));
    assert_eq!(lowest.total_transactions, 1);
    assert_eq!(highest.recommended_priority_fee, U256::from(9u64));
    assert_eq!(highest.total_transactions, 2);
    assert!(min.get(ResourceKind::ExecutionTime).is_none());
    assert!(max.get(ResourceKind::ExecutionTime).is_none());
}

#[test]
fn execution_time_is_priced_across_flashblocks() {
    let mut cache = MeteringCache::new(12);
    // Two flashblocks with 10 units each, at fees 1..4.
    cache.upsert_transaction(5, 0, hashed(1, 1, 10));
    cache.upsert_transaction(5, 0, hashed(2, 3, 10));
    cache.upsert_transaction(5, 1, hashed(3, 2, 10));
    cache.upsert_transaction(5, 1, hashed(4, 4, 10));
    // A flashblock without transactions does not take part.
    let _ = cache.remove_transaction(5, 2, &[9; 32]);

    let estimator = PriorityFeeEstimator::new(rank(0.5));
    let demand = ResourceDemand {
        gas_used: Some(15),
        execution_time_us: Some(15),
        state_root_time_us: Some(0),
        data_availability_bytes: None,
    };
    let estimates = estimator.estimate_for_block(&cache, Some(5), demand).unwrap();
    assert_eq!(estimates.block_number, 5);
    let indices: Vec<u64> = estimates.flashblocks.iter().map(|f| f.flashblock_index).collect();
    assert_eq!(indices, vec![0, 1]);

    let threshold = |i: usize, kind| {
        estimates.flashblocks[i].estimates.get(kind).map(|e| e.threshold_priority_fee)
    };
    assert_eq!(threshold(0, ResourceKind::GasUsed), Some(U256::from(3u64)));
    assert_eq!(threshold(1, ResourceKind::GasUsed), Some(U256::from(4u64)));
    assert_eq!(threshold(0, ResourceKind::ExecutionTime), Some(U256::from(2u64)));
    assert_eq!(threshold(1, ResourceKind::ExecutionTime), Some(U256::from(2u64)));
    assert_eq!(threshold(0, ResourceKind::StateRootTime), None);
    assert_eq!(threshold(0, ResourceKind::DataAvailability), None);

    let shared = estimates.flashblocks[0].estimates.get(ResourceKind::ExecutionTime).unwrap();
    assert_eq!(shared.total_transactions, 4);
    assert_eq!(shared.supporting_transactions, 2);
    assert_eq!(shared.recommended_priority_fee, U256::from(4u64));

    let lowest = estimates.min_across_flashblocks.get(ResourceKind::GasUsed).unwrap();
    let highest = estimates.max_across_flashblocks.get(ResourceKind::GasUsed).unwrap();
    assert_eq!(lowest.recommended_priority_fee, U256::from(3u64));
    assert_eq!(highest.recommended_priority_fee, U256::from(4u64));
}

#[test]
fn estimates_need_a_cached_block_with_transactions() {
    let estimator = PriorityFeeEstimator::new(rank(0.5));
    let demand = ResourceDemand { gas_used: Some(1), ..ResourceDemand::default() };
    let mut cache = MeteringCache::new(12);
    assert!(estimator.estimate_for_block(&cache, None, demand).is_none());
    assert!(estimator.estimate_rolling(&cache, demand).is_none());
    let _ = cache.remove_transaction(1, 0, &[1; 32]);
    assert!(estimator.estimate_for_block(&cache, None, demand).is_none());
    assert!(estimator.estimate_rolling(&cache, demand).is_none());
    cache.upsert_transaction(1, 0, hashed(1, 3, 10));
    assert!(estimator.estimate_for_block(&cache, None, demand).is_some());
    assert!(estimator.estimate_for_block(&cache, Some(2), demand).is_none());
    // Nothing is asked for: the block has estimates, but none for any resource.
    let nothing = estimator.estimate_for_block(&cache, None, ResourceDemand::default()).unwrap();
    assert!(nothing.flashblocks[0].estimates.is_empty());
    assert!(estimator.estimate_rolling(&cache, ResourceDemand::default()).is_none());
}

#[test]
fn latest_block_is_priced_by_default() {
    let mut cache = MeteringCache::new(12);
    cache.upsert_transaction(9, 0, hashed(1, 3, 10));
    cache.upsert_transaction(4, 0, hashed(2, 8, 10));
    let estimator = PriorityFeeEstimator::new(rank(0.5));
    let demand = ResourceDemand { gas_used: Some(1), ..ResourceDemand::default() };
    let estimates = estimator.estimate_for_block(&cache, None, demand).unwrap();
    assert_eq!(estimates.block_number, 4);
}

#[test]
fn rolling_takes_the_median_of_the_blocks() {
    let mut cache = MeteringCache::new(12);
    for (number, fee) in [(1u64, 30u64), (2, 10), (3, 20)] {
        cache.upsert_transaction(number, 0, hashed(number as u8, fee, 10));
    }
    let estimator = PriorityFeeEstimator::new(rank(0.5));
    let demand = ResourceDemand { gas_used: Some(5), ..ResourceDemand::default() };
    let rolling = estimator.estimate_rolling(&cache, demand).unwrap();
    assert_eq!(rolling.blocks_sampled, 3);
    assert_eq!(rolling.recommended_priority_fee, U256::from(20u64));
    let gas = rolling.estimates.get(ResourceKind::GasUsed).unwrap();
    assert_eq!(gas.threshold_priority_fee, U256::from(20u64));
    assert_eq!(gas.cumulative_usage, 0);
    assert_eq!(gas.supporting_transactions, 0);
    assert_eq!(gas.total_transactions, 0);
    assert!(rolling.estimates.get(ResourceKind::ExecutionTime).is_none());
}

#[test]
fn rolling_counts_only_blocks_that_contribute() {
    let mut cache = MeteringCache::new(12);
    cache.upsert_transaction(1, 0, hashed(1, 30, 10));
    // Not enough gas to displace: no estimate in this block.
    cache.upsert_transaction(2, 0, hashed(2, 10, 1));
    let estimator = PriorityFeeEstimator::new(rank(0.5));
    let demand = ResourceDemand { gas_used: Some(5), ..ResourceDemand::default() };
    let rolling = estimator.estimate_rolling(&cache, demand).unwrap();
    assert_eq!(rolling.blocks_sampled, 1);
    assert_eq!(rolling.recommended_priority_fee, U256::from(30u64));
}

#[test]
fn rolling_recommends_the_highest_median() {
    let mut samples = vec![gas_only(4), gas_only(1), gas_only(3), gas_only(2)];
    samples[0].set(ResourceKind::ExecutionTime, estimate(2));
    samples[1].set(ResourceKind::ExecutionTime, estimate(9));
    let rolling = rolling_from(&samples).unwrap();
    // Of an even number of fees, the upper one of the middle two.
    assert_eq!(
        rolling.estimates.get(ResourceKind::GasUsed).unwrap().recommended_priority_fee,
        U256::from(3u64)
    );
    assert_eq!(
        rolling.estimates.get(ResourceKind::ExecutionTime).unwrap().recommended_priority_fee,
        U256::from(9u64)
    );
    assert_eq!(rolling.recommended_priority_fee, U256::from(9u64));
    assert_eq!(rolling.blocks_sampled, 4);
    assert!(rolling_from(&vec![ResourceEstimates::default()]).is_none());
    assert!(rolling_from(&vec![]).is_none());
}

#[test]
fn latest_block_is_the_one_with_its_number() {
    let mut cache = MeteringCache::new(12);
    cache.upsert_transaction(9, 0, hashed(1, 3, 10));
    cache.upsert_transaction(4, 0, hashed(2, 8, 10));
    cache.upsert_transaction(4, 1, hashed(3, 5, 10));
    let estimator = PriorityFeeEstimator::new(rank(0.5));
    let demand = ResourceDemand {
        gas_used: Some(4),
        execution_time_us: Some(12),
        ..ResourceDemand::default()
    };
    let number = cache.blocks_desc()[0].block_number;
    let a = estimator.estimate_for_block(&cache, None, demand);
    let b = estimator.estimate_for_block(&cache, Some(number), demand);
    assert_eq!(format!("{a:?}"), format!("{b:?}"));
    assert_eq!(a.unwrap().block_number, 4);
}

#[test]
fn other_blocks_do_not_matter() {
    let mut cache = MeteringCache::new(2);
    cache.upsert_transaction(1, 0, hashed(1, 3, 10));
    let estimator = PriorityFeeEstimator::new(rank(0.5));
    let demand = ResourceDemand { gas_used: Some(4), ..ResourceDemand::default() };
    let before = format!("{:?}", estimator.estimate_for_block(&cache, Some(1), demand));
    cache.upsert_transaction(2, 0, hashed(2, 1, 10));
    let after = format!("{:?}", estimator.estimate_for_block(&cache, Some(1), demand));
    assert_eq!(before, after);
    let _ = cache.remove_transaction(2, 0, &hashed(2, 1, 10).tx_hash);
    let later = format!("{:?}", estimator.estimate_for_block(&cache, Some(1), demand));
    assert_eq!(before, later);
    // Two more blocks, and the first one is gone.
    cache.upsert_transaction(3, 0, hashed(3, 1, 10));
    assert!(estimator.estimate_for_block(&cache, Some(1), demand).is_none());
}

#[test]
fn rolling_is_the_median_of_what_the_blocks_give() {
    let mut cache = MeteringCache::new(12);
    for (number, fee) in [(1u64, 30u64), (2, 10), (3, 20), (4, 50)] {
        cache.upsert_transaction(number, 0, hashed(number as u8, fee, 10));
    }
    let estimator = PriorityFeeEstimator::new(rank(0.5));
    let demand = ResourceDemand { gas_used: Some(5), ..ResourceDemand::default() };
    let mut fees: Vec<u64> = (1..=4u64)
        .map(|number| {
            let estimates = estimator.estimate_for_block(&cache, Some(number), demand).unwrap();
            let highest = estimates.max_across_flashblocks.get(ResourceKind::GasUsed).unwrap();
            highest.recommended_priority_fee.w0
        })
        .collect();
    fees.sort();
    let rolling = estimator.estimate_rolling(&cache, demand).unwrap();
    let gas = rolling.estimates.get(ResourceKind::GasUsed).unwrap();
    assert_eq!(gas.recommended_priority_fee, U256::from(fees[fees.len() / 2]));
    assert_eq!(gas.recommended_priority_fee, U256::from(30u64));
}

#[test]
fn execution_time_has_one_estimate_for_the_block() {
    let mut cache = MeteringCache::new(12);
    for (hash, index, fee) in [(1u8, 0u64, 4u64), (2, 0, 1), (3, 1, 3), (4, 2, 2)] {
        cache.upsert_transaction(1, index, hashed(hash, fee, 10));
    }
    let estimator = PriorityFeeEstimator::new(rank(0.5));
    let demand = ResourceDemand { execution_time_us: Some(11), ..ResourceDemand::default() };
    let estimates = estimator.estimate_for_block(&cache, Some(1), demand).unwrap();
    let shared = format!("{:?}", estimates.flashblocks[0].estimates.execution_time);
    for flashblock in &estimates.flashblocks {
        assert_eq!(format!("{:?}", flashblock.estimates.execution_time), shared);
    }
    assert_eq!(format!("{:?}", estimates.min_across_flashblocks.execution_time), shared);
    assert_eq!(format!("{:?}", estimates.max_across_flashblocks.execution_time), shared);
    let shared = estimates.flashblocks[2].estimates.execution_time.unwrap();
    assert_eq!(shared.threshold_priority_fee, U256::from(2u64));
    assert_eq!(shared.recommended_priority_fee, U256::from(4u64));
}

#[test]
fn percentiles_change_the_recommendation_only() {
    let txs: Vec<MeteredTransaction> = (1..=6).map(|fee| tx(fee, 10)).collect();
    let quote = |percentile: f64| {
        compute_estimate_core(&txs, 25, ResourceKind::GasUsed, &rank(percentile)).unwrap()
    };
    let (low, high) = (quote(0.0), quote(1.0));
    assert_eq!(low.recommended_priority_fee, U256::from(4u64));
    assert_eq!(high.recommended_priority_fee, U256::from(6u64));
    assert_eq!(low.threshold_priority_fee, high.threshold_priority_fee);
    assert_eq!(low.cumulative_usage, high.cumulative_usage);
    assert_eq!(low.supporting_transactions, high.supporting_transactions);
    assert_eq!(low.total_transactions, high.total_transactions);
}
