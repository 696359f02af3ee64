use metering::decimal::decimal_text;
use metering::execution::bundle_execution;
use metering::kafka::{
    calculate_priority_fee, handle_message, meter_transaction, publish_transactions,
    MessageAction,
};
use metering::rpc::{
    advance, build_priority_fee_response, bundle_gas_price, meter_bundle,
    metered_priority_fee_per_gas, ordered_resource_estimates, report_execution, to_response,
    ErrorKind, MeteringReply, MeteringStage, MeteringStep,
};
use metering::settings::{kafka_missing_message, MeteringPlan};
use metering::sizing::{bundle_da_usage, sum_sizes};
use metering::streams::handle_tx_event;
use metering::{
    AcceptedBundle, BundleExecution, BundleTransaction, MeterBundleResponse, MeteredTransaction, MeteringCache,
    MeteringError, NodeOptions, PriorityFeeEstimator, ResourceDemand, ResourceEstimate,
    ResourceEstimates, ResourceKind, SimulatedTransaction, TransactionResult, U256,
};

fn bytes_of(text: &str) -> Vec<u8> {
    (0..text.len() / 2)
        .map(|i| u8::from_str_radix(&text[2 * i..2 * i + 2], 16).unwrap())
        .collect()
}

fn contract_call() -> Vec<u8> {
    bytes_of("02f901550a758302df1483be21b88304743f94f80e51afb613d764fa61751affd3313c190a86bb870151bd62fd12adb8e41ef24f3f000000000000000000000000000000000000000000000000000000000000006e000000000000000000000000af88d065e77c8cc2239327c5edb3a432268e5831000000000000000000000000000000000000000000000000000000000003c1e5000000000000000000000000000000000000000000000000000000000000000000000000000000000000000000000000000000000000000000000000000000a000000000000000000000000000000000000000000000000000000000000000148c89ed219d02f1a5be012c689b4f5b731827bebe000000000000000000000000c001a033fd89cb37c31b2cba46b6466e040c61fc9b2a3675a7f5f493ebd5ad77c497f8a07cdf65680e238392693019b4092f610222e71b7cec06449cb922b93b6a12744e")
}

fn result(gas_used: u64, gas_price: u64, execution_time_us: u128) -> TransactionResult {
    TransactionResult {
        coinbase_diff: (gas_used * gas_price).to_string(),
        eth_sent_to_coinbase: "0".to_string(),
        from_address: [1; 20],
        gas_fees: (gas_used * gas_price).to_string(),
        gas_price: gas_price.to_string(),
        gas_used,
        to_address: None,
        tx_hash: [2; 32],
        value: "0".to_string(),
        execution_time_us,
    }
}

fn execution(results: Vec<TransactionResult>, gas: u64, fees: U256) -> BundleExecution {
    BundleExecution {
        results,
        total_gas_used: gas,
        total_gas_fees: fees,
        bundle_hash: [3; 32],
        total_execution_time_us: 900,
        state_root_time_us: 40,
    }
}

fn metered_bundle() -> MeterBundleResponse {
    report_execution(execution(vec![], 0, U256::zero()), 1, 0).0
}

fn transaction(hash: u8, tip: Option<u128>, cap: u128) -> BundleTransaction {
    BundleTransaction {
        tx_hash: [hash; 32],
        encoded: vec![],
        max_priority_fee_per_gas: tip,
        max_fee_per_gas: cap,
    }
}

fn accepted(index: Option<u64>, results: Vec<TransactionResult>) -> AcceptedBundle {
    let mut meter_bundle_response = metered_bundle();
    meter_bundle_response.state_flashblock_index = index;
    meter_bundle_response.results = results;
    let mut second = transaction(8, None, 50);
    second.encoded = contract_call();
    AcceptedBundle {
        block_number: 12,
        txs: vec![transaction(7, Some(3), 90), second],
        meter_bundle_response,
    }
}

fn simulated(hash: u8, gas_used: u64, gas_price: u128) -> SimulatedTransaction {
    SimulatedTransaction {
        tx_hash: [hash; 32],
        from_address: [hash; 20],
        to_address: Some([0x11; 20]),
        value: U256::from(1000u64),
        gas_price,
        gas_used,
        execution_time_us: 5,
    }
}

/// Hands the replies in one after the other.
fn run(replies: Vec<MeteringReply>) -> MeteringStep {
    let mut stage = MeteringStage::Header;
    for reply in replies {
        match advance(stage, reply) {
            MeteringStep::Continue(next) => stage = next,
            end => return end,
        }
    }
    MeteringStep::Continue(stage)
}

fn failure(replies: Vec<MeteringReply>) -> (ErrorKind, String) {
    match run(replies) {
        MeteringStep::Failed(err) => (err.kind(), err.message()),
        other => panic!("no failure: {other:?}"),
    }
}

fn options() -> NodeOptions {
    NodeOptions {
        websocket_url: None,
        enable_metering: true,
        metering_kafka_brokers: Some("b1,b2".to_string()),
        metering_kafka_topic: Some("bundles".to_string()),
        metering_kafka_group_id: Some("group".to_string()),
        metering_kafka_properties_file: None,
    }
}

#[test]
fn empty_bundle_is_reported_on_the_latest_block() {
    let end = run(vec![
        MeteringReply::Header(Ok(Some(4711))),
        MeteringReply::Bundle(Ok(vec![])),
        MeteringReply::State(Ok(())),
        MeteringReply::Execution(Ok(execution(vec![], 0, U256::zero()))),
    ]);
    let MeteringStep::Done(response, demand) = end else {
        panic!("not done");
    };
    assert_eq!(response.results.len(), 0);
    assert_eq!(response.total_gas_used, 0);
    assert_eq!(response.gas_fees, "0");
    assert_eq!(response.bundle_gas_price, "0");
    assert_eq!(response.state_block_number, 4711);
    assert_eq!(response.state_flashblock_index, None);
    assert_eq!(demand.gas_used, Some(0));
    assert_eq!(demand.data_availability_bytes, Some(0));
    assert_eq!(demand.state_root_time_us, None);
}

#[test]
fn fees_of_a_bundle_are_reported() {
    let txs = vec![simulated(1, 21_000, 3_000_000_000), simulated(2, 21_000, 7_000_000_000)];
    let end = run(vec![
        MeteringReply::Header(Ok(Some(1))),
        MeteringReply::Bundle(Ok(vec![contract_call(), vec![0; 10]])),
        MeteringReply::State(Ok(())),
        MeteringReply::Execution(Ok(bundle_execution([3; 32], &txs, 900, 40))),
    ]);
    let MeteringStep::Done(response, demand) = end else {
        panic!("not done");
    };
    assert_eq!(response.results.len(), 2);
    assert_eq!(response.results[0].gas_fees, "63000000000000");
    assert_eq!(response.results[0].gas_price, "3000000000");
    assert_eq!(response.results[1].gas_fees, "147000000000000");
    assert_eq!(response.results[1].gas_price, "7000000000");
    assert_eq!(response.gas_fees, "210000000000000");
    assert_eq!(response.coinbase_diff, "210000000000000");
    assert_eq!(response.eth_sent_to_coinbase, "0");
    assert_eq!(response.total_gas_used, 42_000);
    assert_eq!(response.bundle_gas_price, "5000000000");
    assert_eq!(response.bundle_hash, [3; 32]);
    assert_eq!(response.total_execution_time_us, 900);
    assert_eq!(response.state_root_time_us, 40);
    assert_eq!(demand.gas_used, Some(42_000));
    assert_eq!(demand.execution_time_us, Some(900));
    assert_eq!(demand.data_availability_bytes, Some(226));
}

#[test]
fn failures_of_metering() {
    assert_eq!(
        failure(vec![MeteringReply::Header(Err("db".to_string()))]),
        (ErrorKind::Internal, "Failed to get latest header: db".to_string())
    );
    assert_eq!(
        failure(vec![MeteringReply::Header(Ok(None))]),
        (ErrorKind::Internal, "Latest block not found".to_string())
    );
    assert_eq!(
        failure(vec![
            MeteringReply::Header(Ok(Some(1))),
            MeteringReply::Bundle(Err("bad tx".to_string())),
        ]),
        (ErrorKind::InvalidParams, "Failed to parse bundle: bad tx".to_string())
    );
    assert_eq!(
        failure(vec![
            MeteringReply::Header(Ok(Some(1))),
            MeteringReply::Bundle(Ok(vec![])),
            MeteringReply::State(Err("pruned".to_string())),
        ]),
        (ErrorKind::Internal, "Failed to get state provider: pruned".to_string())
    );
    assert_eq!(
        failure(vec![
            MeteringReply::Header(Ok(Some(1))),
            MeteringReply::Bundle(Ok(vec![])),
            MeteringReply::State(Ok(())),
            MeteringReply::Execution(Err("parent beacon block root missing".to_string())),
        ]),
        (
            ErrorKind::Internal,
            "Bundle metering failed: parent beacon block root missing".to_string()
        )
    );
}

#[test]
fn gas_price_is_rounded_down() {
    assert_eq!(bundle_gas_price(&U256::from(10u64), 4), "2");
    assert_eq!(bundle_gas_price(&U256::from(10u64), 0), "0");
    let large = U256 { w3: 1, w2: 0, w1: 0, w0: 0 };
    assert_eq!(
        bundle_gas_price(&large, 2),
        "3138550867693340381917894711603833208051177722232017256448"
    );
    assert_eq!(
        bundle_gas_price(&large, 1),
        "6277101735386680763835789423207666416102355444464034512896"
    );
}

#[test]
fn numbers_are_written_in_decimal() {
    assert_eq!(decimal_text(0), "0");
    assert_eq!(decimal_text(9), "9");
    assert_eq!(decimal_text(10), "10");
    assert_eq!(decimal_text(1_203_405), "1203405");
    assert_eq!(decimal_text(u128::MAX), "340282366920938463463374607431768211455");
}

#[test]
fn sizes_of_bundles() {
    assert_eq!(sum_sizes(&vec![]), 0);
    assert_eq!(sum_sizes(&vec![u64::MAX - 5, 2, 3]), u64::MAX);
    assert_eq!(bundle_da_usage(&vec![]), 0);
    assert_eq!(bundle_da_usage(&vec![vec![]]), 100);
    assert_eq!(bundle_da_usage(&vec![contract_call()]), 126);
    let ramp: Vec<u8> = (0..=255u8).collect();
    assert_eq!(bundle_da_usage(&vec![ramp, vec![0; 1000], contract_call()]), 178 + 100 + 126);
}

#[test]
fn quotes_are_written_out() {
    let estimate = ResourceEstimate {
        threshold_priority_fee: U256::from(17u64),
        recommended_priority_fee: U256 { w3: 0, w2: 0, w1: 1, w0: 0 },
        cumulative_usage: 1 << 100,
        supporting_transactions: 4,
        total_transactions: 9,
    };
    let quote = to_response(ResourceKind::StateRootTime, &estimate);
    assert_eq!(quote.resource, "stateRootTime");
    assert_eq!(quote.threshold_priority_fee, "17");
    assert_eq!(quote.recommended_priority_fee, "18446744073709551616");
    assert_eq!(quote.cumulative_usage, "1267650600228229401496703205376");
    assert_eq!(quote.supporting_transactions, 4);
    assert_eq!(quote.total_transactions, 9);

    let mut estimates = ResourceEstimates::default();
    estimates.set(ResourceKind::DataAvailability, estimate);
    estimates.set(ResourceKind::ExecutionTime, estimate);
    let names: Vec<String> =
        ordered_resource_estimates(&estimates).into_iter().map(|q| q.resource).collect();
    assert_eq!(names, vec!["executionTime", "dataAvailability"]);
}

#[test]
fn fee_response_reports_lowest_and_highest() {
    let mut cache = MeteringCache::new(12);
    let mut tx = MeteredTransaction::zeroed([1; 32]);
    tx.gas_used = 100;
    tx.priority_fee_per_gas = U256::from(5u64);
    cache.upsert_transaction(9, 0, tx);
    tx.tx_hash = [2; 32];
    tx.priority_fee_per_gas = U256::from(8u64);
    cache.upsert_transaction(9, 1, tx);

    let estimator = PriorityFeeEstimator::new(|last: usize| last / 2);
    let demand = ResourceDemand { gas_used: Some(60), ..ResourceDemand::default() };
    let bundle = metered_bundle();
    let response = metered_priority_fee_per_gas(&estimator, &cache, Ok((bundle, demand))).unwrap();
    assert_eq!(response.meter_bundle.bundle_hash, [3; 32]);
    assert_eq!(response.flashblock_estimates.len(), 2);
    assert_eq!(response.flashblock_estimates[1].flashblock_index, 1);
    assert_eq!(response.flashblock_estimates[1].estimates[0].threshold_priority_fee, "8");
    assert_eq!(response.next_block.len(), 1);
    assert_eq!(response.next_block[0].resource, "gasUsed");
    assert_eq!(response.next_block[0].recommended_priority_fee, "5");
    assert_eq!(response.next_flashblock[0].recommended_priority_fee, "8");

    let estimates = estimator.estimate_for_block(&cache, None, demand).unwrap();
    let same = build_priority_fee_response(metered_bundle(), &estimates);
    assert_eq!(same.next_flashblock[0].recommended_priority_fee, "8");
}

#[test]
fn fee_response_needs_data() {
    let cache = MeteringCache::new(12);
    let estimator = PriorityFeeEstimator::new(|last: usize| last / 2);
    let err = metered_priority_fee_per_gas(
        &estimator,
        &cache,
        Ok((metered_bundle(), ResourceDemand::default())),
    )
    .unwrap_err();
    assert!(matches!(err, MeteringError::FeeDataUnavailable));
    assert_eq!(err.kind(), ErrorKind::Internal);
    assert_eq!(err.message(), "Priority fee data unavailable");
}

#[test]
fn priority_fee_is_the_tip_or_the_cap() {
    assert_eq!(calculate_priority_fee(&transaction(1, Some(3), 90)), U256::from(3u64));
    assert_eq!(calculate_priority_fee(&transaction(1, None, 90)), U256::from(90u64));
    assert_eq!(
        calculate_priority_fee(&transaction(1, Some(u128::MAX), 0)),
        U256::from(u128::MAX)
    );
}

#[test]
fn bundle_gives_one_event_for_each_transaction() {
    let bundle = accepted(Some(4), vec![result(100, 1, 11), result(200, 1, 22)]);
    let events = publish_transactions(&bundle, 4).unwrap();
    assert_eq!(events.len(), 2);
    assert_eq!(events[0].block_number, 12);
    assert_eq!(events[0].flashblock_index, 4);
    assert_eq!(events[0].transaction.tx_hash, [7; 32]);
    assert_eq!(events[0].transaction.priority_fee_per_gas, U256::from(3u64));
    assert_eq!(events[0].transaction.gas_used, 100);
    assert_eq!(events[0].transaction.execution_time_us, 11);
    assert_eq!(events[0].transaction.state_root_time_us, 0);
    assert_eq!(events[0].transaction.data_availability_bytes, 100);
    assert_eq!(events[1].transaction.tx_hash, [8; 32]);
    assert_eq!(events[1].transaction.priority_fee_per_gas, U256::from(50u64));
    assert_eq!(events[1].transaction.data_availability_bytes, 126);

    match handle_message(&bundle) {
        MessageAction::Publish(events) => assert_eq!(events.len(), 2),
        other => panic!("not published: {other:?}"),
    }
}

#[test]
fn bundles_that_are_skipped() {
    let two = || vec![result(100, 1, 11), result(200, 1, 22)];
    assert!(matches!(
        handle_message(&accepted(None, two())),
        MessageAction::SkipMissingFlashblockIndex
    ));
    let mut short = two();
    short.pop();
    let bundle = accepted(Some(4), short);
    assert!(publish_transactions(&bundle, 4).is_none());
    assert!(matches!(handle_message(&bundle), MessageAction::SkipLengthMismatch));
}

#[test]
fn kafka_settings_have_to_be_complete() {
    let all = options();
    assert!(!all.flashblocks_enabled());
    let settings = all.metering_kafka_settings().unwrap();
    assert_eq!(settings.brokers, "b1,b2");
    assert_eq!(settings.topic, "bundles");
    assert_eq!(settings.group_id, "group");
    assert_eq!(settings.properties_file, None);
    assert!(matches!(all.metering_plan(), MeteringPlan::Enabled(_)));

    let mut disabled = options();
    disabled.enable_metering = false;
    disabled.websocket_url = Some("ws://x".to_string());
    assert!(disabled.flashblocks_enabled());
    assert!(disabled.metering_kafka_settings().is_none());
    assert!(matches!(disabled.metering_plan(), MeteringPlan::Disabled));

    for gap in 0..3 {
        let mut partial = options();
        match gap {
            0 => partial.metering_kafka_brokers = None,
            1 => partial.metering_kafka_topic = None,
            _ => partial.metering_kafka_group_id = None,
        }
        assert!(partial.metering_kafka_settings().is_none());
        assert!(matches!(partial.metering_plan(), MeteringPlan::KafkaMissing));
    }
    assert_eq!(
        kafka_missing_message(),
        "Metering requires Kafka configuration: provide --metering-kafka-brokers, --metering-kafka-topic, and --metering-kafka-group-id"
    );
}

#[test]
fn properties_of_the_file_come_last() {
    let mut with_file = options();
    with_file.metering_kafka_properties_file = Some("kafka.properties".to_string());
    let settings = with_file.metering_kafka_settings().unwrap();
    assert_eq!(settings.properties_file, Some("kafka.properties".to_string()));
    let file = vec![("group.id".to_string(), "other".to_string())];
    let properties = settings.client_properties(&file);
    let pairs: Vec<(&str, &str)> =
        properties.iter().map(|(name, value)| (name.as_str(), value.as_str())).collect();
    assert_eq!(
        pairs,
        vec![
            ("bootstrap.servers", "b1,b2"),
            ("group.id", "group"),
            ("enable.partition.eof", "false"),
            ("session.timeout.ms", "6000"),
            ("enable.auto.commit", "true"),
            ("auto.offset.reset", "earliest"),
            ("group.id", "other"),
        ]
    );
}

#[test]
fn published_transactions_are_cached() {
    let bundle = accepted(Some(4), vec![result(100, 1, 11), result(200, 1, 22)]);
    let mut cache = MeteringCache::new(12);
    for event in publish_transactions(&bundle, 4).unwrap() {
        handle_tx_event(&mut cache, event);
    }
    let flashblock = cache.flashblock(12, 4).unwrap();
    assert_eq!(flashblock.len(), 2);
    assert_eq!(flashblock.transactions()[0].tx_hash, [7; 32]);
    assert_eq!(flashblock.transactions()[1].gas_used, 200);
    assert_eq!(flashblock.totals().gas_used, 300);
    assert_eq!(flashblock.totals().data_availability_bytes, 226);
}

#[test]
fn metered_transaction_holds_its_size() {
    let tx = meter_transaction(&transaction(5, None, 50), &result(100, 1, 11), 77);
    assert_eq!(tx.tx_hash, [5; 32]);
    assert_eq!(tx.priority_fee_per_gas, U256::from(50u64));
    assert_eq!(tx.gas_used, 100);
    assert_eq!(tx.execution_time_us, 11);
    assert_eq!(tx.state_root_time_us, 0);
    assert_eq!(tx.data_availability_bytes, 77);
}

#[test]
fn failed_metering_is_the_answer() {
    let mut cache = MeteringCache::new(12);
    cache.upsert_transaction(9, 0, MeteredTransaction::zeroed([1; 32]));
    let estimator = PriorityFeeEstimator::new(|last: usize| last / 2);
    let failed = || Err(MeteringError::BundleParse("bad tx".to_string()));
    let err = metered_priority_fee_per_gas(&estimator, &cache, failed()).unwrap_err();
    assert_eq!(err.kind(), ErrorKind::InvalidParams);
    assert_eq!(err.message(), "Failed to parse bundle: bad tx");
    assert_eq!(meter_bundle(failed()).unwrap_err().message(), "Failed to parse bundle: bad tx");
    let metered = Ok((metered_bundle(), ResourceDemand::default()));
    assert_eq!(meter_bundle(metered).unwrap().bundle_hash, [3; 32]);
}

#[test]
fn executed_transactions_are_reported() {
    let txs = vec![simulated(1, 21_000, 1_000_000_000), simulated(2, 21_000, 2_000_000_000)];
    let execution = bundle_execution([9; 32], &txs, 70, 8);
    assert_eq!(execution.results.len(), 2);
    assert_eq!(execution.total_gas_used, 42_000);
    assert_eq!(execution.total_gas_fees, U256::from(63_000_000_000_000u64));
    assert_eq!(execution.bundle_hash, [9; 32]);
    assert_eq!(execution.total_execution_time_us, 70);
    assert_eq!(execution.state_root_time_us, 8);
    let first = &execution.results[0];
    assert_eq!(first.from_address, [1; 20]);
    assert_eq!(first.to_address, Some([0x11; 20]));
    assert_eq!(first.tx_hash, [1; 32]);
    assert_eq!(first.value, "1000");
    assert_eq!(first.gas_used, 21_000);
    assert_eq!(first.gas_price, "1000000000");
    assert_eq!(first.gas_fees, "21000000000000");
    assert_eq!(first.coinbase_diff, "21000000000000");
    assert_eq!(first.eth_sent_to_coinbase, "0");
    assert_eq!(first.execution_time_us, 5);
    assert_eq!(execution.results[1].gas_price, "2000000000");

    let huge = vec![simulated(1, u64::MAX, u128::MAX), simulated(2, 1, 1)];
    let execution = bundle_execution([9; 32], &huge, 0, 0);
    assert_eq!(execution.total_gas_used, u64::MAX);
    assert_eq!(
        execution.results[0].gas_fees,
        "6277101735386680763495507056286727952620534092958556749825"
    );
}

#[test]
fn sums_and_products_of_256_bits() {
    let words = |w3: u64, w2: u64, w1: u64, w0: u64| U256 { w3, w2, w1, w0 };
    let max = words(u64::MAX, u64::MAX, u64::MAX, u64::MAX);
    assert_eq!(U256::product(0, u128::MAX), U256::zero());
    assert_eq!(U256::product(1 << 63, 6), words(0, 0, 3, 0));
    assert_eq!(U256::product(u64::MAX, u128::MAX), words(0, u64::MAX - 1, u64::MAX, 1));
    assert_eq!(
        words(0, 0, u64::MAX, u64::MAX).saturating_add(U256::from(1u64)),
        words(0, 1, 0, 0)
    );
    assert_eq!(max.saturating_add(U256::from(1u64)), max);
    assert_eq!(max.saturating_add(U256::zero()), max);
    assert_eq!(
        words(1, 2, 3, 4).saturating_add(words(5, 6, 7, 8)),
        words(6, 8, 10, 12)
    );
}
