use metering::{MeteredTransaction, MeteringCache, U256};

fn test_tx(hash: u64, priority: u64) -> MeteredTransaction {
    let mut tx_hash = [0u8; 32];
    tx_hash[24..].copy_from_slice(&hash.to_be_bytes());
    MeteredTransaction {
        tx_hash,
        priority_fee_per_gas: U256::from(priority),
        gas_used: 10,
        execution_time_us: 5,
        state_root_time_us: 7,
        data_availability_bytes: 20,
    }
}

#[test]
fn insert_and_retrieve_transactions() {
    let mut cache = MeteringCache::new(12);
    let tx1 = test_tx(1, 2);
    cache.upsert_transaction(100, 0, tx1);

    let block = cache.block(100).unwrap();
    let flashblock = block.flashblocks()[0];
    assert_eq!(flashblock.len(), 1);
    assert_eq!(flashblock.transactions()[0].tx_hash, tx1.tx_hash);
}

#[test]
fn replaces_existing_transaction() {
    let mut cache = MeteringCache::new(12);
    let mut tx1 = test_tx(1, 2);
    cache.upsert_transaction(100, 0, tx1);
    tx1.gas_used = 42;
    cache.upsert_transaction(100, 0, tx1);

    let block = cache.block(100).unwrap();
    let flashblock = block.flashblocks()[0];
    assert_eq!(flashblock.len(), 1);
    assert_eq!(flashblock.transactions()[0].gas_used, tx1.gas_used);
}

#[test]
fn evicts_old_blocks() {
    let mut cache = MeteringCache::new(2);
    for block_number in 0..3u64 {
        cache.upsert_transaction(block_number, 0, test_tx(block_number, block_number));
    }
    assert!(cache.block(0).is_none());
    assert!(cache.block(1).is_some());
    assert!(cache.block(2).is_some());
}

#[test]
fn transactions_sorted_by_priority_fee() {
    let mut cache = MeteringCache::new(12);
    cache.upsert_transaction(100, 0, test_tx(1, 30));
    cache.upsert_transaction(100, 0, test_tx(2, 10));
    cache.upsert_transaction(100, 0, test_tx(3, 20));

    let block = cache.block(100).unwrap();
    let flashblock = block.flashblocks()[0];
    let sorted: Vec<U256> = flashblock
        .transactions_sorted_by_priority_fee()
        .iter()
        .map(|tx| tx.priority_fee_per_gas)
        .collect();
    assert_eq!(
        sorted,
        vec![U256::from(10u64), U256::from(20u64), U256::from(30u64)]
    );
}

#[test]
fn new_cache_is_empty() {
    let cache = MeteringCache::new(12);
    assert!(cache.is_empty());
    assert_eq!(cache.len(), 0);
    assert_eq!(cache.max_blocks(), 12);
    assert!(cache.block(0).is_none());
    assert!(cache.flashblock(0, 0).is_none());
    assert!(cache.blocks_desc().is_empty());
}

#[test]
fn totals_follow_the_transactions() {
    let mut cache = MeteringCache::new(12);
    cache.upsert_transaction(100, 0, test_tx(1, 2));
    cache.upsert_transaction(100, 0, test_tx(2, 2));
    cache.upsert_transaction(100, 3, test_tx(3, 2));

    let flashblock = cache.flashblock(100, 0).unwrap();
    assert_eq!(flashblock.totals().gas_used, 20);
    assert_eq!(flashblock.totals().execution_time_us, 10);
    assert_eq!(flashblock.totals().state_root_time_us, 14);
    assert_eq!(flashblock.totals().data_availability_bytes, 40);

    let totals = cache.block(100).unwrap().totals();
    assert_eq!(totals.gas_used, 30);
    assert_eq!(totals.execution_time_us, 15);
    assert_eq!(totals.state_root_time_us, 21);
    assert_eq!(totals.data_availability_bytes, 60);
}

#[test]
fn replacing_a_transaction_replaces_its_usage() {
    let mut cache = MeteringCache::new(12);
    cache.upsert_transaction(100, 0, test_tx(1, 2));
    cache.upsert_transaction(100, 0, test_tx(2, 2));
    let mut again = test_tx(1, 9);
    again.gas_used = 42;
    cache.upsert_transaction(100, 0, again);

    let flashblock = cache.flashblock(100, 0).unwrap();
    assert_eq!(flashblock.totals().gas_used, 52);
    assert_eq!(cache.block(100).unwrap().totals().gas_used, 52);
    // It keeps its place.
    let txs = flashblock.transactions();
    assert_eq!(txs.len(), 2);
    assert_eq!(txs[0].gas_used, 42);
    assert_eq!(txs[1].tx_hash, test_tx(2, 2).tx_hash);
}

#[test]
fn removing_a_transaction_undoes_recording_it() {
    let mut cache = MeteringCache::new(12);
    cache.upsert_transaction(100, 0, test_tx(1, 2));
    cache.upsert_transaction(100, 0, test_tx(2, 3));
    cache.upsert_transaction(100, 0, test_tx(3, 4));
    let removed = cache.remove_transaction(100, 0, &test_tx(2, 0).tx_hash);
    assert_eq!(removed.unwrap().priority_fee_per_gas, U256::from(3u64));

    let flashblock = cache.flashblock(100, 0).unwrap();
    let hashes: Vec<[u8; 32]> = flashblock.transactions().iter().map(|tx| tx.tx_hash).collect();
    assert_eq!(hashes, vec![test_tx(1, 0).tx_hash, test_tx(3, 0).tx_hash]);
    assert_eq!(flashblock.totals().gas_used, 20);
    assert_eq!(cache.block(100).unwrap().totals().gas_used, 20);

    assert!(cache.remove_transaction(100, 0, &test_tx(2, 0).tx_hash).is_none());
    assert_eq!(cache.flashblock(100, 0).unwrap().len(), 2);
}

#[test]
fn removing_an_unknown_transaction_puts_the_place_in() {
    let mut cache = MeteringCache::new(12);
    assert!(cache.remove_transaction(7, 4, &test_tx(1, 0).tx_hash).is_none());
    assert_eq!(cache.len(), 1);
    assert!(cache.flashblock(7, 4).unwrap().is_empty());
}

#[test]
fn totals_stop_at_their_limits() {
    let mut cache = MeteringCache::new(12);
    let mut huge = test_tx(1, 2);
    huge.gas_used = u64::MAX - 3;
    huge.execution_time_us = u128::MAX;
    cache.upsert_transaction(100, 0, huge);
    cache.upsert_transaction(100, 0, test_tx(2, 2));
    let totals = cache.flashblock(100, 0).unwrap().totals();
    assert_eq!(totals.gas_used, u64::MAX);
    assert_eq!(totals.execution_time_us, u128::MAX);
    assert_eq!(totals.data_availability_bytes, 40);

    cache.upsert_transaction(100, 1, test_tx(3, 2));
    assert_eq!(cache.block(100).unwrap().totals().gas_used, u64::MAX);

    // What ran into the limit is lost: taking the huge one out leaves less than was recorded.
    cache.remove_transaction(100, 0, &huge.tx_hash);
    assert_eq!(cache.flashblock(100, 0).unwrap().totals().gas_used, 3);
}

#[test]
fn flashblocks_come_by_index() {
    let mut cache = MeteringCache::new(12);
    for index in [5u64, 0, 3] {
        cache.upsert_transaction(100, index, test_tx(index, 1));
    }
    let block = cache.block(100).unwrap();
    let indices: Vec<u64> = block.flashblocks().iter().map(|f| f.flashblock_index).collect();
    assert_eq!(indices, vec![0, 3, 5]);
    assert_eq!(block.flashblock_count(), 3);
    assert_eq!(block.block_number, 100);
    assert!(block.flashblock(4).is_none());
    assert_eq!(block.flashblock(3).unwrap().block_number, 100);
}

#[test]
fn blocks_come_newest_first() {
    let mut cache = MeteringCache::new(3);
    for number in [10u64, 12, 11, 13] {
        cache.upsert_transaction(number, 0, test_tx(number, 1));
    }
    let numbers: Vec<u64> = cache.blocks_desc().iter().map(|b| b.block_number).collect();
    assert_eq!(numbers, vec![13, 11, 12]);
    assert_eq!(cache.len(), 3);
    // A block that is there does not move.
    cache.upsert_transaction(12, 1, test_tx(1, 1));
    let numbers: Vec<u64> = cache.blocks_desc().iter().map(|b| b.block_number).collect();
    assert_eq!(numbers, vec![13, 11, 12]);
}

#[test]
fn recording_leaves_other_places_alone() {
    let mut cache = MeteringCache::new(3);
    cache.upsert_transaction(1, 0, test_tx(1, 1));
    cache.upsert_transaction(1, 1, test_tx(2, 1));
    cache.upsert_transaction(2, 0, test_tx(3, 1));
    cache.upsert_transaction(1, 0, test_tx(4, 1));
    assert_eq!(cache.flashblock(1, 0).unwrap().len(), 2);
    assert_eq!(cache.flashblock(1, 1).unwrap().len(), 1);
    assert_eq!(cache.flashblock(2, 0).unwrap().len(), 1);
}

#[test]
fn tells_when_a_block_has_too_many_flashblocks() {
    let mut cache = MeteringCache::new(3);
    for index in 0..10u64 {
        assert!(!cache.upsert_transaction(1, index, test_tx(index, 1)));
    }
    assert!(cache.upsert_transaction(1, 10, test_tx(10, 1)));
    // Only where it put in a flashblock.
    assert!(!cache.upsert_transaction(1, 10, test_tx(11, 1)));

    cache.set_default_flashblocks_per_block(1);
    assert!(!cache.upsert_transaction(2, 0, test_tx(1, 1)));
    assert!(cache.upsert_transaction(2, 1, test_tx(2, 1)));
}

#[test]
fn blocks_can_be_changed_in_place() {
    let mut cache = MeteringCache::new(2);
    cache.upsert_transaction(1, 0, test_tx(1, 1));
    let block = cache.block_mut(1);
    let (flashblock, is_new) = block.flashblock_mut(0);
    assert!(!is_new);
    flashblock.upsert_transaction(test_tx(2, 1));
    let (flashblock, is_new) = block.flashblock_mut(7);
    assert!(is_new);
    assert!(flashblock.is_empty());
    assert_eq!(cache.flashblock(1, 0).unwrap().len(), 2);
    assert_eq!(cache.block(1).unwrap().flashblock_count(), 2);
    // The totals of the block are those of the last update of the cache.
    assert_eq!(cache.block(1).unwrap().totals().gas_used, 10);

    assert_eq!(cache.block_mut(5).block_number, 5);
    assert_eq!(cache.block_mut(6).block_number, 6);
    assert!(cache.block(1).is_none());
}

#[test]
fn equal_fees_stay_in_insertion_order() {
    let mut cache = MeteringCache::new(2);
    for (hash, fee) in [(1u64, 7u64), (2, 5), (3, 7), (4, 5), (5, 6)] {
        cache.upsert_transaction(1, 0, test_tx(hash, fee));
    }
    let sorted: Vec<u8> = cache
        .flashblock(1, 0)
        .unwrap()
        .transactions_sorted_by_priority_fee()
        .iter()
        .map(|tx| tx.tx_hash[31])
        .collect();
    assert_eq!(sorted, vec![2, 4, 5, 1, 3]);
}

#[test]
fn fees_are_compared_as_256_bit_numbers() {
    let words = |w3: u64, w2: u64, w1: u64, w0: u64| U256 { w3, w2, w1, w0 };
    assert!(words(0, 0, 0, 5).less_than(&words(0, 0, 1, 0)));
    assert!(words(0, 0, 9, 9).less_than(&words(0, 1, 0, 0)));
    assert!(words(0, 9, 9, 9).less_than(&words(1, 0, 0, 0)));
    assert!(!words(1, 0, 0, 0).less_than(&words(1, 0, 0, 0)));
    assert_eq!(words(0, 1, 0, 0).larger(words(0, 0, 7, 7)), words(0, 1, 0, 0));
    assert_eq!(U256::from(u128::MAX), words(0, 0, u64::MAX, u64::MAX));
    assert_eq!(U256::from((1u128 << 64) + 2), words(0, 0, 1, 2));
    assert_eq!(U256::zero(), U256::from(0u64));
}

#[test]
fn zeroed_transaction_consumed_nothing() {
    let tx = MeteredTransaction::zeroed([7; 32]);
    assert_eq!(tx.tx_hash, [7; 32]);
    assert_eq!(tx.priority_fee_per_gas, U256::zero());
    assert_eq!(tx.gas_used, 0);
    assert_eq!(tx.execution_time_us, 0);
    assert_eq!(tx.state_root_time_us, 0);
    assert_eq!(tx.data_availability_bytes, 0);
}

#[test]
fn recording_twice_changes_nothing() {
    let mut cache = MeteringCache::new(3);
    let mut huge = test_tx(1, 2);
    huge.gas_used = u64::MAX;
    cache.upsert_transaction(1, 0, test_tx(2, 2));
    cache.upsert_transaction(1, 0, huge);
    let before = cache.block(1).unwrap().totals();
    cache.upsert_transaction(1, 0, huge);
    let after = cache.block(1).unwrap().totals();
    assert_eq!(cache.flashblock(1, 0).unwrap().len(), 2);
    assert_eq!(after.gas_used, before.gas_used);
    assert_eq!(after.execution_time_us, before.execution_time_us);
    assert_eq!(after.data_availability_bytes, before.data_availability_bytes);
}
