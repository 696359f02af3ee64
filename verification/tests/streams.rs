use metering::inclusion::{flashblock_inclusion_from_flashblock, inclusion_of};
use metering::pool::TransactionPool;
use metering::streams::{handle_flashblock_event, handle_tx_event, FlashblockOutcome};
use metering::{
    Flashblock, FlashblockInclusion, MeteredTransaction, MeteringCache, ResourceAnnotator,
    TxMeteringEvent, U256,
};

fn test_transaction(tx_hash: [u8; 32], priority: u64) -> MeteredTransaction {
    MeteredTransaction {
        tx_hash,
        priority_fee_per_gas: U256::from(priority),
        gas_used: 21_000,
        execution_time_us: 500,
        state_root_time_us: 0,
        data_availability_bytes: 120,
    }
}

fn bytes_of(text: &str) -> Vec<u8> {
    (0..text.len() / 2)
        .map(|i| u8::from_str_radix(&text[2 * i..2 * i + 2], 16).unwrap())
        .collect()
}

#[test]
fn annotator_updates_cache_on_flashblock() {
    let mut cache = MeteringCache::new(12);
    let mut annotator = ResourceAnnotator::new();

    // A metered transaction goes to the pending ones.
    let tx_hash = [0x5a; 32];
    let transaction = test_transaction(tx_hash, 5);
    annotator.handle_tx_event(transaction);
    assert!(cache.is_empty());

    // The inclusion event gives the actual location.
    let matched = annotator.handle_flashblock_event(
        &mut cache,
        &FlashblockInclusion {
            block_number: 1,
            flashblock_index: 0,
            ordered_tx_hashes: vec![tx_hash],
        },
    );
    assert_eq!(matched, (1, false));

    let block = cache.block(1).expect("block inserted");
    assert_eq!(block.flashblock_count(), 1);
    let flashblock = block.flashblock(0).expect("flashblock present");
    assert_eq!(flashblock.len(), 1);
    assert_eq!(flashblock.transactions()[0].tx_hash, transaction.tx_hash);
}

#[test]
fn annotator_ignores_unknown_tx_hashes() {
    let mut cache = MeteringCache::new(12);
    let mut annotator = ResourceAnnotator::new();

    let tx_hash = [0x11; 32];
    annotator.handle_tx_event(test_transaction(tx_hash, 8));

    // An inclusion with a different hash matches nothing.
    let unknown_hash = [0x22; 32];
    let matched = annotator.handle_flashblock_event(
        &mut cache,
        &FlashblockInclusion {
            block_number: 10,
            flashblock_index: 2,
            ordered_tx_hashes: vec![unknown_hash],
        },
    );
    assert_eq!(matched, (0, false));
    assert!(cache.is_empty());

    // The transaction is still pending.
    let matched = annotator.handle_flashblock_event(
        &mut cache,
        &FlashblockInclusion {
            block_number: 10,
            flashblock_index: 3,
            ordered_tx_hashes: vec![tx_hash],
        },
    );
    assert_eq!(matched, (1, false));

    let block = cache.block(10).expect("block inserted");
    assert_eq!(block.flashblock(3).unwrap().len(), 1);
}

#[test]
fn annotator_records_in_the_order_of_the_message() {
    let mut cache = MeteringCache::new(12);
    let mut annotator = ResourceAnnotator::new();
    for i in 1..=4u8 {
        annotator.handle_tx_event(test_transaction([i; 32], 1));
    }
    // The last one that came in under a hash counts.
    annotator.handle_tx_event(test_transaction([2; 32], 77));
    let event = FlashblockInclusion {
        block_number: 1,
        flashblock_index: 0,
        ordered_tx_hashes: vec![[4; 32], [2; 32], [9; 32], [4; 32], [1; 32]],
    };
    assert_eq!(annotator.handle_flashblock_event(&mut cache, &event), (3, false));
    let txs: Vec<u8> =
        cache.flashblock(1, 0).unwrap().transactions().iter().map(|tx| tx.tx_hash[0]).collect();
    assert_eq!(txs, vec![4, 2, 1]);
    assert_eq!(
        cache.flashblock(1, 0).unwrap().transactions()[1].priority_fee_per_gas,
        U256::from(77u64)
    );
    // The same message matches nothing any more; the one it did not name is still pending.
    assert_eq!(annotator.handle_flashblock_event(&mut cache, &event), (0, false));
    let rest = FlashblockInclusion {
        block_number: 1,
        flashblock_index: 1,
        ordered_tx_hashes: vec![[3; 32]],
    };
    assert_eq!(annotator.handle_flashblock_event(&mut cache, &rest), (1, false));
}

#[test]
fn streams_ingest_updates_cache_and_emits_snapshot() {
    let mut cache = MeteringCache::new(12);
    let tx_hash = [0x33; 32];
    let transaction = test_transaction(tx_hash, 5);
    let (block_count, over_cap) = handle_tx_event(
        &mut cache,
        TxMeteringEvent { block_number: 1, flashblock_index: 0, transaction },
    );
    assert_eq!(block_count, 1);
    assert!(!over_cap);

    // The transaction is present in the cache.
    let block = cache.block(1).expect("block inserted");
    assert_eq!(block.flashblock_count(), 1);
    let flashblock = block.flashblock(0).expect("flashblock present");
    assert_eq!(flashblock.len(), 1);

    let outcome = handle_flashblock_event(
        &cache,
        &FlashblockInclusion {
            block_number: 1,
            flashblock_index: 0,
            ordered_tx_hashes: vec![tx_hash],
        },
    );
    let snapshot = match outcome {
        FlashblockOutcome::Snapshot(snapshot) => snapshot,
        other => panic!("no snapshot: {other:?}"),
    };
    assert_eq!(snapshot.block_number, 1);
    assert_eq!(snapshot.flashblock_index, 0);
    assert_eq!(snapshot.transactions.len(), 1);
    assert_eq!(snapshot.transactions[0].tx_hash, transaction.tx_hash);
}

#[test]
fn streams_ingest_filters_missing_transactions() {
    let mut cache = MeteringCache::new(12);
    // Populate cache with one transaction.
    let tx_hash = [0x44; 32];
    handle_tx_event(
        &mut cache,
        TxMeteringEvent {
            block_number: 10,
            flashblock_index: 2,
            transaction: test_transaction(tx_hash, 8),
        },
    );

    // An inclusion that references a missing hash produces no snapshot.
    let outcome = handle_flashblock_event(
        &cache,
        &FlashblockInclusion {
            block_number: 10,
            flashblock_index: 2,
            ordered_tx_hashes: vec![[0x55; 32]],
        },
    );
    match outcome {
        FlashblockOutcome::Snapshot(snapshot) => panic!(
            "unexpected snapshot produced: block {} flashblock {}",
            snapshot.block_number, snapshot.flashblock_index
        ),
        FlashblockOutcome::NoMatch => {}
        FlashblockOutcome::NotCached => panic!("the flashblock is cached"),
    }
}

#[test]
fn inclusion_before_any_transaction() {
    let mut cache = MeteringCache::new(12);
    let event = FlashblockInclusion {
        block_number: 3,
        flashblock_index: 1,
        ordered_tx_hashes: vec![[1; 32]],
    };
    assert!(matches!(handle_flashblock_event(&cache, &event), FlashblockOutcome::NotCached));
    handle_tx_event(
        &mut cache,
        TxMeteringEvent {
            block_number: 3,
            flashblock_index: 0,
            transaction: test_transaction([1; 32], 1),
        },
    );
    assert!(matches!(handle_flashblock_event(&cache, &event), FlashblockOutcome::NotCached));
}

#[test]
fn snapshot_follows_the_order_of_the_message() {
    let mut cache = MeteringCache::new(12);
    for i in 1..=4u8 {
        handle_tx_event(
            &mut cache,
            TxMeteringEvent {
                block_number: 1,
                flashblock_index: 0,
                transaction: test_transaction([i; 32], 10 * i as u64),
            },
        );
    }
    let event = FlashblockInclusion {
        block_number: 1,
        flashblock_index: 0,
        ordered_tx_hashes: vec![[3; 32], [8; 32], [1; 32], [3; 32], [4; 32]],
    };
    let outcome = handle_flashblock_event(&cache, &event);
    let FlashblockOutcome::Snapshot(snapshot) = outcome else {
        panic!("no snapshot");
    };
    let order: Vec<u8> = snapshot.transactions.iter().map(|tx| tx.tx_hash[0]).collect();
    assert_eq!(order, vec![3, 1, 4]);
    assert_eq!(snapshot.transactions[0].priority_fee_per_gas, U256::from(30u64));
}

#[test]
fn inclusion_hashes_the_transactions() {
    let flashblock = Flashblock {
        block_number: 77,
        index: 3,
        transactions: vec![b"abc".to_vec(), vec![]],
    };
    let inclusion = flashblock_inclusion_from_flashblock(&flashblock).unwrap();
    assert_eq!(inclusion.block_number, 77);
    assert_eq!(inclusion.flashblock_index, 3);
    assert_eq!(inclusion.ordered_tx_hashes.len(), 2);
    assert_eq!(
        inclusion.ordered_tx_hashes[0].to_vec(),
        bytes_of("4e03657aea45a94fc7d47ba826c8d667c0d1e6e33a64a036ec44f58fa12d6c45")
    );
    assert_eq!(
        inclusion.ordered_tx_hashes[1].to_vec(),
        bytes_of("c5d2460186f7233c927e7db2dcc703c0e500b653ca82273b7bfad8045d85a470")
    );
}

#[test]
fn empty_flashblock_includes_nothing() {
    let flashblock = Flashblock { block_number: 77, index: 3, transactions: vec![] };
    assert!(flashblock_inclusion_from_flashblock(&flashblock).is_none());
    assert!(inclusion_of(77, 3, vec![]).is_none());
    let inclusion = inclusion_of(77, 3, vec![[1; 32]]).unwrap();
    assert_eq!(inclusion.block_number, 77);
    assert_eq!(inclusion.flashblock_index, 3);
    assert_eq!(inclusion.ordered_tx_hashes, vec![[1; 32]]);
}

#[test]
fn pool_hands_out_what_was_put_in() {
    let mut pool = TransactionPool::new();
    assert!(pool.take(&[1; 32]).is_none());
    pool.put(test_transaction([1; 32], 5));
    pool.put(test_transaction([2; 32], 6));
    pool.put(test_transaction([1; 32], 7));
    assert_eq!(pool.take(&[1; 32]).unwrap().priority_fee_per_gas, U256::from(7u64));
    assert!(pool.take(&[1; 32]).is_none());
    assert_eq!(pool.take(&[2; 32]).unwrap().priority_fee_per_gas, U256::from(6u64));
}

#[test]
fn tells_of_flashblocks_beyond_the_expected_number() {
    let mut cache = MeteringCache::new(12);
    cache.set_default_flashblocks_per_block(1);
    let event = |index: u64, hash: u8| TxMeteringEvent {
        block_number: 1,
        flashblock_index: index,
        transaction: test_transaction([hash; 32], 1),
    };
    assert_eq!(handle_tx_event(&mut cache, event(0, 1)), (1, false));
    assert_eq!(handle_tx_event(&mut cache, event(1, 2)), (1, true));
    assert_eq!(handle_tx_event(&mut cache, event(1, 3)), (1, false));

    let mut annotator = ResourceAnnotator::new();
    for hash in 4..=6u8 {
        annotator.handle_tx_event(test_transaction([hash; 32], 1));
    }
    let inclusion = |index: u64, hashes: Vec<[u8; 32]>| FlashblockInclusion {
        block_number: 1,
        flashblock_index: index,
        ordered_tx_hashes: hashes,
    };
    let first = inclusion(2, vec![[4; 32], [5; 32]]);
    assert_eq!(annotator.handle_flashblock_event(&mut cache, &first), (2, true));
    let second = inclusion(2, vec![[6; 32]]);
    assert_eq!(annotator.handle_flashblock_event(&mut cache, &second), (1, false));
}
