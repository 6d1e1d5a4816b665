use pipe_exec_layer::block_build::{
    apply_state_root, calculate_roots, execute_ordered_block, finish_execute, seal_block,
    ExecOutcome, BLOCK_GAS_LIMIT,
};
use pipe_exec_layer::channel::NotifyOutcome;
use pipe_exec_layer::pipeline::Core;
use pipe_exec_layer::prefilter::StateView;
use pipe_exec_layer::types::{
    Address, Bytes32, ChainConfig, ExecutedBlockMeta, Header, OrderedBlock,
};

fn b32(n: u128) -> Bytes32 {
    Bytes32 { hi: n, lo: n }
}

fn pre_merge_config() -> ChainConfig {
    ChainConfig { shanghai_time: None, cancun_time: None, prague_time: None }
}

fn header_at(number: u64) -> Header {
    Header {
        parent_hash: b32(0),
        ommers_hash: b32(0),
        beneficiary: Address { hi: 0, lo: 0 },
        state_root: b32(0),
        transactions_root: b32(0),
        receipts_root: b32(0),
        logs_bloom: [0u8; 256],
        number,
        gas_limit: BLOCK_GAS_LIMIT,
        gas_used: 0,
        timestamp: 0,
        mix_hash: b32(0),
        nonce: 0,
        base_fee_per_gas: Some(7),
        withdrawals_root: None,
        blob_gas_used: None,
        excess_blob_gas: None,
        parent_beacon_block_root: None,
        requests_hash: None,
    }
}

fn empty_ordered_block(number: u64, parent_id: Bytes32, id: Bytes32) -> OrderedBlock {
    OrderedBlock {
        parent_id,
        id,
        number,
        timestamp: 1,
        coinbase: Address { hi: 1, lo: 2 },
        prev_randao: b32(9),
        withdrawals: vec![],
        transactions: vec![],
        senders: vec![],
    }
}

const EMPTY_TRIE_ROOT: Bytes32 = Bytes32 {
    hi: 0x56e81f171bcc55a6ff8345e692c0f86e,
    lo: 0x5b48e01b996cadc001622fb5e363b421,
};

#[test]
fn single_empty_block_goes_canonical() {
    // Seed at block 10 with hash H10, push the empty block 11 and walk
    // it through every stage.
    let h10 = b32(10);
    let id10 = b32(110);
    let id11 = b32(111);
    let cfg = pre_merge_config();
    let mut core = Core::new_core(cfg, header_at(10), h10, 0);
    core.on_ordered_block(11);

    // Stage 1: block 11's wait on the seeded block resolves at once.
    let parent = core.execute_block_barrier.get(10).expect("seeded").clone();
    assert_eq!(parent.number, 10);
    let ob = empty_ordered_block(11, id10, id11);
    let state = StateView { accounts: vec![] };
    let (mut block, senders) = execute_ordered_block(ob, &cfg, &state, id10, 7);
    assert!(senders.is_empty());
    finish_execute(&mut block, 0);
    assert_eq!(
        core.execute_block_barrier.notify(11, block.header.clone()),
        NotifyOutcome::Published
    );

    // Stage 2: roots.
    let outcome = ExecOutcome {
        gas_used: 0,
        receipts_root: b32(77),
        logs_bloom: [0u8; 256],
        requests: vec![],
    };
    calculate_roots(&mut block, &outcome, &cfg);
    assert_eq!(block.header.transactions_root, EMPTY_TRIE_ROOT);
    assert_eq!(block.header.receipts_root, b32(77));

    // Stage 3: merklize.
    assert!(core.merklize_barrier.get(10).is_some());
    apply_state_root(&mut block, b32(55));
    assert_eq!(core.merklize_barrier.notify(11, ()), NotifyOutcome::Published);

    // Stage 4: seal against the parent hash from the barrier.
    let parent_hash = *core.seal_barrier.get(10).expect("seeded");
    assert_eq!(parent_hash, h10);
    let h11 = seal_block(&mut block, parent_hash);
    assert_eq!(block.header.parent_hash, h10);
    assert_eq!(block.header.gas_used, 0);
    assert_eq!(core.seal_barrier.notify(11, h11), NotifyOutcome::Published);

    // Stage 5: the hash the Coordinator pulls is the sealed hash.
    let meta = ExecutedBlockMeta { block_id: id11, block_hash: h11 };
    assert_eq!(core.submit_executed_block_hash(meta), NotifyOutcome::Published);
    assert_eq!(core.pull_executed_block_hash(id11), Some(h11));
    assert_eq!(core.commit_executed_block_hash(meta), NotifyOutcome::Published);
    let verified = core.verified_block_hash_rx.get(id11).unwrap();
    assert!(Core::check_verified_block_hash(h11, verified));

    // Stage 6: canonical, ascending by one from the seed.
    assert_eq!(core.complete_make_canonical(11, 1), NotifyOutcome::Published);
    assert_eq!(core.latest_canonical, 11);
}

#[test]
fn stages_of_adjacent_blocks_overlap_but_serialise() {
    let cfg = pre_merge_config();
    let mut core = Core::new_core(cfg, header_at(10), b32(10), 0);
    core.on_ordered_block(11);
    core.on_ordered_block(12);

    // Block 12 cannot start executing until block 11 publishes.
    assert!(core.execute_block_barrier.get(11).is_none());
    assert_eq!(
        core.execute_block_barrier.notify(11, header_at(11)),
        NotifyOutcome::Published
    );
    // Now block 12 may execute while block 11 has not merklized: the
    // stages overlap across blocks but each stage stays serial.
    assert!(core.execute_block_barrier.get(11).is_some());
    assert!(core.merklize_barrier.get(11).is_none());
}

#[test]
fn canonical_stream_ascends_across_two_blocks() {
    let cfg = pre_merge_config();
    let mut core = Core::new_core(cfg, header_at(10), b32(10), 0);
    core.on_ordered_block(11);
    core.on_ordered_block(12);
    // Block 12 cannot complete its canonical stage before block 11.
    assert!(core.make_canonical_barrier.get(11).is_none());
    assert_eq!(core.complete_make_canonical(11, 1), NotifyOutcome::Published);
    assert_eq!(core.latest_canonical, 11);
    assert_eq!(core.complete_make_canonical(12, 2), NotifyOutcome::Published);
    assert_eq!(core.latest_canonical, 12);
}

#[test]
fn canonical_stream_rejects_gaps() {
    let cfg = pre_merge_config();
    let core = Core::new_core(cfg, header_at(10), b32(10), 0);
    // Block 13 cannot become canonical yet: block 12 is not.
    assert!(core.make_canonical_barrier.get(12).is_none());
}

#[test]
fn verification_mismatch_is_detected() {
    let h11 = b32(41);
    let wrong = b32(42);
    assert!(!Core::check_verified_block_hash(h11, wrong));
    assert!(Core::check_verified_block_hash(h11, h11));
}

#[test]
fn shutdown_closes_what_the_service_owns() {
    let cfg = pre_merge_config();
    let mut core = Core::new_core(cfg, header_at(10), b32(10), 0);
    core.on_ordered_block(11);
    let meta = ExecutedBlockMeta { block_id: b32(111), block_hash: b32(211) };
    assert_eq!(core.submit_executed_block_hash(meta), NotifyOutcome::Published);

    core.on_ingress_closed();

    // The service's channels are closed and refuse new publishes, so
    // every in-flight wait resolves rather than suspending.
    assert!(core.executed_block_hash_tx.is_closed());
    assert!(core.execute_block_barrier.is_closed());
    assert!(core.merklize_barrier.is_closed());
    assert!(core.make_canonical_barrier.is_closed());
    assert_eq!(
        core.execute_block_barrier.notify(11, header_at(11)),
        NotifyOutcome::Closed
    );
    // Values published before the close persist for late readers.
    assert_eq!(core.pull_executed_block_hash(b32(111)), Some(b32(211)));
    // The Coordinator's channels stay open: the seal barrier and the
    // verified-hash channel are not the service's to close.
    assert!(!core.seal_barrier.is_closed());
    assert!(!core.verified_block_hash_rx.is_closed());
}

#[test]
fn shanghai_and_cancun_fields_are_gated() {
    let cfg = ChainConfig {
        shanghai_time: Some(100),
        cancun_time: Some(200),
        prague_time: None,
    };
    let state = StateView { accounts: vec![] };

    let mut ob = empty_ordered_block(11, b32(1), b32(2));
    ob.timestamp = 50;
    let (block, _) = execute_ordered_block(ob, &cfg, &state, b32(1), 7);
    assert!(block.header.withdrawals_root.is_none());
    assert!(block.header.parent_beacon_block_root.is_none());
    assert!(block.withdrawals.is_none());

    let mut ob = empty_ordered_block(11, b32(1), b32(2));
    ob.timestamp = 150;
    let (block, _) = execute_ordered_block(ob, &cfg, &state, b32(1), 7);
    assert_eq!(block.header.withdrawals_root, Some(EMPTY_TRIE_ROOT));
    assert_eq!(block.withdrawals, Some(vec![]));
    assert!(block.header.parent_beacon_block_root.is_none());

    let mut ob = empty_ordered_block(11, b32(1), b32(2));
    ob.timestamp = 250;
    let (block, _) = execute_ordered_block(ob, &cfg, &state, b32(1), 7);
    // The beacon root provisionally carries the Coordinator parent id;
    // the blob-gas fields are pinned to zero.
    assert_eq!(block.header.parent_beacon_block_root, Some(b32(1)));
    assert_eq!(block.header.blob_gas_used, Some(0));
    assert_eq!(block.header.excess_blob_gas, Some(0));
}
