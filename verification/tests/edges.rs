use rollup::abi::{hash_deposits, hash_forced_txs};
use rollup::config::L1Config;
use rollup::error::{CoreError, ScriptError, SequencerError};
use rollup::l1::{
    address_to_hash, deposits_fit, deposits_from_l1, forced_txs_fit, forced_txs_from_l1,
    unprocessed, L1Deposit, L1ForcedTx,
};
use rollup::persistence::{counter_location, BlockQueueStore, Family, Write};
use rollup::prover::{accept_proof, choose_mode, Action, Event, Mode, ProofRejected, ProverWorker};
use rollup::stf::StfError;
use rollup::types::{Deposit, ForcedTx, PendingBlock};

fn word(n: u64) -> [u8; 32] {
    let mut out = [0u8; 32];
    out[24..].copy_from_slice(&n.to_be_bytes());
    out
}

fn too_large() -> [u8; 32] {
    let mut out = [0u8; 32];
    out[23] = 1;
    out
}

#[test]
fn address_stands_in_the_low_bytes() {
    let mut expected = [0u8; 32];
    expected[12..].copy_from_slice(&[7; 20]);
    assert_eq!(address_to_hash(&[7; 20]), expected);
}

#[test]
fn what_is_left_to_process() {
    assert_eq!(unprocessed(&word(3), &word(10)), Some((3, 7)));
    assert_eq!(unprocessed(&word(0), &word(u64::MAX)), Some((0, u64::MAX)));
    assert_eq!(unprocessed(&word(3), &word(3)), None);
    assert_eq!(unprocessed(&word(4), &word(3)), None);
}

#[test]
fn deposits_of_the_bridge_become_deposits() {
    let items = [
        L1Deposit { user: [7; 20], amount: word(1000), timestamp: word(5) },
        L1Deposit { user: [8; 20], amount: word(u64::MAX), timestamp: word(6) },
    ];
    assert!(deposits_fit(&items));
    let deposits = deposits_from_l1(&items);
    assert_eq!(
        deposits,
        vec![
            Deposit { to: address_to_hash(&[7; 20]), amount: 1000, timestamp: 5 },
            Deposit { to: address_to_hash(&[8; 20]), amount: u64::MAX, timestamp: 6 },
        ]
    );
    assert_ne!(hash_deposits(&deposits), hash_deposits(&deposits[..1]));
}

#[test]
fn numbers_that_do_not_fit_are_found() {
    let fine = L1Deposit { user: [7; 20], amount: word(1), timestamp: word(1) };
    assert!(deposits_fit(&[]));
    assert!(!deposits_fit(&[fine, L1Deposit { amount: too_large(), ..fine }]));
    assert!(!deposits_fit(&[L1Deposit { timestamp: too_large(), ..fine }]));
    let forced = L1ForcedTx { data: vec![], timestamp: word(1) };
    assert!(forced_txs_fit(&[forced.clone()]));
    assert!(!forced_txs_fit(&[forced, L1ForcedTx { data: vec![], timestamp: too_large() }]));
}

fn payload() -> Vec<u8> {
    bincode::serialize(&(
        [1u8; 32],
        [2u8; 32],
        3u64,
        4u64,
        5u64,
        6u64,
        vec![9u8, 9u8],
    ))
    .unwrap()
}

#[test]
fn payload_is_read_and_kept_whole() {
    let data = payload();
    assert_eq!(data.len(), 106);
    let txs = forced_txs_from_l1(&[L1ForcedTx { data: data.clone(), timestamp: word(77) }]);
    assert_eq!(
        txs,
        vec![ForcedTx {
            from: [1; 32],
            to: [2; 32],
            nonce: 3,
            fee: 4,
            amount: 5,
            timestamp: 77,
            l2_calldata: data,
        }]
    );
}

#[test]
fn payload_numbers_are_little_endian() {
    let mut data = vec![1u8; 32];
    data.extend_from_slice(&[2; 32]);
    data.extend_from_slice(&[1, 2, 0, 0, 0, 0, 0, 0]);
    data.extend_from_slice(&[0, 0, 0, 0, 0, 0, 0, 1]);
    data.extend_from_slice(&[255; 8]);
    data.extend_from_slice(&[0; 8]);
    data.extend_from_slice(&[1, 0, 0, 0, 0, 0, 0, 0, 42]);
    data.extend_from_slice(&[5; 3]);
    let tx = &forced_txs_from_l1(&[L1ForcedTx { data, timestamp: word(1) }])[0];
    assert_eq!(tx.nonce, 0x201);
    assert_eq!(tx.fee, 1 << 56);
    assert_eq!(tx.amount, u64::MAX);
    assert_eq!(tx.from, [1; 32]);
    assert_eq!(tx.to, [2; 32]);
}

#[test]
fn unreadable_payload_becomes_a_dummy_that_is_committed_to() {
    let mut too_long_inside = payload();
    too_long_inside[96] = 3;
    let mut huge_inside = payload();
    for i in 96..104 {
        huge_inside[i] = 0xff;
    }
    for data in [vec![], payload()[..105].to_vec(), vec![0; 103], too_long_inside, huge_inside] {
        let txs = forced_txs_from_l1(&[L1ForcedTx { data: data.clone(), timestamp: word(9) }]);
        let dummy = ForcedTx {
            from: [0; 32],
            to: [0; 32],
            nonce: 0,
            fee: 0,
            amount: 0,
            timestamp: 9,
            l2_calldata: data,
        };
        assert_eq!(txs, vec![dummy.clone()]);
        assert_eq!(hash_forced_txs(&txs), hash_forced_txs(&[dummy]));
    }
}

fn block(block_number: u64) -> PendingBlock {
    PendingBlock {
        block_number,
        txs: vec![],
        deposits: vec![],
        forced_txs: vec![],
        pre_state_root: [1; 32],
        post_state_root: [2; 32],
    }
}

fn put(family: Family, key: &[u8], value: &[u8]) -> Write {
    Write::Put { family, key: key.to_vec(), value: value.to_vec() }
}

#[test]
fn blocks_are_queued_under_their_numbers() {
    let key = [0, 0, 0, 0, 0, 0, 1, 2];
    assert_eq!(
        BlockQueueStore::push_pending(&block(258), vec![5, 6]),
        put(Family::Pending, &key, &[5, 6])
    );
    assert_eq!(
        BlockQueueStore::push_failed(&block(258), vec![5, 6]),
        put(Family::Failed, &key, &[5, 6])
    );
    assert_eq!(
        BlockQueueStore::remove_pending(258),
        Write::Delete { family: Family::Pending, key: key.to_vec() }
    );
}

#[test]
fn queued_block_is_counted() {
    let (queued, counted) = BlockQueueStore::commit_optimistic_block(&block(7), vec![5], 8);
    assert_eq!(queued, put(Family::Pending, &[0, 0, 0, 0, 0, 0, 0, 7], &[5]));
    assert_eq!(counted, put(Family::Meta, b"block_counter", &[0, 0, 0, 0, 0, 0, 0, 8]));
    assert_eq!(counted, BlockQueueStore::set_block_counter(8));
    assert_eq!(counter_location(), (Family::Meta, b"block_counter".to_vec()));
}

#[test]
fn counter_is_read_back() {
    for count in [0, 1, 256, u64::MAX] {
        match BlockQueueStore::set_block_counter(count) {
            Write::Put { value, .. } => {
                assert_eq!(BlockQueueStore::get_block_counter(Some(value)), count);
            }
            Write::Delete { .. } => panic!("the counter is stored"),
        }
    }
    assert_eq!(BlockQueueStore::get_block_counter(None), 0);
    assert_eq!(BlockQueueStore::get_block_counter(Some(vec![1; 7])), 0);
    assert_eq!(BlockQueueStore::get_block_counter(Some(vec![1; 9])), 0);
}

#[test]
fn keys_are_in_block_order() {
    let key = |n: u64| match BlockQueueStore::remove_pending(n) {
        Write::Delete { key, .. } => key,
        Write::Put { .. } => panic!("the block is removed"),
    };
    let numbers = [0, 1, 255, 256, 65535, 65536, u64::MAX - 1, u64::MAX];
    for pair in numbers.windows(2) {
        assert!(key(pair[0]) < key(pair[1]));
    }
}

#[test]
fn first_entry_of_the_queue_is_the_next_block() {
    assert_eq!(BlockQueueStore::peek_pending(None), Ok(None));
    assert_eq!(
        BlockQueueStore::peek_pending(Some(Ok((vec![0], vec![1, 2])))),
        Ok(Some(vec![1, 2]))
    );
    assert_eq!(
        BlockQueueStore::peek_pending(Some(Err("down".to_string()))),
        Err("peek_pending iterator err: down".to_string())
    );
}

/// Makes a change to an ordered store.
fn make(store: &mut std::collections::BTreeMap<(&'static str, Vec<u8>), Vec<u8>>, write: Write) {
    match write {
        Write::Put { family, key, value } => {
            store.insert((family.name(), key), value);
        }
        Write::Delete { family, key } => {
            store.remove(&(family.name(), key));
        }
    }
}

#[test]
fn queue_works_through_blocks_in_their_order() {
    let mut store = std::collections::BTreeMap::new();
    for number in [300u64, 2, 1, 256] {
        let (queued, counted) =
            BlockQueueStore::commit_optimistic_block(&block(number), vec![number as u8], number + 1);
        make(&mut store, queued);
        make(&mut store, counted);
    }
    let (family, key) = counter_location();
    let stored = store.get(&(family.name(), key)).cloned();
    assert_eq!(BlockQueueStore::get_block_counter(stored), 257);

    make(&mut store, BlockQueueStore::push_failed(&block(2), vec![2]));
    make(&mut store, BlockQueueStore::remove_pending(2));
    let mut left = vec![];
    for number in [1, 256, 300] {
        let first = store
            .iter()
            .find(|((family, _), _)| *family == Family::Pending.name())
            .map(|((_, key), value)| Ok((key.clone(), value.clone())));
        left.push(BlockQueueStore::peek_pending(first).unwrap().unwrap());
        make(&mut store, BlockQueueStore::remove_pending(number));
    }
    assert_eq!(left, vec![vec![1], vec![0], vec![44]]);
    let filed: Vec<_> = store
        .iter()
        .filter(|((family, _), _)| *family == Family::Failed.name())
        .map(|(_, value)| value.clone())
        .collect();
    assert_eq!(filed, vec![vec![2]]);
    assert!(!store.keys().any(|(family, _)| *family == Family::Pending.name()));
}

#[test]
fn parts_of_the_database_have_names() {
    assert_eq!(Family::Pending.name(), "pending_blocks");
    assert_eq!(Family::Failed.name(), "failed_blocks");
    assert_eq!(Family::Meta.name(), "meta");
}

#[test]
fn proven_block_leaves_the_queue() {
    let (mut worker, first) = ProverWorker::new();
    assert_eq!(first, Action::Sleep { secs: 5 });
    assert_eq!(worker.step(Event::Done), Action::Peek);
    assert_eq!(worker.step(Event::Done), Action::Prove);
    assert_eq!(worker.step(Event::Done), Action::RemovePending);
    assert_eq!(worker.step(Event::Done), Action::Sleep { secs: 5 });
}

#[test]
fn empty_queue_is_looked_at_again() {
    let (mut worker, _) = ProverWorker::new();
    assert_eq!(worker.step(Event::Done), Action::Peek);
    assert_eq!(worker.step(Event::Empty), Action::Sleep { secs: 5 });
    assert_eq!(worker.step(Event::Done), Action::Peek);
}

#[test]
fn block_is_given_up_after_its_last_try() {
    let (mut worker, _) = ProverWorker::new();
    worker.step(Event::Done);
    assert_eq!(worker.step(Event::Done), Action::Prove);
    for failed in 1..3 {
        assert_eq!(worker.step(Event::Failed), Action::Sleep { secs: 10 });
        assert_eq!(worker.retries(), failed);
        assert_eq!(worker.step(Event::Done), Action::Prove);
        assert_eq!(worker.retries(), failed);
    }
    assert_eq!(worker.step(Event::Failed), Action::PushFailed);
    assert_eq!(worker.step(Event::Done), Action::RemovePending);
    assert_eq!(worker.step(Event::Done), Action::Sleep { secs: 5 });
}

#[test]
fn block_can_be_proven_at_its_last_try() {
    let (mut worker, _) = ProverWorker::new();
    worker.step(Event::Done);
    worker.step(Event::Done);
    worker.step(Event::Failed);
    worker.step(Event::Done);
    worker.step(Event::Failed);
    assert_eq!(worker.step(Event::Done), Action::Prove);
    assert_eq!(worker.step(Event::Done), Action::RemovePending);
}

#[test]
fn worker_stops_where_the_database_fails() {
    let (mut peeking, _) = ProverWorker::new();
    peeking.step(Event::Done);
    assert_eq!(peeking.step(Event::Failed), Action::Stop);
    let (mut removing, _) = ProverWorker::new();
    removing.step(Event::Done);
    removing.step(Event::Done);
    removing.step(Event::Done);
    assert_eq!(removing.step(Event::Failed), Action::Stop);
}

fn l1(enabled: bool) -> L1Config {
    L1Config {
        enabled,
        rpc_url: String::new(),
        bridge_address: [0; 20],
        private_key: String::new(),
    }
}

#[test]
fn proof_is_held_against_its_block() {
    let mut bytes = vec![0u8; 128];
    bytes[32..64].copy_from_slice(&[2; 32]);
    let accepted = accept_proof(&bytes, &block(1), &l1(true)).unwrap();
    assert_eq!(accepted.post_state_root, [2; 32]);
    assert!(accepted.submit);
    assert!(!accept_proof(&bytes, &block(1), &l1(false)).unwrap().submit);
    assert_eq!(
        accept_proof(&bytes[..127], &block(1), &l1(true)),
        Err(ProofRejected::Undecodable)
    );
    bytes[40] = 3;
    assert_eq!(
        accept_proof(&bytes, &block(1), &l1(true)),
        Err(ProofRejected::RootMismatch)
    );
}

#[test]
fn exactly_one_mode_is_asked_for() {
    assert_eq!(choose_mode(true, false), Some(Mode::Execute));
    assert_eq!(choose_mode(false, true), Some(Mode::Prove));
    assert_eq!(choose_mode(true, true), None);
    assert_eq!(choose_mode(false, false), None);
}

fn key() -> [u8; 32] {
    let mut key = [0u8; 32];
    key[0] = 10;
    key[31] = 255;
    key
}

fn key_text() -> String {
    format!("{:?}", key())
}

#[test]
fn core_errors_read_well() {
    assert_eq!(
        CoreError::DatabaseError("down".to_string()).to_string(),
        "database error: down"
    );
    assert_eq!(
        CoreError::AccountNotFound(key()).to_string(),
        format!("account not found: {}", key_text())
    );
    assert_eq!(
        CoreError::AccountDataCorrupted(key()).to_string(),
        format!("account data corrupted: {}", key_text())
    );
    assert_eq!(
        CoreError::ProofNotFound(key()).to_string(),
        format!("proof not found for key: {}", key_text())
    );
    assert_eq!(CoreError::StfError("bad".to_string()).to_string(), "stf error: bad");
}

#[test]
fn state_transition_errors_are_spelled_out() {
    for e in [
        StfError::InsufficientBalance,
        StfError::BalanceOverflow,
        StfError::MerkleProofVerificationFailed,
        StfError::InvalidNonce { expected: 0, got: u64::MAX },
        StfError::InvalidTransaction("a \"quoted\"\nline".to_string()),
    ] {
        assert_eq!(e.debug_text(), format!("{:?}", e));
        assert_eq!(
            ScriptError::from(e.clone()).to_string(),
            format!("stf error: {:?}", e)
        );
        assert_eq!(
            SequencerError::from(e.clone()).to_string(),
            format!("stf error: {:?}", e)
        );
    }
    assert_eq!(
        StfError::InvalidTransaction("a\n".to_string()).debug_text(),
        "InvalidTransaction(\"a\\n\")"
    );
}

#[test]
fn sequencer_errors_are_answered() {
    let cases = [
        (SequencerError::MempoolEmpty, 400, "mempool empty err".to_string()),
        (
            SequencerError::AccountNotFound(key()),
            404,
            format!("account not found: {}", key_text()),
        ),
        (
            SequencerError::InsufficientBalance(key()),
            400,
            format!("insufficient balance for account: {}", key_text()),
        ),
        (
            SequencerError::InvalidNonce(key(), 12, 3),
            400,
            format!("invalid nonce for account {}: expected 12, got 3", key_text()),
        ),
        (SequencerError::L1SubmitFailed, 500, "l1 submit transaction err".to_string()),
        (SequencerError::StateLockPoisoned, 500, "state lock is poisoned".to_string()),
        (
            SequencerError::AccountDataCorrupted(key()),
            500,
            format!("account data corrupted for key: {}", key_text()),
        ),
        (
            SequencerError::DatabaseError("down".to_string()),
            500,
            "database internal error: down".to_string(),
        ),
        (
            SequencerError::Stf(StfError::BalanceOverflow),
            500,
            "stf error: BalanceOverflow".to_string(),
        ),
    ];
    for (error, status, text) in cases {
        assert_eq!(error.to_string(), text);
        assert_eq!(error.into_response(), (status, text));
    }
}

#[test]
fn core_errors_become_sequencer_errors() {
    assert_eq!(
        SequencerError::from(CoreError::DatabaseError("down".to_string())),
        SequencerError::DatabaseError("down".to_string())
    );
    assert_eq!(
        SequencerError::from(CoreError::AccountNotFound(key())),
        SequencerError::AccountNotFound(key())
    );
    assert_eq!(
        SequencerError::from(CoreError::AccountDataCorrupted(key())),
        SequencerError::AccountDataCorrupted(key())
    );
    assert_eq!(
        SequencerError::from(CoreError::ProofNotFound(key())),
        SequencerError::DatabaseError(format!("proof not found for {}", key_text()))
    );
    assert_eq!(
        SequencerError::from(CoreError::StfError("bad".to_string())),
        SequencerError::Stf(StfError::InvalidTransaction("bad".to_string()))
    );
}
