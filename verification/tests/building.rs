use rollup::builder::{Builder, BuilderAction, BuilderEvent};
use rollup::executor::{Applied, BlockExecutor};
use rollup::prover::{finish_proof, Accepted};
use rollup::sequencer::{apply_optimistic_batch, Heads};
use rollup::stf::StfError;
use rollup::tree::TreeReads;
use rollup::types::{Account, Deposit, ForcedTx, Transaction};

const A: [u8; 32] = [0xa; 32];
const B: [u8; 32] = [0xb; 32];

fn deposit(to: [u8; 32]) -> Deposit {
    Deposit { to, amount: 1, timestamp: 2 }
}

fn transfer(from: [u8; 32]) -> Transaction {
    Transaction { from, to: B, nonce: 0, fee: 0, amount: 1 }
}

fn forced(from: [u8; 32]) -> ForcedTx {
    ForcedTx { from, to: B, nonce: 0, fee: 0, amount: 1, timestamp: 1, l2_calldata: vec![] }
}

fn heads() -> Heads {
    Heads { proven: [1; 32], optimistic: [2; 32] }
}

#[test]
fn block_is_built_in_order() {
    let (mut builder, first) = Builder::new(true);
    assert_eq!(first, BuilderAction::Sleep { secs: 2 });
    assert_eq!(builder.step(BuilderEvent::Done), BuilderAction::Fetch);
    let fetched = BuilderEvent::Fetched {
        deposits: vec![deposit(A)],
        forced_txs: vec![forced(A)],
    };
    assert_eq!(builder.step(fetched), BuilderAction::Collect);
    assert!(builder.round().is_none());
    let collected = BuilderEvent::Collected {
        txs: vec![transfer(A), transfer(B)],
        heads: heads(),
    };
    assert_eq!(builder.step(collected), BuilderAction::Apply);
    {
        let round = builder.round().unwrap();
        assert_eq!(round.txs, vec![transfer(A), transfer(B)]);
        assert_eq!(round.deposits, vec![deposit(A)]);
        assert_eq!(round.forced_txs, vec![forced(A)]);
        assert_eq!(round.pre_state_root, [2; 32]);
    }
    assert_eq!(
        builder.step(BuilderEvent::Applied { root: [7; 32] }),
        BuilderAction::SetHeadroot { root: [7; 32] }
    );
    assert_eq!(builder.step(BuilderEvent::Done), BuilderAction::Count);
    assert_eq!(
        builder.step(BuilderEvent::Counted { block_number: 5 }),
        BuilderAction::Advance { root: [7; 32] }
    );
    assert_eq!(builder.step(BuilderEvent::Done), BuilderAction::Drain { included: 2 });
    assert!(builder.sealed().is_none());
    assert_eq!(builder.step(BuilderEvent::Done), BuilderAction::Enqueue);
    {
        let sealed = builder.sealed().unwrap();
        assert_eq!(sealed.block.block_number, 5);
        assert_eq!(sealed.next_block_number, 6);
        assert_eq!(sealed.block.txs, vec![transfer(A), transfer(B)]);
        assert_eq!(sealed.block.deposits, vec![deposit(A)]);
        assert_eq!(sealed.block.forced_txs, vec![forced(A)]);
        assert_eq!(sealed.block.pre_state_root, [2; 32]);
        assert_eq!(sealed.block.post_state_root, [7; 32]);
    }
    assert_eq!(builder.step(BuilderEvent::Done), BuilderAction::Sleep { secs: 2 });
}

#[test]
fn bridge_is_not_asked_where_the_base_layer_is_not_used() {
    let (mut builder, _) = Builder::new(false);
    assert_eq!(builder.step(BuilderEvent::Done), BuilderAction::Collect);
    let collected = BuilderEvent::Collected { txs: vec![transfer(A)], heads: heads() };
    assert_eq!(builder.step(collected), BuilderAction::Apply);
    let round = builder.round().unwrap();
    assert!(round.deposits.is_empty());
    assert!(round.forced_txs.is_empty());
}

#[test]
fn no_block_is_built_from_nothing() {
    for enabled in [false, true] {
        let (mut builder, _) = Builder::new(enabled);
        builder.step(BuilderEvent::Done);
        if enabled {
            builder.step(BuilderEvent::Fetched { deposits: vec![], forced_txs: vec![] });
        }
        let collected = BuilderEvent::Collected { txs: vec![], heads: heads() };
        assert_eq!(builder.step(collected), BuilderAction::Sleep { secs: 2 });
    }
}

#[test]
fn builder_stops_at_a_failed_fetch() {
    let (mut builder, _) = Builder::new(true);
    builder.step(BuilderEvent::Done);
    assert_eq!(builder.step(BuilderEvent::Failed), BuilderAction::Stop);
}

#[test]
fn builder_stops_at_a_failed_batch_and_seals_nothing() {
    let (mut builder, _) = Builder::new(false);
    builder.step(BuilderEvent::Done);
    builder.step(BuilderEvent::Collected { txs: vec![transfer(A)], heads: heads() });
    assert_eq!(builder.step(BuilderEvent::Failed), BuilderAction::Stop);
    assert!(builder.sealed().is_none());
}

#[test]
fn builder_stops_where_the_queue_fails() {
    let (mut builder, _) = Builder::new(false);
    builder.step(BuilderEvent::Done);
    builder.step(BuilderEvent::Collected { txs: vec![transfer(A)], heads: heads() });
    builder.step(BuilderEvent::Applied { root: [7; 32] });
    builder.step(BuilderEvent::Done);
    builder.step(BuilderEvent::Counted { block_number: u64::MAX - 1 });
    builder.step(BuilderEvent::Done);
    assert_eq!(builder.step(BuilderEvent::Done), BuilderAction::Enqueue);
    assert_eq!(builder.sealed().unwrap().next_block_number, u64::MAX);
    assert_eq!(builder.step(BuilderEvent::Failed), BuilderAction::Stop);
}

#[test]
fn next_block_starts_where_the_last_one_ended() {
    let mut heads = heads();
    let (mut builder, _) = Builder::new(false);
    builder.step(BuilderEvent::Done);
    builder.step(BuilderEvent::Collected { txs: vec![transfer(A)], heads });
    builder.step(BuilderEvent::Applied { root: [7; 32] });
    builder.step(BuilderEvent::Done);
    match builder.step(BuilderEvent::Counted { block_number: 0 }) {
        BuilderAction::Advance { root } => heads.advance_optimistic(root),
        other => panic!("{:?}", other),
    }
    builder.step(BuilderEvent::Done);
    builder.step(BuilderEvent::Done);
    builder.step(BuilderEvent::Done);
    builder.step(BuilderEvent::Done);
    builder.step(BuilderEvent::Collected { txs: vec![transfer(B)], heads });
    assert_eq!(builder.round().unwrap().pre_state_root, [7; 32]);
}

#[test]
fn proven_head_moves_unless_the_submission_failed() {
    let goes_out = Accepted { post_state_root: [9; 32], submit: true };
    let stays = Accepted { post_state_root: [9; 32], submit: false };
    let moved = Heads { proven: [9; 32], optimistic: [2; 32] };

    let mut taken = heads();
    assert!(finish_proof(&mut taken, goes_out, Some(true)));
    assert_eq!(taken, moved);

    let mut refused = heads();
    assert!(!finish_proof(&mut refused, goes_out, Some(false)));
    assert_eq!(refused, heads());

    let mut alone = heads();
    assert!(finish_proof(&mut alone, stays, None));
    assert_eq!(alone, moved);
}

#[test]
fn refusals_read_well() {
    let cases = [
        (
            StfError::InvalidNonce { expected: 3, got: 12 },
            format!("executor: nonce mismatch for {:?}, expected 3, got 12. skipping tx", A),
        ),
        (
            StfError::BalanceOverflow,
            format!("executor: balance overflow on recipient, tx failed for {:?}", A),
        ),
        (
            StfError::InsufficientBalance,
            format!(
                "executor: stf error - insufficient balance for {:?}. this should be handled by TransactionResult::Failure.",
                A
            ),
        ),
        (
            StfError::MerkleProofVerificationFailed,
            format!(
                "executor: stf error - merkle proof verification failed for {:?}. this should be handled by generate_proofs_for_block.",
                A
            ),
        ),
        (
            StfError::InvalidTransaction("bad".to_string()),
            format!("executor: stf error - invalid transaction for {:?}: bad", A),
        ),
    ];
    for (error, line) in cases {
        assert_eq!(BlockExecutor::handle_stf_error(&error, &A), line);
    }
}

fn account_line(id: [u8; 32], balance: u64, nonce: u64) -> String {
    format!(
        "apply_transaction: got to_account: {:?}",
        Account { id, balance, nonce }
    )
}

fn asked(root: Option<[u8; 32]>, key: [u8; 32]) -> String {
    format!("get_account start root: {:?}, key: {:?}", root, key)
}

fn start(from: [u8; 32]) -> String {
    format!("apply_transaction start for from: {:?}", from)
}

#[test]
fn batch_logs_what_it_does() {
    let zero = Some([0; 32]);
    let c = [0xc; 32];
    let deposits = [
        Deposit { to: A, amount: 10, timestamp: 0 },
        Deposit { to: c, amount: u64::MAX, timestamp: 0 },
        Deposit { to: c, amount: 1, timestamp: 0 },
    ];
    let forced_txs = [
        forced([0; 32]),
        forced([0xd; 32]),
        ForcedTx { amount: 100, ..forced(A) },
        ForcedTx { nonce: 1, ..forced(A) },
        forced(A),
    ];
    let txs = [
        transfer([0xd; 32]),
        Transaction { nonce: 2, ..transfer(A) },
        Transaction { nonce: 3, amount: 100, fee: 1, ..transfer(A) },
        transfer(A),
    ];
    let batch = apply_optimistic_batch(&TreeReads::new(), zero, &txs, &deposits, &forced_txs);
    let expected = vec![
        "apply_optimistic_batch start".to_string(),
        asked(zero, A),
        asked(zero, c),
        format!("apply_deposit: balance overflow for {:?}. skipping deposit", c),
        "apply_forced_tx: skipping dummy forced transaction".to_string(),
        asked(zero, [0xd; 32]),
        "apply_forced_tx: sender account not found, skipping tx".to_string(),
        asked(zero, B),
        format!("executor: forced_tx failed, fee charged for {:?}", A),
        asked(zero, B),
        format!("executor: nonce mismatch for {:?}, expected 2, got 0. skipping tx", A),
        start([0xd; 32]),
        asked(zero, [0xd; 32]),
        "apply_transaction: sender account not found, skipping tx".to_string(),
        start(A),
        account_line(B, 1, 0),
        "apply_transaction: success".to_string(),
        start(A),
        account_line(B, 2, 0),
        format!("executor: transaction failed, fee charged for {:?}", A),
        "apply_transaction: failure".to_string(),
        start(A),
        account_line(B, 2, 0),
        format!("executor: nonce mismatch for {:?}, expected 4, got 0. skipping tx", A),
    ];
    assert_eq!(batch.lines, expected);
    assert_eq!(
        batch.applied,
        vec![
            Applied::Credited,
            Applied::Credited,
            Applied::DepositSkipped,
            Applied::DummySkipped,
            Applied::SenderMissing,
            Applied::FeeCharged,
            Applied::Transferred,
            Applied::Refused(StfError::InvalidNonce { expected: 2, got: 0 }),
            Applied::SenderMissing,
            Applied::Transferred,
            Applied::FeeCharged,
            Applied::Refused(StfError::InvalidNonce { expected: 4, got: 0 }),
        ]
    );
}

#[test]
fn batch_that_stops_logs_how_far_it_got() {
    let mut reads = TreeReads::new();
    reads.record_leaf(None, A, Ok(Some([1; 32])));
    let batch = apply_optimistic_batch(&reads, None, &[transfer(A), transfer(B)], &[], &[]);
    assert!(batch.result.is_err());
    assert_eq!(
        batch.lines,
        vec!["apply_optimistic_batch start".to_string(), start(A), asked(None, A)]
    );
    let nothing = apply_optimistic_batch(&reads, None, &[], &[], &[]);
    assert_eq!(nothing.lines, vec!["apply_optimistic_batch start".to_string()]);
}
