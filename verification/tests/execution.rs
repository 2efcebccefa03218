use rollup::error::{CoreError, SequencerError};
use rollup::executor::{finish_commit, Applied, BlockExecutor, Commit};
use rollup::sequencer::{
    apply_optimistic_batch, finish_batch, initial_root, BatchHalt, Heads, Mempool, Round,
};
use rollup::stf::StfError;
use rollup::tree::{Halt, TreeQuery, TreeReads};
use rollup::types::{Account, Deposit, ForcedTx, Transaction};

const A: [u8; 32] = [0xa; 32];
const B: [u8; 32] = [0xb; 32];
const ZERO: [u8; 32] = [0; 32];

fn deposit(to: [u8; 32], amount: u64) -> Deposit {
    Deposit { to, amount, timestamp: 1 }
}

fn transfer(from: [u8; 32], to: [u8; 32], nonce: u64, amount: u64, fee: u64) -> Transaction {
    Transaction { from, to, nonce, fee, amount }
}

fn forced(from: [u8; 32], to: [u8; 32], nonce: u64, amount: u64, fee: u64) -> ForcedTx {
    ForcedTx { from, to, nonce, fee, amount, timestamp: 1, l2_calldata: vec![] }
}

fn account(id: [u8; 32], balance: u64, nonce: u64) -> Account {
    Account { id, balance, nonce }
}

/// The accounts are what the commit writes over the empty state.
fn writes(commit: Commit, accounts: &[Account]) {
    match commit {
        Commit::Insert { root, keys, leaves } => {
            assert_eq!(root, Some(ZERO));
            assert_eq!(keys.len(), accounts.len());
            assert_eq!(leaves.len(), accounts.len());
            for a in accounts {
                let i = keys.iter().position(|k| *k == a.id).unwrap();
                assert_eq!(leaves[i], a.hash());
            }
        }
        Commit::Unchanged(_) => panic!("nothing is written"),
    }
}

#[test]
fn deposit_opens_an_account() {
    let reads = TreeReads::new();
    let mut executor = BlockExecutor::new(&reads, Some(ZERO));
    assert_eq!(executor.apply_deposit(&deposit(A, 10)), Ok(Applied::Credited));
    assert_eq!(executor.apply_deposit(&deposit(A, 5)), Ok(Applied::Credited));
    writes(executor.commit_block(), &[account(A, 15, 0)]);
}

#[test]
fn deposit_that_does_not_fit_is_skipped() {
    let reads = TreeReads::new();
    let mut executor = BlockExecutor::new(&reads, Some(ZERO));
    assert_eq!(executor.apply_deposit(&deposit(A, u64::MAX)), Ok(Applied::Credited));
    assert_eq!(executor.apply_deposit(&deposit(A, 1)), Ok(Applied::DepositSkipped));
    writes(executor.commit_block(), &[account(A, u64::MAX, 0)]);
}

#[test]
fn transfer_between_two_accounts_keeps_the_sum_but_for_the_fee() {
    let reads = TreeReads::new();
    let mut executor = BlockExecutor::new(&reads, Some(ZERO));
    executor.apply_deposit(&deposit(A, 100)).unwrap();
    executor.apply_deposit(&deposit([0xc; 32], 1)).unwrap();
    assert_eq!(
        executor.apply_transaction(&transfer(A, B, 0, 30, 5)),
        Ok(Applied::Transferred)
    );
    writes(
        executor.commit_block(),
        &[account(A, 65, 1), account(B, 30, 0), account([0xc; 32], 1, 0)],
    );
}

#[test]
fn uncovered_transfer_is_charged() {
    let reads = TreeReads::new();
    let mut executor = BlockExecutor::new(&reads, Some(ZERO));
    executor.apply_deposit(&deposit(A, 10)).unwrap();
    assert_eq!(
        executor.apply_transaction(&transfer(A, B, 0, 30, 4)),
        Ok(Applied::FeeCharged)
    );
    assert_eq!(executor.apply_forced_tx(&forced(A, B, 1, 30, 40)), Ok(Applied::FeeCharged));
    writes(executor.commit_block(), &[account(A, 0, 2)]);
}

#[test]
fn refused_transfer_changes_nothing() {
    let reads = TreeReads::new();
    let mut executor = BlockExecutor::new(&reads, Some(ZERO));
    executor.apply_deposit(&deposit(A, 10)).unwrap();
    assert_eq!(
        executor.apply_transaction(&transfer(A, B, 3, 1, 1)),
        Ok(Applied::Refused(StfError::InvalidNonce { expected: 0, got: 3 }))
    );
    assert_eq!(
        executor.apply_forced_tx(&forced(A, B, 0, u64::MAX, 1)),
        Ok(Applied::Refused(StfError::BalanceOverflow))
    );
    writes(executor.commit_block(), &[account(A, 10, 0)]);
}

#[test]
fn unknown_sender_is_skipped() {
    let reads = TreeReads::new();
    let mut executor = BlockExecutor::new(&reads, Some(ZERO));
    assert_eq!(
        executor.apply_transaction(&transfer(A, B, 0, 1, 1)),
        Ok(Applied::SenderMissing)
    );
    assert_eq!(executor.apply_forced_tx(&forced(A, B, 0, 1, 1)), Ok(Applied::SenderMissing));
    assert_eq!(executor.commit_block(), Commit::Unchanged(ZERO));
}

#[test]
fn dummy_is_skipped_though_its_sender_has_an_account() {
    let reads = TreeReads::new();
    let mut executor = BlockExecutor::new(&reads, Some(ZERO));
    executor.apply_deposit(&deposit(ZERO, 10)).unwrap();
    assert_eq!(executor.apply_forced_tx(&forced(ZERO, B, 0, 1, 1)), Ok(Applied::DummySkipped));
    assert_eq!(
        executor.apply_transaction(&transfer(ZERO, B, 0, 1, 1)),
        Ok(Applied::Transferred)
    );
    writes(executor.commit_block(), &[account(ZERO, 8, 1), account(B, 1, 0)]);
}

#[test]
fn transfer_to_oneself_keeps_the_recipients_side() {
    let reads = TreeReads::new();
    let mut executor = BlockExecutor::new(&reads, Some(ZERO));
    executor.apply_deposit(&deposit(A, 100)).unwrap();
    assert_eq!(
        executor.apply_transaction(&transfer(A, A, 0, 10, 1)),
        Ok(Applied::Transferred)
    );
    writes(executor.commit_block(), &[account(A, 110, 0)]);
}

#[test]
fn tree_is_asked_for_accounts_that_are_not_cached() {
    let mut reads = TreeReads::new();
    let root = [9; 32];
    {
        let mut executor = BlockExecutor::new(&reads, Some(root));
        assert_eq!(
            executor.apply_deposit(&deposit(A, 10)),
            Err(Halt::Unread(TreeQuery::Leaf { root: Some(root), key: A }))
        );
    }
    reads.record_leaf(Some(root), A, Ok(None));
    let mut executor = BlockExecutor::new(&reads, Some(root));
    assert_eq!(executor.apply_deposit(&deposit(A, 10)), Ok(Applied::Credited));
    assert_eq!(
        executor.apply_transaction(&transfer(A, B, 0, 1, 1)),
        Err(Halt::Unread(TreeQuery::Leaf { root: Some(root), key: B }))
    );
}

#[test]
fn unreadable_recipient_counts_as_empty_but_an_unreadable_sender_fails() {
    let mut reads = TreeReads::new();
    let root = [9; 32];
    reads.record_leaf(Some(root), A, Ok(None));
    reads.record_leaf(Some(root), B, Ok(Some([1; 32])));
    let mut executor = BlockExecutor::new(&reads, Some(root));
    executor.apply_deposit(&deposit(A, 10)).unwrap();
    assert_eq!(
        executor.apply_transaction(&transfer(A, B, 0, 1, 1)),
        Ok(Applied::Transferred)
    );
    let mut other = BlockExecutor::new(&reads, Some(root));
    assert_eq!(
        other.apply_deposit(&deposit(B, 10)),
        Err(Halt::Failed(CoreError::AccountDataCorrupted(B)))
    );
    assert_eq!(
        other.apply_transaction(&transfer(B, A, 0, 1, 1)),
        Err(Halt::Failed(CoreError::AccountDataCorrupted(B)))
    );
}

#[test]
fn block_that_changes_nothing_leaves_the_root() {
    let reads = TreeReads::new();
    assert_eq!(
        BlockExecutor::new(&reads, Some([3; 32])).commit_block(),
        Commit::Unchanged([3; 32])
    );
    assert_eq!(BlockExecutor::new(&reads, None).commit_block(), Commit::Unchanged(ZERO));
}

#[test]
fn write_leads_to_a_root_or_an_error() {
    assert_eq!(finish_commit(Ok(Some([4; 32]))), Ok([4; 32]));
    assert_eq!(
        finish_commit(Ok(None)),
        Err(CoreError::DatabaseError("commit_block inserts returned none err".to_string()))
    );
    assert_eq!(
        finish_commit(Err("full".to_string())),
        Err(CoreError::DatabaseError("commit_block inserts err: full".to_string()))
    );
    assert_eq!(finish_batch(Ok(Some([4; 32]))), Ok([4; 32]));
    assert_eq!(
        finish_batch(Ok(None)),
        Err(SequencerError::DatabaseError("commit_block inserts returned none err".to_string()))
    );
    assert_eq!(
        finish_batch(Err("full".to_string())),
        Err(SequencerError::DatabaseError("commit_block inserts err: full".to_string()))
    );
}

#[test]
fn empty_batch_leaves_the_root() {
    let reads = TreeReads::new();
    assert_eq!(
        apply_optimistic_batch(&reads, Some([3; 32]), &[], &[], &[]).result,
        Ok(Commit::Unchanged([3; 32]))
    );
    assert_eq!(
        apply_optimistic_batch(&reads, None, &[], &[], &[]).result,
        Ok(Commit::Unchanged(ZERO))
    );
}

#[test]
fn batch_runs_deposits_then_forced_transfers_then_transfers() {
    let reads = TreeReads::new();
    let batch = apply_optimistic_batch(
        &reads,
        Some(ZERO),
        &[transfer(A, B, 1, 3, 1), transfer(A, B, 1, 3, 1)],
        &[deposit(A, 10)],
        &[forced(A, B, 0, 4, 0), forced(ZERO, B, 0, 4, 0)],
    );
    assert_eq!(
        batch.applied,
        vec![
            Applied::Credited,
            Applied::Transferred,
            Applied::DummySkipped,
            Applied::Transferred,
            Applied::Refused(StfError::InvalidNonce { expected: 2, got: 1 }),
        ]
    );
    writes(batch.result.unwrap(), &[account(A, 2, 2), account(B, 7, 0)]);
}

#[test]
fn batch_waits_for_answers_and_comes_out_the_same_with_more() {
    let root = [9; 32];
    let mut reads = TreeReads::new();
    let txs = [transfer(A, B, 0, 3, 1)];
    let deposits = [deposit(A, 10)];
    let leaf = |key| BatchHalt::Unread(TreeQuery::Leaf { root: Some(root), key });
    assert_eq!(
        apply_optimistic_batch(&reads, Some(root), &txs, &deposits, &[]).result,
        Err(leaf(A))
    );
    reads.record_leaf(Some(root), A, Ok(None));
    assert_eq!(
        apply_optimistic_batch(&reads, Some(root), &txs, &deposits, &[]).result,
        Err(leaf(B))
    );
    reads.record_leaf(Some(root), B, Ok(None));
    let commit = apply_optimistic_batch(&reads, Some(root), &txs, &deposits, &[]).result.unwrap();
    reads.record_leaf(Some(root), [0xc; 32], Ok(None));
    assert_eq!(
        apply_optimistic_batch(&reads, Some(root), &txs, &deposits, &[]).result,
        Ok(commit.clone())
    );
    match commit {
        Commit::Insert { root: under, keys, leaves } => {
            assert_eq!(under, Some(root));
            assert_eq!(keys, vec![A, B]);
            assert_eq!(leaves, vec![account(A, 6, 1).hash(), account(B, 3, 0).hash()]);
        }
        Commit::Unchanged(_) => panic!("nothing is written"),
    }
}

#[test]
fn batch_that_stops_tells_of_the_items_before() {
    let root = [9; 32];
    let mut reads = TreeReads::new();
    reads.record_leaf(Some(root), A, Ok(None));
    reads.record_leaf(Some(root), B, Ok(Some([1; 32])));
    let txs = [transfer(A, A, 5, 0, 0), transfer(B, A, 0, 0, 0), transfer(A, A, 0, 0, 0)];
    let batch = apply_optimistic_batch(&reads, Some(root), &txs, &[deposit(A, 10)], &[]);
    assert_eq!(
        batch.applied,
        vec![
            Applied::Credited,
            Applied::Refused(StfError::InvalidNonce { expected: 0, got: 5 }),
        ]
    );
    assert_eq!(
        batch.result,
        Err(BatchHalt::Failed(SequencerError::AccountDataCorrupted(B)))
    );
    let early = apply_optimistic_batch(
        &reads,
        Some(root),
        &[],
        &[deposit(A, 10), deposit(B, 1), deposit(A, 1)],
        &[forced(ZERO, A, 0, 0, 0)],
    );
    assert_eq!(early.applied, vec![Applied::Credited]);
}

#[test]
fn batch_fails_with_the_sequencers_error() {
    let root = [9; 32];
    let mut reads = TreeReads::new();
    reads.record_leaf(Some(root), A, Ok(Some([1; 32])));
    reads.record_leaf(Some(root), B, Err("down".to_string()));
    assert_eq!(
        apply_optimistic_batch(&reads, Some(root), &[], &[deposit(A, 10)], &[]).result,
        Err(BatchHalt::Failed(SequencerError::AccountDataCorrupted(A)))
    );
    assert_eq!(
        apply_optimistic_batch(&reads, Some(root), &[], &[], &[forced(A, B, 0, 0, 0)]).result,
        Err(BatchHalt::Failed(SequencerError::AccountDataCorrupted(A)))
    );
    assert_eq!(
        apply_optimistic_batch(&reads, Some(root), &[transfer(B, A, 0, 0, 0)], &[], &[]).result,
        Err(BatchHalt::Failed(SequencerError::DatabaseError(
            "get_account get_leaf err: down".to_string()
        )))
    );
}

#[test]
fn mempool_is_first_in_first_out() {
    let mut mempool = Mempool::new();
    assert!(mempool.snapshot().is_empty());
    let first = transfer(A, B, 0, 1, 0);
    let second = transfer(A, B, 1, 1, 0);
    let third = transfer(A, B, 2, 1, 0);
    mempool.submit(first);
    mempool.submit(second);
    let taken = mempool.snapshot();
    assert_eq!(taken, vec![first, second]);
    mempool.submit(third);
    mempool.remove_first(taken.len());
    assert_eq!(mempool.snapshot(), vec![third]);
    mempool.remove_first(0);
    assert_eq!(mempool.snapshot(), vec![third]);
}

#[test]
fn blocks_chain() {
    let mut heads = Heads::new(initial_root(None));
    assert_eq!(heads, Heads { proven: ZERO, optimistic: ZERO });
    let txs = vec![transfer(A, B, 0, 1, 0)];
    let round = Round::begin(txs.clone(), vec![], vec![], &heads).unwrap();
    let sealed = round.seal(7, [1; 32]);
    assert_eq!(sealed.block.block_number, 7);
    assert_eq!(sealed.block.txs, txs);
    assert_eq!(sealed.block.pre_state_root, ZERO);
    assert_eq!(sealed.block.post_state_root, [1; 32]);
    assert_eq!(sealed.next_block_number, 8);
    assert_eq!(sealed.included, 1);
    heads.advance_optimistic(sealed.block.post_state_root);
    assert_eq!(heads, Heads { proven: ZERO, optimistic: [1; 32] });
    let next = Round::begin(vec![], vec![deposit(A, 1)], vec![], &heads).unwrap();
    assert_eq!(next.pre_state_root, [1; 32]);
    heads.advance_proven([1; 32]);
    assert_eq!(heads, Heads { proven: [1; 32], optimistic: [1; 32] });
}

#[test]
fn no_block_is_begun_from_nothing() {
    let heads = Heads::new(initial_root(Some([5; 32])));
    assert_eq!(heads.optimistic, [5; 32]);
    assert!(Round::begin(vec![], vec![], vec![], &heads).is_none());
    assert!(Round::begin(vec![], vec![], vec![forced(A, B, 0, 0, 0)], &heads).is_some());
}
