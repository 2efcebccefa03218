use rollup::error::CoreError;
use rollup::merkle::MerkleProof;
use rollup::proofs::{generate_proofs_for_block, try_proofs_for_block, ProofBundle};
use rollup::prover::{accept_proof, Accepted, ProofRejected};
use rollup::config::L1Config;
use rollup::stf::{StateTransitioner, StfError};
use rollup::tree::{build_stf_proof, get_account, get_proof, Halt, TreeQuery, TreeReads};
use rollup::types::{Account, Deposit, ForcedTx, PendingBlock, Transaction};

const ROOT: [u8; 32] = [9; 32];
const KEY: [u8; 32] = [4; 32];

fn missing() -> TreeReads {
    let mut reads = TreeReads::new();
    reads.record_leaf(Some(ROOT), KEY, Ok(None));
    reads.record_proof(ROOT, KEY, Ok(None));
    reads
}

#[test]
fn empty_state_holds_nothing_and_is_not_asked() {
    let reads = TreeReads::new();
    let zero = [0; 32];
    assert_eq!(
        get_account(&reads, Some(&zero), &KEY),
        Err(Halt::Failed(CoreError::AccountNotFound(KEY)))
    );
    assert_eq!(
        get_proof(&reads, &zero, &KEY),
        Err(Halt::Failed(CoreError::ProofNotFound(KEY)))
    );
    let proof = build_stf_proof(&reads, &zero, &KEY).unwrap();
    assert_eq!(proof.account, Account::new(KEY));
    assert!(proof.siblings.is_empty());
}

#[test]
fn what_was_not_read_is_asked_for() {
    let mut reads = TreeReads::new();
    let leaf = TreeQuery::Leaf { root: Some(ROOT), key: KEY };
    let path = TreeQuery::Proof { root: ROOT, key: KEY };
    assert_eq!(get_account(&reads, Some(&ROOT), &KEY), Err(Halt::Unread(leaf)));
    assert_eq!(get_proof(&reads, &ROOT, &KEY), Err(Halt::Unread(path)));
    assert_eq!(
        get_account(&reads, None, &KEY),
        Err(Halt::Unread(TreeQuery::Leaf { root: None, key: KEY }))
    );
    assert_eq!(build_stf_proof(&reads, &ROOT, &KEY).unwrap_err(), Halt::Unread(leaf));
    reads.record_leaf(Some(ROOT), KEY, Ok(None));
    assert_eq!(build_stf_proof(&reads, &ROOT, &KEY).unwrap_err(), Halt::Unread(path));
    reads.record_proof(ROOT, KEY, Ok(None));
    assert!(build_stf_proof(&reads, &ROOT, &KEY).is_ok());
}

#[test]
fn later_answer_counts() {
    let mut reads = TreeReads::new();
    reads.record_leaf(Some(ROOT), KEY, Err("down".to_string()));
    reads.record_leaf(Some([8; 32]), KEY, Ok(Some([1; 32])));
    reads.record_leaf(Some(ROOT), KEY, Ok(None));
    assert_eq!(
        get_account(&reads, Some(&ROOT), &KEY),
        Err(Halt::Failed(CoreError::AccountNotFound(KEY)))
    );
}

#[test]
fn unknown_key_gets_an_empty_account_and_no_path() {
    let proof = build_stf_proof(&missing(), &ROOT, &KEY).unwrap();
    assert_eq!(proof.account, Account::new(KEY));
    assert!(proof.siblings.is_empty());
}

#[test]
fn leaf_is_too_short_for_an_account() {
    let mut reads = TreeReads::new();
    reads.record_leaf(Some(ROOT), KEY, Ok(Some(Account::new(KEY).hash())));
    let corrupted = Halt::Failed(CoreError::AccountDataCorrupted(KEY));
    assert_eq!(get_account(&reads, Some(&ROOT), &KEY), Err(corrupted.clone()));
    assert_eq!(build_stf_proof(&reads, &ROOT, &KEY).unwrap_err(), corrupted);
}

#[test]
fn database_errors_are_passed_on() {
    let mut reads = TreeReads::new();
    reads.record_leaf(Some(ROOT), KEY, Err("down".to_string()));
    reads.record_proof(ROOT, KEY, Err("gone".to_string()));
    assert_eq!(
        get_account(&reads, Some(&ROOT), &KEY),
        Err(Halt::Failed(CoreError::DatabaseError("get_account get_leaf err: down".to_string())))
    );
    assert_eq!(
        get_proof(&reads, &ROOT, &KEY),
        Err(Halt::Failed(CoreError::DatabaseError(
            "get_proof get_merkle_proof err: gone".to_string()
        )))
    );
}

#[test]
fn path_becomes_siblings() {
    let mut reads = missing();
    reads.record_proof(
        ROOT,
        KEY,
        Ok(Some(vec![(true, vec![1; 32]), (false, vec![2; 32])])),
    );
    let proof = build_stf_proof(&reads, &ROOT, &KEY).unwrap();
    assert_eq!(proof.siblings, vec![(true, [1; 32]), (false, [2; 32])]);
    assert_eq!(
        get_proof(&reads, &ROOT, &KEY).unwrap(),
        &vec![(true, vec![1; 32]), (false, vec![2; 32])]
    );
}

#[test]
fn sibling_of_another_length_stops_the_work() {
    for len in [0, 31, 33] {
        let mut reads = missing();
        reads.record_proof(ROOT, KEY, Ok(Some(vec![(true, vec![1; 32]), (false, vec![2; len])])));
        assert_eq!(
            build_stf_proof(&reads, &ROOT, &KEY).unwrap_err(),
            Halt::MalformedSibling(KEY)
        );
    }
}

/// Answers every question as a tree that holds nothing, until the work is done; gives the number
/// of questions too.
fn replay(block: &PendingBlock) -> (Result<ProofBundle, Halt>, usize) {
    let mut reads = TreeReads::new();
    let mut asked = 0;
    loop {
        match try_proofs_for_block(&reads, block) {
            Err(Halt::Unread(TreeQuery::Leaf { root, key })) => {
                reads.record_leaf(root, key, Ok(None));
            }
            Err(Halt::Unread(TreeQuery::Proof { root, key })) => {
                reads.record_proof(root, key, Ok(None));
            }
            done => return (done, asked),
        }
        asked += 1;
        assert!(asked < 100);
    }
}

fn block(pre: [u8; 32], post: [u8; 32]) -> PendingBlock {
    PendingBlock {
        block_number: 1,
        txs: vec![],
        deposits: vec![],
        forced_txs: vec![],
        pre_state_root: pre,
        post_state_root: post,
    }
}

fn funded(id: [u8; 32], balance: u64) -> Account {
    Account { id, balance, nonce: 0 }
}

fn transition(
    block: &PendingBlock,
    bundle: &ProofBundle,
) -> Option<Result<([u8; 32], [u8; 32], [u8; 32]), StfError>> {
    StateTransitioner::try_transition(
        block.pre_state_root,
        &block.txs,
        &block.deposits,
        &block.forced_txs,
        &bundle.proofs_deposits,
        &bundle.proofs_forced_from,
        &bundle.proofs_forced_to,
        &bundle.proofs_txs_from,
        &bundle.proofs_txs_to,
    )
}

fn public(block: &PendingBlock, bundle: &ProofBundle) -> Vec<u8> {
    StateTransitioner::public_values(
        block.pre_state_root,
        &block.txs,
        &block.deposits,
        &block.forced_txs,
        &bundle.proofs_deposits,
        &bundle.proofs_forced_from,
        &bundle.proofs_forced_to,
        &bundle.proofs_txs_from,
        &bundle.proofs_txs_to,
    )
    .unwrap()
    .unwrap()
}

fn l1(enabled: bool) -> L1Config {
    L1Config {
        enabled,
        rpc_url: String::new(),
        bridge_address: [0; 20],
        private_key: String::new(),
    }
}

#[test]
fn empty_block_needs_no_proofs() {
    let (result, asked) = replay(&block([5; 32], [5; 32]));
    let bundle = result.unwrap();
    assert_eq!(asked, 0);
    assert!(bundle.proofs_deposits.is_empty());
    assert!(bundle.proofs_txs_to.is_empty());
}

#[test]
fn block_that_leads_elsewhere_is_stopped() {
    let (result, _) = replay(&block([5; 32], [6; 32]));
    assert_eq!(
        result.unwrap_err(),
        Halt::RootMismatch { reached: [5; 32], claimed: [6; 32] }
    );
}

#[test]
fn block_that_leads_where_it_claims_is_proven() {
    let empty = generate_proofs_for_block(&TreeReads::new(), &block([5; 32], [5; 32])).unwrap();
    assert!(empty.proofs_deposits.is_empty());
    assert!(empty.proofs_forced_from.is_empty());
    assert!(empty.proofs_forced_to.is_empty());
    assert!(empty.proofs_txs_from.is_empty());
    assert!(empty.proofs_txs_to.is_empty());

    let mut b = block(ROOT, funded(KEY, 10).hash());
    b.deposits = vec![Deposit { to: KEY, amount: 10, timestamp: 3 }];
    assert_eq!(
        generate_proofs_for_block(&TreeReads::new(), &b).unwrap_err(),
        Halt::Unread(TreeQuery::Leaf { root: Some(ROOT), key: KEY })
    );
    let bundle = generate_proofs_for_block(&missing(), &b).unwrap();
    assert_eq!(bundle.proofs_deposits[0].account, Account::new(KEY));
}

#[test]
fn deposit_is_proven_and_accepted() {
    let mut b = block(Account::new(KEY).hash(), funded(KEY, 10).hash());
    b.deposits = vec![Deposit { to: KEY, amount: 10, timestamp: 3 }];
    let (result, asked) = replay(&b);
    assert_eq!(asked, 2);
    let bundle = result.unwrap();
    assert_eq!(bundle.proofs_deposits.len(), 1);
    assert_eq!(transition(&b, &bundle).unwrap().unwrap().0, b.post_state_root);
    let bytes = public(&b, &bundle);
    assert_eq!(
        accept_proof(&bytes, &b, &l1(true)),
        Ok(Accepted { post_state_root: b.post_state_root, submit: true })
    );
    assert_eq!(
        accept_proof(&bytes, &b, &l1(false)),
        Ok(Accepted { post_state_root: b.post_state_root, submit: false })
    );
}

#[test]
fn first_deposit_into_the_empty_state_is_proven_but_not_accepted() {
    let mut b = block([0; 32], funded(KEY, 10).hash());
    b.deposits = vec![Deposit { to: KEY, amount: 10, timestamp: 3 }];
    let (result, asked) = replay(&b);
    assert_eq!(asked, 0);
    assert_eq!(
        transition(&b, &result.unwrap()),
        Some(Err(StfError::MerkleProofVerificationFailed))
    );
}

fn forced(from: [u8; 32], to: [u8; 32], nonce: u64, amount: u64, fee: u64) -> ForcedTx {
    ForcedTx { from, to, nonce, fee, amount, timestamp: 1, l2_calldata: vec![1, 2] }
}

#[test]
fn dummy_gets_dummy_proofs_and_no_questions() {
    let mut b = block([5; 32], [5; 32]);
    b.forced_txs = vec![forced([0; 32], KEY, 0, 1, 1)];
    let (result, asked) = replay(&b);
    assert_eq!(asked, 0);
    let bundle = result.unwrap();
    assert_eq!(bundle.proofs_forced_from[0].account, Account::new([0; 32]));
    assert_eq!(bundle.proofs_forced_to[0].account, Account::new(KEY));
    assert_eq!(transition(&b, &bundle).unwrap().unwrap().0, [5; 32]);
}

#[test]
fn uncovered_forced_transfer_counts_the_nonce() {
    let sender = [0xa; 32];
    let after = Account { id: sender, balance: 0, nonce: 1 };
    let mut b = block(Account::new(sender).hash(), after.hash());
    b.forced_txs = vec![forced(sender, KEY, 0, 1, 1)];
    let bundle = replay(&b).0.unwrap();
    assert_eq!(bundle.proofs_forced_from.len(), 1);
    assert_eq!(bundle.proofs_forced_to.len(), 1);
    assert_eq!(transition(&b, &bundle).unwrap().unwrap().0, after.hash());
}

#[test]
fn covered_forced_transfer_proves_the_recipient_behind_the_sender() {
    let sender = [0xa; 32];
    let counted = Account { id: sender, balance: 0, nonce: 1 };
    let mut b = block([5; 32], Account::new(KEY).hash());
    b.forced_txs = vec![forced(sender, KEY, 0, 0, 0)];
    let mut reads = TreeReads::new();
    let mut roots = vec![];
    let bundle = loop {
        match try_proofs_for_block(&reads, &b) {
            Err(Halt::Unread(TreeQuery::Leaf { root, key })) => {
                reads.record_leaf(root, key, Ok(None));
            }
            Err(Halt::Unread(TreeQuery::Proof { root, key })) => {
                roots.push((root, key));
                reads.record_proof(root, key, Ok(None));
            }
            done => break done.unwrap(),
        }
    };
    assert_eq!(
        roots,
        vec![([5; 32], sender), ([5; 32], KEY), (counted.hash(), KEY)]
    );
    assert_eq!(bundle.proofs_forced_to[0].account, Account::new(KEY));
}

#[test]
fn refused_forced_transfer_fails_the_block() {
    let mut b = block([5; 32], [5; 32]);
    b.forced_txs = vec![forced([0xa; 32], KEY, 3, 1, 1)];
    assert_eq!(
        replay(&b).0.unwrap_err(),
        Halt::Failed(CoreError::StfError("InvalidNonce { expected: 0, got: 3 }".to_string()))
    );
    b.forced_txs = vec![forced([0xa; 32], KEY, 0, u64::MAX, 1)];
    assert_eq!(
        replay(&b).0.unwrap_err(),
        Halt::Failed(CoreError::StfError("BalanceOverflow".to_string()))
    );
}

#[test]
fn transfer_of_an_unknown_sender_gets_dummy_proofs() {
    let mut b = block([5; 32], [5; 32]);
    b.txs = vec![Transaction { from: [0xa; 32], to: KEY, nonce: 7, fee: 1, amount: 1 }];
    let (result, asked) = replay(&b);
    assert_eq!(asked, 1);
    let bundle = result.unwrap();
    assert_eq!(bundle.proofs_txs_from[0].account, Account::new([0xa; 32]));
    assert!(bundle.proofs_txs_from[0].siblings.is_empty());
    assert_eq!(bundle.proofs_txs_to[0].account, Account::new(KEY));
}

#[test]
fn dummy_proof_of_a_sender_can_lead_the_transition_elsewhere() {
    let sender = [0xa; 32];
    let start = Account::new(sender).hash();
    let mut b = block(start, start);
    b.txs = vec![Transaction { from: sender, to: KEY, nonce: 0, fee: 1, amount: 1 }];
    let bundle = replay(&b).0.unwrap();
    let counted = Account { id: sender, balance: 0, nonce: 1 };
    assert_eq!(transition(&b, &bundle).unwrap().unwrap().0, counted.hash());
    assert_eq!(
        accept_proof(&public(&b, &bundle), &b, &l1(true)),
        Err(ProofRejected::RootMismatch)
    );
}

#[test]
fn deposit_that_does_not_fit_cannot_arise_from_an_empty_account() {
    let mut b = block(Account::new(KEY).hash(), funded(KEY, u64::MAX).hash());
    b.deposits = vec![Deposit { to: KEY, amount: u64::MAX, timestamp: 0 }];
    let bundle = replay(&b).0.unwrap();
    assert_eq!(transition(&b, &bundle).unwrap().unwrap().0, b.post_state_root);
}

#[test]
fn more_answers_do_not_change_the_proofs() {
    let mut b = block(ROOT, funded(KEY, 10).hash());
    b.deposits = vec![Deposit { to: KEY, amount: 10, timestamp: 3 }];
    let mut reads = missing();
    let before = generate_proofs_for_block(&reads, &b).unwrap();
    reads.record_leaf(Some([1; 32]), [2; 32], Err("down".to_string()));
    reads.record_proof([1; 32], [2; 32], Err("down".to_string()));
    let after = generate_proofs_for_block(&reads, &b).unwrap();
    let siblings = |p: &MerkleProof| p.siblings.clone();
    assert_eq!(before.proofs_deposits.len(), after.proofs_deposits.len());
    assert_eq!(before.proofs_deposits[0].account, after.proofs_deposits[0].account);
    assert_eq!(siblings(&before.proofs_deposits[0]), siblings(&after.proofs_deposits[0]));
}
