use rollup::abi::{build_commitment, hash_deposits, hash_forced_txs, PublicValues};
use rollup::merkle::{compute_new_root, MerkleProof};
use rollup::stf::{StateTransitioner, StfError};
use rollup::types::{Account, Deposit, ForcedTx, Transaction};

type Outcome = Option<Result<([u8; 32], [u8; 32], [u8; 32]), StfError>>;

/// A block with its proofs.
#[derive(Clone)]
struct Input {
    root: [u8; 32],
    txs: Vec<Transaction>,
    deposits: Vec<Deposit>,
    forced: Vec<ForcedTx>,
    p_deposits: Vec<MerkleProof>,
    p_forced_from: Vec<MerkleProof>,
    p_forced_to: Vec<MerkleProof>,
    p_txs_from: Vec<MerkleProof>,
    p_txs_to: Vec<MerkleProof>,
}

fn empty(root: [u8; 32]) -> Input {
    Input {
        root,
        txs: vec![],
        deposits: vec![],
        forced: vec![],
        p_deposits: vec![],
        p_forced_from: vec![],
        p_forced_to: vec![],
        p_txs_from: vec![],
        p_txs_to: vec![],
    }
}

fn run(input: &Input) -> Outcome {
    StateTransitioner::try_transition(
        input.root,
        &input.txs,
        &input.deposits,
        &input.forced,
        &input.p_deposits,
        &input.p_forced_from,
        &input.p_forced_to,
        &input.p_txs_from,
        &input.p_txs_to,
    )
}

fn root_of(outcome: Outcome) -> [u8; 32] {
    outcome.unwrap().unwrap().0
}

fn at(account: Account, siblings: Vec<(bool, [u8; 32])>) -> MerkleProof {
    MerkleProof { account, siblings }
}

fn alice(balance: u64, nonce: u64) -> Account {
    Account { id: [0xa; 32], balance, nonce }
}

fn bob(balance: u64, nonce: u64) -> Account {
    Account { id: [0xb; 32], balance, nonce }
}

/// A tree of two leaves, with Alice on the left.
fn pair_root(left: Account, right: Account) -> [u8; 32] {
    compute_new_root(&at(left, vec![(true, right.hash())]), left.hash())
}

/// Alice sends 30 with a fee of 5 to Bob, who has an empty account on the right.
fn covered() -> Input {
    let mut input = empty(pair_root(alice(100, 4), bob(0, 0)));
    input.txs = vec![Transaction { from: [0xa; 32], to: [0xb; 32], nonce: 4, fee: 5, amount: 30 }];
    input.p_txs_from = vec![at(alice(100, 4), vec![(true, bob(0, 0).hash())])];
    input.p_txs_to = vec![at(bob(0, 0), vec![(false, alice(65, 5).hash())])];
    input
}

fn as_forced(mut input: Input) -> Input {
    let txs = std::mem::take(&mut input.txs);
    input.forced = txs
        .iter()
        .map(|tx| ForcedTx {
            from: tx.from,
            to: tx.to,
            nonce: tx.nonce,
            fee: tx.fee,
            amount: tx.amount,
            timestamp: 1,
            l2_calldata: vec![1],
        })
        .collect();
    input.p_forced_from = std::mem::take(&mut input.p_txs_from);
    input.p_forced_to = std::mem::take(&mut input.p_txs_to);
    input
}

fn dummy() -> ForcedTx {
    ForcedTx {
        from: [0; 32],
        to: [0; 32],
        nonce: 0,
        fee: 0,
        amount: 0,
        timestamp: 1,
        l2_calldata: vec![0xde, 0xad],
    }
}

#[test]
fn empty_block_keeps_the_root() {
    let (root, deposits, forced) = run(&empty([7; 32])).unwrap().unwrap();
    assert_eq!(root, [7; 32]);
    assert_eq!(deposits, hash_deposits(&[]));
    assert_eq!(forced, hash_forced_txs(&[]));
}

#[test]
fn covered_transfer_leads_to_both_updates() {
    assert_eq!(root_of(run(&covered())), pair_root(alice(65, 5), bob(30, 0)));
}

#[test]
fn owned_lists_give_the_same_as_borrowed_ones() {
    let input = covered();
    let result = StateTransitioner::execute_transition(
        input.root,
        input.txs.clone(),
        input.deposits.clone(),
        input.forced.clone(),
        input.p_deposits.clone(),
        input.p_forced_from.clone(),
        input.p_forced_to.clone(),
        input.p_txs_from.clone(),
        input.p_txs_to.clone(),
    );
    assert_eq!(Some(result), run(&input));
}

#[test]
fn forced_transfer_leads_where_the_transfer_does() {
    assert_eq!(root_of(run(&as_forced(covered()))), root_of(run(&covered())));
}

#[test]
fn uncovered_transfer_updates_the_sender_only() {
    let mut input = covered();
    input.txs[0].amount = 1000;
    input.p_txs_to = vec![];
    assert_eq!(root_of(run(&input)), pair_root(alice(95, 5), bob(0, 0)));
}

#[test]
fn recipient_starts_from_an_empty_account() {
    let mut input = covered();
    input.root = pair_root(alice(100, 4), bob(1000, 0));
    input.p_txs_from = vec![at(alice(100, 4), vec![(true, bob(1000, 0).hash())])];
    input.p_txs_to = vec![at(bob(1000, 0), vec![(false, alice(65, 5).hash())])];
    assert_eq!(root_of(run(&input)), pair_root(alice(65, 5), bob(30, 0)));
}

#[test]
fn deposits_are_credited_in_order() {
    let mut input = empty(alice(0, 0).hash());
    input.deposits = vec![
        Deposit { to: [0xa; 32], amount: 10, timestamp: 1 },
        Deposit { to: [0xa; 32], amount: 5, timestamp: 2 },
    ];
    input.p_deposits = vec![at(alice(0, 0), vec![]), at(alice(10, 0), vec![])];
    let (root, deposits_hash, _) = run(&input).unwrap().unwrap();
    assert_eq!(root, alice(15, 0).hash());
    assert_eq!(deposits_hash, hash_deposits(&input.deposits));
}

#[test]
fn deposits_can_be_split_over_two_blocks() {
    let mut whole = empty(alice(0, 0).hash());
    whole.deposits = vec![
        Deposit { to: [0xa; 32], amount: 10, timestamp: 1 },
        Deposit { to: [0xa; 32], amount: 5, timestamp: 2 },
    ];
    whole.p_deposits = vec![at(alice(0, 0), vec![]), at(alice(10, 0), vec![])];
    let mut first = empty(whole.root);
    first.deposits = vec![whole.deposits[0]];
    first.p_deposits = vec![whole.p_deposits[0].clone()];
    let mut second = empty(root_of(run(&first)));
    second.deposits = vec![whole.deposits[1]];
    second.p_deposits = vec![whole.p_deposits[1].clone()];
    assert_eq!(root_of(run(&second)), root_of(run(&whole)));
}

#[test]
fn deposits_come_before_forced_transfers_and_these_before_transfers() {
    let mut input = empty(alice(0, 0).hash());
    input.deposits = vec![Deposit { to: [0xa; 32], amount: 10, timestamp: 1 }];
    input.p_deposits = vec![at(alice(0, 0), vec![])];
    input.forced = vec![ForcedTx {
        from: [0xa; 32],
        to: [0xb; 32],
        nonce: 0,
        fee: 1,
        amount: 100,
        timestamp: 1,
        l2_calldata: vec![],
    }];
    input.p_forced_from = vec![at(alice(10, 0), vec![])];
    input.txs = vec![Transaction { from: [0xa; 32], to: [0xb; 32], nonce: 1, fee: 2, amount: 100 }];
    input.p_txs_from = vec![at(alice(9, 1), vec![])];
    assert_eq!(root_of(run(&input)), alice(7, 2).hash());
}

#[test]
fn proof_against_another_root_is_refused() {
    let failed = Some(Err(StfError::MerkleProofVerificationFailed));
    let mut sender = covered();
    sender.root[0] ^= 1;
    assert_eq!(run(&sender), failed);
    let mut recipient = covered();
    recipient.p_txs_to[0].siblings[0].1 = alice(100, 4).hash();
    assert_eq!(run(&recipient), failed);
    assert_eq!(run(&as_forced(recipient)), failed);
    let mut deposit = empty([1; 32]);
    deposit.deposits = vec![Deposit { to: [0xa; 32], amount: 1, timestamp: 0 }];
    deposit.p_deposits = vec![at(alice(0, 0), vec![])];
    assert_eq!(run(&deposit), failed);
}

#[test]
fn refusal_of_one_item_refuses_the_block() {
    let mut nonce = covered();
    nonce.txs[0].nonce = 5;
    assert_eq!(
        run(&nonce),
        Some(Err(StfError::InvalidNonce { expected: 4, got: 5 }))
    );
    let mut overflow = empty(alice(u64::MAX, 0).hash());
    overflow.deposits = vec![Deposit { to: [0xa; 32], amount: 1, timestamp: 0 }];
    overflow.p_deposits = vec![at(alice(u64::MAX, 0), vec![])];
    assert_eq!(run(&overflow), Some(Err(StfError::BalanceOverflow)));
}

#[test]
fn dummies_need_no_proof_and_keep_the_root() {
    let mut input = empty([7; 32]);
    input.forced = vec![dummy(), dummy()];
    let (root, _, forced_hash) = run(&input).unwrap().unwrap();
    assert_eq!(root, [7; 32]);
    assert_eq!(forced_hash, hash_forced_txs(&[dummy(), dummy()]));
}

#[test]
fn missing_proof_is_no_outcome() {
    let mut sender = covered();
    sender.p_txs_from = vec![];
    assert_eq!(run(&sender), None);
    let mut recipient = covered();
    recipient.p_txs_to = vec![];
    assert_eq!(run(&recipient), None);
    assert_eq!(run(&as_forced(recipient)), None);
    let mut deposit = empty([1; 32]);
    deposit.deposits = vec![Deposit { to: [0xa; 32], amount: 1, timestamp: 0 }];
    assert_eq!(run(&deposit), None);
}

#[test]
fn missing_proof_behind_a_refusal_does_not_matter() {
    let mut input = covered();
    input.txs[0].nonce = 9;
    input.p_txs_to = vec![];
    assert!(matches!(run(&input), Some(Err(StfError::InvalidNonce { .. }))));
}

#[test]
fn exhausted_nonce_is_no_outcome() {
    let sender = alice(1, u64::MAX);
    let mut input = empty(sender.hash());
    input.txs = vec![Transaction {
        from: [0xa; 32],
        to: [0xb; 32],
        nonce: u64::MAX,
        fee: 0,
        amount: 0,
    }];
    input.p_txs_from = vec![at(sender, vec![])];
    assert_eq!(run(&input), None);
    assert_eq!(run(&as_forced(input)), None);
}

fn public(input: &Input) -> Option<Result<Vec<u8>, StfError>> {
    StateTransitioner::public_values(
        input.root,
        &input.txs,
        &input.deposits,
        &input.forced,
        &input.p_deposits,
        &input.p_forced_from,
        &input.p_forced_to,
        &input.p_txs_from,
        &input.p_txs_to,
    )
}

#[test]
fn public_values_name_roots_and_commitments() {
    let mut input = covered();
    input.forced = vec![dummy()];
    let bytes = public(&input).unwrap().unwrap();
    assert_eq!(bytes.len(), 128);
    assert_eq!(
        PublicValues::abi_decode(&bytes),
        Some(PublicValues {
            pre_state_root: input.root,
            post_state_root: pair_root(alice(65, 5), bob(30, 0)),
            deposits_commitment: build_commitment(&hash_deposits(&[]), 0),
            forced_txs_commitment: build_commitment(&hash_forced_txs(&[dummy()]), 1),
        })
    );
}

#[test]
fn refused_block_makes_nothing_public() {
    let mut refused = covered();
    refused.txs[0].nonce = 5;
    assert!(matches!(public(&refused), Some(Err(StfError::InvalidNonce { .. }))));
    let mut stuck = covered();
    stuck.p_txs_from = vec![];
    assert!(public(&stuck).is_none());
}
