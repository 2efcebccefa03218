use rollup::abi::{build_commitment, hash_deposits, hash_forced_txs, PublicValues};
use rollup::bytes::{fits_u64, u32_be, u64_be, u64_from_be};
use rollup::hash::{same_hash, zero_hash};
use rollup::merkle::{compute_new_root, MerkleProof};
use rollup::types::{Account, Deposit, ForcedTx};

fn hex(text: &str) -> [u8; 32] {
    let mut out = [0u8; 32];
    for i in 0..32 {
        out[i] = u8::from_str_radix(&text[2 * i..2 * i + 2], 16).unwrap();
    }
    out
}

fn account() -> Account {
    Account { id: [1; 32], balance: 5, nonce: 2 }
}

const LEAF: &str = "24349495350174bc40eef0ab65af85099ad41ff0ad9172a3f899281166b72080";
const EMPTY: &str = "c5d2460186f7233c927e7db2dcc703c0e500b653ca82273b7bfad8045d85a470";

#[test]
fn account_leaf_is_the_digest_of_nonce_address_and_balance() {
    assert_eq!(account().hash(), hex(LEAF));
}

#[test]
fn leaves_of_different_accounts_differ() {
    let base = account();
    assert_ne!(base.hash(), Account { nonce: 3, ..base }.hash());
    assert_ne!(base.hash(), Account { balance: 6, ..base }.hash());
    assert_ne!(base.hash(), Account { id: [2; 32], ..base }.hash());
}

#[test]
fn path_runs_from_the_leaf_upwards() {
    let none = MerkleProof { account: account(), siblings: vec![] };
    assert_eq!(compute_new_root(&none, hex(LEAF)), hex(LEAF));
    let right = MerkleProof { account: account(), siblings: vec![(true, [2; 32])] };
    assert_eq!(
        compute_new_root(&right, hex(LEAF)),
        hex("57451824d15ced70131e5b492dd1342e5022924627056f46b1b538551dcb098f")
    );
    let left = MerkleProof { account: account(), siblings: vec![(false, [2; 32])] };
    assert_eq!(
        compute_new_root(&left, hex(LEAF)),
        hex("b32cd22f0404bb7055b573d321d70a4660736db5028d6cdad83314b70375c94a")
    );
    let both = MerkleProof {
        account: account(),
        siblings: vec![(true, [2; 32]), (false, [3; 32])],
    };
    assert_eq!(
        compute_new_root(&both, hex(LEAF)),
        hex("699460cce4fcd3292d2cd65df0a5aa1078b0ad2e51acd6eaa8f77ff02c7b1be3")
    );
}

#[test]
fn path_can_be_cut_in_two() {
    let whole = MerkleProof {
        account: account(),
        siblings: vec![(true, [2; 32]), (false, [3; 32]), (true, [4; 32])],
    };
    let lower = MerkleProof { account: account(), siblings: vec![(true, [2; 32])] };
    let upper = MerkleProof {
        account: account(),
        siblings: vec![(false, [3; 32]), (true, [4; 32])],
    };
    let between = compute_new_root(&lower, account().hash());
    assert_eq!(compute_new_root(&upper, between), compute_new_root(&whole, account().hash()));
}

#[test]
fn proof_verifies_against_its_own_root_only() {
    let proof = MerkleProof {
        account: account(),
        siblings: vec![(true, [2; 32]), (false, [3; 32])],
    };
    let root = hex("699460cce4fcd3292d2cd65df0a5aa1078b0ad2e51acd6eaa8f77ff02c7b1be3");
    assert!(proof.verify(root));
    let mut other = root;
    other[31] ^= 1;
    assert!(!proof.verify(other));
    assert!(!proof.verify([0; 32]));
}

#[test]
fn updated_account_verifies_with_the_same_path() {
    let proof = MerkleProof { account: account(), siblings: vec![(false, [9; 32])] };
    let updated = Account { balance: 50, ..account() };
    let new_root = compute_new_root(&proof, updated.hash());
    assert!(!proof.verify(new_root));
    let moved = MerkleProof { account: updated, siblings: proof.siblings.clone() };
    assert!(moved.verify(new_root));
}

#[test]
fn no_deposits_have_the_empty_digest() {
    assert_eq!(hash_deposits(&[]), hex(EMPTY));
    assert_eq!(hash_forced_txs(&[]), hex(EMPTY));
}

fn first_deposit() -> Deposit {
    let mut to = [0u8; 32];
    for i in 0..20 {
        to[12 + i] = i as u8 + 1;
    }
    Deposit { to, amount: 1000, timestamp: 1700000000 }
}

#[test]
fn deposits_are_committed_to_as_the_bridge_does() {
    assert_eq!(
        hash_deposits(&[first_deposit()]),
        hex("77b5b24b532b900c7e80b35b6eefad87534eca00409c30296f5536b90f7e8e23")
    );
    let second = Deposit { to: [9; 32], amount: 7, timestamp: 8 };
    assert_eq!(
        hash_deposits(&[first_deposit(), second]),
        hex("3b48766e93fd67662fc4566ca13aca6f583acb4a4362064ff48f3d000f5358e7")
    );
}

#[test]
fn high_bytes_of_the_address_are_not_committed_to() {
    let mut other = first_deposit();
    other.to[0] = 0xff;
    assert_eq!(hash_deposits(&[other]), hash_deposits(&[first_deposit()]));
}

fn forced(data: Vec<u8>, timestamp: u64) -> ForcedTx {
    ForcedTx {
        from: [1; 32],
        to: [2; 32],
        nonce: 3,
        fee: 4,
        amount: 5,
        timestamp,
        l2_calldata: data,
    }
}

#[test]
fn forced_transactions_are_committed_to_as_the_bridge_does() {
    assert_eq!(
        hash_forced_txs(&[forced(vec![], 5)]),
        hex("f714dffe14e9be448ccd59b785f08255e16b776875caee23de9dded62d73d82c")
    );
    assert_eq!(
        hash_forced_txs(&[forced(vec![1, 2, 3], 5)]),
        hex("74db6a4da79461c49d65079077ca0bec392468c09bf12c877e1811a2c6849881")
    );
    assert_eq!(
        hash_forced_txs(&[forced(vec![7; 32], 5), forced(vec![1, 2, 3], 6)]),
        hex("6f4458a7e0209b73aa79cfece2354fdbe17c88f992c7163dda9b6022d0edb101")
    );
}

#[test]
fn only_payload_and_timestamp_are_committed_to() {
    let mut other = forced(vec![1, 2, 3], 5);
    other.from = [7; 32];
    other.amount = 99;
    assert_eq!(hash_forced_txs(&[other]), hash_forced_txs(&[forced(vec![1, 2, 3], 5)]));
}

#[test]
fn payloads_of_other_lengths_are_told_apart() {
    let short = hash_forced_txs(&[forced(vec![1, 2], 5)]);
    assert_ne!(short, hash_forced_txs(&[forced(vec![1, 2, 0], 5)]));
    assert_ne!(short, hash_forced_txs(&[forced(vec![1, 2], 6)]));
    let base = hash_deposits(&[first_deposit()]);
    assert_ne!(base, hash_deposits(&[Deposit { amount: 1001, ..first_deposit() }]));
    assert_ne!(base, hash_deposits(&[Deposit { timestamp: 1, ..first_deposit() }]));
}

#[test]
fn commitment_is_a_digest_with_a_count() {
    let mut digest = [0u8; 32];
    for i in 0..32 {
        digest[i] = i as u8;
    }
    let mut expected = digest;
    expected[28] = 0x01;
    expected[29] = 0x02;
    expected[30] = 0x03;
    expected[31] = 0x04;
    assert_eq!(build_commitment(&digest, 0x01020304), expected);
    assert_ne!(build_commitment(&digest, 1), build_commitment(&digest, 2));
    let mut other = digest;
    other[27] ^= 1;
    assert_ne!(build_commitment(&digest, 1), build_commitment(&other, 1));
    let mut tail = digest;
    tail[28] ^= 1;
    assert_eq!(build_commitment(&digest, 1), build_commitment(&tail, 1));
}

#[test]
fn public_values_are_read_back() {
    let values = PublicValues {
        pre_state_root: [1; 32],
        post_state_root: [2; 32],
        deposits_commitment: [3; 32],
        forced_txs_commitment: [4; 32],
    };
    let encoded = values.abi_encode();
    let mut expected = vec![1u8; 32];
    expected.extend_from_slice(&[2; 32]);
    expected.extend_from_slice(&[3; 32]);
    expected.extend_from_slice(&[4; 32]);
    assert_eq!(encoded, expected);
    assert_eq!(PublicValues::abi_decode(&encoded), Some(values));
}

#[test]
fn short_public_values_are_refused_and_long_ones_cut() {
    let values = PublicValues {
        pre_state_root: [1; 32],
        post_state_root: [2; 32],
        deposits_commitment: [3; 32],
        forced_txs_commitment: [4; 32],
    };
    let mut encoded = values.abi_encode();
    assert_eq!(PublicValues::abi_decode(&encoded[..127]), None);
    assert_eq!(PublicValues::abi_decode(&[]), None);
    encoded.push(9);
    assert_eq!(PublicValues::abi_decode(&encoded), Some(values));
    encoded.extend_from_slice(&[9; 31]);
    assert_eq!(PublicValues::abi_decode(&encoded), Some(values));
}

#[test]
fn numbers_are_big_endian() {
    assert_eq!(u64_be(0x0102030405060708), [1, 2, 3, 4, 5, 6, 7, 8]);
    assert_eq!(u64_from_be(&[1, 2, 3, 4, 5, 6, 7, 8]), 0x0102030405060708);
    assert_eq!(u64_from_be(&u64_be(u64::MAX)), u64::MAX);
    assert_eq!(u32_be(0x01020304), [1, 2, 3, 4]);
}

#[test]
fn numbers_of_the_base_layer_may_not_fit() {
    let mut word = [0u8; 32];
    for i in 24..32 {
        word[i] = 0xff;
    }
    assert!(fits_u64(&word));
    word[23] = 1;
    assert!(!fits_u64(&word));
    word[23] = 0;
    word[0] = 1;
    assert!(!fits_u64(&word));
}

#[test]
fn hashes_are_compared_in_full() {
    assert!(same_hash(&[3; 32], &[3; 32]));
    let mut other = [3; 32];
    other[31] = 4;
    assert!(!same_hash(&[3; 32], &other));
    assert_eq!(zero_hash(), [0; 32]);
}
