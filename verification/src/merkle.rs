//! Account leaves and the Merkle paths above them.
use crate::bytes::{
    be_bytes, be_value, law_be_bytes_of_value, law_be_round_trip, lemma_be_bytes_len,
    lemma_u64_width, u64_be,
};
use crate::hash::{lemma_same_bytes, same_hash, sha3_256, sha3_256_digest, Hash32};
use crate::types::Account;
use vstd::prelude::*;

verus! {

/// The bytes that an account's leaf is the digest of: nonce, address, balance.
pub open spec fn account_bytes(account: Account) -> Seq<u8> {
    be_bytes(account.nonce as nat, 8) + account.id@ + be_bytes(account.balance as nat, 8)
}

/// The leaf of an account.
pub open spec fn account_hash(account: Account) -> Hash32 {
    sha3_256(account_bytes(account))
}

/// The parent of two nodes.
pub open spec fn node_hash(left: Hash32, right: Hash32) -> Hash32 {
    sha3_256(left@ + right@)
}

/// The root that `leaf` has under the path `siblings`, which runs from the leaf upwards. An entry
/// holds whether the sibling stands to the right, and the sibling.
pub open spec fn path_root(leaf: Hash32, siblings: Seq<(bool, Hash32)>) -> Hash32
    decreases siblings.len(),
{
    if siblings.len() == 0 {
        leaf
    } else {
        let below = path_root(leaf, siblings.drop_last());
        let (is_right, sibling) = siblings.last();
        if is_right {
            node_hash(below, sibling)
        } else {
            node_hash(sibling, below)
        }
    }
}

impl Account {
    /// The account's leaf.
    pub fn hash(&self) -> (leaf: Hash32)
        ensures
            leaf == account_hash(*self),
    {
        let mut data: Vec<u8> = Vec::new();
        let nonce: [u8; 8] = u64_be(self.nonce);
        let balance: [u8; 8] = u64_be(self.balance);
        data.extend_from_slice(&nonce);
        data.extend_from_slice(&self.id);
        data.extend_from_slice(&balance);
        assert(data@ =~= account_bytes(*self));
        sha3_256_digest(data.as_slice())
    }
}

fn hash_nodes(left: &Hash32, right: &Hash32) -> (parent: Hash32)
    ensures
        parent == node_hash(*left, *right),
{
    let mut data: Vec<u8> = Vec::new();
    data.extend_from_slice(left);
    data.extend_from_slice(right);
    assert(data@ =~= left@ + right@);
    sha3_256_digest(data.as_slice())
}

/// An account with its path to the state root.
#[derive(Debug, Clone)]
pub struct MerkleProof {
    pub account: Account,
    pub siblings: Vec<(bool, Hash32)>,
}

/// What a `MerkleProof` holds.
pub struct ProofView {
    pub account: Account,
    pub siblings: Seq<(bool, Hash32)>,
}

impl ProofView {
    /// The root that the path leads to when the account at its foot is `account`.
    pub open spec fn root_with(self, account: Account) -> Hash32 {
        path_root(account_hash(account), self.siblings)
    }

    /// The account is in the state that `root` stands for.
    pub open spec fn verifies(self, root: Hash32) -> bool {
        self.root_with(self.account) == root
    }

    /// The proof of an account that no tree holds.
    pub open spec fn dummy(id: Hash32) -> ProofView {
        ProofView { account: Account::fresh(id), siblings: Seq::empty() }
    }
}

impl View for MerkleProof {
    type V = ProofView;

    open spec fn view(&self) -> ProofView {
        ProofView { account: self.account, siblings: self.siblings@ }
    }
}

/// The root that the proof's path leads to from `new_leaf_hash`.
pub fn compute_new_root(proof: &MerkleProof, new_leaf_hash: Hash32) -> (root: Hash32)
    ensures
        root == path_root(new_leaf_hash, proof@.siblings),
{
    let mut current_hash: Hash32 = new_leaf_hash;
    let mut i: usize = 0;
    assert(proof.siblings@.take(0).len() == 0);
    while i < proof.siblings.len()
        invariant
            i <= proof.siblings@.len(),
            current_hash == path_root(new_leaf_hash, proof.siblings@.take(i as int)),
        decreases proof.siblings@.len() - i,
    {
        let (is_right, sibling): (bool, Hash32) = proof.siblings[i];
        assert(proof.siblings@.take(i + 1).drop_last() =~= proof.siblings@.take(i as int));
        current_hash =
        if is_right {
            hash_nodes(&current_hash, &sibling)
        } else {
            hash_nodes(&sibling, &current_hash)
        };
        i = i + 1;
    }
    assert(proof.siblings@.take(i as int) =~= proof.siblings@);
    current_hash
}

impl MerkleProof {
    /// Whether the account is in the state that `expected_root` stands for.
    pub fn verify(&self, expected_root: Hash32) -> (valid: bool)
        ensures
            valid == self@.verifies(expected_root),
    {
        let root: Hash32 = compute_new_root(self, self.account.hash());
        same_hash(&root, &expected_root)
    }
}

/// A proof verifies against exactly the root that is computed from its own account's leaf.
pub proof fn law_verify_is_recompute(proof: ProofView, root: Hash32)
    ensures
        proof.verifies(root) <==> path_root(account_hash(proof.account), proof.siblings) == root,
{
}

/// After an account is updated, the same path proves the updated account against the new root.
pub proof fn law_updated_path_verifies(proof: ProofView, updated: Account)
    ensures
        (ProofView { account: updated, siblings: proof.siblings }).verifies(
            path_root(account_hash(updated), proof.siblings),
        ),
{
}

/// A path that is cut in two leads to the root of the upper part over the root of the lower part.
pub proof fn law_path_splits(leaf: Hash32, lower: Seq<(bool, Hash32)>, upper: Seq<(bool, Hash32)>)
    ensures
        path_root(leaf, lower + upper) == path_root(path_root(leaf, lower), upper),
    decreases upper.len(),
{
    if upper.len() == 0 {
        assert(lower + upper =~= lower);
    } else {
        law_path_splits(leaf, lower, upper.drop_last());
        assert((lower + upper).drop_last() =~= lower + upper.drop_last());
    }
}

/// The bytes under a leaf tell the account.
pub proof fn law_account_bytes_bind(a: Account, b: Account)
    requires
        account_bytes(a) == account_bytes(b),
    ensures
        a == b,
{
    lemma_be_bytes_len(a.nonce as nat, 8);
    lemma_be_bytes_len(b.nonce as nat, 8);
    lemma_be_bytes_len(a.balance as nat, 8);
    lemma_be_bytes_len(b.balance as nat, 8);
    assert(account_bytes(a).subrange(0, 8) =~= be_bytes(a.nonce as nat, 8));
    assert(account_bytes(b).subrange(0, 8) =~= be_bytes(b.nonce as nat, 8));
    assert(account_bytes(a).subrange(8, 40) =~= a.id@);
    assert(account_bytes(b).subrange(8, 40) =~= b.id@);
    assert(account_bytes(a).subrange(40, 48) =~= be_bytes(a.balance as nat, 8));
    assert(account_bytes(b).subrange(40, 48) =~= be_bytes(b.balance as nat, 8));
    lemma_same_bytes(a.id, b.id);
    lemma_u64_width(a.nonce);
    lemma_u64_width(b.nonce);
    lemma_u64_width(a.balance);
    lemma_u64_width(b.balance);
    law_be_round_trip(a.nonce as nat, 8);
    law_be_round_trip(b.nonce as nat, 8);
    law_be_round_trip(a.balance as nat, 8);
    law_be_round_trip(b.balance as nat, 8);
}

/// The leaf of an account is the digest of the 48 bytes that read as its nonce, its address and its
/// balance.
pub proof fn law_leaf_is_the_digest_of_the_fields(account: Account, bytes: Seq<u8>)
    requires
        bytes.len() == 48,
        be_value(bytes.subrange(0, 8)) == account.nonce,
        bytes.subrange(8, 40) == account.id@,
        be_value(bytes.subrange(40, 48)) == account.balance,
    ensures
        account_hash(account) == sha3_256(bytes),
{
    law_be_bytes_of_value(bytes.subrange(0, 8));
    law_be_bytes_of_value(bytes.subrange(40, 48));
    assert(bytes =~= bytes.subrange(0, 8) + bytes.subrange(8, 40) + bytes.subrange(40, 48));
}

/// A path without nodes leads to the leaf, and one node more hashes the root below it with the
/// sibling, each on its side.
pub proof fn law_path_grows(
    leaf: Hash32,
    siblings: Seq<(bool, Hash32)>,
    is_right: bool,
    sibling: Hash32,
)
    ensures
        path_root(leaf, Seq::empty()) == leaf,
        path_root(leaf, siblings.push((is_right, sibling))) == sha3_256(
            if is_right {
                path_root(leaf, siblings)@ + sibling@
            } else {
                sibling@ + path_root(leaf, siblings)@
            },
        ),
{
    assert(siblings.push((is_right, sibling)).drop_last() =~= siblings);
}

/// What a proof holds is what its fields hold, and its path leads where the account's leaf leads.
pub proof fn law_proof_view(proof: MerkleProof, account: Account)
    ensures
        proof@.account == proof.account,
        proof@.siblings == proof.siblings@,
        proof@.root_with(account) == path_root(account_hash(account), proof.siblings@),
{
}

/// A path leads to the root of the account at its foot, whatever else the proof says.
pub proof fn law_root_with_follows_the_path(proof: ProofView, account: Account)
    ensures
        proof.root_with(account) == path_root(account_hash(account), proof.siblings),
        ProofView::dummy(account.id).root_with(account) == account_hash(account),
        ProofView::dummy(account.id).account.id == account.id,
        ProofView::dummy(account.id).account.balance == 0,
        ProofView::dummy(account.id).account.nonce == 0,
        ProofView::dummy(account.id).siblings.len() == 0,
{
}

} // verus!
