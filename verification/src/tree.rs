//! What the core reads from the state tree.
//!
//! The tree lives in a database. Code that needs it works on the answers that were read from there
//! so far, and stops with the question that it needs answered next.
use crate::bytes::{be_bytes, law_le_round_trip, le_value, lemma_u64_width};
use crate::error::{CoreError, CoreErrorView};
use crate::hash::{
    hash_of, lemma_hash_of, lemma_hash_of_bytes, same_hash, sha3_256, zero, zero_hash, Hash32,
};
use crate::merkle::{law_path_grows, path_root, MerkleProof, ProofView};
use crate::text::join;
use crate::types::Account;
use vstd::prelude::*;

verus! {

/// A question to the state tree.
#[derive(Debug, Clone, Copy, PartialEq, Eq)]
pub enum TreeQuery {
    /// The leaf at `key` under `root`.
    Leaf { root: Option<Hash32>, key: Hash32 },
    /// The path from `key` to `root`.
    Proof { root: Hash32, key: Hash32 },
}

/// The tree's answer on a leaf: the leaf, if there is one, or what the database said went wrong.
pub type LeafReply = Result<Option<Hash32>, String>;

/// The tree's answer on a path: for each node whether the sibling stands to the right, and the
/// sibling; or what the database said went wrong.
pub type ProofReply = Result<Option<Vec<(bool, Vec<u8>)>>, String>;

/// What a `LeafReply` says.
pub type LeafReplyView = Result<Option<Hash32>, Seq<char>>;

/// What a `ProofReply` says.
pub type ProofReplyView = Result<Option<Seq<(bool, Seq<u8>)>>, Seq<char>>;

/// What a path holds.
pub open spec fn path_view(path: Seq<(bool, Vec<u8>)>) -> Seq<(bool, Seq<u8>)> {
    path.map_values(|node: (bool, Vec<u8>)| (node.0, node.1@))
}

/// What an answer on a leaf says.
pub open spec fn leaf_reply_view(reply: LeafReply) -> LeafReplyView {
    match reply {
        Ok(leaf) => Ok(leaf),
        Err(message) => Err(message@),
    }
}

/// What an answer on a path says.
pub open spec fn proof_reply_view(reply: ProofReply) -> ProofReplyView {
    match reply {
        Ok(Some(path)) => Ok(Some(path_view(path@))),
        Ok(None) => Ok(None),
        Err(message) => Err(message@),
    }
}

struct LeafRead {
    root: Option<Hash32>,
    key: Hash32,
    reply: LeafReply,
}

struct ProofRead {
    root: Hash32,
    key: Hash32,
    reply: ProofReply,
}

/// The answers that were read from the tree. Of two answers to one question the later counts.
pub struct TreeReads {
    leaves: Vec<LeafRead>,
    proofs: Vec<ProofRead>,
}

/// What a `TreeReads` holds.
pub struct TreeView {
    pub leaves: Map<(Option<Hash32>, Hash32), LeafReplyView>,
    pub proofs: Map<(Hash32, Hash32), ProofReplyView>,
}

impl TreeView {
    /// The question has been answered.
    pub open spec fn answers(self, query: TreeQuery) -> bool {
        match query {
            TreeQuery::Leaf { root, key } => self.leaves.contains_key((root, key)),
            TreeQuery::Proof { root, key } => self.proofs.contains_key((root, key)),
        }
    }

    /// `more` holds every answer of `self`.
    pub open spec fn grows_to(self, more: TreeView) -> bool {
        &&& forall|q: (Option<Hash32>, Hash32)| #[trigger]
            self.leaves.contains_key(q) ==> more.leaves.contains_key(q) && more.leaves[q]
                == self.leaves[q]
        &&& forall|q: (Hash32, Hash32)| #[trigger]
            self.proofs.contains_key(q) ==> more.proofs.contains_key(q) && more.proofs[q]
                == self.proofs[q]
    }
}

spec fn leaf_map(reads: Seq<LeafRead>) -> Map<(Option<Hash32>, Hash32), LeafReplyView>
    decreases reads.len(),
{
    if reads.len() == 0 {
        Map::empty()
    } else {
        leaf_map(reads.drop_last()).insert(
            (reads.last().root, reads.last().key),
            leaf_reply_view(reads.last().reply),
        )
    }
}

spec fn proof_map(reads: Seq<ProofRead>) -> Map<(Hash32, Hash32), ProofReplyView>
    decreases reads.len(),
{
    if reads.len() == 0 {
        Map::empty()
    } else {
        proof_map(reads.drop_last()).insert(
            (reads.last().root, reads.last().key),
            proof_reply_view(reads.last().reply),
        )
    }
}

impl View for TreeReads {
    type V = TreeView;

    closed spec fn view(&self) -> TreeView {
        TreeView { leaves: leaf_map(self.leaves@), proofs: proof_map(self.proofs@) }
    }
}

/// Whether two roots are the same.
fn same_root(a: &Option<Hash32>, b: &Option<Hash32>) -> (same: bool)
    ensures
        same == (*a == *b),
{
    match (a, b) {
        (Some(x), Some(y)) => same_hash(x, y),
        (None, None) => true,
        _ => false,
    }
}

impl TreeReads {
    /// No answers yet.
    pub fn new() -> (reads: Self)
        ensures
            reads@.leaves == Map::<(Option<Hash32>, Hash32), LeafReplyView>::empty(),
            reads@.proofs == Map::<(Hash32, Hash32), ProofReplyView>::empty(),
    {
        TreeReads { leaves: Vec::new(), proofs: Vec::new() }
    }

    /// Takes down the answer on a leaf.
    pub fn record_leaf(&mut self, root: Option<Hash32>, key: Hash32, reply: LeafReply)
        ensures
            final(self)@.leaves == old(self)@.leaves.insert((root, key), leaf_reply_view(reply)),
            final(self)@.proofs == old(self)@.proofs,
    {
        self.leaves.push(LeafRead { root, key, reply });
        assert(self.leaves@.drop_last() =~= old(self).leaves@);
    }

    /// Takes down the answer on a path.
    pub fn record_proof(&mut self, root: Hash32, key: Hash32, reply: ProofReply)
        ensures
            final(self)@.leaves == old(self)@.leaves,
            final(self)@.proofs == old(self)@.proofs.insert((root, key), proof_reply_view(reply)),
    {
        self.proofs.push(ProofRead { root, key, reply });
        assert(self.proofs@.drop_last() =~= old(self).proofs@);
    }

    fn find_leaf(&self, root: &Option<Hash32>, key: &Hash32) -> (found: Option<&LeafReply>)
        ensures
            found is Some <==> self@.leaves.contains_key((*root, *key)),
            found matches Some(reply) ==> leaf_reply_view(*reply) == self@.leaves[(*root, *key)],
    {
        let mut i: usize = self.leaves.len();
        assert(self.leaves@.take(i as int) =~= self.leaves@);
        while i > 0
            invariant
                i <= self.leaves@.len(),
                leaf_map(self.leaves@.take(i as int)).contains_key((*root, *key))
                    <==> self@.leaves.contains_key((*root, *key)),
                self@.leaves.contains_key((*root, *key)) ==> leaf_map(self.leaves@.take(i as int))[(
                    *root,
                    *key,
                )] == self@.leaves[(*root, *key)],
            decreases i,
        {
            assert(self.leaves@.take(i as int).drop_last() =~= self.leaves@.take(i - 1));
            i = i - 1;
            let read: &LeafRead = &self.leaves[i];
            if same_root(&read.root, root) && same_hash(&read.key, key) {
                return Some(&read.reply);
            }
        }
        None
    }

    fn find_proof(&self, root: &Hash32, key: &Hash32) -> (found: Option<&ProofReply>)
        ensures
            found is Some <==> self@.proofs.contains_key((*root, *key)),
            found matches Some(reply) ==> proof_reply_view(*reply) == self@.proofs[(*root, *key)],
    {
        let mut i: usize = self.proofs.len();
        assert(self.proofs@.take(i as int) =~= self.proofs@);
        while i > 0
            invariant
                i <= self.proofs@.len(),
                proof_map(self.proofs@.take(i as int)).contains_key((*root, *key))
                    <==> self@.proofs.contains_key((*root, *key)),
                self@.proofs.contains_key((*root, *key)) ==> proof_map(
                    self.proofs@.take(i as int),
                )[(*root, *key)] == self@.proofs[(*root, *key)],
            decreases i,
        {
            assert(self.proofs@.take(i as int).drop_last() =~= self.proofs@.take(i - 1));
            i = i - 1;
            let read: &ProofRead = &self.proofs[i];
            if same_hash(&read.root, root) && same_hash(&read.key, key) {
                return Some(&read.reply);
            }
        }
        None
    }
}

/// Why the core stopped.
#[derive(Debug, Clone, PartialEq, Eq)]
pub enum Halt {
    /// The answer to this question is needed to go on.
    Unread(TreeQuery),
    /// The work failed.
    Failed(CoreError),
    /// The path of this key has a sibling that is not a hash. The caller has to abort.
    MalformedSibling(Hash32),
    /// The block does not lead to the root that it claims. The caller has to abort.
    RootMismatch { reached: Hash32, claimed: Hash32 },
}

/// What a `Halt` says.
pub enum HaltView {
    Unread(TreeQuery),
    Failed(CoreErrorView),
    MalformedSibling(Hash32),
    RootMismatch { reached: Hash32, claimed: Hash32 },
}

impl View for Halt {
    type V = HaltView;

    open spec fn view(&self) -> HaltView {
        match *self {
            Halt::Unread(query) => HaltView::Unread(query),
            Halt::Failed(e) => HaltView::Failed(e@),
            Halt::MalformedSibling(key) => HaltView::MalformedSibling(key),
            Halt::RootMismatch { reached, claimed } => HaltView::RootMismatch { reached, claimed },
        }
    }
}

/// The account that a leaf's bytes hold: address, balance and nonce, the numbers little-endian.
/// What follows them is ignored.
pub open spec fn decoded_account(bytes: Seq<u8>) -> Option<Account> {
    if bytes.len() < 48 {
        None
    } else {
        Some(
            Account {
                id: hash_of(bytes.take(32)),
                balance: le_value(bytes.subrange(32, 40)) as u64,
                nonce: le_value(bytes.subrange(40, 48)) as u64,
            },
        )
    }
}

/// `bincode::deserialize` on `([u8; 32], u64, u64)`: it fails on fewer than 48 bytes, and else
/// reads 32 bytes and two little-endian numbers; what follows them is ignored.
#[verifier::external_body]
fn decode_fields(bytes: &[u8]) -> (fields: Option<(Hash32, u64, u64)>)
    ensures
        fields is Some <==> bytes@.len() >= 48,
        fields matches Some(f) ==> f.0@ == bytes@.take(32) && f.1 == le_value(
            bytes@.subrange(32, 40),
        ) && f.2 == le_value(bytes@.subrange(40, 48)),
{
    bincode::deserialize::<([u8; 32], u64, u64)>(bytes).ok()
}

fn decode_account(bytes: &[u8]) -> (account: Option<Account>)
    ensures
        account == decoded_account(bytes@),
{
    match decode_fields(bytes) {
        Some((id, balance, nonce)) => {
            proof {
                lemma_hash_of(id);
            }
            Some(Account { id, balance, nonce })
        },
        None => None,
    }
}

/// The account at `key` under `root`, as far as the answers go.
pub open spec fn account_at(tree: TreeView, root: Option<Hash32>, key: Hash32) -> Result<
    Account,
    HaltView,
> {
    if root == Some(zero()) {
        Err(HaltView::Failed(CoreErrorView::AccountNotFound(key)))
    } else if !tree.leaves.contains_key((root, key)) {
        Err(HaltView::Unread(TreeQuery::Leaf { root, key }))
    } else {
        match tree.leaves[(root, key)] {
            Err(message) => Err(
                HaltView::Failed(
                    CoreErrorView::DatabaseError("get_account get_leaf err: "@ + message),
                ),
            ),
            Ok(None) => Err(HaltView::Failed(CoreErrorView::AccountNotFound(key))),
            Ok(Some(leaf)) => match decoded_account(leaf@) {
                Some(account) => Ok(account),
                None => Err(HaltView::Failed(CoreErrorView::AccountDataCorrupted(key))),
            },
        }
    }
}

/// The path of `key` under `root`, as far as the answers go.
pub open spec fn path_at(tree: TreeView, root: Hash32, key: Hash32) -> Result<
    Seq<(bool, Seq<u8>)>,
    HaltView,
> {
    if root == zero() {
        Err(HaltView::Failed(CoreErrorView::ProofNotFound(key)))
    } else if !tree.proofs.contains_key((root, key)) {
        Err(HaltView::Unread(TreeQuery::Proof { root, key }))
    } else {
        match tree.proofs[(root, key)] {
            Err(message) => Err(
                HaltView::Failed(
                    CoreErrorView::DatabaseError("get_proof get_merkle_proof err: "@ + message),
                ),
            ),
            Ok(None) => Err(HaltView::Failed(CoreErrorView::ProofNotFound(key))),
            Ok(Some(path)) => Ok(path),
        }
    }
}

/// A result says what `expected` says.
pub open spec fn agrees<T>(result: Result<T, Halt>, expected: Result<T, HaltView>) -> bool {
    match result {
        Ok(value) => expected == Ok::<T, HaltView>(value),
        Err(halt) => expected == Err::<T, HaltView>(halt@),
    }
}

/// The path of `key` under `root`. The empty state has none.
pub fn get_proof<'a>(tree: &'a TreeReads, root: &Hash32, key: &Hash32) -> (result: Result<
    &'a Vec<(bool, Vec<u8>)>,
    Halt,
>)
    ensures
        match result {
            Ok(path) => path_at(tree@, *root, *key) == Ok::<Seq<(bool, Seq<u8>)>, HaltView>(
                path_view(path@),
            ),
            Err(halt) => path_at(tree@, *root, *key) == Err::<Seq<(bool, Seq<u8>)>, HaltView>(
                halt@,
            ),
        },
{
    if same_hash(root, &zero_hash()) {
        return Err(Halt::Failed(CoreError::ProofNotFound(*key)));
    }
    match tree.find_proof(root, key) {
        None => Err(Halt::Unread(TreeQuery::Proof { root: *root, key: *key })),
        Some(Err(message)) => Err(
            Halt::Failed(
                CoreError::DatabaseError(
                    join("get_proof get_merkle_proof err: ", message.as_str()),
                ),
            ),
        ),
        Some(Ok(None)) => Err(Halt::Failed(CoreError::ProofNotFound(*key))),
        Some(Ok(Some(path))) => Ok(path),
    }
}

/// The account at `key` under `root`. The empty state has none.
pub fn get_account(tree: &TreeReads, root: Option<&Hash32>, key: &Hash32) -> (result: Result<
    Account,
    Halt,
>)
    ensures
        agrees(
            result,
            account_at(
                tree@,
                match root {
                    Some(r) => Some(*r),
                    None => None,
                },
                *key,
            ),
        ),
{
    let root: Option<Hash32> = match root {
        Some(r) => Some(*r),
        None => None,
    };
    if same_root(&root, &Some(zero_hash())) {
        return Err(Halt::Failed(CoreError::AccountNotFound(*key)));
    }
    match tree.find_leaf(&root, key) {
        None => Err(Halt::Unread(TreeQuery::Leaf { root, key: *key })),
        Some(Err(message)) => Err(
            Halt::Failed(
                CoreError::DatabaseError(join("get_account get_leaf err: ", message.as_str())),
            ),
        ),
        Some(Ok(None)) => Err(Halt::Failed(CoreError::AccountNotFound(*key))),
        Some(Ok(Some(leaf))) => match decode_account(leaf) {
            Some(account) => Ok(account),
            None => Err(Halt::Failed(CoreError::AccountDataCorrupted(*key))),
        },
    }
}

/// Every sibling of the path is a hash.
pub open spec fn siblings_are_hashes(path: Seq<(bool, Seq<u8>)>) -> bool {
    forall|i: int| 0 <= i < path.len() ==> (#[trigger] path[i]).1.len() == 32
}

/// The path with its siblings as hashes.
pub open spec fn hashed_path(path: Seq<(bool, Seq<u8>)>) -> Seq<(bool, Hash32)> {
    path.map_values(|node: (bool, Seq<u8>)| (node.0, hash_of(node.1)))
}

/// The proof of `key` under `root`, as far as the answers go. A key that the tree does not hold
/// gets a fresh account, and one without a path an empty path.
pub open spec fn proof_at(tree: TreeView, root: Hash32, key: Hash32) -> Result<
    ProofView,
    HaltView,
> {
    let account = match account_at(tree, Some(root), key) {
        Err(HaltView::Failed(CoreErrorView::AccountNotFound(_))) => Ok(Account::fresh(key)),
        other => other,
    };
    let path = match path_at(tree, root, key) {
        Err(HaltView::Failed(CoreErrorView::ProofNotFound(_))) => Ok(Seq::empty()),
        other => other,
    };
    match (account, path) {
        (Err(halt), _) => Err(halt),
        (_, Err(halt)) => Err(halt),
        (Ok(account), Ok(path)) => if siblings_are_hashes(path) {
            Ok(ProofView { account, siblings: hashed_path(path) })
        } else {
            Err(HaltView::MalformedSibling(key))
        },
    }
}

/// A result says what `expected` says.
pub open spec fn proof_agrees(
    result: Result<MerkleProof, Halt>,
    expected: Result<ProofView, HaltView>,
) -> bool {
    match result {
        Ok(proof) => expected == Ok::<ProofView, HaltView>(proof@),
        Err(halt) => expected == Err::<ProofView, HaltView>(halt@),
    }
}

fn to_hash(bytes: &Vec<u8>) -> (hash: Option<Hash32>)
    ensures
        hash is Some <==> bytes@.len() == 32,
        hash matches Some(h) ==> h == hash_of(bytes@),
{
    if bytes.len() != 32 {
        return None;
    }
    let mut hash: Hash32 = [0u8; 32];
    let mut i: usize = 0;
    while i < 32
        invariant
            i <= 32,
            bytes@.len() == 32,
            forall|j: int| 0 <= j < i ==> hash[j] == bytes@[j],
        decreases 32 - i,
    {
        hash[i] = bytes[i];
        i = i + 1;
    }
    proof {
        assert(hash@ =~= bytes@);
        lemma_hash_of(hash);
    }
    Some(hash)
}

fn to_siblings(path: &Vec<(bool, Vec<u8>)>) -> (siblings: Option<Vec<(bool, Hash32)>>)
    ensures
        siblings is Some <==> siblings_are_hashes(path_view(path@)),
        siblings matches Some(s) ==> s@ == hashed_path(path_view(path@)),
{
    let mut siblings: Vec<(bool, Hash32)> = Vec::new();
    let mut i: usize = 0;
    while i < path.len()
        invariant
            i <= path@.len(),
            siblings@.len() == i,
            forall|j: int| 0 <= j < i ==> (#[trigger] path_view(path@)[j]).1.len() == 32,
            forall|j: int| 0 <= j < i ==> #[trigger] siblings@[j] == hashed_path(path_view(path@))[j],
        decreases path@.len() - i,
    {
        let node: &(bool, Vec<u8>) = &path[i];
        assert(path_view(path@)[i as int].1 == node.1@);
        match to_hash(&node.1) {
            Some(hash) => {
                siblings.push((node.0, hash));
            },
            None => {
                return None;
            },
        }
        i = i + 1;
    }
    assert(siblings@ =~= hashed_path(path_view(path@)));
    Some(siblings)
}

/// The proof of `key` under `root`. A key that the tree does not hold gets a fresh account, and
/// one without a path an empty path.
pub fn build_stf_proof(tree: &TreeReads, root: &Hash32, key: &Hash32) -> (result: Result<
    MerkleProof,
    Halt,
>)
    ensures
        proof_agrees(result, proof_at(tree@, *root, *key)),
{
    let account: Account = match get_account(tree, Some(root), key) {
        Ok(account) => account,
        Err(Halt::Failed(CoreError::AccountNotFound(_))) => Account::new(*key),
        Err(halt) => return Err(halt),
    };
    let siblings: Vec<(bool, Hash32)> = match get_proof(tree, root, key) {
        Ok(path) => match to_siblings(path) {
            Some(siblings) => siblings,
            None => return Err(Halt::MalformedSibling(*key)),
        },
        Err(Halt::Failed(CoreError::ProofNotFound(_))) => Vec::new(),
        Err(halt) => return Err(halt),
    };
    assert(hashed_path(Seq::empty()) =~= Seq::empty());
    Ok(MerkleProof { account, siblings })
}

/// A leaf is a digest, which is shorter than an encoded account: no answer of the tree yields an
/// account.
pub proof fn law_no_account_from_a_leaf(tree: TreeView, root: Option<Hash32>, key: Hash32)
    ensures
        account_at(tree, root, key) is Err,
{
}

/// Every proof that is built holds a fresh account.
pub proof fn law_built_proofs_are_fresh(tree: TreeView, root: Hash32, key: Hash32)
    ensures
        proof_at(tree, root, key) matches Ok(proof) ==> proof.account == Account::fresh(key),
{
}

/// More answers do not change a result that did not wait for one.
pub proof fn law_more_answers_keep_proof(
    tree: TreeView,
    more: TreeView,
    root: Hash32,
    key: Hash32,
)
    requires
        tree.grows_to(more),
    ensures
        !(proof_at(tree, root, key) matches Err(HaltView::Unread(_))) ==> proof_at(more, root, key)
            == proof_at(tree, root, key),
        !(account_at(tree, Some(root), key) matches Err(HaltView::Unread(_))) ==> account_at(
            more,
            Some(root),
            key,
        ) == account_at(tree, Some(root), key),
{
}

/// What a result waits for has not been answered.
pub proof fn law_waits_for_the_unread(tree: TreeView, root: Hash32, key: Hash32)
    ensures
        proof_at(tree, root, key) matches Err(HaltView::Unread(query)) ==> !tree.answers(query),
        account_at(tree, Some(root), key) matches Err(HaltView::Unread(query)) ==> !tree.answers(
            query,
        ),
{
}

/// The root that the tree's own path leads to from a leaf: each node hashes what is below it with
/// the sibling's bytes, the sibling on its side.
pub open spec fn folded(leaf: Hash32, path: Seq<(bool, Seq<u8>)>) -> Hash32
    decreases path.len(),
{
    if path.len() == 0 {
        leaf
    } else {
        let below = folded(leaf, path.drop_last());
        let (is_right, sibling) = path.last();
        sha3_256(
            if is_right {
                below@ + sibling
            } else {
                sibling + below@
            },
        )
    }
}

/// A built proof has the siblings of the tree's path, each on its side and with its bytes, or none
/// where the tree has no path; and it leads from any leaf to the root that the tree's own path leads
/// to.
pub proof fn law_built_proof_is_the_trees_path(
    tree: TreeView,
    root: Hash32,
    key: Hash32,
    leaf: Hash32,
    i: int,
)
    ensures
        proof_at(tree, root, key) matches Ok(proof) ==> match path_at(tree, root, key) {
            Ok(path) => {
                &&& proof.siblings.len() == path.len()
                &&& 0 <= i < path.len() ==> proof.siblings[i].0 == path[i].0
                    && proof.siblings[i].1@ == path[i].1
                &&& path_root(leaf, proof.siblings) == folded(leaf, path)
            },
            Err(halt) => halt == HaltView::Failed(CoreErrorView::ProofNotFound(key))
                && proof.siblings.len() == 0,
        },
{
    if let Ok(proof) = proof_at(tree, root, key) {
        if let Ok(path) = path_at(tree, root, key) {
            assert forall|j: int| 0 <= j < path.len() implies (#[trigger] proof.siblings[j]).1@
                == path[j].1 by {
                lemma_hash_of_bytes(path[j].1);
            }
            lemma_folded(leaf, path, proof.siblings);
        }
    }
}

proof fn lemma_folded(leaf: Hash32, path: Seq<(bool, Seq<u8>)>, siblings: Seq<(bool, Hash32)>)
    requires
        siblings.len() == path.len(),
        forall|j: int|
            0 <= j < path.len() ==> (#[trigger] siblings[j]).0 == path[j].0 && siblings[j].1@
                == path[j].1,
    ensures
        path_root(leaf, siblings) == folded(leaf, path),
    decreases path.len(),
{
    if path.len() > 0 {
        lemma_folded(leaf, path.drop_last(), siblings.drop_last());
        let last = siblings[siblings.len() - 1];
        law_path_grows(leaf, siblings.drop_last(), last.0, last.1);
        assert(siblings.drop_last().push(last) =~= siblings);
    }
}

/// What the tree is asked for an account, and what its answer comes to: the empty state is not
/// asked; no leaf means no account; a leaf is no account; and a database error is passed on.
pub proof fn law_account_answers(tree: TreeView, root: Option<Hash32>, key: Hash32)
    ensures
        ({
            let found = account_at(tree, root, key);
            let asked = tree.leaves.contains_key((root, key));
            let answer = tree.leaves[(root, key)];
            &&& root == Some(zero()) ==> found == Err::<Account, HaltView>(
                HaltView::Failed(CoreErrorView::AccountNotFound(key)),
            )
            &&& root != Some(zero()) && !asked ==> found == Err::<Account, HaltView>(
                HaltView::Unread(TreeQuery::Leaf { root, key }),
            )
            &&& root != Some(zero()) && asked ==> match answer {
                Ok(None) => found == Err::<Account, HaltView>(
                    HaltView::Failed(CoreErrorView::AccountNotFound(key)),
                ),
                Ok(Some(_)) => found == Err::<Account, HaltView>(
                    HaltView::Failed(CoreErrorView::AccountDataCorrupted(key)),
                ),
                Err(message) => found == Err::<Account, HaltView>(
                    HaltView::Failed(
                        CoreErrorView::DatabaseError("get_account get_leaf err: "@ + message),
                    ),
                ),
            }
        }),
{
}

/// What the tree is asked for a path, and what its answer comes to.
pub proof fn law_path_answers(tree: TreeView, root: Hash32, key: Hash32)
    ensures
        ({
            let found = path_at(tree, root, key);
            let none = Err::<Seq<(bool, Seq<u8>)>, HaltView>(
                HaltView::Failed(CoreErrorView::ProofNotFound(key)),
            );
            &&& root == zero() ==> found == none
            &&& root != zero() && !tree.proofs.contains_key((root, key)) ==> found == Err::<
                Seq<(bool, Seq<u8>)>,
                HaltView,
            >(HaltView::Unread(TreeQuery::Proof { root, key }))
            &&& root != zero() && tree.proofs.contains_key((root, key)) ==> match tree.proofs[(
                root,
                key,
            )] {
                Ok(None) => found == none,
                Ok(Some(path)) => found == Ok::<Seq<(bool, Seq<u8>)>, HaltView>(path),
                Err(message) => found == Err::<Seq<(bool, Seq<u8>)>, HaltView>(
                    HaltView::Failed(
                        CoreErrorView::DatabaseError(
                            "get_proof get_merkle_proof err: "@ + message,
                        ),
                    ),
                ),
            }
        }),
{
}

/// A proof is built exactly where the account is missing or found, the path is missing or found, and
/// every sibling has 32 bytes. Else the work stops: at the account, then at the path, then at a
/// sibling.
pub proof fn law_proof_is_built_where_it_can_be(tree: TreeView, root: Hash32, key: Hash32)
    ensures
        ({
            let account = account_at(tree, Some(root), key);
            let path = path_at(tree, root, key);
            let built = proof_at(tree, root, key);
            let missing = HaltView::Failed(CoreErrorView::AccountNotFound(key));
            let pathless = HaltView::Failed(CoreErrorView::ProofNotFound(key));
            match account {
                Err(halt) if halt != missing => built == Err::<ProofView, HaltView>(halt),
                _ => match path {
                    Err(halt) => if halt == pathless {
                        built is Ok
                    } else {
                        built == Err::<ProofView, HaltView>(halt)
                    },
                    Ok(nodes) => {
                        &&& (forall|i: int| 0 <= i < nodes.len() ==> (#[trigger] nodes[i]).1.len()
                            == 32) ==> built is Ok
                        &&& (exists|i: int| 0 <= i < nodes.len() && (#[trigger] nodes[i]).1.len()
                            != 32) ==> built == Err::<ProofView, HaltView>(
                            HaltView::MalformedSibling(key),
                        )
                    },
                },
            }
        }),
{
}

/// Encoded bytes are an account exactly where there are 48 of them; they hold the address and then
/// the balance and the nonce, little-endian.
pub proof fn law_decoded_account_is_encoded(
    id: Hash32,
    balance: u64,
    nonce: u64,
    rest: Seq<u8>,
    short: Seq<u8>,
)
    requires
        short.len() < 48,
    ensures
        decoded_account(
            id@ + be_bytes(balance as nat, 8).reverse() + be_bytes(nonce as nat, 8).reverse()
                + rest,
        ) == Some(Account { id, balance, nonce }),
        decoded_account(short) is None,
{
    lemma_u64_width(balance);
    lemma_u64_width(nonce);
    law_le_round_trip(balance as nat, 8);
    law_le_round_trip(nonce as nat, 8);
    let b = be_bytes(balance as nat, 8).reverse();
    let n = be_bytes(nonce as nat, 8).reverse();
    let bytes = id@ + b + n + rest;
    assert(bytes.take(32) =~= id@);
    assert(bytes.subrange(32, 40) =~= b);
    assert(bytes.subrange(40, 48) =~= n);
    lemma_hash_of(id);
}

/// An answer says what its parts say, a path node by node.
pub proof fn law_reply_views(
    leaf: Option<Hash32>,
    path: Vec<(bool, Vec<u8>)>,
    message: String,
    i: int,
)
    ensures
        leaf_reply_view(Ok(leaf)) == Ok::<Option<Hash32>, Seq<char>>(leaf),
        leaf_reply_view(Err(message)) == Err::<Option<Hash32>, Seq<char>>(message@),
        proof_reply_view(Ok(None)) == Ok::<Option<Seq<(bool, Seq<u8>)>>, Seq<char>>(None),
        proof_reply_view(Err(message)) == Err::<Option<Seq<(bool, Seq<u8>)>>, Seq<char>>(message@),
        proof_reply_view(Ok(Some(path))) matches Ok(Some(nodes)) && nodes.len() == path@.len() && (0
            <= i < path@.len() ==> nodes[i].0 == path@[i].0 && nodes[i].1 == path@[i].1@),
        path_view(path@).len() == path@.len(),
        0 <= i < path@.len() ==> path_view(path@)[i].0 == path@[i].0 && path_view(path@)[i].1
            == path@[i].1@,
{
}

/// A stop says what it holds.
pub proof fn law_halt_view(query: TreeQuery, e: CoreError, key: Hash32, other: Hash32)
    ensures
        Halt::Unread(query)@ == HaltView::Unread(query),
        Halt::Failed(e)@ == HaltView::Failed(e@),
        Halt::MalformedSibling(key)@ == HaltView::MalformedSibling(key),
        (Halt::RootMismatch { reached: key, claimed: other })@ == (HaltView::RootMismatch {
            reached: key,
            claimed: other,
        }),
{
}

/// A result agrees with what is expected where both succeed with the same, or stop with the same.
pub proof fn law_agreement(
    account: Result<Account, Halt>,
    expected: Result<Account, HaltView>,
    proof: Result<MerkleProof, Halt>,
    expected_proof: Result<ProofView, HaltView>,
)
    ensures
        agrees(account, expected) ==> (account matches Ok(a) ==> expected == Ok::<
            Account,
            HaltView,
        >(a)) && (account matches Err(halt) ==> expected == Err::<Account, HaltView>(halt@)),
        proof_agrees(proof, expected_proof) ==> (proof matches Ok(p) ==> (expected_proof matches Ok(
            e,
        ) && p.account == e.account && p.siblings@ == e.siblings)) && (proof matches Err(halt)
            ==> expected_proof == Err::<ProofView, HaltView>(halt@)),
{
}

} // verus!
