//! The proofs that a block's transition is checked against.
use crate::error::{CoreError, CoreErrorView, StfErrorView};
use crate::hash::{same_hash, zero, zero_hash, Hash32};
use crate::merkle::{account_hash, compute_new_root, path_root, MerkleProof, ProofView};
use crate::stf::{
    apply_deposit, apply_forced_tx, apply_transaction, deposited, proof_views, run_deposits,
    run_forced, run_txs, transferred, Run, StfError, TransactionResult, Transition,
};
use crate::tree::{
    account_at, build_stf_proof, get_account, law_account_answers, law_built_proofs_are_fresh,
    law_more_answers_keep_proof, law_waits_for_the_unread, proof_at, Halt, HaltView, TreeQuery,
    TreeReads, TreeView,
};
use crate::types::{Account, Deposit, ForcedTx, PendingBlock, Transaction};
use vstd::prelude::*;

verus! {

/// The proofs for a block, in the order of its items.
#[derive(Debug, Clone)]
pub struct ProofBundle {
    pub proofs_deposits: Vec<MerkleProof>,
    pub proofs_forced_from: Vec<MerkleProof>,
    pub proofs_forced_to: Vec<MerkleProof>,
    pub proofs_txs_from: Vec<MerkleProof>,
    pub proofs_txs_to: Vec<MerkleProof>,
}

/// What a `ProofBundle` holds.
#[verifier::ext_equal]
pub struct BundleView {
    pub proofs_deposits: Seq<ProofView>,
    pub proofs_forced_from: Seq<ProofView>,
    pub proofs_forced_to: Seq<ProofView>,
    pub proofs_txs_from: Seq<ProofView>,
    pub proofs_txs_to: Seq<ProofView>,
}

impl View for ProofBundle {
    type V = BundleView;

    open spec fn view(&self) -> BundleView {
        BundleView {
            proofs_deposits: proof_views(self.proofs_deposits@),
            proofs_forced_from: proof_views(self.proofs_forced_from@),
            proofs_forced_to: proof_views(self.proofs_forced_to@),
            proofs_txs_from: proof_views(self.proofs_txs_from@),
            proofs_txs_to: proof_views(self.proofs_txs_to@),
        }
    }
}

/// The proof for a deposit, and the root after it. A deposit that would not fit is passed over.
pub open spec fn deposit_proof(tree: TreeView, root: Hash32, deposit: Deposit) -> Result<
    (Hash32, ProofView),
    HaltView,
> {
    match proof_at(tree, root, deposit.to) {
        Err(halt) => Err(halt),
        Ok(proof) => match deposited(proof.account, deposit.amount) {
            Ok(updated) => Ok((proof.root_with(updated), proof)),
            Err(_) => Ok((root, proof)),
        },
    }
}

/// The proofs of sender and recipient for a transfer, and the root after it. Where the transfer
/// goes through, the recipient is proven against the root that the sender's update leads to.
pub open spec fn transfer_proofs(
    tree: TreeView,
    root: Hash32,
    from: Hash32,
    to: Hash32,
    nonce: u64,
    amount: u64,
    fee: u64,
) -> Result<(Hash32, ProofView, ProofView), HaltView> {
    match (proof_at(tree, root, from), proof_at(tree, root, to)) {
        (Err(halt), _) => Err(halt),
        (_, Err(halt)) => Err(halt),
        (Ok(proof_from), Ok(proof_to)) => match transferred(
            proof_from.account,
            proof_to.account,
            nonce,
            amount,
            fee,
        ) {
            Err(e) => Err(HaltView::Failed(CoreErrorView::StfError(e@.debug_text()))),
            Ok(TransactionResult::Failure(updated_from)) => Ok(
                (proof_from.root_with(updated_from), proof_from, proof_to),
            ),
            Ok(TransactionResult::Success(updated_from, updated_to)) => match proof_at(
                tree,
                proof_from.root_with(updated_from),
                to,
            ) {
                Err(halt) => Err(halt),
                Ok(proof_after) => Ok((proof_after.root_with(updated_to), proof_from, proof_after)),
            },
        },
    }
}

/// The proofs for a forced transfer. A dummy gets dummy proofs and leaves the root.
pub open spec fn forced_proofs(tree: TreeView, root: Hash32, tx: ForcedTx) -> Result<
    (Hash32, ProofView, ProofView),
    HaltView,
> {
    if tx.from == zero() {
        Ok((root, ProofView::dummy(tx.from), ProofView::dummy(tx.to)))
    } else {
        transfer_proofs(tree, root, tx.from, tx.to, tx.nonce, tx.amount, tx.fee)
    }
}

/// The proofs for a transfer. One whose sender cannot be read gets dummy proofs and leaves the
/// root.
pub open spec fn tx_proofs(tree: TreeView, root: Hash32, tx: Transaction) -> Result<
    (Hash32, ProofView, ProofView),
    HaltView,
> {
    match account_at(tree, Some(root), tx.from) {
        Err(HaltView::Unread(query)) => Err(HaltView::Unread(query)),
        Err(_) => Ok((root, ProofView::dummy(tx.from), ProofView::dummy(tx.to))),
        Ok(_) => transfer_proofs(tree, root, tx.from, tx.to, tx.nonce, tx.amount, tx.fee),
    }
}

/// The proofs for the first `n` deposits, and the root after them.
pub open spec fn deposits_proofs(
    tree: TreeView,
    root: Hash32,
    deposits: Seq<Deposit>,
    n: nat,
) -> Result<(Hash32, Seq<ProofView>), HaltView>
    decreases n,
{
    if n == 0 {
        Ok((root, Seq::empty()))
    } else {
        match deposits_proofs(tree, root, deposits, (n - 1) as nat) {
            Err(halt) => Err(halt),
            Ok((before, proofs)) => match deposit_proof(tree, before, deposits[n - 1]) {
                Err(halt) => Err(halt),
                Ok((after, proof)) => Ok((after, proofs.push(proof))),
            },
        }
    }
}

/// The proofs for the first `n` forced transfers, and the root after them.
pub open spec fn all_forced_proofs(tree: TreeView, root: Hash32, txs: Seq<ForcedTx>, n: nat) -> Result<
    (Hash32, Seq<ProofView>, Seq<ProofView>),
    HaltView,
>
    decreases n,
{
    if n == 0 {
        Ok((root, Seq::empty(), Seq::empty()))
    } else {
        match all_forced_proofs(tree, root, txs, (n - 1) as nat) {
            Err(halt) => Err(halt),
            Ok((before, from, to)) => match forced_proofs(tree, before, txs[n - 1]) {
                Err(halt) => Err(halt),
                Ok((after, proof_from, proof_to)) => Ok(
                    (after, from.push(proof_from), to.push(proof_to)),
                ),
            },
        }
    }
}

/// The proofs for the first `n` transfers, and the root after them.
pub open spec fn all_tx_proofs(tree: TreeView, root: Hash32, txs: Seq<Transaction>, n: nat) -> Result<
    (Hash32, Seq<ProofView>, Seq<ProofView>),
    HaltView,
>
    decreases n,
{
    if n == 0 {
        Ok((root, Seq::empty(), Seq::empty()))
    } else {
        match all_tx_proofs(tree, root, txs, (n - 1) as nat) {
            Err(halt) => Err(halt),
            Ok((before, from, to)) => match tx_proofs(tree, before, txs[n - 1]) {
                Err(halt) => Err(halt),
                Ok((after, proof_from, proof_to)) => Ok(
                    (after, from.push(proof_from), to.push(proof_to)),
                ),
            },
        }
    }
}

/// The replay of a block: deposits, then forced transfers, then transfers, each from the root that
/// the one before leads to. Gives the root that the block leads to, and the proofs.
pub open spec fn replayed(tree: TreeView, block: PendingBlock) -> Result<
    (Hash32, BundleView),
    HaltView,
> {
    match deposits_proofs(tree, block.pre_state_root, block.deposits@, block.deposits@.len()) {
        Err(halt) => Err(halt),
        Ok((root, proofs_deposits)) => match all_forced_proofs(
            tree,
            root,
            block.forced_txs@,
            block.forced_txs@.len(),
        ) {
            Err(halt) => Err(halt),
            Ok((root, proofs_forced_from, proofs_forced_to)) => match all_tx_proofs(
                tree,
                root,
                block.txs@,
                block.txs@.len(),
            ) {
                Err(halt) => Err(halt),
                Ok((root, proofs_txs_from, proofs_txs_to)) => Ok(
                    (
                        root,
                        BundleView {
                            proofs_deposits,
                            proofs_forced_from,
                            proofs_forced_to,
                            proofs_txs_from,
                            proofs_txs_to,
                        },
                    ),
                ),
            },
        },
    }
}

/// The proofs for a block, which must lead to the root that it claims.
pub open spec fn block_proofs(tree: TreeView, block: PendingBlock) -> Result<BundleView, HaltView> {
    match replayed(tree, block) {
        Err(halt) => Err(halt),
        Ok((root, bundle)) => if root != block.post_state_root {
            Err(HaltView::RootMismatch { reached: root, claimed: block.post_state_root })
        } else {
            Ok(bundle)
        },
    }
}

/// The proofs for a block can be generated, or the block is refused: no sibling on the way is
/// malformed, and the block leads to the root that it claims.
pub open spec fn replays(tree: TreeView, block: PendingBlock) -> bool {
    match replayed(tree, block) {
        Ok((root, _)) => root == block.post_state_root,
        Err(HaltView::MalformedSibling(_)) => false,
        Err(_) => true,
    }
}

fn dummy_proof(id: Hash32) -> (proof: MerkleProof)
    ensures
        proof@ == ProofView::dummy(id),
{
    MerkleProof { account: Account::new(id), siblings: Vec::new() }
}

fn stf_halt(e: &StfError) -> (halt: Halt)
    ensures
        halt@ == HaltView::Failed(CoreErrorView::StfError(e@.debug_text())),
{
    Halt::Failed(CoreError::StfError(e.debug_text()))
}

fn prove_deposit(tree: &TreeReads, root: Hash32, deposit: &Deposit) -> (result: Result<
    (Hash32, MerkleProof),
    Halt,
>)
    ensures
        match result {
            Ok((after, proof)) => deposit_proof(tree@, root, *deposit) == Ok::<
                (Hash32, ProofView),
                HaltView,
            >((after, proof@)),
            Err(halt) => deposit_proof(tree@, root, *deposit) == Err::<
                (Hash32, ProofView),
                HaltView,
            >(halt@),
        },
{
    let proof: MerkleProof = match build_stf_proof(tree, &root, &deposit.to) {
        Ok(proof) => proof,
        Err(halt) => return Err(halt),
    };
    match apply_deposit(proof.account, deposit) {
        Ok(updated) => {
            let after: Hash32 = compute_new_root(&proof, updated.hash());
            Ok((after, proof))
        },
        Err(_) => Ok((root, proof)),
    }
}

/// The proofs after a transfer between two proven accounts was worked out.
fn settle(
    tree: &TreeReads,
    to: &Hash32,
    proof_from: MerkleProof,
    proof_to: MerkleProof,
    outcome: Result<TransactionResult, StfError>,
) -> (result: Result<(Hash32, MerkleProof, MerkleProof), Halt>)
    ensures
        match outcome {
            Err(e) => result matches Err(halt) && halt@ == HaltView::Failed(
                CoreErrorView::StfError(e@.debug_text()),
            ),
            Ok(TransactionResult::Failure(updated_from)) => result matches Ok((after, from, to))
                && after == proof_from@.root_with(updated_from) && from@ == proof_from@ && to@
                == proof_to@,
            Ok(TransactionResult::Success(updated_from, updated_to)) => match proof_at(
                tree@,
                proof_from@.root_with(updated_from),
                *to,
            ) {
                Err(halt_view) => result matches Err(halt) && halt@ == halt_view,
                Ok(proof_after) => result matches Ok((after, from, to)) && after
                    == proof_after.root_with(updated_to) && from@ == proof_from@ && to@
                    == proof_after,
            },
        },
{
    match outcome {
        Err(e) => Err(stf_halt(&e)),
        Ok(TransactionResult::Failure(updated_from)) => {
            let after: Hash32 = compute_new_root(&proof_from, updated_from.hash());
            Ok((after, proof_from, proof_to))
        },
        Ok(TransactionResult::Success(updated_from, updated_to)) => {
            let between: Hash32 = compute_new_root(&proof_from, updated_from.hash());
            match build_stf_proof(tree, &between, to) {
                Err(halt) => Err(halt),
                Ok(proof_after) => {
                    let after: Hash32 = compute_new_root(&proof_after, updated_to.hash());
                    Ok((after, proof_from, proof_after))
                },
            }
        },
    }
}

/// A pair of proofs says what `expected` says.
pub open spec fn pair_agrees(
    result: Result<(Hash32, MerkleProof, MerkleProof), Halt>,
    expected: Result<(Hash32, ProofView, ProofView), HaltView>,
) -> bool {
    match result {
        Ok((after, from, to)) => expected == Ok::<(Hash32, ProofView, ProofView), HaltView>(
            (after, from@, to@),
        ),
        Err(halt) => expected == Err::<(Hash32, ProofView, ProofView), HaltView>(halt@),
    }
}

fn prove_forced(tree: &TreeReads, root: Hash32, tx: &ForcedTx) -> (result: Result<
    (Hash32, MerkleProof, MerkleProof),
    Halt,
>)
    ensures
        pair_agrees(result, forced_proofs(tree@, root, *tx)),
{
    if same_hash(&tx.from, &zero_hash()) {
        return Ok((root, dummy_proof(tx.from), dummy_proof(tx.to)));
    }
    let proof_from: MerkleProof = match build_stf_proof(tree, &root, &tx.from) {
        Ok(proof) => proof,
        Err(halt) => return Err(halt),
    };
    let proof_to: MerkleProof = match build_stf_proof(tree, &root, &tx.to) {
        Ok(proof) => proof,
        Err(halt) => return Err(halt),
    };
    proof {
        law_built_proofs_are_fresh(tree@, root, tx.from);
    }
    let outcome: Result<TransactionResult, StfError> = apply_forced_tx(
        proof_from.account,
        proof_to.account,
        tx,
    );
    settle(tree, &tx.to, proof_from, proof_to, outcome)
}

fn prove_tx(tree: &TreeReads, root: Hash32, tx: &Transaction) -> (result: Result<
    (Hash32, MerkleProof, MerkleProof),
    Halt,
>)
    ensures
        pair_agrees(result, tx_proofs(tree@, root, *tx)),
{
    match get_account(tree, Some(&root), &tx.from) {
        Err(Halt::Unread(query)) => return Err(Halt::Unread(query)),
        Err(_) => return Ok((root, dummy_proof(tx.from), dummy_proof(tx.to))),
        Ok(_) => {},
    }
    let proof_from: MerkleProof = match build_stf_proof(tree, &root, &tx.from) {
        Ok(proof) => proof,
        Err(halt) => return Err(halt),
    };
    let proof_to: MerkleProof = match build_stf_proof(tree, &root, &tx.to) {
        Ok(proof) => proof,
        Err(halt) => return Err(halt),
    };
    proof {
        law_built_proofs_are_fresh(tree@, root, tx.from);
    }
    let outcome: Result<TransactionResult, StfError> = apply_transaction(
        proof_from.account,
        proof_to.account,
        tx,
    );
    settle(tree, &tx.to, proof_from, proof_to, outcome)
}

proof fn lemma_push_view(proofs: Seq<MerkleProof>, proof: MerkleProof)
    ensures
        proof_views(proofs.push(proof)) == proof_views(proofs).push(proof@),
{
    assert(proof_views(proofs.push(proof)) =~= proof_views(proofs).push(proof@));
}

proof fn lemma_deposits_halt(tree: TreeView, root: Hash32, deposits: Seq<Deposit>, i: nat, n: nat)
    requires
        i <= n,
        deposits_proofs(tree, root, deposits, i) is Err,
    ensures
        deposits_proofs(tree, root, deposits, n) == deposits_proofs(tree, root, deposits, i),
    decreases n,
{
    if i < n {
        lemma_deposits_halt(tree, root, deposits, i, (n - 1) as nat);
    }
}

proof fn lemma_forced_halt(tree: TreeView, root: Hash32, txs: Seq<ForcedTx>, i: nat, n: nat)
    requires
        i <= n,
        all_forced_proofs(tree, root, txs, i) is Err,
    ensures
        all_forced_proofs(tree, root, txs, n) == all_forced_proofs(tree, root, txs, i),
    decreases n,
{
    if i < n {
        lemma_forced_halt(tree, root, txs, i, (n - 1) as nat);
    }
}

proof fn lemma_txs_halt(tree: TreeView, root: Hash32, txs: Seq<Transaction>, i: nat, n: nat)
    requires
        i <= n,
        all_tx_proofs(tree, root, txs, i) is Err,
    ensures
        all_tx_proofs(tree, root, txs, n) == all_tx_proofs(tree, root, txs, i),
    decreases n,
{
    if i < n {
        lemma_txs_halt(tree, root, txs, i, (n - 1) as nat);
    }
}

fn prove_deposits(tree: &TreeReads, root: Hash32, deposits: &Vec<Deposit>) -> (result: Result<
    (Hash32, Vec<MerkleProof>),
    Halt,
>)
    ensures
        match result {
            Ok((after, proofs)) => deposits_proofs(tree@, root, deposits@, deposits@.len()) == Ok::<
                (Hash32, Seq<ProofView>),
                HaltView,
            >((after, proof_views(proofs@))),
            Err(halt) => deposits_proofs(tree@, root, deposits@, deposits@.len()) == Err::<
                (Hash32, Seq<ProofView>),
                HaltView,
            >(halt@),
        },
{
    let mut current_root: Hash32 = root;
    let mut proofs: Vec<MerkleProof> = Vec::new();
    let mut i: usize = 0;
    assert(proof_views(proofs@) =~= Seq::empty());
    while i < deposits.len()
        invariant
            i <= deposits@.len(),
            deposits_proofs(tree@, root, deposits@, i as nat) == Ok::<
                (Hash32, Seq<ProofView>),
                HaltView,
            >((current_root, proof_views(proofs@))),
        decreases deposits@.len() - i,
    {
        match prove_deposit(tree, current_root, &deposits[i]) {
            Ok((after, proof)) => {
                proof {
                    lemma_push_view(proofs@, proof);
                }
                current_root = after;
                proofs.push(proof);
            },
            Err(halt) => {
                proof {
                    lemma_deposits_halt(
                        tree@,
                        root,
                        deposits@,
                        (i + 1) as nat,
                        deposits@.len(),
                    );
                }
                return Err(halt);
            },
        }
        i = i + 1;
    }
    Ok((current_root, proofs))
}

/// Two lists of proofs say what `expected` says.
pub open spec fn lists_agree(
    result: Result<(Hash32, Vec<MerkleProof>, Vec<MerkleProof>), Halt>,
    expected: Result<(Hash32, Seq<ProofView>, Seq<ProofView>), HaltView>,
) -> bool {
    match result {
        Ok((after, from, to)) => expected == Ok::<
            (Hash32, Seq<ProofView>, Seq<ProofView>),
            HaltView,
        >((after, proof_views(from@), proof_views(to@))),
        Err(halt) => expected == Err::<(Hash32, Seq<ProofView>, Seq<ProofView>), HaltView>(
            halt@,
        ),
    }
}

fn prove_all_forced(tree: &TreeReads, root: Hash32, txs: &Vec<ForcedTx>) -> (result: Result<
    (Hash32, Vec<MerkleProof>, Vec<MerkleProof>),
    Halt,
>)
    ensures
        lists_agree(result, all_forced_proofs(tree@, root, txs@, txs@.len())),
{
    let mut current_root: Hash32 = root;
    let mut proofs_from: Vec<MerkleProof> = Vec::new();
    let mut proofs_to: Vec<MerkleProof> = Vec::new();
    let mut i: usize = 0;
    assert(proof_views(proofs_from@) =~= Seq::empty());
    while i < txs.len()
        invariant
            i <= txs@.len(),
            all_forced_proofs(tree@, root, txs@, i as nat) == Ok::<
                (Hash32, Seq<ProofView>, Seq<ProofView>),
                HaltView,
            >((current_root, proof_views(proofs_from@), proof_views(proofs_to@))),
        decreases txs@.len() - i,
    {
        match prove_forced(tree, current_root, &txs[i]) {
            Ok((after, proof_from, proof_to)) => {
                proof {
                    lemma_push_view(proofs_from@, proof_from);
                    lemma_push_view(proofs_to@, proof_to);
                }
                current_root = after;
                proofs_from.push(proof_from);
                proofs_to.push(proof_to);
            },
            Err(halt) => {
                proof {
                    lemma_forced_halt(tree@, root, txs@, (i + 1) as nat, txs@.len());
                }
                return Err(halt);
            },
        }
        i = i + 1;
    }
    Ok((current_root, proofs_from, proofs_to))
}

fn prove_all_txs(tree: &TreeReads, root: Hash32, txs: &Vec<Transaction>) -> (result: Result<
    (Hash32, Vec<MerkleProof>, Vec<MerkleProof>),
    Halt,
>)
    ensures
        lists_agree(result, all_tx_proofs(tree@, root, txs@, txs@.len())),
{
    let mut current_root: Hash32 = root;
    let mut proofs_from: Vec<MerkleProof> = Vec::new();
    let mut proofs_to: Vec<MerkleProof> = Vec::new();
    let mut i: usize = 0;
    assert(proof_views(proofs_from@) =~= Seq::empty());
    while i < txs.len()
        invariant
            i <= txs@.len(),
            all_tx_proofs(tree@, root, txs@, i as nat) == Ok::<
                (Hash32, Seq<ProofView>, Seq<ProofView>),
                HaltView,
            >((current_root, proof_views(proofs_from@), proof_views(proofs_to@))),
        decreases txs@.len() - i,
    {
        match prove_tx(tree, current_root, &txs[i]) {
            Ok((after, proof_from, proof_to)) => {
                proof {
                    lemma_push_view(proofs_from@, proof_from);
                    lemma_push_view(proofs_to@, proof_to);
                }
                current_root = after;
                proofs_from.push(proof_from);
                proofs_to.push(proof_to);
            },
            Err(halt) => {
                proof {
                    lemma_txs_halt(tree@, root, txs@, (i + 1) as nat, txs@.len());
                }
                return Err(halt);
            },
        }
        i = i + 1;
    }
    Ok((current_root, proofs_from, proofs_to))
}

fn replay_block(tree: &TreeReads, block: &PendingBlock) -> (result: Result<
    (Hash32, ProofBundle),
    Halt,
>)
    ensures
        match result {
            Ok((reached, bundle)) => replayed(tree@, *block) == Ok::<
                (Hash32, BundleView),
                HaltView,
            >((reached, bundle@)),
            Err(halt) => replayed(tree@, *block) == Err::<(Hash32, BundleView), HaltView>(halt@),
        },
{
    let (after_deposits, proofs_deposits): (Hash32, Vec<MerkleProof>) = match prove_deposits(
        tree,
        block.pre_state_root,
        &block.deposits,
    ) {
        Ok(proven) => proven,
        Err(halt) => return Err(halt),
    };
    let (after_forced, proofs_forced_from, proofs_forced_to): (
        Hash32,
        Vec<MerkleProof>,
        Vec<MerkleProof>,
    ) = match prove_all_forced(tree, after_deposits, &block.forced_txs) {
        Ok(proven) => proven,
        Err(halt) => return Err(halt),
    };
    let (reached, proofs_txs_from, proofs_txs_to): (Hash32, Vec<MerkleProof>, Vec<MerkleProof>) =
        match prove_all_txs(tree, after_forced, &block.txs) {
        Ok(proven) => proven,
        Err(halt) => return Err(halt),
    };
    Ok(
        (
            reached,
            ProofBundle {
                proofs_deposits,
                proofs_forced_from,
                proofs_forced_to,
                proofs_txs_from,
                proofs_txs_to,
            },
        ),
    )
}

/// The proofs for a block, from the answers that were read from the tree. The block leads to the
/// root that it claims.
pub fn generate_proofs_for_block(tree: &TreeReads, block: &PendingBlock) -> (result: Result<
    ProofBundle,
    Halt,
>)
    requires
        replays(tree@, *block),
    ensures
        match result {
            Ok(bundle) => replayed(tree@, *block) == Ok::<(Hash32, BundleView), HaltView>(
                (block.post_state_root, bundle@),
            ),
            Err(halt) => replayed(tree@, *block) == Err::<(Hash32, BundleView), HaltView>(halt@),
        },
{
    match replay_block(tree, block) {
        Ok((_, bundle)) => Ok(bundle),
        Err(halt) => Err(halt),
    }
}

/// As `generate_proofs_for_block`, on any input: it stops at a malformed sibling, and where the
/// block leads to another root than it claims.
pub fn try_proofs_for_block(tree: &TreeReads, block: &PendingBlock) -> (result: Result<
    ProofBundle,
    Halt,
>)
    ensures
        match result {
            Ok(bundle) => block_proofs(tree@, *block) == Ok::<BundleView, HaltView>(bundle@),
            Err(halt) => block_proofs(tree@, *block) == Err::<BundleView, HaltView>(halt@),
        },
{
    match replay_block(tree, block) {
        Ok((reached, bundle)) => if same_hash(&reached, &block.post_state_root) {
            Ok(bundle)
        } else {
            Err(Halt::RootMismatch { reached, claimed: block.post_state_root })
        },
        Err(halt) => Err(halt),
    }
}

proof fn lemma_transfer_more(
    tree: TreeView,
    more: TreeView,
    root: Hash32,
    from: Hash32,
    to: Hash32,
    nonce: u64,
    amount: u64,
    fee: u64,
)
    requires
        tree.grows_to(more),
    ensures
        !(transfer_proofs(tree, root, from, to, nonce, amount, fee) matches Err(
            HaltView::Unread(_),
        )) ==> transfer_proofs(more, root, from, to, nonce, amount, fee) == transfer_proofs(
            tree,
            root,
            from,
            to,
            nonce,
            amount,
            fee,
        ),
        transfer_proofs(tree, root, from, to, nonce, amount, fee) matches Err(
            HaltView::Unread(query),
        ) ==> !tree.answers(query),
{
    law_more_answers_keep_proof(tree, more, root, from);
    law_more_answers_keep_proof(tree, more, root, to);
    law_waits_for_the_unread(tree, root, from);
    law_waits_for_the_unread(tree, root, to);
    if let Ok(proof_from) = proof_at(tree, root, from) {
        if let Ok(proof_to) = proof_at(tree, root, to) {
            if let Ok(TransactionResult::Success(updated_from, _)) = transferred(
                proof_from.account,
                proof_to.account,
                nonce,
                amount,
                fee,
            ) {
                law_more_answers_keep_proof(tree, more, proof_from.root_with(updated_from), to);
                law_waits_for_the_unread(tree, proof_from.root_with(updated_from), to);
            }
        }
    }
}

proof fn lemma_deposits_more(
    tree: TreeView,
    more: TreeView,
    root: Hash32,
    deposits: Seq<Deposit>,
    n: nat,
)
    requires
        tree.grows_to(more),
    ensures
        !(deposits_proofs(tree, root, deposits, n) matches Err(HaltView::Unread(_)))
            ==> deposits_proofs(more, root, deposits, n) == deposits_proofs(
            tree,
            root,
            deposits,
            n,
        ),
        deposits_proofs(tree, root, deposits, n) matches Err(HaltView::Unread(query))
            ==> !tree.answers(query),
    decreases n,
{
    if n > 0 {
        lemma_deposits_more(tree, more, root, deposits, (n - 1) as nat);
        if let Ok((before, _)) = deposits_proofs(tree, root, deposits, (n - 1) as nat) {
            law_more_answers_keep_proof(tree, more, before, deposits[n - 1].to);
            law_waits_for_the_unread(tree, before, deposits[n - 1].to);
        }
    }
}

proof fn lemma_forced_more(
    tree: TreeView,
    more: TreeView,
    root: Hash32,
    txs: Seq<ForcedTx>,
    n: nat,
)
    requires
        tree.grows_to(more),
    ensures
        !(all_forced_proofs(tree, root, txs, n) matches Err(HaltView::Unread(_)))
            ==> all_forced_proofs(more, root, txs, n) == all_forced_proofs(tree, root, txs, n),
        all_forced_proofs(tree, root, txs, n) matches Err(HaltView::Unread(query))
            ==> !tree.answers(query),
    decreases n,
{
    if n > 0 {
        lemma_forced_more(tree, more, root, txs, (n - 1) as nat);
        if let Ok((before, _, _)) = all_forced_proofs(tree, root, txs, (n - 1) as nat) {
            let tx = txs[n - 1];
            lemma_transfer_more(
                tree,
                more,
                before,
                tx.from,
                tx.to,
                tx.nonce,
                tx.amount,
                tx.fee,
            );
        }
    }
}

proof fn lemma_txs_more(
    tree: TreeView,
    more: TreeView,
    root: Hash32,
    txs: Seq<Transaction>,
    n: nat,
)
    requires
        tree.grows_to(more),
    ensures
        !(all_tx_proofs(tree, root, txs, n) matches Err(HaltView::Unread(_))) ==> all_tx_proofs(
            more,
            root,
            txs,
            n,
        ) == all_tx_proofs(tree, root, txs, n),
        all_tx_proofs(tree, root, txs, n) matches Err(HaltView::Unread(query)) ==> !tree.answers(
            query,
        ),
    decreases n,
{
    if n > 0 {
        lemma_txs_more(tree, more, root, txs, (n - 1) as nat);
        if let Ok((before, _, _)) = all_tx_proofs(tree, root, txs, (n - 1) as nat) {
            let tx = txs[n - 1];
            law_more_answers_keep_proof(tree, more, before, tx.from);
            law_waits_for_the_unread(tree, before, tx.from);
            lemma_transfer_more(
                tree,
                more,
                before,
                tx.from,
                tx.to,
                tx.nonce,
                tx.amount,
                tx.fee,
            );
        }
    }
}

/// Once the work on a block no longer waits for an answer, it comes out as it would from every
/// answer that the tree can give.
pub proof fn law_more_answers_keep_block(tree: TreeView, more: TreeView, block: PendingBlock)
    requires
        tree.grows_to(more),
    ensures
        !(block_proofs(tree, block) matches Err(HaltView::Unread(_))) ==> block_proofs(more, block)
            == block_proofs(tree, block),
{
    lemma_block_more(tree, more, block);
}

/// The work on a block only asks what has not been answered.
pub proof fn law_block_waits_for_the_unread(tree: TreeView, block: PendingBlock)
    ensures
        block_proofs(tree, block) matches Err(HaltView::Unread(query)) ==> !tree.answers(query),
{
    lemma_block_more(tree, tree, block);
}

proof fn lemma_block_more(tree: TreeView, more: TreeView, block: PendingBlock)
    requires
        tree.grows_to(more),
    ensures
        !(block_proofs(tree, block) matches Err(HaltView::Unread(_))) ==> block_proofs(more, block)
            == block_proofs(tree, block),
        block_proofs(tree, block) matches Err(HaltView::Unread(query)) ==> !tree.answers(query),
{
    let pre = block.pre_state_root;
    lemma_deposits_more(tree, more, pre, block.deposits@, block.deposits@.len());
    if let Ok((root, _)) = deposits_proofs(tree, pre, block.deposits@, block.deposits@.len()) {
        lemma_forced_more(tree, more, root, block.forced_txs@, block.forced_txs@.len());
        if let Ok((root, _, _)) = all_forced_proofs(
            tree,
            root,
            block.forced_txs@,
            block.forced_txs@.len(),
        ) {
            lemma_txs_more(tree, more, root, block.txs@, block.txs@.len());
        }
    }
}

/// The proof holds a fresh account.
pub open spec fn is_fresh(proof: ProofView) -> bool {
    proof.account == Account::fresh(proof.account.id)
}

/// Every proof of a list holds a fresh account.
pub open spec fn all_fresh(proofs: Seq<ProofView>) -> bool {
    forall|i: int| 0 <= i < proofs.len() ==> is_fresh(#[trigger] proofs[i])
}

proof fn lemma_transfer_shape(
    tree: TreeView,
    root: Hash32,
    from: Hash32,
    to: Hash32,
    nonce: u64,
    amount: u64,
    fee: u64,
)
    ensures
        transfer_proofs(tree, root, from, to, nonce, amount, fee) matches Ok((_, f, t)) ==> f.account
            == Account::fresh(from) && t.account == Account::fresh(to),
{
    law_built_proofs_are_fresh(tree, root, from);
    law_built_proofs_are_fresh(tree, root, to);
}

proof fn lemma_deposits_shape(tree: TreeView, root: Hash32, deposits: Seq<Deposit>, n: nat)
    ensures
        deposits_proofs(tree, root, deposits, n) matches Ok((_, proofs)) ==> proofs.len() == n
            && all_fresh(proofs),
    decreases n,
{
    if n > 0 {
        lemma_deposits_shape(tree, root, deposits, (n - 1) as nat);
        if let Ok((before, _)) = deposits_proofs(tree, root, deposits, (n - 1) as nat) {
            law_built_proofs_are_fresh(tree, before, deposits[n - 1].to);
        }
    }
}

proof fn lemma_forced_shape(tree: TreeView, root: Hash32, txs: Seq<ForcedTx>, n: nat)
    ensures
        all_forced_proofs(tree, root, txs, n) matches Ok((_, from, to)) ==> from.len() == n
            && to.len() == n && all_fresh(from) && all_fresh(to),
    decreases n,
{
    if n > 0 {
        lemma_forced_shape(tree, root, txs, (n - 1) as nat);
        if let Ok((before, _, _)) = all_forced_proofs(tree, root, txs, (n - 1) as nat) {
            let tx = txs[n - 1];
            lemma_transfer_shape(tree, before, tx.from, tx.to, tx.nonce, tx.amount, tx.fee);
        }
    }
}

proof fn lemma_txs_shape(tree: TreeView, root: Hash32, txs: Seq<Transaction>, n: nat)
    ensures
        all_tx_proofs(tree, root, txs, n) matches Ok((_, from, to)) ==> from.len() == n && to.len()
            == n && all_fresh(from) && all_fresh(to),
    decreases n,
{
    if n > 0 {
        lemma_txs_shape(tree, root, txs, (n - 1) as nat);
        if let Ok((before, _, _)) = all_tx_proofs(tree, root, txs, (n - 1) as nat) {
            let tx = txs[n - 1];
            lemma_transfer_shape(tree, before, tx.from, tx.to, tx.nonce, tx.amount, tx.fee);
        }
    }
}

/// There is one proof for each deposit, and one of the sender and one of the recipient for each
/// transfer.
pub proof fn law_one_proof_per_item(tree: TreeView, block: PendingBlock)
    ensures
        block_proofs(tree, block) matches Ok(bundle) ==> bundle.proofs_deposits.len()
            == block.deposits@.len() && bundle.proofs_forced_from.len() == block.forced_txs@.len()
            && bundle.proofs_forced_to.len() == block.forced_txs@.len()
            && bundle.proofs_txs_from.len() == block.txs@.len() && bundle.proofs_txs_to.len()
            == block.txs@.len(),
{
    lemma_block_shape(tree, block);
}

proof fn lemma_block_shape(tree: TreeView, block: PendingBlock)
    ensures
        block_proofs(tree, block) matches Ok(bundle) ==> bundle.proofs_deposits.len()
            == block.deposits@.len() && bundle.proofs_forced_from.len() == block.forced_txs@.len()
            && bundle.proofs_forced_to.len() == block.forced_txs@.len()
            && bundle.proofs_txs_from.len() == block.txs@.len() && bundle.proofs_txs_to.len()
            == block.txs@.len() && all_fresh(bundle.proofs_deposits) && all_fresh(
            bundle.proofs_forced_from,
        ) && all_fresh(bundle.proofs_forced_to) && all_fresh(bundle.proofs_txs_from) && all_fresh(
            bundle.proofs_txs_to,
        ),
{
    let pre = block.pre_state_root;
    lemma_deposits_shape(tree, pre, block.deposits@, block.deposits@.len());
    if let Ok((root, _)) = deposits_proofs(tree, pre, block.deposits@, block.deposits@.len()) {
        lemma_forced_shape(tree, root, block.forced_txs@, block.forced_txs@.len());
        if let Ok((root, _, _)) = all_forced_proofs(
            tree,
            root,
            block.forced_txs@,
            block.forced_txs@.len(),
        ) {
            lemma_txs_shape(tree, root, block.txs@, block.txs@.len());
        }
    }
}

/// The transition of a block with the proofs that were generated for it.
pub open spec fn transition_of(block: PendingBlock, bundle: BundleView) -> Transition {
    Transition {
        pre_state_root: block.pre_state_root,
        txs: block.txs@,
        deposits: block.deposits@,
        forced_txs: block.forced_txs@,
        proofs_deposits: bundle.proofs_deposits,
        proofs_forced_from: bundle.proofs_forced_from,
        proofs_forced_to: bundle.proofs_forced_to,
        proofs_txs_from: bundle.proofs_txs_from,
        proofs_txs_to: bundle.proofs_txs_to,
    }
}

proof fn lemma_deposits_not_stuck(
    root: Hash32,
    deposits: Seq<Deposit>,
    proofs: Seq<ProofView>,
    n: nat,
)
    requires
        n <= proofs.len(),
    ensures
        !(run_deposits(root, deposits, proofs, n) is Stuck),
    decreases n,
{
    if n > 0 {
        lemma_deposits_not_stuck(root, deposits, proofs, (n - 1) as nat);
    }
}

proof fn lemma_forced_not_stuck(
    root: Hash32,
    txs: Seq<ForcedTx>,
    from: Seq<ProofView>,
    to: Seq<ProofView>,
    n: nat,
)
    requires
        n <= from.len(),
        n <= to.len(),
        all_fresh(from),
    ensures
        !(run_forced(root, txs, from, to, n) is Stuck),
    decreases n,
{
    if n > 0 {
        lemma_forced_not_stuck(root, txs, from, to, (n - 1) as nat);
        assert(is_fresh(from[n - 1]));
    }
}

proof fn lemma_txs_not_stuck(
    root: Hash32,
    txs: Seq<Transaction>,
    from: Seq<ProofView>,
    to: Seq<ProofView>,
    n: nat,
)
    requires
        n <= from.len(),
        n <= to.len(),
        all_fresh(from),
    ensures
        !(run_txs(root, txs, from, to, n) is Stuck),
    decreases n,
{
    if n > 0 {
        lemma_txs_not_stuck(root, txs, from, to, (n - 1) as nat);
        assert(is_fresh(from[n - 1]));
    }
}

/// The transition of a block can be carried out with the proofs that were generated for it: none
/// is missing, and no nonce is exhausted.
pub proof fn law_generated_proofs_suffice(tree: TreeView, block: PendingBlock)
    ensures
        block_proofs(tree, block) matches Ok(bundle) ==> transition_of(block, bundle).outcome()
            is Some,
{
    lemma_block_shape(tree, block);
    if let Ok(bundle) = block_proofs(tree, block) {
        let t = transition_of(block, bundle);
        lemma_deposits_not_stuck(
            t.pre_state_root,
            t.deposits,
            t.proofs_deposits,
            t.deposits.len(),
        );
        if let Run::At(root) = t.after_deposits() {
            lemma_forced_not_stuck(
                root,
                t.forced_txs,
                t.proofs_forced_from,
                t.proofs_forced_to,
                t.forced_txs.len(),
            );
        }
        if let Run::At(root) = t.after_forced() {
            lemma_txs_not_stuck(root, t.txs, t.proofs_txs_from, t.proofs_txs_to, t.txs.len());
        }
    }
}

proof fn lemma_deposits_follow(
    tree: TreeView,
    root: Hash32,
    deposits: Seq<Deposit>,
    all: Seq<ProofView>,
    n: nat,
)
    requires
        deposits_proofs(tree, root, deposits, n) matches Ok((_, proofs)) && proofs.len()
            <= all.len() && proofs == all.take(proofs.len() as int),
    ensures
        run_deposits(root, deposits, all, n) matches Run::At(reached) ==> deposits_proofs(
            tree,
            root,
            deposits,
            n,
        )->Ok_0.0 == reached,
    decreases n,
{
    lemma_deposits_shape(tree, root, deposits, n);
    if n > 0 {
        let (before, proofs) = deposits_proofs(tree, root, deposits, (n - 1) as nat)->Ok_0;
        lemma_deposits_shape(tree, root, deposits, (n - 1) as nat);
        let (_, longer) = deposits_proofs(tree, root, deposits, n)->Ok_0;
        assert(proofs =~= all.take(proofs.len() as int)) by {
            assert(longer.drop_last() =~= proofs);
            assert(all.take(n as int).drop_last() =~= all.take(n - 1));
        }
        lemma_deposits_follow(tree, root, deposits, all, (n - 1) as nat);
        assert(all[n - 1] == longer[n - 1]);
        law_built_proofs_are_fresh(tree, before, deposits[n - 1].to);
    }
}

proof fn lemma_forced_follow(
    tree: TreeView,
    root: Hash32,
    txs: Seq<ForcedTx>,
    all_from: Seq<ProofView>,
    all_to: Seq<ProofView>,
    n: nat,
)
    requires
        all_forced_proofs(tree, root, txs, n) matches Ok((_, from, to)) && from.len()
            <= all_from.len() && to.len() <= all_to.len() && from == all_from.take(
            from.len() as int,
        ) && to == all_to.take(to.len() as int),
    ensures
        run_forced(root, txs, all_from, all_to, n) matches Run::At(reached) ==> all_forced_proofs(
            tree,
            root,
            txs,
            n,
        )->Ok_0.0 == reached,
    decreases n,
{
    lemma_forced_shape(tree, root, txs, n);
    if n > 0 {
        let (before, from, to) = all_forced_proofs(tree, root, txs, (n - 1) as nat)->Ok_0;
        lemma_forced_shape(tree, root, txs, (n - 1) as nat);
        let (_, longer_from, longer_to) = all_forced_proofs(tree, root, txs, n)->Ok_0;
        assert(from =~= all_from.take(from.len() as int)) by {
            assert(longer_from.drop_last() =~= from);
            assert(all_from.take(n as int).drop_last() =~= all_from.take(n - 1));
        }
        assert(to =~= all_to.take(to.len() as int)) by {
            assert(longer_to.drop_last() =~= to);
            assert(all_to.take(n as int).drop_last() =~= all_to.take(n - 1));
        }
        lemma_forced_follow(tree, root, txs, all_from, all_to, (n - 1) as nat);
        assert(all_from[n - 1] == longer_from[n - 1]);
        assert(all_to[n - 1] == longer_to[n - 1]);
        let tx = txs[n - 1];
        lemma_transfer_shape(tree, before, tx.from, tx.to, tx.nonce, tx.amount, tx.fee);
        law_built_proofs_are_fresh(tree, before, tx.from);
        law_built_proofs_are_fresh(tree, before, tx.to);
    }
}

/// Where the transition accepts the deposits and forced transfers of a block with the proofs that
/// were generated for it, it is at the root that the generator was at; and where the block has no
/// transfers beyond these, that is the root that the block claims.
pub proof fn law_transition_follows_the_generator(tree: TreeView, block: PendingBlock)
    ensures
        block_proofs(tree, block) matches Ok(bundle) ==> {
            let t = transition_of(block, bundle);
            let deposits = deposits_proofs(
                tree,
                block.pre_state_root,
                block.deposits@,
                block.deposits@.len(),
            )->Ok_0;
            &&& t.after_forced() matches Run::At(reached) ==> all_forced_proofs(
                tree,
                deposits.0,
                block.forced_txs@,
                block.forced_txs@.len(),
            )->Ok_0.0 == reached
            &&& block.txs@.len() == 0 ==> (t.outcome() matches Some(Ok((root, _, _))) ==> root
                == block.post_state_root)
        },
{
    lemma_block_shape(tree, block);
    if let Ok(bundle) = block_proofs(tree, block) {
        let t = transition_of(block, bundle);
        let pre = block.pre_state_root;
        let (after_deposits, proofs) = deposits_proofs(
            tree,
            pre,
            block.deposits@,
            block.deposits@.len(),
        )->Ok_0;
        assert(proofs =~= bundle.proofs_deposits.take(proofs.len() as int));
        lemma_deposits_follow(
            tree,
            pre,
            block.deposits@,
            bundle.proofs_deposits,
            block.deposits@.len(),
        );
        let (_, from, to) = all_forced_proofs(
            tree,
            after_deposits,
            block.forced_txs@,
            block.forced_txs@.len(),
        )->Ok_0;
        assert(from =~= bundle.proofs_forced_from.take(from.len() as int));
        assert(to =~= bundle.proofs_forced_to.take(to.len() as int));
        lemma_forced_follow(
            tree,
            after_deposits,
            block.forced_txs@,
            bundle.proofs_forced_from,
            bundle.proofs_forced_to,
            block.forced_txs@.len(),
        );
    }
}

/// Where no step of the replay stops, there are proofs exactly if the block leads to the root that
/// it claims; for an empty block, exactly if it claims the root that it starts from.
pub proof fn law_proofs_iff_root_reached(tree: TreeView, block: PendingBlock)
    ensures
        replayed(tree, block) matches Ok((root, _)) ==> (block_proofs(tree, block) is Ok <==> root
            == block.post_state_root),
        block.deposits@.len() == 0 && block.forced_txs@.len() == 0 && block.txs@.len() == 0 ==> (
        block_proofs(tree, block) is Ok <==> block.pre_state_root == block.post_state_root),
{
}

/// Each deposit is proven under the root that the deposits before it lead to, and leads on to the
/// root that this proof's path gives for an account that holds the amount alone. The work stops
/// where a proof cannot be built.
pub proof fn law_deposit_is_proven_in_its_turn(
    tree: TreeView,
    root: Hash32,
    deposits: Seq<Deposit>,
    n: nat,
    before: Hash32,
    proofs: Seq<ProofView>,
)
    requires
        n < deposits.len(),
        deposits_proofs(tree, root, deposits, n) == Ok::<(Hash32, Seq<ProofView>), HaltView>(
            (before, proofs),
        ),
    ensures
        deposits_proofs(tree, root, deposits, 0) == Ok::<(Hash32, Seq<ProofView>), HaltView>(
            (root, Seq::empty()),
        ),
        ({
            let next = deposits_proofs(tree, root, deposits, n + 1);
            let deposit = deposits[n as int];
            let credited = Account { id: deposit.to, balance: deposit.amount, nonce: 0 };
            match proof_at(tree, before, deposit.to) {
                Ok(proof) => next == Ok::<(Hash32, Seq<ProofView>), HaltView>(
                    (path_root(account_hash(credited), proof.siblings), proofs.push(proof)),
                ),
                Err(halt) => next == Err::<(Hash32, Seq<ProofView>), HaltView>(halt),
            }
        }),
{
    law_built_proofs_are_fresh(tree, before, deposits[n as int].to);
    let deposit = deposits[n as int];
    assert((Account { balance: (0 + deposit.amount) as u64, ..Account::fresh(deposit.to) }) == (
    Account { id: deposit.to, balance: deposit.amount, nonce: 0 }));
}

/// Each forced transfer is proven under the root that the ones before it lead to. A dummy gets empty
/// proofs and leaves the root. Any other must carry the first nonce and numbers within 64 bits. One
/// that moves or costs something leads on to the root of the sender who counted; one that moves
/// nothing and costs nothing goes on to the recipient, who is proven under that root.
pub proof fn law_forced_transfer_is_proven_in_its_turn(
    tree: TreeView,
    root: Hash32,
    txs: Seq<ForcedTx>,
    n: nat,
    before: Hash32,
    from: Seq<ProofView>,
    to: Seq<ProofView>,
)
    requires
        n < txs.len(),
        all_forced_proofs(tree, root, txs, n) == Ok::<
            (Hash32, Seq<ProofView>, Seq<ProofView>),
            HaltView,
        >((before, from, to)),
    ensures
        all_forced_proofs(tree, root, txs, 0) == Ok::<
            (Hash32, Seq<ProofView>, Seq<ProofView>),
            HaltView,
        >((root, Seq::empty(), Seq::empty())),
        ({
            let next = all_forced_proofs(tree, root, txs, n + 1);
            let tx = txs[n as int];
            let no_from = ProofView {
                account: Account { id: tx.from, balance: 0, nonce: 0 },
                siblings: Seq::empty(),
            };
            let no_to = ProofView {
                account: Account { id: tx.to, balance: 0, nonce: 0 },
                siblings: Seq::empty(),
            };
            let counted = Account { id: tx.from, balance: 0, nonce: 1 };
            let opened = Account { id: tx.to, balance: 0, nonce: 0 };
            let refused = |e: StfErrorView|
                Err::<(Hash32, Seq<ProofView>, Seq<ProofView>), HaltView>(
                    HaltView::Failed(CoreErrorView::StfError(e.debug_text())),
                );
            if tx.from == zero() {
                next == Ok::<(Hash32, Seq<ProofView>, Seq<ProofView>), HaltView>(
                    (before, from.push(no_from), to.push(no_to)),
                )
            } else {
                match (proof_at(tree, before, tx.from), proof_at(tree, before, tx.to)) {
                    (Err(halt), _) => next == Err::<
                        (Hash32, Seq<ProofView>, Seq<ProofView>),
                        HaltView,
                    >(halt),
                    (Ok(_), Err(halt)) => next == Err::<
                        (Hash32, Seq<ProofView>, Seq<ProofView>),
                        HaltView,
                    >(halt),
                    (Ok(sender), Ok(recipient)) => {
                        let between = path_root(account_hash(counted), sender.siblings);
                        &&& tx.nonce != 0 ==> next == refused(
                            StfErrorView::InvalidNonce { expected: 0, got: tx.nonce },
                        )
                        &&& tx.nonce == 0 && tx.amount + tx.fee > u64::MAX ==> next == refused(
                            StfErrorView::BalanceOverflow,
                        )
                        &&& tx.nonce == 0 && 0 < tx.amount + tx.fee <= u64::MAX ==> next == Ok::<
                            (Hash32, Seq<ProofView>, Seq<ProofView>),
                            HaltView,
                        >((between, from.push(sender), to.push(recipient)))
                        &&& tx.nonce == 0 && tx.amount + tx.fee == 0 ==> match proof_at(
                            tree,
                            between,
                            tx.to,
                        ) {
                            Ok(slot) => next == Ok::<
                                (Hash32, Seq<ProofView>, Seq<ProofView>),
                                HaltView,
                            >(
                                (
                                    path_root(account_hash(opened), slot.siblings),
                                    from.push(sender),
                                    to.push(slot),
                                ),
                            ),
                            Err(halt) => next == Err::<
                                (Hash32, Seq<ProofView>, Seq<ProofView>),
                                HaltView,
                            >(halt),
                        }
                    },
                }
            }
        }),
{
    let tx = txs[n as int];
    law_built_proofs_are_fresh(tree, before, tx.from);
    law_built_proofs_are_fresh(tree, before, tx.to);
    assert(Seq::<(bool, Hash32)>::empty() == ProofView::dummy(tx.from).siblings);
    assert(Seq::<(bool, Hash32)>::empty() == ProofView::dummy(tx.to).siblings);
}

/// Each transfer gets empty proofs and leaves the root, once the tree has been asked for its sender,
/// under the root that the items before it lead to: no account is read back from the tree.
pub proof fn law_transfer_is_passed_over_in_its_turn(
    tree: TreeView,
    root: Hash32,
    txs: Seq<Transaction>,
    n: nat,
    before: Hash32,
    from: Seq<ProofView>,
    to: Seq<ProofView>,
)
    requires
        n < txs.len(),
        all_tx_proofs(tree, root, txs, n) == Ok::<
            (Hash32, Seq<ProofView>, Seq<ProofView>),
            HaltView,
        >((before, from, to)),
    ensures
        all_tx_proofs(tree, root, txs, 0) == Ok::<
            (Hash32, Seq<ProofView>, Seq<ProofView>),
            HaltView,
        >((root, Seq::empty(), Seq::empty())),
        ({
            let next = all_tx_proofs(tree, root, txs, n + 1);
            let tx = txs[n as int];
            let no_from = ProofView {
                account: Account { id: tx.from, balance: 0, nonce: 0 },
                siblings: Seq::empty(),
            };
            let no_to = ProofView {
                account: Account { id: tx.to, balance: 0, nonce: 0 },
                siblings: Seq::empty(),
            };
            if before != zero() && !tree.leaves.contains_key((Some(before), tx.from)) {
                next == Err::<(Hash32, Seq<ProofView>, Seq<ProofView>), HaltView>(
                    HaltView::Unread(TreeQuery::Leaf { root: Some(before), key: tx.from }),
                )
            } else {
                next == Ok::<(Hash32, Seq<ProofView>, Seq<ProofView>), HaltView>(
                    (before, from.push(no_from), to.push(no_to)),
                )
            }
        }),
{
    let tx = txs[n as int];
    law_account_answers(tree, Some(before), tx.from);
    assert(Seq::<(bool, Hash32)>::empty() == ProofView::dummy(tx.from).siblings);
    assert(Seq::<(bool, Hash32)>::empty() == ProofView::dummy(tx.to).siblings);
}

/// Work on a block that stopped stays as it stopped, however many items follow.
pub proof fn law_stopped_replay_stays(
    tree: TreeView,
    root: Hash32,
    deposits: Seq<Deposit>,
    forced: Seq<ForcedTx>,
    txs: Seq<Transaction>,
    i: nat,
    n: nat,
)
    requires
        i <= n,
    ensures
        deposits_proofs(tree, root, deposits, i) is Err ==> deposits_proofs(tree, root, deposits, n)
            == deposits_proofs(tree, root, deposits, i),
        all_forced_proofs(tree, root, forced, i) is Err ==> all_forced_proofs(tree, root, forced, n)
            == all_forced_proofs(tree, root, forced, i),
        all_tx_proofs(tree, root, txs, i) is Err ==> all_tx_proofs(tree, root, txs, n)
            == all_tx_proofs(tree, root, txs, i),
{
    if deposits_proofs(tree, root, deposits, i) is Err {
        lemma_deposits_halt(tree, root, deposits, i, n);
    }
    if all_forced_proofs(tree, root, forced, i) is Err {
        lemma_forced_halt(tree, root, forced, i, n);
    }
    if all_tx_proofs(tree, root, txs, i) is Err {
        lemma_txs_halt(tree, root, txs, i, n);
    }
}

/// The replay of a block goes through all deposits, then all forced transfers, then all transfers,
/// each part from the root of the part before, and gives the last root with all proofs.
pub proof fn law_replay_goes_through_all_items(
    tree: TreeView,
    block: PendingBlock,
    second: Hash32,
    third: Hash32,
    last: Hash32,
    proofs: BundleView,
)
    ensures
        ({
            let deposits = deposits_proofs(
                tree,
                block.pre_state_root,
                block.deposits@,
                block.deposits@.len(),
            );
            let forced = all_forced_proofs(
                tree,
                second,
                block.forced_txs@,
                block.forced_txs@.len(),
            );
            let txs = all_tx_proofs(tree, third, block.txs@, block.txs@.len());
            let result = replayed(tree, block);
            let first_done = deposits == Ok::<(Hash32, Seq<ProofView>), HaltView>(
                (second, proofs.proofs_deposits),
            );
            let second_done = forced == Ok::<(Hash32, Seq<ProofView>, Seq<ProofView>), HaltView>(
                (third, proofs.proofs_forced_from, proofs.proofs_forced_to),
            );
            let third_done = txs == Ok::<(Hash32, Seq<ProofView>, Seq<ProofView>), HaltView>(
                (last, proofs.proofs_txs_from, proofs.proofs_txs_to),
            );
            &&& deposits matches Err(halt) ==> result == Err::<(Hash32, BundleView), HaltView>(halt)
            &&& first_done ==> (forced matches Err(halt) ==> result == Err::<
                (Hash32, BundleView),
                HaltView,
            >(halt))
            &&& first_done && second_done ==> (txs matches Err(halt) ==> result == Err::<
                (Hash32, BundleView),
                HaltView,
            >(halt))
            &&& first_done && second_done && third_done ==> result == Ok::<
                (Hash32, BundleView),
                HaltView,
            >((last, proofs))
        }),
{
}

/// A block gets its proofs where the replay ends at the root that it claims, is turned down with
/// both roots where it ends elsewhere, and stops where the replay stops.
pub proof fn law_block_gets_its_proofs(tree: TreeView, block: PendingBlock)
    ensures
        match replayed(tree, block) {
            Ok((root, bundle)) => {
                &&& root == block.post_state_root ==> block_proofs(tree, block) == Ok::<
                    BundleView,
                    HaltView,
                >(bundle) && replays(tree, block)
                &&& root != block.post_state_root ==> block_proofs(tree, block) == Err::<
                    BundleView,
                    HaltView,
                >(HaltView::RootMismatch { reached: root, claimed: block.post_state_root })
                    && !replays(tree, block)
            },
            Err(halt) => block_proofs(tree, block) == Err::<BundleView, HaltView>(halt) && (replays(
                tree,
                block,
            ) <==> !(halt is MalformedSibling)),
        },
{
}

/// What a bundle holds are its five lists of proofs, proof by proof.
pub proof fn law_bundle_view(bundle: ProofBundle)
    ensures
        bundle@.proofs_deposits == proof_views(bundle.proofs_deposits@),
        bundle@.proofs_forced_from == proof_views(bundle.proofs_forced_from@),
        bundle@.proofs_forced_to == proof_views(bundle.proofs_forced_to@),
        bundle@.proofs_txs_from == proof_views(bundle.proofs_txs_from@),
        bundle@.proofs_txs_to == proof_views(bundle.proofs_txs_to@),
{
}

} // verus!
