//! The state transition function: what a block does to the state root, checked against Merkle
//! proofs only.
use crate::abi::{
    build_commitment, commitment, deposit_digests, forced_digests, hash_deposits, hash_forced_txs,
    law_commitment_layout, PublicValues,
};
use crate::bytes::{be_value, lemma_be_bytes_len};
use crate::hash::{keccak256, same_hash, zero, zero_hash, Hash32};
use crate::merkle::{account_hash, compute_new_root, path_root, MerkleProof, ProofView};
use crate::types::{Account, Deposit, ForcedTx, Transaction};
use vstd::prelude::*;

verus! {

/// Why a transition was refused.
#[derive(Debug, Clone, PartialEq, Eq)]
pub enum StfError {
    InsufficientBalance,
    BalanceOverflow,
    MerkleProofVerificationFailed,
    InvalidNonce { expected: u64, got: u64 },
    InvalidTransaction(String),
}

/// What a transfer did.
#[derive(Debug, Clone, Copy, PartialEq, Eq)]
pub enum TransactionResult {
    /// The sender and the recipient, after the transfer.
    Success(Account, Account),
    /// The sender, who paid the fee for a transfer that was not covered.
    Failure(Account),
}

/// A deposit credits the account, unless the balance would not fit.
pub open spec fn deposited(account: Account, amount: u64) -> Result<Account, StfError> {
    if account.balance + amount > u64::MAX {
        Err(StfError::BalanceOverflow)
    } else {
        Ok(Account { balance: (account.balance + amount) as u64, ..account })
    }
}

/// The sender's nonce is due and cannot be counted up.
pub open spec fn nonce_exhausted(from: Account, nonce: u64) -> bool {
    from.nonce == nonce && nonce == u64::MAX
}

/// A transfer of `amount` with a fee of `fee`. It must carry the sender's nonce. A sender who can
/// pay amount and fee pays both and the recipient gets the amount; one who cannot pays as much of
/// the fee as there is. The nonce goes up either way.
pub open spec fn transferred(
    from: Account,
    to: Account,
    nonce: u64,
    amount: u64,
    fee: u64,
) -> Result<TransactionResult, StfError> {
    let next = (from.nonce + 1) as u64;
    if from.nonce != nonce {
        Err(StfError::InvalidNonce { expected: from.nonce, got: nonce })
    } else if amount + fee > u64::MAX {
        Err(StfError::BalanceOverflow)
    } else if from.balance < amount + fee {
        let left: u64 = if from.balance < fee {
            0
        } else {
            (from.balance - fee) as u64
        };
        Ok(TransactionResult::Failure(Account { nonce: next, balance: left, ..from }))
    } else if to.balance + amount > u64::MAX {
        Err(StfError::BalanceOverflow)
    } else {
        Ok(
            TransactionResult::Success(
                Account { nonce: next, balance: (from.balance - amount - fee) as u64, ..from },
                Account { balance: (to.balance + amount) as u64, ..to },
            ),
        )
    }
}

/// Credits a deposit.
pub fn apply_deposit(account: Account, deposit: &Deposit) -> (result: Result<Account, StfError>)
    ensures
        result == deposited(account, deposit.amount),
{
    match account.balance.checked_add(deposit.amount) {
        Some(balance) => Ok(Account { balance, ..account }),
        None => Err(StfError::BalanceOverflow),
    }
}

fn apply_transfer(from: Account, to: Account, nonce: u64, amount: u64, fee: u64) -> (result: Result<
    TransactionResult,
    StfError,
>)
    requires
        !nonce_exhausted(from, nonce),
    ensures
        result == transferred(from, to, nonce, amount, fee),
{
    if from.nonce != nonce {
        return Err(StfError::InvalidNonce { expected: from.nonce, got: nonce });
    }
    let next: u64 = from.nonce + 1;
    let total_debit: u64 = match amount.checked_add(fee) {
        Some(total) => total,
        None => return Err(StfError::BalanceOverflow),
    };
    if from.balance < total_debit {
        let left: u64 = from.balance.saturating_sub(fee);
        return Ok(TransactionResult::Failure(Account { nonce: next, balance: left, ..from }));
    }
    let debited: Account = Account { nonce: next, balance: from.balance - total_debit, ..from };
    match to.balance.checked_add(amount) {
        Some(balance) => Ok(TransactionResult::Success(debited, Account { balance, ..to })),
        None => Err(StfError::BalanceOverflow),
    }
}

/// Carries out a transfer.
pub fn apply_transaction(from: Account, to: Account, tx: &Transaction) -> (result: Result<
    TransactionResult,
    StfError,
>)
    requires
        !nonce_exhausted(from, tx.nonce),
    ensures
        result == transferred(from, to, tx.nonce, tx.amount, tx.fee),
{
    apply_transfer(from, to, tx.nonce, tx.amount, tx.fee)
}

/// Carries out a forced transfer.
pub fn apply_forced_tx(from: Account, to: Account, tx: &ForcedTx) -> (result: Result<
    TransactionResult,
    StfError,
>)
    requires
        !nonce_exhausted(from, tx.nonce),
    ensures
        result == transferred(from, to, tx.nonce, tx.amount, tx.fee),
{
    apply_transfer(from, to, tx.nonce, tx.amount, tx.fee)
}

/// How far a transition has come.
pub enum Run {
    /// The state root so far.
    At(Hash32),
    /// The transition was refused.
    Refused(StfError),
    /// The transition cannot be carried out: a proof is missing, or a nonce is exhausted.
    Stuck,
}

/// One deposit with its proof.
pub open spec fn deposit_step(root: Hash32, deposit: Deposit, proofs: Seq<ProofView>, i: int) -> Run {
    if i >= proofs.len() {
        Run::Stuck
    } else if !proofs[i].verifies(root) {
        Run::Refused(StfError::MerkleProofVerificationFailed)
    } else {
        match deposited(proofs[i].account, deposit.amount) {
            Ok(updated) => Run::At(proofs[i].root_with(updated)),
            Err(e) => Run::Refused(e),
        }
    }
}

/// One transfer to `to`, with a proof of the sender and, where the transfer goes through, one of
/// the slot that the recipient goes into. The recipient starts from a fresh account.
pub open spec fn transfer_step(
    root: Hash32,
    to: Hash32,
    nonce: u64,
    amount: u64,
    fee: u64,
    proofs_from: Seq<ProofView>,
    proofs_to: Seq<ProofView>,
    i: int,
) -> Run {
    if i >= proofs_from.len() {
        Run::Stuck
    } else if !proofs_from[i].verifies(root) {
        Run::Refused(StfError::MerkleProofVerificationFailed)
    } else if nonce_exhausted(proofs_from[i].account, nonce) {
        Run::Stuck
    } else {
        match transferred(proofs_from[i].account, Account::fresh(to), nonce, amount, fee) {
            Err(e) => Run::Refused(e),
            Ok(TransactionResult::Failure(from)) => Run::At(proofs_from[i].root_with(from)),
            Ok(TransactionResult::Success(from, to)) => {
                if i >= proofs_to.len() {
                    Run::Stuck
                } else if !proofs_to[i].verifies(proofs_from[i].root_with(from)) {
                    Run::Refused(StfError::MerkleProofVerificationFailed)
                } else {
                    Run::At(proofs_to[i].root_with(to))
                }
            },
        }
    }
}

/// One forced transfer. One whose sender is the zero address is a dummy and changes nothing.
pub open spec fn forced_step(
    root: Hash32,
    tx: ForcedTx,
    proofs_from: Seq<ProofView>,
    proofs_to: Seq<ProofView>,
    i: int,
) -> Run {
    if tx.from == zero() {
        Run::At(root)
    } else {
        transfer_step(root, tx.to, tx.nonce, tx.amount, tx.fee, proofs_from, proofs_to, i)
    }
}

/// The first `n` deposits, in order.
pub open spec fn run_deposits(
    root: Hash32,
    deposits: Seq<Deposit>,
    proofs: Seq<ProofView>,
    n: nat,
) -> Run
    decreases n,
{
    if n == 0 {
        Run::At(root)
    } else {
        match run_deposits(root, deposits, proofs, (n - 1) as nat) {
            Run::At(before) => deposit_step(before, deposits[n - 1], proofs, n - 1),
            stopped => stopped,
        }
    }
}

/// The first `n` forced transfers, in order.
pub open spec fn run_forced(
    root: Hash32,
    txs: Seq<ForcedTx>,
    proofs_from: Seq<ProofView>,
    proofs_to: Seq<ProofView>,
    n: nat,
) -> Run
    decreases n,
{
    if n == 0 {
        Run::At(root)
    } else {
        match run_forced(root, txs, proofs_from, proofs_to, (n - 1) as nat) {
            Run::At(before) => forced_step(before, txs[n - 1], proofs_from, proofs_to, n - 1),
            stopped => stopped,
        }
    }
}

/// The first `n` transfers, in order.
pub open spec fn run_txs(
    root: Hash32,
    txs: Seq<Transaction>,
    proofs_from: Seq<ProofView>,
    proofs_to: Seq<ProofView>,
    n: nat,
) -> Run
    decreases n,
{
    if n == 0 {
        Run::At(root)
    } else {
        match run_txs(root, txs, proofs_from, proofs_to, (n - 1) as nat) {
            Run::At(before) => transfer_step(
                before,
                txs[n - 1].to,
                txs[n - 1].nonce,
                txs[n - 1].amount,
                txs[n - 1].fee,
                proofs_from,
                proofs_to,
                n - 1,
            ),
            stopped => stopped,
        }
    }
}

/// Everything that a transition reads.
pub struct Transition {
    pub pre_state_root: Hash32,
    pub txs: Seq<Transaction>,
    pub deposits: Seq<Deposit>,
    pub forced_txs: Seq<ForcedTx>,
    pub proofs_deposits: Seq<ProofView>,
    pub proofs_forced_from: Seq<ProofView>,
    pub proofs_forced_to: Seq<ProofView>,
    pub proofs_txs_from: Seq<ProofView>,
    pub proofs_txs_to: Seq<ProofView>,
}

impl Transition {
    /// The root after the deposits.
    pub open spec fn after_deposits(self) -> Run {
        run_deposits(self.pre_state_root, self.deposits, self.proofs_deposits, self.deposits.len())
    }

    /// The root after the deposits and the forced transfers.
    pub open spec fn after_forced(self) -> Run {
        match self.after_deposits() {
            Run::At(root) => run_forced(
                root,
                self.forced_txs,
                self.proofs_forced_from,
                self.proofs_forced_to,
                self.forced_txs.len(),
            ),
            stopped => stopped,
        }
    }

    /// The root after the whole block: deposits, then forced transfers, then transfers.
    pub open spec fn run(self) -> Run {
        match self.after_forced() {
            Run::At(root) => run_txs(
                root,
                self.txs,
                self.proofs_txs_from,
                self.proofs_txs_to,
                self.txs.len(),
            ),
            stopped => stopped,
        }
    }

    /// The new root and the digests of what came from the base layer; nothing where the
    /// transition cannot be carried out.
    pub open spec fn outcome(self) -> Option<Result<(Hash32, Hash32, Hash32), StfError>> {
        match self.run() {
            Run::At(root) => Some(
                Ok(
                    (
                        root,
                        keccak256(deposit_digests(self.deposits)),
                        keccak256(forced_digests(self.forced_txs)),
                    ),
                ),
            ),
            Run::Refused(e) => Some(Err(e)),
            Run::Stuck => None,
        }
    }

    /// The bytes that a proof of the transition makes public. The counts are taken modulo 2^32.
    pub open spec fn public_bytes(self) -> Option<Result<Seq<u8>, StfError>> {
        match self.outcome() {
            Some(Ok((root, deposits_hash, forced_hash))) => Some(
                Ok(
                    self.pre_state_root@ + root@ + commitment(
                        deposits_hash@,
                        (self.deposits.len() % 0x1_0000_0000) as u32,
                    ) + commitment(
                        forced_hash@,
                        (self.forced_txs.len() % 0x1_0000_0000) as u32,
                    ),
                ),
            ),
            Some(Err(e)) => Some(Err(e)),
            None => None,
        }
    }
}

/// The proofs of a list, as values.
pub open spec fn proof_views(proofs: Seq<MerkleProof>) -> Seq<ProofView> {
    proofs.map_values(|p: MerkleProof| p@)
}

/// Where an executed step leaves the transition.
enum Progress {
    At(Hash32),
    Refused(StfError),
    Stuck,
}

impl Progress {
    spec fn run(self) -> Run {
        match self {
            Progress::At(root) => Run::At(root),
            Progress::Refused(e) => Run::Refused(e),
            Progress::Stuck => Run::Stuck,
        }
    }
}

fn step_deposit(root: Hash32, deposit: &Deposit, proofs: &[MerkleProof], i: usize) -> (next: Progress)
    ensures
        next.run() == deposit_step(root, *deposit, proof_views(proofs@), i as int),
{
    if i >= proofs.len() {
        return Progress::Stuck;
    }
    let proof_to: &MerkleProof = &proofs[i];
    if !proof_to.verify(root) {
        return Progress::Refused(StfError::MerkleProofVerificationFailed);
    }
    match apply_deposit(proof_to.account, deposit) {
        Ok(updated) => Progress::At(compute_new_root(proof_to, updated.hash())),
        Err(e) => Progress::Refused(e),
    }
}

fn step_transfer(
    root: Hash32,
    to: Hash32,
    nonce: u64,
    amount: u64,
    fee: u64,
    proofs_from: &[MerkleProof],
    proofs_to: &[MerkleProof],
    i: usize,
) -> (next: Progress)
    ensures
        next.run() == transfer_step(
            root,
            to,
            nonce,
            amount,
            fee,
            proof_views(proofs_from@),
            proof_views(proofs_to@),
            i as int,
        ),
{
    if i >= proofs_from.len() {
        return Progress::Stuck;
    }
    let proof_from: &MerkleProof = &proofs_from[i];
    if !proof_from.verify(root) {
        return Progress::Refused(StfError::MerkleProofVerificationFailed);
    }
    if proof_from.account.nonce == nonce && nonce == u64::MAX {
        return Progress::Stuck;
    }
    match apply_transfer(proof_from.account, Account::new(to), nonce, amount, fee) {
        Err(e) => Progress::Refused(e),
        Ok(TransactionResult::Failure(updated_from)) => Progress::At(
            compute_new_root(proof_from, updated_from.hash()),
        ),
        Ok(TransactionResult::Success(updated_from, updated_to)) => {
            let between: Hash32 = compute_new_root(proof_from, updated_from.hash());
            if i >= proofs_to.len() {
                return Progress::Stuck;
            }
            let proof_to: &MerkleProof = &proofs_to[i];
            if !proof_to.verify(between) {
                return Progress::Refused(StfError::MerkleProofVerificationFailed);
            }
            Progress::At(compute_new_root(proof_to, updated_to.hash()))
        },
    }
}

/// The state transition function.
pub struct StateTransitioner;

impl StateTransitioner {
    /// The new state root and the digests of the deposits and the forced transactions.
    pub fn execute_transition(
        pre_state_root: Hash32,
        txs: Vec<Transaction>,
        deposits: Vec<Deposit>,
        forced_txs: Vec<ForcedTx>,
        proofs_deposits: Vec<MerkleProof>,
        proofs_forced_from: Vec<MerkleProof>,
        proofs_forced_to: Vec<MerkleProof>,
        proofs_txs_from: Vec<MerkleProof>,
        proofs_txs_to: Vec<MerkleProof>,
    ) -> (result: Result<(Hash32, Hash32, Hash32), StfError>)
        requires
            (Transition {
                pre_state_root,
                txs: txs@,
                deposits: deposits@,
                forced_txs: forced_txs@,
                proofs_deposits: proof_views(proofs_deposits@),
                proofs_forced_from: proof_views(proofs_forced_from@),
                proofs_forced_to: proof_views(proofs_forced_to@),
                proofs_txs_from: proof_views(proofs_txs_from@),
                proofs_txs_to: proof_views(proofs_txs_to@),
            }).outcome() is Some,
        ensures
            Some(result) == (Transition {
                pre_state_root,
                txs: txs@,
                deposits: deposits@,
                forced_txs: forced_txs@,
                proofs_deposits: proof_views(proofs_deposits@),
                proofs_forced_from: proof_views(proofs_forced_from@),
                proofs_forced_to: proof_views(proofs_forced_to@),
                proofs_txs_from: proof_views(proofs_txs_from@),
                proofs_txs_to: proof_views(proofs_txs_to@),
            }).outcome(),
    {
        let outcome: Option<Result<(Hash32, Hash32, Hash32), StfError>> = Self::try_transition(
            pre_state_root,
            txs.as_slice(),
            deposits.as_slice(),
            forced_txs.as_slice(),
            proofs_deposits.as_slice(),
            proofs_forced_from.as_slice(),
            proofs_forced_to.as_slice(),
            proofs_txs_from.as_slice(),
            proofs_txs_to.as_slice(),
        );
        outcome.unwrap()
    }

    /// As `execute_transition`, on any input: `None` where a proof is missing that the transition
    /// comes to, or a nonce is exhausted.
    pub fn try_transition(
        pre_state_root: Hash32,
        txs: &[Transaction],
        deposits: &[Deposit],
        forced_txs: &[ForcedTx],
        proofs_deposits: &[MerkleProof],
        proofs_forced_from: &[MerkleProof],
        proofs_forced_to: &[MerkleProof],
        proofs_txs_from: &[MerkleProof],
        proofs_txs_to: &[MerkleProof],
    ) -> (outcome: Option<Result<(Hash32, Hash32, Hash32), StfError>>)
        ensures
            outcome == (Transition {
                pre_state_root,
                txs: txs@,
                deposits: deposits@,
                forced_txs: forced_txs@,
                proofs_deposits: proof_views(proofs_deposits@),
                proofs_forced_from: proof_views(proofs_forced_from@),
                proofs_forced_to: proof_views(proofs_forced_to@),
                proofs_txs_from: proof_views(proofs_txs_from@),
                proofs_txs_to: proof_views(proofs_txs_to@),
            }).outcome(),
    {
        let deposits_hash: Hash32 = hash_deposits(deposits);
        let forced_txs_hash: Hash32 = hash_forced_txs(forced_txs);
        let after_deposits: Hash32 = match Self::all_deposits(
            pre_state_root,
            deposits,
            proofs_deposits,
        ) {
            Progress::At(root) => root,
            Progress::Refused(e) => return Some(Err(e)),
            Progress::Stuck => return None,
        };
        let after_forced: Hash32 = match Self::all_forced(
            after_deposits,
            forced_txs,
            proofs_forced_from,
            proofs_forced_to,
        ) {
            Progress::At(root) => root,
            Progress::Refused(e) => return Some(Err(e)),
            Progress::Stuck => return None,
        };
        match Self::all_txs(after_forced, txs, proofs_txs_from, proofs_txs_to) {
            Progress::At(root) => Some(Ok((root, deposits_hash, forced_txs_hash))),
            Progress::Refused(e) => Some(Err(e)),
            Progress::Stuck => None,
        }
    }

    fn all_deposits(root: Hash32, deposits: &[Deposit], proofs: &[MerkleProof]) -> (end: Progress)
        ensures
            end.run() == run_deposits(root, deposits@, proof_views(proofs@), deposits@.len()),
    {
        let mut current_root: Hash32 = root;
        let mut i: usize = 0;
        while i < deposits.len()
            invariant
                i <= deposits@.len(),
                Run::At(current_root) == run_deposits(
                    root,
                    deposits@,
                    proof_views(proofs@),
                    i as nat,
                ),
            decreases deposits@.len() - i,
        {
            let next: Progress = step_deposit(current_root, &deposits[i], proofs, i);
            assert(next.run() == run_deposits(
                root,
                deposits@,
                proof_views(proofs@),
                (i + 1) as nat,
            ));
            match next {
                Progress::At(after) => {
                    current_root = after;
                },
                stopped => {
                    proof {
                        lemma_deposits_stop(
                            root,
                            deposits@,
                            proof_views(proofs@),
                            (i + 1) as nat,
                            deposits@.len(),
                        );
                    }
                    return stopped;
                },
            }
            i = i + 1;
        }
        Progress::At(current_root)
    }

    fn all_forced(
        root: Hash32,
        txs: &[ForcedTx],
        proofs_from: &[MerkleProof],
        proofs_to: &[MerkleProof],
    ) -> (end: Progress)
        ensures
            end.run() == run_forced(
                root,
                txs@,
                proof_views(proofs_from@),
                proof_views(proofs_to@),
                txs@.len(),
            ),
    {
        let zero_address: Hash32 = zero_hash();
        let mut current_root: Hash32 = root;
        let mut i: usize = 0;
        while i < txs.len()
            invariant
                i <= txs@.len(),
                zero_address == zero(),
                Run::At(current_root) == run_forced(
                    root,
                    txs@,
                    proof_views(proofs_from@),
                    proof_views(proofs_to@),
                    i as nat,
                ),
            decreases txs@.len() - i,
        {
            let tx: &ForcedTx = &txs[i];
            let next: Progress = if same_hash(&tx.from, &zero_address) {
                Progress::At(current_root)
            } else {
                step_transfer(
                    current_root,
                    tx.to,
                    tx.nonce,
                    tx.amount,
                    tx.fee,
                    proofs_from,
                    proofs_to,
                    i,
                )
            };
            assert(next.run() == run_forced(
                root,
                txs@,
                proof_views(proofs_from@),
                proof_views(proofs_to@),
                (i + 1) as nat,
            ));
            match next {
                Progress::At(after) => {
                    current_root = after;
                },
                stopped => {
                    proof {
                        lemma_forced_stop(
                            root,
                            txs@,
                            proof_views(proofs_from@),
                            proof_views(proofs_to@),
                            (i + 1) as nat,
                            txs@.len(),
                        );
                    }
                    return stopped;
                },
            }
            i = i + 1;
        }
        Progress::At(current_root)
    }

    fn all_txs(
        root: Hash32,
        txs: &[Transaction],
        proofs_from: &[MerkleProof],
        proofs_to: &[MerkleProof],
    ) -> (end: Progress)
        ensures
            end.run() == run_txs(
                root,
                txs@,
                proof_views(proofs_from@),
                proof_views(proofs_to@),
                txs@.len(),
            ),
    {
        let mut current_root: Hash32 = root;
        let mut i: usize = 0;
        while i < txs.len()
            invariant
                i <= txs@.len(),
                Run::At(current_root) == run_txs(
                    root,
                    txs@,
                    proof_views(proofs_from@),
                    proof_views(proofs_to@),
                    i as nat,
                ),
            decreases txs@.len() - i,
        {
            let tx: &Transaction = &txs[i];
            let next: Progress = step_transfer(
                current_root,
                tx.to,
                tx.nonce,
                tx.amount,
                tx.fee,
                proofs_from,
                proofs_to,
                i,
            );
            assert(next.run() == run_txs(
                root,
                txs@,
                proof_views(proofs_from@),
                proof_views(proofs_to@),
                (i + 1) as nat,
            ));
            match next {
                Progress::At(after) => {
                    current_root = after;
                },
                stopped => {
                    proof {
                        lemma_txs_stop(
                            root,
                            txs@,
                            proof_views(proofs_from@),
                            proof_views(proofs_to@),
                            (i + 1) as nat,
                            txs@.len(),
                        );
                    }
                    return stopped;
                },
            }
            i = i + 1;
        }
        Progress::At(current_root)
    }

    /// Carries out a transition and encodes what a proof of it makes public: the roots before and
    /// after it, and the commitments to the deposits and the forced transactions.
    pub fn public_values(
        pre_state_root: Hash32,
        txs: &[Transaction],
        deposits: &[Deposit],
        forced_txs: &[ForcedTx],
        proofs_deposits: &[MerkleProof],
        proofs_forced_from: &[MerkleProof],
        proofs_forced_to: &[MerkleProof],
        proofs_txs_from: &[MerkleProof],
        proofs_txs_to: &[MerkleProof],
    ) -> (outcome: Option<Result<Vec<u8>, StfError>>)
        ensures
            ({
                let public_bytes = (Transition {
                    pre_state_root,
                    txs: txs@,
                    deposits: deposits@,
                    forced_txs: forced_txs@,
                    proofs_deposits: proof_views(proofs_deposits@),
                    proofs_forced_from: proof_views(proofs_forced_from@),
                    proofs_forced_to: proof_views(proofs_forced_to@),
                    proofs_txs_from: proof_views(proofs_txs_from@),
                    proofs_txs_to: proof_views(proofs_txs_to@),
                }).public_bytes();
                match outcome {
                    Some(Ok(bytes)) => public_bytes == Some(Ok::<Seq<u8>, StfError>(bytes@)),
                    Some(Err(e)) => public_bytes == Some(Err::<Seq<u8>, StfError>(e)),
                    None => public_bytes is None,
                }
            }),
    {
        match Self::try_transition(
            pre_state_root,
            txs,
            deposits,
            forced_txs,
            proofs_deposits,
            proofs_forced_from,
            proofs_forced_to,
            proofs_txs_from,
            proofs_txs_to,
        ) {
            Some(Ok((post_state_root, deposits_hash, forced_txs_hash))) => {
                let deposits_len: u32 = low_32_bits(deposits.len());
                let forced_txs_len: u32 = low_32_bits(forced_txs.len());
                let values: PublicValues = PublicValues {
                    pre_state_root,
                    post_state_root,
                    deposits_commitment: build_commitment(&deposits_hash, deposits_len),
                    forced_txs_commitment: build_commitment(&forced_txs_hash, forced_txs_len),
                };
                Some(Ok(values.abi_encode()))
            },
            Some(Err(e)) => Some(Err(e)),
            None => None,
        }
    }
}

/// `n` modulo 2^32.
fn low_32_bits(n: usize) -> (low: u32)
    ensures
        low == (n as nat) % 0x1_0000_0000,
{
    let wide: u64 = n as u64;
    (wide % 0x1_0000_0000) as u32
}

proof fn lemma_deposits_stop(
    root: Hash32,
    deposits: Seq<Deposit>,
    proofs: Seq<ProofView>,
    i: nat,
    n: nat,
)
    requires
        i <= n,
        !(run_deposits(root, deposits, proofs, i) is At),
    ensures
        run_deposits(root, deposits, proofs, n) == run_deposits(root, deposits, proofs, i),
    decreases n,
{
    if i < n {
        lemma_deposits_stop(root, deposits, proofs, i, (n - 1) as nat);
    }
}

proof fn lemma_forced_stop(
    root: Hash32,
    txs: Seq<ForcedTx>,
    from: Seq<ProofView>,
    to: Seq<ProofView>,
    i: nat,
    n: nat,
)
    requires
        i <= n,
        !(run_forced(root, txs, from, to, i) is At),
    ensures
        run_forced(root, txs, from, to, n) == run_forced(root, txs, from, to, i),
    decreases n,
{
    if i < n {
        lemma_forced_stop(root, txs, from, to, i, (n - 1) as nat);
    }
}

proof fn lemma_txs_stop(
    root: Hash32,
    txs: Seq<Transaction>,
    from: Seq<ProofView>,
    to: Seq<ProofView>,
    i: nat,
    n: nat,
)
    requires
        i <= n,
        !(run_txs(root, txs, from, to, i) is At),
    ensures
        run_txs(root, txs, from, to, n) == run_txs(root, txs, from, to, i),
    decreases n,
{
    if i < n {
        lemma_txs_stop(root, txs, from, to, i, (n - 1) as nat);
    }
}

/// A transfer that goes through moves the amount and burns the fee: nothing else comes or goes.
pub proof fn law_transfer_conserves_value(
    from: Account,
    to: Account,
    nonce: u64,
    amount: u64,
    fee: u64,
)
    ensures
        transferred(from, to, nonce, amount, fee) matches Ok(
            TransactionResult::Success(updated_from, updated_to),
        ) ==> updated_from.balance + updated_to.balance + fee == from.balance + to.balance
            && updated_from.balance + amount + fee == from.balance && updated_to.balance
            == to.balance + amount && updated_to.nonce == to.nonce,
{
}

/// A transfer that is not covered costs the sender the fee, or all there is if that is less.
pub proof fn law_failed_transfer_costs_the_fee(
    from: Account,
    to: Account,
    nonce: u64,
    amount: u64,
    fee: u64,
)
    ensures
        transferred(from, to, nonce, amount, fee) matches Ok(
            TransactionResult::Failure(updated_from),
        ) ==> from.balance < amount + fee && updated_from.balance <= from.balance && from.balance
            - updated_from.balance == if from.balance < fee {
            from.balance
        } else {
            fee
        },
{
}

/// A transfer that is carried out, covered or not, uses up the sender's nonce, so that it is
/// refused when it comes again.
pub proof fn law_transfer_is_not_repeated(
    from: Account,
    to: Account,
    to_again: Account,
    nonce: u64,
    amount: u64,
    fee: u64,
)
    requires
        !nonce_exhausted(from, nonce),
    ensures
        transferred(from, to, nonce, amount, fee) matches Ok(result) ==> {
            let updated_from = match result {
                TransactionResult::Success(updated_from, _) => updated_from,
                TransactionResult::Failure(updated_from) => updated_from,
            };
            &&& updated_from.id == from.id
            &&& updated_from.nonce == from.nonce + 1
            &&& transferred(updated_from, to_again, nonce, amount, fee) == Err::<
                TransactionResult,
                StfError,
            >(StfError::InvalidNonce { expected: updated_from.nonce, got: nonce })
        },
{
}

/// A deposit changes the balance only.
pub proof fn law_deposit_keeps_identity(account: Account, amount: u64)
    ensures
        deposited(account, amount) matches Ok(updated) ==> updated.id == account.id
            && updated.nonce == account.nonce && updated.balance == account.balance + amount,
        deposited(account, amount) is Err <==> account.balance + amount > u64::MAX,
{
}

/// A block with nothing in it leaves the state root, whatever proofs come with it.
pub proof fn law_empty_block_keeps_the_root(transition: Transition)
    requires
        transition.txs.len() == 0,
        transition.deposits.len() == 0,
        transition.forced_txs.len() == 0,
    ensures
        transition.outcome() == Some(
            Ok::<(Hash32, Hash32, Hash32), StfError>(
                (transition.pre_state_root, keccak256(Seq::empty()), keccak256(Seq::empty())),
            ),
        ),
{
}

/// Forced transfers from the zero address leave the state root and need no proofs.
pub proof fn law_dummies_keep_the_root(
    root: Hash32,
    txs: Seq<ForcedTx>,
    proofs_from: Seq<ProofView>,
    proofs_to: Seq<ProofView>,
    n: nat,
)
    requires
        n <= txs.len(),
        forall|i: int| 0 <= i < n ==> (#[trigger] txs[i]).from == zero(),
    ensures
        run_forced(root, txs, proofs_from, proofs_to, n) == Run::At(root),
    decreases n,
{
    if n > 0 {
        law_dummies_keep_the_root(root, txs, proofs_from, proofs_to, (n - 1) as nat);
        assert(txs[n - 1].from == zero());
    }
}

/// Deposits can be split over two blocks: the second goes on from the root of the first.
pub proof fn law_deposits_split(
    root: Hash32,
    first: Seq<Deposit>,
    second: Seq<Deposit>,
    first_proofs: Seq<ProofView>,
    second_proofs: Seq<ProofView>,
    n: nat,
)
    requires
        first_proofs.len() == first.len(),
        n <= second.len(),
    ensures
        run_deposits(root, first + second, first_proofs + second_proofs, first.len() + n) == match (
        run_deposits(root, first, first_proofs, first.len())) {
            Run::At(between) => run_deposits(between, second, second_proofs, n),
            stopped => stopped,
        },
    decreases n,
{
    if n == 0 {
        lemma_deposits_prefix(root, first, second, first_proofs, second_proofs, first.len());
    } else {
        law_deposits_split(root, first, second, first_proofs, second_proofs, (n - 1) as nat);
        assert((first + second)[first.len() + n - 1] == second[n - 1]);
        let i = first.len() + n - 1;
        if i < (first_proofs + second_proofs).len() {
            assert((first_proofs + second_proofs)[i] == second_proofs[n - 1]);
        }
    }
}

proof fn lemma_deposits_prefix(
    root: Hash32,
    first: Seq<Deposit>,
    second: Seq<Deposit>,
    first_proofs: Seq<ProofView>,
    second_proofs: Seq<ProofView>,
    n: nat,
)
    requires
        first_proofs.len() == first.len(),
        n <= first.len(),
    ensures
        run_deposits(root, first + second, first_proofs + second_proofs, n) == run_deposits(
            root,
            first,
            first_proofs,
            n,
        ),
    decreases n,
{
    if n > 0 {
        lemma_deposits_prefix(root, first, second, first_proofs, second_proofs, (n - 1) as nat);
        assert((first + second)[n - 1] == first[n - 1]);
        assert((first_proofs + second_proofs)[n - 1] == first_proofs[n - 1]);
    }
}

/// A block that is accepted makes public the root that it started from and the root that it led
/// to, in four words.
pub proof fn law_public_bytes_name_the_roots(transition: Transition)
    ensures
        transition.public_bytes() matches Some(Ok(bytes)) ==> bytes.len() == 128 && bytes.take(32)
            == transition.pre_state_root@ && (transition.outcome() matches Some(Ok((root, _, _)))
            && bytes.subrange(32, 64) == root@),
{
    if let Some(Ok((root, deposits_hash, forced_hash))) = transition.outcome() {
        let deposits_count = (transition.deposits.len() % 0x1_0000_0000) as u32;
        let forced_count = (transition.forced_txs.len() % 0x1_0000_0000) as u32;
        lemma_be_bytes_len(deposits_count as nat, 4);
        lemma_be_bytes_len(forced_count as nat, 4);
        let bytes = transition.pre_state_root@ + root@ + commitment(deposits_hash@, deposits_count)
            + commitment(forced_hash@, forced_count);
        assert(bytes.take(32) =~= transition.pre_state_root@);
        assert(bytes.subrange(32, 64) =~= root@);
    }
}

/// Forced transfers that are no dummies run like the same transfers handed in by their senders.
pub proof fn law_forced_transfers_run_like_transfers(
    root: Hash32,
    forced: Seq<ForcedTx>,
    txs: Seq<Transaction>,
    proofs_from: Seq<ProofView>,
    proofs_to: Seq<ProofView>,
    n: nat,
)
    requires
        n <= forced.len() == txs.len(),
        forall|i: int|
            0 <= i < n ==> (#[trigger] forced[i]).from != zero() && forced[i].to == txs[i].to
                && forced[i].nonce == txs[i].nonce && forced[i].amount == txs[i].amount
                && forced[i].fee == txs[i].fee,
    ensures
        run_forced(root, forced, proofs_from, proofs_to, n) == run_txs(
            root,
            txs,
            proofs_from,
            proofs_to,
            n,
        ),
    decreases n,
{
    if n > 0 {
        law_forced_transfers_run_like_transfers(
            root,
            forced,
            txs,
            proofs_from,
            proofs_to,
            (n - 1) as nat,
        );
        assert(forced[n - 1].from != zero());
    }
}

/// A transfer comes out as its numbers say, and in no other way. A nonce that is not due refuses it;
/// else amount and fee beyond 64 bits; else, where the sender cannot pay both, the fee is charged as
/// far as it goes; else a recipient beyond 64 bits refuses it; else both sides are settled.
pub proof fn law_transfer_comes_out_by_its_numbers(
    from: Account,
    to: Account,
    nonce: u64,
    amount: u64,
    fee: u64,
)
    requires
        from.nonce != nonce || nonce < u64::MAX,
    ensures
        ({
            let result = transferred(from, to, nonce, amount, fee);
            &&& from.nonce != nonce ==> result == Err::<TransactionResult, StfError>(
                StfError::InvalidNonce { expected: from.nonce, got: nonce },
            )
            &&& from.nonce == nonce && amount + fee > u64::MAX ==> result == Err::<
                TransactionResult,
                StfError,
            >(StfError::BalanceOverflow)
            &&& from.nonce == nonce && amount + fee <= u64::MAX && from.balance < amount + fee ==> (
            result matches Ok(TransactionResult::Failure(payer)) && payer.id == from.id
                && payer.nonce == nonce + 1 && (from.balance >= fee ==> payer.balance + fee
                == from.balance) && (from.balance < fee ==> payer.balance == 0))
            &&& from.nonce == nonce && from.balance >= amount + fee && to.balance + amount
                > u64::MAX ==> result == Err::<TransactionResult, StfError>(
                StfError::BalanceOverflow,
            )
            &&& from.nonce == nonce && from.balance >= amount + fee && to.balance + amount
                <= u64::MAX ==> (result matches Ok(TransactionResult::Success(payer, payee))
                && payer.id == from.id && payer.nonce == nonce + 1 && payer.balance + amount + fee
                == from.balance && payee.id == to.id && payee.nonce == to.nonce && payee.balance
                == to.balance + amount)
        }),
{
}

/// A nonce that cannot be counted up counts as exhausted exactly where it is due.
pub proof fn law_exhausted_nonce(from: Account, nonce: u64)
    ensures
        nonce_exhausted(from, nonce) <==> from.nonce == nonce && nonce + 1 > u64::MAX,
{
}

/// A deposit raises the balance by its amount, or is refused where the balance would not fit.
pub proof fn law_deposit_comes_out_by_its_amount(account: Account, amount: u64)
    ensures
        account.balance + amount > u64::MAX ==> deposited(account, amount) == Err::<
            Account,
            StfError,
        >(StfError::BalanceOverflow),
        account.balance + amount <= u64::MAX ==> (deposited(account, amount) matches Ok(credited)
            && credited.id == account.id && credited.nonce == account.nonce && credited.balance
            - account.balance == amount),
{
}

/// A transition without deposits is where it started. Each deposit whose proof verifies and whose
/// amount fits takes the transition to the root that the path gives for the account with the raised
/// balance, against which the same path proves the credited account; any other deposit refuses the
/// block, and one without a proof cannot be carried out.
pub proof fn law_deposit_moves_the_root_to_the_credited_account(
    root: Hash32,
    deposits: Seq<Deposit>,
    proofs: Seq<ProofView>,
    n: nat,
    before: Hash32,
    credited: Account,
)
    requires
        n < deposits.len(),
        run_deposits(root, deposits, proofs, n) == Run::At(before),
        n < proofs.len() ==> credited.id == proofs[n as int].account.id && credited.nonce
            == proofs[n as int].account.nonce,
    ensures
        run_deposits(root, deposits, proofs, 0) == Run::At(root),
        ({
            let next = run_deposits(root, deposits, proofs, n + 1);
            let proof = proofs[n as int];
            let amount = deposits[n as int].amount;
            let proven = path_root(account_hash(proof.account), proof.siblings) == before;
            &&& n >= proofs.len() ==> next == Run::Stuck
            &&& n < proofs.len() && !proven ==> next == Run::Refused(
                StfError::MerkleProofVerificationFailed,
            )
            &&& n < proofs.len() && proven && proof.account.balance + amount > u64::MAX ==> next
                == Run::Refused(StfError::BalanceOverflow)
            &&& n < proofs.len() && proven && proof.account.balance + amount == credited.balance
                ==> next == Run::At(path_root(account_hash(credited), proof.siblings)) && (
            ProofView { account: credited, siblings: proof.siblings }).verifies(
                path_root(account_hash(credited), proof.siblings),
            )
        }),
{
    if n < proofs.len() && proofs[n as int].account.balance + deposits[n as int].amount
        == credited.balance {
        assert(credited == (Account {
            balance: (proofs[n as int].account.balance + deposits[n as int].amount) as u64,
            ..proofs[n as int].account
        }));
    }
}

/// A transition without transfers is where it started. Each transfer must come with a proof of its
/// sender against the root so far, and with the sender's nonce. One that is not covered takes the
/// transition to the root that the sender's path gives for the sender who paid the fee. One that is
/// covered goes on from the root that the path gives for the sender who paid, must come with a proof
/// of the recipient's slot against that root, and takes the transition to the root that the
/// recipient's path gives for an account that holds the amount alone.
pub proof fn law_transfer_moves_the_root_to_both_accounts(
    root: Hash32,
    txs: Seq<Transaction>,
    proofs_from: Seq<ProofView>,
    proofs_to: Seq<ProofView>,
    n: nat,
    before: Hash32,
    payer: Account,
    payee: Account,
)
    requires
        n < txs.len(),
        run_txs(root, txs, proofs_from, proofs_to, n) == Run::At(before),
        n < proofs_from.len() ==> payer.id == proofs_from[n as int].account.id && payer.nonce
            == proofs_from[n as int].account.nonce + 1,
        payee.id == txs[n as int].to,
        payee.balance == txs[n as int].amount,
        payee.nonce == 0,
    ensures
        run_txs(root, txs, proofs_from, proofs_to, 0) == Run::At(root),
        ({
            let next = run_txs(root, txs, proofs_from, proofs_to, n + 1);
            let tx = txs[n as int];
            let proof = proofs_from[n as int];
            let slot = proofs_to[n as int];
            let sender = proof.account;
            let between = path_root(account_hash(payer), proof.siblings);
            let due = path_root(account_hash(sender), proof.siblings) == before && sender.nonce
                == tx.nonce;
            &&& tx.amount + tx.fee > u64::MAX && due ==> next == Run::Refused(
                StfError::BalanceOverflow,
            )
            &&& due && sender.balance < tx.amount + tx.fee && tx.amount + tx.fee <= u64::MAX
                && payer.balance == (if sender.balance < tx.fee {
                0
            } else {
                sender.balance - tx.fee
            }) ==> next == Run::At(between)
            &&& due && sender.balance == payer.balance + tx.amount + tx.fee ==> {
                &&& n >= proofs_to.len() ==> next == Run::Stuck
                &&& n < proofs_to.len() && path_root(account_hash(slot.account), slot.siblings)
                    != between ==> next == Run::Refused(StfError::MerkleProofVerificationFailed)
                &&& n < proofs_to.len() && path_root(account_hash(slot.account), slot.siblings)
                    == between ==> next == Run::At(path_root(account_hash(payee), slot.siblings))
            }
        }) || n >= proofs_from.len(),
{
    if n < proofs_from.len() {
        let tx = txs[n as int];
        let sender = proofs_from[n as int].account;
        let left: u64 = if sender.balance < tx.fee {
            0
        } else {
            (sender.balance - tx.fee) as u64
        };
        if payer.balance == left {
            assert(payer == (Account {
                nonce: (sender.nonce + 1) as u64,
                balance: left,
                ..sender
            }));
        }
        if sender.balance == payer.balance + tx.amount + tx.fee {
            assert(payer == (Account {
                nonce: (sender.nonce + 1) as u64,
                balance: (sender.balance - tx.amount - tx.fee) as u64,
                ..sender
            }));
            assert(payee == (Account { balance: (0 + tx.amount) as u64, ..Account::fresh(tx.to) }));
        }
    }
}

/// A transfer whose sender is not proven, whose nonce is not due, or which has no proof of its
/// sender, refuses the block or cannot be carried out.
pub proof fn law_transfer_must_be_proven_and_due(
    root: Hash32,
    txs: Seq<Transaction>,
    proofs_from: Seq<ProofView>,
    proofs_to: Seq<ProofView>,
    n: nat,
    before: Hash32,
)
    requires
        n < txs.len(),
        run_txs(root, txs, proofs_from, proofs_to, n) == Run::At(before),
    ensures
        ({
            let next = run_txs(root, txs, proofs_from, proofs_to, n + 1);
            let proof = proofs_from[n as int];
            let proven = path_root(account_hash(proof.account), proof.siblings) == before;
            let nonce = txs[n as int].nonce;
            &&& n >= proofs_from.len() ==> next == Run::Stuck
            &&& n < proofs_from.len() && !proven ==> next == Run::Refused(
                StfError::MerkleProofVerificationFailed,
            )
            &&& n < proofs_from.len() && proven && proof.account.nonce != nonce ==> next
                == Run::Refused(
                StfError::InvalidNonce { expected: proof.account.nonce, got: nonce },
            )
            &&& n < proofs_from.len() && proven && proof.account.nonce == nonce && nonce
                == u64::MAX ==> next == Run::Stuck
        }),
{
}

/// A forced transfer that is no dummy does to the root what the same transfer does when its sender
/// hands it in, from the root so far and with the same proofs, and without a proof of its sender it
/// cannot be carried out; a dummy leaves the root and needs no proofs.
pub proof fn law_forced_transfer_moves_the_root_like_a_transfer(
    root: Hash32,
    forced: Seq<ForcedTx>,
    proofs_from: Seq<ProofView>,
    proofs_to: Seq<ProofView>,
    n: nat,
    before: Hash32,
    tx: Transaction,
)
    requires
        n < forced.len(),
        run_forced(root, forced, proofs_from, proofs_to, n) == Run::At(before),
        tx.to == forced[n as int].to,
        tx.nonce == forced[n as int].nonce,
        tx.amount == forced[n as int].amount,
        tx.fee == forced[n as int].fee,
    ensures
        run_forced(root, forced, proofs_from, proofs_to, 0) == Run::At(root),
        ({
            let next = run_forced(root, forced, proofs_from, proofs_to, n + 1);
            let slots = if n < proofs_to.len() {
                seq![proofs_to[n as int]]
            } else {
                Seq::empty()
            };
            &&& forced[n as int].from == zero() ==> next == Run::At(before)
            &&& forced[n as int].from != zero() && n >= proofs_from.len() ==> next == Run::Stuck
            &&& forced[n as int].from != zero() && n < proofs_from.len() ==> next == run_txs(
                before,
                seq![tx],
                seq![proofs_from[n as int]],
                slots,
                1,
            )
        }),
{
    let slots = if n < proofs_to.len() {
        seq![proofs_to[n as int]]
    } else {
        Seq::empty()
    };
    assert(run_txs(before, seq![tx], seq![proofs_from[n as int]], slots, 0) == Run::At(before));
    assert(seq![tx][0] == tx);
}

/// Once a transition stops, it stays as it stopped, however many items follow.
pub proof fn law_stopped_transition_stays(
    root: Hash32,
    deposits: Seq<Deposit>,
    forced: Seq<ForcedTx>,
    txs: Seq<Transaction>,
    from: Seq<ProofView>,
    to: Seq<ProofView>,
    i: nat,
    n: nat,
)
    requires
        i <= n,
    ensures
        !(run_deposits(root, deposits, from, i) is At) ==> run_deposits(root, deposits, from, n)
            == run_deposits(root, deposits, from, i),
        !(run_forced(root, forced, from, to, i) is At) ==> run_forced(root, forced, from, to, n)
            == run_forced(root, forced, from, to, i),
        !(run_txs(root, txs, from, to, i) is At) ==> run_txs(root, txs, from, to, n) == run_txs(
            root,
            txs,
            from,
            to,
            i,
        ),
{
    if !(run_deposits(root, deposits, from, i) is At) {
        lemma_deposits_stop(root, deposits, from, i, n);
    }
    if !(run_forced(root, forced, from, to, i) is At) {
        lemma_forced_stop(root, forced, from, to, i, n);
    }
    if !(run_txs(root, txs, from, to, i) is At) {
        lemma_txs_stop(root, txs, from, to, i, n);
    }
}

/// A transition goes through all deposits, then all forced transfers, then all transfers, each part
/// from the root of the part before. It gives the last root and the digests of all deposits and all
/// forced transactions; where a part is refused, the block is refused in the same way, and where a
/// part cannot be carried out, there is no outcome.
pub proof fn law_transition_goes_through_all_items(
    transition: Transition,
    second: Hash32,
    third: Hash32,
)
    ensures
        ({
            let t = transition;
            let deposits = run_deposits(
                t.pre_state_root,
                t.deposits,
                t.proofs_deposits,
                t.deposits.len(),
            );
            let forced = run_forced(
                second,
                t.forced_txs,
                t.proofs_forced_from,
                t.proofs_forced_to,
                t.forced_txs.len(),
            );
            let txs = run_txs(
                third,
                t.txs,
                t.proofs_txs_from,
                t.proofs_txs_to,
                t.txs.len(),
            );
            &&& deposits matches Run::Refused(e) ==> t.outcome() == Some(
                Err::<(Hash32, Hash32, Hash32), StfError>(e),
            )
            &&& deposits is Stuck ==> t.outcome() is None
            &&& deposits == Run::At(second) ==> {
                &&& forced matches Run::Refused(e) ==> t.outcome() == Some(
                    Err::<(Hash32, Hash32, Hash32), StfError>(e),
                )
                &&& forced is Stuck ==> t.outcome() is None
                &&& forced == Run::At(third) ==> {
                    &&& txs matches Run::Refused(e) ==> t.outcome() == Some(
                        Err::<(Hash32, Hash32, Hash32), StfError>(e),
                    )
                    &&& txs is Stuck ==> t.outcome() is None
                    &&& txs matches Run::At(last) ==> t.outcome() == Some(
                        Ok::<(Hash32, Hash32, Hash32), StfError>(
                            (
                                last,
                                keccak256(deposit_digests(t.deposits)),
                                keccak256(forced_digests(t.forced_txs)),
                            ),
                        ),
                    )
                }
            }
        }),
{
}

/// What a transition makes public are four words: the roots before and after it, and for deposits
/// and forced transactions the first 28 bytes of their digest with their number, which is taken
/// modulo 2^32. A refused block makes its refusal known, and one that cannot be carried out nothing.
pub proof fn law_public_bytes_layout(transition: Transition)
    ensures
        match transition.outcome() {
            None => transition.public_bytes() is None,
            Some(Err(e)) => transition.public_bytes() == Some(Err::<Seq<u8>, StfError>(e)),
            Some(Ok((root, deposits_hash, forced_hash))) => {
                &&& transition.public_bytes() matches Some(Ok(bytes))
                &&& bytes.len() == 128
                &&& bytes.subrange(0, 32) == transition.pre_state_root@
                &&& bytes.subrange(32, 64) == root@
                &&& bytes.subrange(64, 92) == deposits_hash@.subrange(0, 28)
                &&& be_value(bytes.subrange(92, 96)) == transition.deposits.len() % 0x1_0000_0000
                &&& bytes.subrange(96, 124) == forced_hash@.subrange(0, 28)
                &&& be_value(bytes.subrange(124, 128)) == transition.forced_txs.len()
                    % 0x1_0000_0000
            },
        },
{
    if let Some(Ok((root, deposits_hash, forced_hash))) = transition.outcome() {
        let deposits_count = (transition.deposits.len() % 0x1_0000_0000) as u32;
        let forced_count = (transition.forced_txs.len() % 0x1_0000_0000) as u32;
        let d = commitment(deposits_hash@, deposits_count);
        let f = commitment(forced_hash@, forced_count);
        law_commitment_layout(deposits_hash, deposits_count);
        law_commitment_layout(forced_hash, forced_count);
        let bytes = transition.pre_state_root@ + root@ + d + f;
        assert(bytes.subrange(0, 32) =~= transition.pre_state_root@);
        assert(bytes.subrange(32, 64) =~= root@);
        assert(d.take(28) =~= bytes.subrange(64, 92));
        assert(deposits_hash@.take(28) =~= deposits_hash@.subrange(0, 28));
        assert(d.skip(28) =~= bytes.subrange(92, 96));
        assert(f.take(28) =~= bytes.subrange(96, 124));
        assert(forced_hash@.take(28) =~= forced_hash@.subrange(0, 28));
        assert(f.skip(28) =~= bytes.subrange(124, 128));
    }
}

/// What a list of proofs holds is what its proofs hold, in their order.
pub proof fn law_proof_list_view(proofs: Seq<MerkleProof>, i: int)
    ensures
        proof_views(proofs).len() == proofs.len(),
        0 <= i < proofs.len() ==> proof_views(proofs)[i].account == proofs[i].account
            && proof_views(proofs)[i].siblings == proofs[i].siblings@,
{
}

} // verus!
