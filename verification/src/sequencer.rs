//! The sequencer's work on a block before it is proven.
use crate::error::{CoreErrorView, SequencerError, SequencerErrorView};
use crate::executor::{
    commits, deposit_effect, deposit_lines, finish_commit, forced_effect, forced_lines, loaded,
    root_or_zero, tx_effect, tx_lines, Applied, BlockExecutor, Commit, InsertReply,
};
use crate::hash::{zero_hash, Hash32};
use crate::notes::{lines_view, no_lines, push_line};
use crate::tree::{
    account_at, law_no_account_from_a_leaf, Halt, HaltView, TreeQuery, TreeReads, TreeView,
};
use crate::types::{
    law_block_view, Account, BlockView, Deposit, ForcedTx, PendingBlock, Transaction,
};
use std::collections::VecDeque;
use vstd::prelude::*;

verus! {

/// The transfers that wait for a block, in the order in which they came.
pub struct Mempool {
    txs: VecDeque<Transaction>,
}

impl View for Mempool {
    type V = Seq<Transaction>;

    closed spec fn view(&self) -> Seq<Transaction> {
        self.txs@
    }
}

impl Mempool {
    /// Nothing waits.
    pub fn new() -> (mempool: Self)
        ensures
            mempool@ == Seq::<Transaction>::empty(),
    {
        Mempool { txs: VecDeque::new() }
    }

    /// Takes a transfer in, behind those that wait.
    pub fn submit(&mut self, tx: Transaction)
        ensures
            final(self)@ == old(self)@.push(tx),
    {
        self.txs.push_back(tx);
    }

    /// The transfers that wait.
    pub fn snapshot(&self) -> (txs: Vec<Transaction>)
        ensures
            txs@ == self@,
    {
        let mut txs: Vec<Transaction> = Vec::new();
        let mut i: usize = 0;
        while i < self.txs.len()
            invariant
                i <= self.txs@.len(),
                txs@ == self.txs@.take(i as int),
            decreases self.txs@.len() - i,
        {
            let tx: Transaction = self.txs[i];
            txs.push(tx);
            assert(txs@ =~= self.txs@.take(i + 1));
            i = i + 1;
        }
        assert(txs@ =~= self.txs@);
        txs
    }

    /// Drops the first `n` transfers, which went into a block.
    pub fn remove_first(&mut self, n: usize)
        requires
            n <= old(self)@.len(),
        ensures
            final(self)@ == old(self)@.skip(n as int),
    {
        let ghost before = self.txs@;
        let mut i: usize = 0;
        assert(before.skip(0) =~= before);
        while i < n
            invariant
                i <= n,
                n <= before.len(),
                self.txs@ == before.skip(i as int),
            decreases n - i,
        {
            let _ = self.txs.pop_front();
            assert(self.txs@ =~= before.skip(i + 1));
            i = i + 1;
        }
    }
}

/// The roots that the sequencer has reached: of the last proven block, and of the last block at
/// all.
#[derive(Debug, Clone, Copy, PartialEq, Eq)]
pub struct Heads {
    pub proven: Hash32,
    pub optimistic: Hash32,
}

impl Heads {
    /// The heads after a block that leads to `root` was built.
    pub open spec fn with_optimistic(self, root: Hash32) -> Heads {
        Heads { optimistic: root, ..self }
    }

    /// The heads after a block that leads to `root` was proven.
    pub open spec fn with_proven(self, root: Hash32) -> Heads {
        Heads { proven: root, ..self }
    }

    /// Both heads at the root that the tree was left at, or at the empty state.
    pub fn new(initial_root: Hash32) -> (heads: Self)
        ensures
            heads == (Heads { proven: initial_root, optimistic: initial_root }),
    {
        Heads { proven: initial_root, optimistic: initial_root }
    }

    /// A block was built.
    pub fn advance_optimistic(&mut self, root: Hash32)
        ensures
            *final(self) == old(self).with_optimistic(root),
    {
        self.optimistic = root;
    }

    /// A block was proven.
    pub fn advance_proven(&mut self, root: Hash32)
        ensures
            *final(self) == old(self).with_proven(root),
    {
        self.proven = root;
    }
}

/// The root that a new sequencer starts from: the one that the tree was left at, or the empty
/// state.
pub fn initial_root(headroot: Option<Hash32>) -> (root: Hash32)
    ensures
        root == root_or_zero(headroot),
{
    match headroot {
        Some(root) => root,
        None => zero_hash(),
    }
}

/// The accounts after the first `n` deposits.
pub open spec fn after_deposits(
    tree: TreeView,
    root: Option<Hash32>,
    deposits: Seq<Deposit>,
    n: nat,
) -> Result<Map<Hash32, Account>, HaltView>
    decreases n,
{
    if n == 0 {
        Ok(Map::empty())
    } else {
        match after_deposits(tree, root, deposits, (n - 1) as nat) {
            Err(halt) => Err(halt),
            Ok(accounts) => {
                let (after, applied) = deposit_effect(tree, root, accounts, deposits[n - 1]);
                match applied {
                    Ok(_) => Ok(after),
                    Err(halt) => Err(halt),
                }
            },
        }
    }
}

/// The accounts after the first `n` forced transfers.
pub open spec fn after_forced(
    tree: TreeView,
    root: Option<Hash32>,
    start: Map<Hash32, Account>,
    txs: Seq<ForcedTx>,
    n: nat,
) -> Result<Map<Hash32, Account>, HaltView>
    decreases n,
{
    if n == 0 {
        Ok(start)
    } else {
        match after_forced(tree, root, start, txs, (n - 1) as nat) {
            Err(halt) => Err(halt),
            Ok(accounts) => {
                let (after, applied) = forced_effect(tree, root, accounts, txs[n - 1]);
                match applied {
                    Ok(_) => Ok(after),
                    Err(halt) => Err(halt),
                }
            },
        }
    }
}

/// The accounts after the first `n` transfers.
pub open spec fn after_txs(
    tree: TreeView,
    root: Option<Hash32>,
    start: Map<Hash32, Account>,
    txs: Seq<Transaction>,
    n: nat,
) -> Result<Map<Hash32, Account>, HaltView>
    decreases n,
{
    if n == 0 {
        Ok(start)
    } else {
        match after_txs(tree, root, start, txs, (n - 1) as nat) {
            Err(halt) => Err(halt),
            Ok(accounts) => {
                let (after, applied) = tx_effect(tree, root, accounts, txs[n - 1]);
                match applied {
                    Ok(_) => Ok(after),
                    Err(halt) => Err(halt),
                }
            },
        }
    }
}

/// The accounts that a batch has read or changed: deposits first, then forced transfers, then
/// transfers.
pub open spec fn batch_accounts(
    tree: TreeView,
    root: Option<Hash32>,
    txs: Seq<Transaction>,
    deposits: Seq<Deposit>,
    forced_txs: Seq<ForcedTx>,
) -> Result<Map<Hash32, Account>, HaltView> {
    match after_deposits(tree, root, deposits, deposits.len()) {
        Err(halt) => Err(halt),
        Ok(accounts) => match after_forced(tree, root, accounts, forced_txs, forced_txs.len()) {
            Err(halt) => Err(halt),
            Ok(accounts) => after_txs(tree, root, accounts, txs, txs.len()),
        },
    }
}

/// What became of each of the first `n` deposits, as far as the work on them got.
pub open spec fn deposits_applied(
    tree: TreeView,
    root: Option<Hash32>,
    deposits: Seq<Deposit>,
    n: nat,
) -> Seq<Applied>
    decreases n,
{
    if n == 0 {
        Seq::empty()
    } else {
        let before = deposits_applied(tree, root, deposits, (n - 1) as nat);
        match after_deposits(tree, root, deposits, (n - 1) as nat) {
            Err(_) => before,
            Ok(accounts) => match deposit_effect(tree, root, accounts, deposits[n - 1]).1 {
                Ok(applied) => before.push(applied),
                Err(_) => before,
            },
        }
    }
}

/// What became of each of the first `n` forced transfers, as far as the work on them got.
pub open spec fn forced_applied(
    tree: TreeView,
    root: Option<Hash32>,
    start: Map<Hash32, Account>,
    txs: Seq<ForcedTx>,
    n: nat,
) -> Seq<Applied>
    decreases n,
{
    if n == 0 {
        Seq::empty()
    } else {
        let before = forced_applied(tree, root, start, txs, (n - 1) as nat);
        match after_forced(tree, root, start, txs, (n - 1) as nat) {
            Err(_) => before,
            Ok(accounts) => match forced_effect(tree, root, accounts, txs[n - 1]).1 {
                Ok(applied) => before.push(applied),
                Err(_) => before,
            },
        }
    }
}

/// What became of each of the first `n` transfers, as far as the work on them got.
pub open spec fn txs_applied(
    tree: TreeView,
    root: Option<Hash32>,
    start: Map<Hash32, Account>,
    txs: Seq<Transaction>,
    n: nat,
) -> Seq<Applied>
    decreases n,
{
    if n == 0 {
        Seq::empty()
    } else {
        let before = txs_applied(tree, root, start, txs, (n - 1) as nat);
        match after_txs(tree, root, start, txs, (n - 1) as nat) {
            Err(_) => before,
            Ok(accounts) => match tx_effect(tree, root, accounts, txs[n - 1]).1 {
                Ok(applied) => before.push(applied),
                Err(_) => before,
            },
        }
    }
}

/// What became of each item of a batch, as far as the work on the batch got: deposits first, then
/// forced transfers, then transfers.
pub open spec fn batch_applied(
    tree: TreeView,
    root: Option<Hash32>,
    txs: Seq<Transaction>,
    deposits: Seq<Deposit>,
    forced_txs: Seq<ForcedTx>,
) -> Seq<Applied> {
    let of_deposits = deposits_applied(tree, root, deposits, deposits.len());
    match after_deposits(tree, root, deposits, deposits.len()) {
        Err(_) => of_deposits,
        Ok(accounts) => {
            let of_forced = of_deposits + forced_applied(
                tree,
                root,
                accounts,
                forced_txs,
                forced_txs.len(),
            );
            match after_forced(tree, root, accounts, forced_txs, forced_txs.len()) {
                Err(_) => of_forced,
                Ok(accounts) => of_forced + txs_applied(tree, root, accounts, txs, txs.len()),
            }
        },
    }
}

/// What is logged while the first `n` deposits are executed, as far as the work on them gets.
pub open spec fn deposits_lines(
    tree: TreeView,
    root: Option<Hash32>,
    deposits: Seq<Deposit>,
    n: nat,
) -> Seq<Seq<char>>
    decreases n,
{
    if n == 0 {
        no_lines()
    } else {
        deposits_lines(tree, root, deposits, (n - 1) as nat) + match after_deposits(tree, root, deposits, (n - 1) as nat) {
            Ok(accounts) => deposit_lines(tree, root, accounts, deposits[n - 1]),
            Err(_) => no_lines(),
        }
    }
}

/// What is logged while the first `n` forced transfers are executed, as far as the work on them gets.
pub open spec fn all_forced_lines(
    tree: TreeView,
    root: Option<Hash32>,
    start: Map<Hash32, Account>,
    txs: Seq<ForcedTx>,
    n: nat,
) -> Seq<Seq<char>>
    decreases n,
{
    if n == 0 {
        no_lines()
    } else {
        all_forced_lines(tree, root, start, txs, (n - 1) as nat) + match after_forced(tree, root, start, txs, (n - 1) as nat) {
            Ok(accounts) => forced_lines(tree, root, accounts, txs[n - 1]),
            Err(_) => no_lines(),
        }
    }
}

/// What is logged while the first `n` transfers are executed, as far as the work on them gets.
pub open spec fn all_tx_lines(
    tree: TreeView,
    root: Option<Hash32>,
    start: Map<Hash32, Account>,
    txs: Seq<Transaction>,
    n: nat,
) -> Seq<Seq<char>>
    decreases n,
{
    if n == 0 {
        no_lines()
    } else {
        all_tx_lines(tree, root, start, txs, (n - 1) as nat) + match after_txs(tree, root, start, txs, (n - 1) as nat) {
            Ok(accounts) => tx_lines(tree, root, accounts, txs[n - 1]),
            Err(_) => no_lines(),
        }
    }
}

/// What is logged while a batch is executed, as far as the work on it gets.
pub open spec fn batch_lines(
    tree: TreeView,
    root: Option<Hash32>,
    txs: Seq<Transaction>,
    deposits: Seq<Deposit>,
    forced_txs: Seq<ForcedTx>,
) -> Seq<Seq<char>> {
    seq!["apply_optimistic_batch start"@] + deposits_lines(tree, root, deposits, deposits.len())
        + match after_deposits(tree, root, deposits, deposits.len()) {
        Err(_) => no_lines(),
        Ok(accounts) => all_forced_lines(tree, root, accounts, forced_txs, forced_txs.len())
            + match after_forced(tree, root, accounts, forced_txs, forced_txs.len()) {
            Err(_) => no_lines(),
            Ok(accounts) => all_tx_lines(tree, root, accounts, txs, txs.len()),
        },
    }
}

/// Why a batch stopped.
#[derive(Debug, Clone, PartialEq, Eq)]
pub enum BatchHalt {
    /// The answer to this question is needed to go on.
    Unread(TreeQuery),
    /// The batch failed.
    Failed(SequencerError),
}

/// A stop of the core reads so for the sequencer.
pub open spec fn batch_halt(halt: BatchHalt, core: HaltView) -> bool {
    match halt {
        BatchHalt::Unread(query) => core == HaltView::Unread(query),
        BatchHalt::Failed(e) => core matches HaltView::Failed(c) && e@
            == SequencerErrorView::of_core(c),
    }
}

fn to_batch_halt(halt: Halt) -> (batch: BatchHalt)
    requires
        halt is Unread || halt is Failed,
    ensures
        batch_halt(batch, halt@),
{
    match halt {
        Halt::Unread(query) => BatchHalt::Unread(query),
        Halt::Failed(e) => BatchHalt::Failed(SequencerError::from(e)),
        _ => vstd::pervasive::unreached(),
    }
}

/// No account has counted further than `bound`.
spec fn nonces_within(accounts: Map<Hash32, Account>, bound: nat) -> bool {
    forall|key: Hash32| #[trigger] accounts.contains_key(key) ==> accounts[key].nonce <= bound
}

proof fn lemma_deposit_nonces(
    tree: TreeView,
    root: Option<Hash32>,
    accounts: Map<Hash32, Account>,
    deposit: Deposit,
    bound: nat,
)
    requires
        nonces_within(accounts, bound),
    ensures
        nonces_within(deposit_effect(tree, root, accounts, deposit).0, bound),
{
    law_no_account_from_a_leaf(tree, root, deposit.to);
}

proof fn lemma_tx_nonces(
    tree: TreeView,
    root: Option<Hash32>,
    accounts: Map<Hash32, Account>,
    tx: Transaction,
    bound: nat,
)
    requires
        nonces_within(accounts, bound),
        bound < u64::MAX,
    ensures
        loaded(tree, root, accounts, tx.from) matches Ok(sender) ==> sender.nonce <= bound,
        nonces_within(tx_effect(tree, root, accounts, tx).0, bound + 1),
{
    law_no_account_from_a_leaf(tree, root, tx.from);
    law_no_account_from_a_leaf(tree, root, tx.to);
}

proof fn lemma_forced_nonces(
    tree: TreeView,
    root: Option<Hash32>,
    accounts: Map<Hash32, Account>,
    tx: ForcedTx,
    bound: nat,
)
    requires
        nonces_within(accounts, bound),
        bound < u64::MAX,
    ensures
        loaded(tree, root, accounts, tx.from) matches Ok(sender) ==> sender.nonce <= bound,
        nonces_within(forced_effect(tree, root, accounts, tx).0, bound + 1),
{
    let plain = Transaction {
        from: tx.from,
        to: tx.to,
        nonce: tx.nonce,
        fee: tx.fee,
        amount: tx.amount,
    };
    lemma_tx_nonces(tree, root, accounts, plain, bound);
}

proof fn lemma_deposits_halt(
    tree: TreeView,
    root: Option<Hash32>,
    deposits: Seq<Deposit>,
    i: nat,
    n: nat,
)
    requires
        i <= n,
        after_deposits(tree, root, deposits, i) is Err,
    ensures
        after_deposits(tree, root, deposits, n) == after_deposits(tree, root, deposits, i),
        deposits_applied(tree, root, deposits, n) == deposits_applied(tree, root, deposits, i),
        deposits_lines(tree, root, deposits, n) == deposits_lines(tree, root, deposits, i),
    decreases n,
{
    if i < n {
        lemma_deposits_halt(tree, root, deposits, i, (n - 1) as nat);
        assert(deposits_lines(tree, root, deposits, i) + no_lines() =~= deposits_lines(tree, root, deposits, i));
    }
}

proof fn lemma_forced_halt(
    tree: TreeView,
    root: Option<Hash32>,
    start: Map<Hash32, Account>,
    txs: Seq<ForcedTx>,
    i: nat,
    n: nat,
)
    requires
        i <= n,
        after_forced(tree, root, start, txs, i) is Err,
    ensures
        after_forced(tree, root, start, txs, n) == after_forced(tree, root, start, txs, i),
        forced_applied(tree, root, start, txs, n) == forced_applied(tree, root, start, txs, i),
        all_forced_lines(tree, root, start, txs, n) == all_forced_lines(tree, root, start, txs, i),
    decreases n,
{
    if i < n {
        lemma_forced_halt(tree, root, start, txs, i, (n - 1) as nat);
        assert(all_forced_lines(tree, root, start, txs, i) + no_lines() =~= all_forced_lines(tree, root, start, txs, i));
    }
}

proof fn lemma_txs_halt(
    tree: TreeView,
    root: Option<Hash32>,
    start: Map<Hash32, Account>,
    txs: Seq<Transaction>,
    i: nat,
    n: nat,
)
    requires
        i <= n,
        after_txs(tree, root, start, txs, i) is Err,
    ensures
        after_txs(tree, root, start, txs, n) == after_txs(tree, root, start, txs, i),
        txs_applied(tree, root, start, txs, n) == txs_applied(tree, root, start, txs, i),
        all_tx_lines(tree, root, start, txs, n) == all_tx_lines(tree, root, start, txs, i),
    decreases n,
{
    if i < n {
        lemma_txs_halt(tree, root, start, txs, i, (n - 1) as nat);
        assert(all_tx_lines(tree, root, start, txs, i) + no_lines() =~= all_tx_lines(tree, root, start, txs, i));
    }
}

/// What came of a batch.
#[derive(Debug, PartialEq, Eq)]
pub struct Batch {
    /// What became of its items, in the order in which they were executed, up to a stop.
    pub applied: Vec<Applied>,
    /// What is to be logged.
    pub lines: Vec<String>,
    /// What is to be written to the tree, or why the batch stopped.
    pub result: Result<Commit, BatchHalt>,
}

/// The lines of a batch, behind its heading.
fn with_heading(rest: Vec<String>) -> (lines: Vec<String>)
    ensures
        lines_view(lines@) == seq!["apply_optimistic_batch start"@] + lines_view(rest@),
{
    let mut lines: Vec<String> = Vec::new();
    let mut rest: Vec<String> = rest;
    let ghost tail = rest@;
    push_line(&mut lines, "apply_optimistic_batch start".to_owned());
    let ghost head = lines@;
    lines.append(&mut rest);
    assert(lines_view(head) =~= seq!["apply_optimistic_batch start"@]);
    assert(lines_view(lines@) =~= lines_view(head) + lines_view(tail));
    lines
}

/// Executes a batch on top of `root`, from the answers that were read from the tree, and says what
/// is to be written there. An empty batch leaves the root.
pub fn apply_optimistic_batch(
    tree: &TreeReads,
    root: Option<Hash32>,
    txs: &[Transaction],
    deposits: &[Deposit],
    forced_txs: &[ForcedTx],
) -> (batch: Batch)
    requires
        txs@.len() + forced_txs@.len() <= u64::MAX,
    ensures
        txs@.len() == 0 && deposits@.len() == 0 && forced_txs@.len() == 0 ==> batch.result == Ok::<
            Commit,
            BatchHalt,
        >(Commit::Unchanged(root_or_zero(root))),
        match batch_accounts(tree@, root, txs@, deposits@, forced_txs@) {
            Ok(accounts) => batch.result matches Ok(commit) && commits(root, accounts, commit),
            Err(core) => batch.result matches Err(halt) && batch_halt(halt, core),
        },
        batch.applied@ == batch_applied(tree@, root, txs@, deposits@, forced_txs@),
        lines_view(batch.lines@) == batch_lines(tree@, root, txs@, deposits@, forced_txs@),
{
    let mut applied: Vec<Applied> = Vec::new();
    if txs.len() == 0 && deposits.len() == 0 && forced_txs.len() == 0 {
        let none: Vec<String> = Vec::new();
        assert(lines_view(none@) =~= no_lines());
        let lines: Vec<String> = with_heading(none);
        assert(applied@ =~= batch_applied(tree@, root, txs@, deposits@, forced_txs@));
        assert(lines_view(lines@) =~= batch_lines(tree@, root, txs@, deposits@, forced_txs@));
        return Batch { applied, lines, result: Ok(Commit::Unchanged(initial_root(root))) };
    }
    let mut executor: BlockExecutor = BlockExecutor::new(tree, root);
    let mut i: usize = 0;
    while i < deposits.len()
        invariant
            i <= deposits@.len(),
            executor.wf(),
            executor.tree() == tree@,
            executor.root() == root,
            after_deposits(tree@, root, deposits@, i as nat) == Ok::<
                Map<Hash32, Account>,
                HaltView,
            >(executor.accounts()),
            nonces_within(executor.accounts(), 0),
            applied@ == deposits_applied(tree@, root, deposits@, i as nat),
            executor.log() == deposits_lines(tree@, root, deposits@, i as nat),
        decreases deposits@.len() - i,
    {
        proof {
            lemma_deposit_nonces(tree@, root, executor.accounts(), deposits@[i as int], 0);
        }
        let step: Result<Applied, Halt> = executor.apply_deposit(&deposits[i]);
        assert(executor.log() =~= deposits_lines(tree@, root, deposits@, (i + 1) as nat));
        match step {
            Ok(outcome) => {
                applied.push(outcome);
            },
            Err(halt) => {
                proof {
                    lemma_deposits_halt(tree@, root, deposits@, (i + 1) as nat, deposits@.len());
                }
                let lines: Vec<String> = with_heading(executor.take_log());
                assert(lines_view(lines@) =~= batch_lines(
                    tree@,
                    root,
                    txs@,
                    deposits@,
                    forced_txs@,
                ));
                return Batch { applied, lines, result: Err(to_batch_halt(halt)) };
            },
        }
        i = i + 1;
    }
    let ghost from_deposits = executor.accounts();
    let mut i: usize = 0;
    while i < forced_txs.len()
        invariant
            i <= forced_txs@.len(),
            txs@.len() + forced_txs@.len() <= u64::MAX,
            executor.wf(),
            executor.tree() == tree@,
            executor.root() == root,
            after_deposits(tree@, root, deposits@, deposits@.len()) == Ok::<
                Map<Hash32, Account>,
                HaltView,
            >(from_deposits),
            after_forced(tree@, root, from_deposits, forced_txs@, i as nat) == Ok::<
                Map<Hash32, Account>,
                HaltView,
            >(executor.accounts()),
            nonces_within(executor.accounts(), i as nat),
            applied@ == deposits_applied(tree@, root, deposits@, deposits@.len())
                + forced_applied(tree@, root, from_deposits, forced_txs@, i as nat),
            executor.log() == deposits_lines(tree@, root, deposits@, deposits@.len())
                + all_forced_lines(tree@, root, from_deposits, forced_txs@, i as nat),
        decreases forced_txs@.len() - i,
    {
        proof {
            lemma_forced_nonces(
                tree@,
                root,
                executor.accounts(),
                forced_txs@[i as int],
                i as nat,
            );
        }
        let step: Result<Applied, Halt> = executor.apply_forced_tx(&forced_txs[i]);
        assert(executor.log() =~= deposits_lines(tree@, root, deposits@, deposits@.len())
            + all_forced_lines(tree@, root, from_deposits, forced_txs@, (i + 1) as nat));
        match step {
            Ok(outcome) => {
                applied.push(outcome);
                assert(applied@ =~= deposits_applied(tree@, root, deposits@, deposits@.len())
                    + forced_applied(tree@, root, from_deposits, forced_txs@, (i + 1) as nat));
            },
            Err(halt) => {
                proof {
                    lemma_forced_halt(
                        tree@,
                        root,
                        from_deposits,
                        forced_txs@,
                        (i + 1) as nat,
                        forced_txs@.len(),
                    );
                }
                let lines: Vec<String> = with_heading(executor.take_log());
                assert(lines_view(lines@) =~= batch_lines(
                    tree@,
                    root,
                    txs@,
                    deposits@,
                    forced_txs@,
                ));
                return Batch { applied, lines, result: Err(to_batch_halt(halt)) };
            },
        }
        i = i + 1;
    }
    let ghost from_forced = executor.accounts();
    let mut i: usize = 0;
    while i < txs.len()
        invariant
            i <= txs@.len(),
            txs@.len() + forced_txs@.len() <= u64::MAX,
            executor.wf(),
            executor.tree() == tree@,
            executor.root() == root,
            after_deposits(tree@, root, deposits@, deposits@.len()) == Ok::<
                Map<Hash32, Account>,
                HaltView,
            >(from_deposits),
            after_forced(tree@, root, from_deposits, forced_txs@, forced_txs@.len()) == Ok::<
                Map<Hash32, Account>,
                HaltView,
            >(from_forced),
            after_txs(tree@, root, from_forced, txs@, i as nat) == Ok::<
                Map<Hash32, Account>,
                HaltView,
            >(executor.accounts()),
            nonces_within(executor.accounts(), (forced_txs@.len() + i) as nat),
            applied@ == deposits_applied(tree@, root, deposits@, deposits@.len())
                + forced_applied(tree@, root, from_deposits, forced_txs@, forced_txs@.len())
                + txs_applied(tree@, root, from_forced, txs@, i as nat),
            executor.log() == deposits_lines(tree@, root, deposits@, deposits@.len()) + (
            all_forced_lines(tree@, root, from_deposits, forced_txs@, forced_txs@.len())
                + all_tx_lines(tree@, root, from_forced, txs@, i as nat)),
        decreases txs@.len() - i,
    {
        proof {
            lemma_tx_nonces(
                tree@,
                root,
                executor.accounts(),
                txs@[i as int],
                (forced_txs@.len() + i) as nat,
            );
        }
        let step: Result<Applied, Halt> = executor.apply_transaction(&txs[i]);
        assert(executor.log() =~= deposits_lines(tree@, root, deposits@, deposits@.len()) + (
        all_forced_lines(tree@, root, from_deposits, forced_txs@, forced_txs@.len()) + all_tx_lines(
            tree@,
            root,
            from_forced,
            txs@,
            (i + 1) as nat,
        )));
        match step {
            Ok(outcome) => {
                applied.push(outcome);
                assert(applied@ =~= deposits_applied(tree@, root, deposits@, deposits@.len())
                    + forced_applied(tree@, root, from_deposits, forced_txs@, forced_txs@.len())
                    + txs_applied(tree@, root, from_forced, txs@, (i + 1) as nat));
            },
            Err(halt) => {
                proof {
                    lemma_txs_halt(tree@, root, from_forced, txs@, (i + 1) as nat, txs@.len());
                }
                let lines: Vec<String> = with_heading(executor.take_log());
                assert(lines_view(lines@) =~= batch_lines(
                    tree@,
                    root,
                    txs@,
                    deposits@,
                    forced_txs@,
                ));
                return Batch { applied, lines, result: Err(to_batch_halt(halt)) };
            },
        }
        i = i + 1;
    }
    let lines: Vec<String> = with_heading(executor.take_log());
    assert(lines_view(lines@) =~= batch_lines(tree@, root, txs@, deposits@, forced_txs@));
    Batch { applied, lines, result: Ok(executor.commit_block()) }
}

/// The root that writing a batch led to.
pub fn finish_batch(reply: InsertReply) -> (result: Result<Hash32, SequencerError>)
    ensures
        match reply {
            Ok(Some(root)) => result == Ok::<Hash32, SequencerError>(root),
            Ok(None) => result matches Err(e) && e@ == SequencerErrorView::DatabaseError(
                "commit_block inserts returned none err"@,
            ),
            Err(message) => result matches Err(e) && e@ == SequencerErrorView::DatabaseError(
                "commit_block inserts err: "@ + message@,
            ),
        },
{
    match finish_commit(reply) {
        Ok(root) => Ok(root),
        Err(e) => Err(SequencerError::from(e)),
    }
}

/// The input of a block that is being built.
#[derive(Debug, Clone)]
pub struct Round {
    pub txs: Vec<Transaction>,
    pub deposits: Vec<Deposit>,
    pub forced_txs: Vec<ForcedTx>,
    pub pre_state_root: Hash32,
}

/// What a `Round` holds.
pub struct RoundView {
    pub txs: Seq<Transaction>,
    pub deposits: Seq<Deposit>,
    pub forced_txs: Seq<ForcedTx>,
    pub pre_state_root: Hash32,
}

impl View for Round {
    type V = RoundView;

    open spec fn view(&self) -> RoundView {
        RoundView {
            txs: self.txs@,
            deposits: self.deposits@,
            forced_txs: self.forced_txs@,
            pre_state_root: self.pre_state_root,
        }
    }
}

/// The input of a block on top of `optimistic`, unless there is nothing at all to put into one.
pub open spec fn begun(
    txs: Seq<Transaction>,
    deposits: Seq<Deposit>,
    forced_txs: Seq<ForcedTx>,
    optimistic: Hash32,
) -> Option<RoundView> {
    if txs.len() == 0 && deposits.len() == 0 && forced_txs.len() == 0 {
        None
    } else {
        Some(RoundView { txs, deposits, forced_txs, pre_state_root: optimistic })
    }
}

impl RoundView {
    /// The block with its number and the root that it led to.
    pub open spec fn sealed(self, block_number: u64, post_state_root: Hash32) -> SealedView {
        SealedView {
            block: BlockView {
                block_number,
                txs: self.txs,
                deposits: self.deposits,
                forced_txs: self.forced_txs,
                pre_state_root: self.pre_state_root,
                post_state_root,
            },
            next_block_number: (block_number + 1) as u64,
            included: self.txs.len() as usize,
        }
    }
}

/// A block that has been built, with what is left to do for it.
#[derive(Debug, Clone)]
pub struct Sealed {
    pub block: PendingBlock,
    /// The number of the next block.
    pub next_block_number: u64,
    /// How many transfers to drop from the front of the mempool.
    pub included: usize,
}

/// What a `Sealed` holds.
pub struct SealedView {
    pub block: BlockView,
    pub next_block_number: u64,
    pub included: usize,
}

impl View for Sealed {
    type V = SealedView;

    open spec fn view(&self) -> SealedView {
        SealedView {
            block: self.block@,
            next_block_number: self.next_block_number,
            included: self.included,
        }
    }
}

impl Round {
    /// Starts a block from what waits and what came from the base layer. Where there is nothing at
    /// all, there is no block.
    pub fn begin(
        txs: Vec<Transaction>,
        deposits: Vec<Deposit>,
        forced_txs: Vec<ForcedTx>,
        heads: &Heads,
    ) -> (round: Option<Round>)
        ensures
            match round {
                Some(r) => begun(txs@, deposits@, forced_txs@, heads.optimistic) == Some(r@),
                None => begun(txs@, deposits@, forced_txs@, heads.optimistic) is None,
            },
    {
        if txs.len() == 0 && deposits.len() == 0 && forced_txs.len() == 0 {
            None
        } else {
            Some(Round { txs, deposits, forced_txs, pre_state_root: heads.optimistic })
        }
    }

    /// Closes the block with its number and the root that it led to.
    pub fn seal(self, block_number: u64, post_state_root: Hash32) -> (sealed: Sealed)
        requires
            block_number < u64::MAX,
        ensures
            sealed@ == self@.sealed(block_number, post_state_root),
            sealed.next_block_number == block_number + 1,
            sealed.included == self.txs@.len(),
    {
        let included: usize = self.txs.len();
        Sealed {
            block: PendingBlock {
                block_number,
                txs: self.txs,
                deposits: self.deposits,
                forced_txs: self.forced_txs,
                pre_state_root: self.pre_state_root,
                post_state_root,
            },
            next_block_number: block_number + 1,
            included,
        }
    }
}

/// Transfers that come in while a block is built stay for the next one, and those in the block go.
pub proof fn law_newcomers_stay(taken: Seq<Transaction>, newcomers: Seq<Transaction>)
    ensures
        (taken + newcomers).skip(taken.len() as int) == newcomers,
{
    assert((taken + newcomers).skip(taken.len() as int) =~= newcomers);
}

proof fn lemma_account_more(tree: TreeView, more: TreeView, root: Option<Hash32>, key: Hash32)
    requires
        tree.grows_to(more),
    ensures
        !(account_at(tree, root, key) matches Err(HaltView::Unread(_))) ==> account_at(
            more,
            root,
            key,
        ) == account_at(tree, root, key),
        account_at(tree, root, key) matches Err(HaltView::Unread(query)) ==> !tree.answers(query),
{
}

proof fn lemma_batch_deposits_more(
    tree: TreeView,
    more: TreeView,
    root: Option<Hash32>,
    deposits: Seq<Deposit>,
    n: nat,
)
    requires
        tree.grows_to(more),
    ensures
        !(after_deposits(tree, root, deposits, n) matches Err(HaltView::Unread(_)))
            ==> after_deposits(more, root, deposits, n) == after_deposits(tree, root, deposits, n),
        after_deposits(tree, root, deposits, n) matches Err(HaltView::Unread(query))
            ==> !tree.answers(query),
    decreases n,
{
    if n > 0 {
        lemma_batch_deposits_more(tree, more, root, deposits, (n - 1) as nat);
        lemma_account_more(tree, more, root, deposits[n - 1].to);
    }
}

proof fn lemma_batch_forced_more(
    tree: TreeView,
    more: TreeView,
    root: Option<Hash32>,
    start: Map<Hash32, Account>,
    txs: Seq<ForcedTx>,
    n: nat,
)
    requires
        tree.grows_to(more),
    ensures
        !(after_forced(tree, root, start, txs, n) matches Err(HaltView::Unread(_))) ==> after_forced(
            more,
            root,
            start,
            txs,
            n,
        ) == after_forced(tree, root, start, txs, n),
        after_forced(tree, root, start, txs, n) matches Err(HaltView::Unread(query))
            ==> !tree.answers(query),
    decreases n,
{
    if n > 0 {
        lemma_batch_forced_more(tree, more, root, start, txs, (n - 1) as nat);
        lemma_account_more(tree, more, root, txs[n - 1].from);
        lemma_account_more(tree, more, root, txs[n - 1].to);
    }
}

proof fn lemma_batch_txs_more(
    tree: TreeView,
    more: TreeView,
    root: Option<Hash32>,
    start: Map<Hash32, Account>,
    txs: Seq<Transaction>,
    n: nat,
)
    requires
        tree.grows_to(more),
    ensures
        !(after_txs(tree, root, start, txs, n) matches Err(HaltView::Unread(_))) ==> after_txs(
            more,
            root,
            start,
            txs,
            n,
        ) == after_txs(tree, root, start, txs, n),
        after_txs(tree, root, start, txs, n) matches Err(HaltView::Unread(query)) ==> !tree.answers(
            query,
        ),
    decreases n,
{
    if n > 0 {
        lemma_batch_txs_more(tree, more, root, start, txs, (n - 1) as nat);
        lemma_account_more(tree, more, root, txs[n - 1].from);
        lemma_account_more(tree, more, root, txs[n - 1].to);
    }
}

proof fn lemma_batch_more(
    tree: TreeView,
    more: TreeView,
    root: Option<Hash32>,
    txs: Seq<Transaction>,
    deposits: Seq<Deposit>,
    forced_txs: Seq<ForcedTx>,
)
    requires
        tree.grows_to(more),
    ensures
        !(batch_accounts(tree, root, txs, deposits, forced_txs) matches Err(HaltView::Unread(_)))
            ==> batch_accounts(more, root, txs, deposits, forced_txs) == batch_accounts(
            tree,
            root,
            txs,
            deposits,
            forced_txs,
        ),
        batch_accounts(tree, root, txs, deposits, forced_txs) matches Err(HaltView::Unread(query))
            ==> !tree.answers(query),
{
    lemma_batch_deposits_more(tree, more, root, deposits, deposits.len());
    if let Ok(accounts) = after_deposits(tree, root, deposits, deposits.len()) {
        lemma_batch_forced_more(tree, more, root, accounts, forced_txs, forced_txs.len());
        if let Ok(accounts) = after_forced(tree, root, accounts, forced_txs, forced_txs.len()) {
            lemma_batch_txs_more(tree, more, root, accounts, txs, txs.len());
        }
    }
}

/// Once a batch no longer waits for an answer, it comes out as it would from every answer that the
/// tree can give.
pub proof fn law_more_answers_keep_batch(
    tree: TreeView,
    more: TreeView,
    root: Option<Hash32>,
    txs: Seq<Transaction>,
    deposits: Seq<Deposit>,
    forced_txs: Seq<ForcedTx>,
)
    requires
        tree.grows_to(more),
    ensures
        !(batch_accounts(tree, root, txs, deposits, forced_txs) matches Err(HaltView::Unread(_)))
            ==> batch_accounts(more, root, txs, deposits, forced_txs) == batch_accounts(
            tree,
            root,
            txs,
            deposits,
            forced_txs,
        ),
{
    lemma_batch_more(tree, more, root, txs, deposits, forced_txs);
}

/// A batch only asks what has not been answered.
pub proof fn law_batch_waits_for_the_unread(
    tree: TreeView,
    root: Option<Hash32>,
    txs: Seq<Transaction>,
    deposits: Seq<Deposit>,
    forced_txs: Seq<ForcedTx>,
)
    ensures
        batch_accounts(tree, root, txs, deposits, forced_txs) matches Err(HaltView::Unread(query))
            ==> !tree.answers(query),
{
    lemma_batch_more(tree, tree, root, txs, deposits, forced_txs);
}

/// An item of the batch names the account.
pub open spec fn names(
    txs: Seq<Transaction>,
    deposits: Seq<Deposit>,
    forced_txs: Seq<ForcedTx>,
    key: Hash32,
) -> bool {
    ||| exists|i: int| 0 <= i < deposits.len() && (#[trigger] deposits[i]).to == key
    ||| exists|i: int|
        0 <= i < forced_txs.len() && ((#[trigger] forced_txs[i]).from == key || forced_txs[i].to
            == key)
    ||| exists|i: int|
        0 <= i < txs.len() && ((#[trigger] txs[i]).from == key || txs[i].to == key)
}

/// Every account of the map is one that the batch names.
spec fn all_named(
    accounts: Map<Hash32, Account>,
    txs: Seq<Transaction>,
    deposits: Seq<Deposit>,
    forced_txs: Seq<ForcedTx>,
) -> bool {
    forall|key: Hash32| #[trigger]
        accounts.contains_key(key) ==> names(txs, deposits, forced_txs, key)
}

/// A halt waits for nothing but the leaf of an account that the batch names.
spec fn waits_for_named(
    halt: HaltView,
    root: Option<Hash32>,
    txs: Seq<Transaction>,
    deposits: Seq<Deposit>,
    forced_txs: Seq<ForcedTx>,
) -> bool {
    halt matches HaltView::Unread(query) ==> (query matches TreeQuery::Leaf { root: under, key }
        && under == root && names(txs, deposits, forced_txs, key))
}

proof fn lemma_batch_deposits_named(
    tree: TreeView,
    root: Option<Hash32>,
    txs: Seq<Transaction>,
    deposits: Seq<Deposit>,
    forced_txs: Seq<ForcedTx>,
    n: nat,
)
    requires
        n <= deposits.len(),
    ensures
        match after_deposits(tree, root, deposits, n) {
            Ok(accounts) => all_named(accounts, txs, deposits, forced_txs),
            Err(halt) => waits_for_named(halt, root, txs, deposits, forced_txs),
        },
    decreases n,
{
    if n > 0 {
        lemma_batch_deposits_named(tree, root, txs, deposits, forced_txs, (n - 1) as nat);
        assert(deposits[n - 1].to == deposits[n - 1].to);
        assert(names(txs, deposits, forced_txs, deposits[n - 1].to));
    }
}

proof fn lemma_batch_forced_named(
    tree: TreeView,
    root: Option<Hash32>,
    start: Map<Hash32, Account>,
    txs: Seq<Transaction>,
    deposits: Seq<Deposit>,
    forced_txs: Seq<ForcedTx>,
    n: nat,
)
    requires
        n <= forced_txs.len(),
        all_named(start, txs, deposits, forced_txs),
    ensures
        match after_forced(tree, root, start, forced_txs, n) {
            Ok(accounts) => all_named(accounts, txs, deposits, forced_txs),
            Err(halt) => waits_for_named(halt, root, txs, deposits, forced_txs),
        },
    decreases n,
{
    if n > 0 {
        lemma_batch_forced_named(tree, root, start, txs, deposits, forced_txs, (n - 1) as nat);
        let tx = forced_txs[n - 1];
        assert(names(txs, deposits, forced_txs, tx.from));
        assert(names(txs, deposits, forced_txs, tx.to));
    }
}

proof fn lemma_batch_txs_named(
    tree: TreeView,
    root: Option<Hash32>,
    start: Map<Hash32, Account>,
    txs: Seq<Transaction>,
    deposits: Seq<Deposit>,
    forced_txs: Seq<ForcedTx>,
    n: nat,
)
    requires
        n <= txs.len(),
        all_named(start, txs, deposits, forced_txs),
    ensures
        match after_txs(tree, root, start, txs, n) {
            Ok(accounts) => all_named(accounts, txs, deposits, forced_txs),
            Err(halt) => waits_for_named(halt, root, txs, deposits, forced_txs),
        },
    decreases n,
{
    if n > 0 {
        lemma_batch_txs_named(tree, root, start, txs, deposits, forced_txs, (n - 1) as nat);
        let tx = txs[n - 1];
        assert(names(txs, deposits, forced_txs, tx.from));
        assert(names(txs, deposits, forced_txs, tx.to));
    }
}

proof fn lemma_batch_named(
    tree: TreeView,
    root: Option<Hash32>,
    txs: Seq<Transaction>,
    deposits: Seq<Deposit>,
    forced_txs: Seq<ForcedTx>,
)
    ensures
        match batch_accounts(tree, root, txs, deposits, forced_txs) {
            Ok(accounts) => all_named(accounts, txs, deposits, forced_txs),
            Err(halt) => waits_for_named(halt, root, txs, deposits, forced_txs),
        },
{
    lemma_batch_deposits_named(tree, root, txs, deposits, forced_txs, deposits.len());
    if let Ok(accounts) = after_deposits(tree, root, deposits, deposits.len()) {
        lemma_batch_forced_named(
            tree,
            root,
            accounts,
            txs,
            deposits,
            forced_txs,
            forced_txs.len(),
        );
        if let Ok(accounts) = after_forced(tree, root, accounts, forced_txs, forced_txs.len()) {
            lemma_batch_txs_named(tree, root, accounts, txs, deposits, forced_txs, txs.len());
        }
    }
}

/// A batch writes no account that none of its items names.
pub proof fn law_batch_writes_only_named_accounts(
    tree: TreeView,
    root: Option<Hash32>,
    txs: Seq<Transaction>,
    deposits: Seq<Deposit>,
    forced_txs: Seq<ForcedTx>,
    key: Hash32,
)
    ensures
        batch_accounts(tree, root, txs, deposits, forced_txs) matches Ok(accounts)
            ==> accounts.contains_key(key) ==> names(txs, deposits, forced_txs, key),
{
    lemma_batch_named(tree, root, txs, deposits, forced_txs);
}

/// A batch that has the leaf of every account that its items name waits for nothing.
pub proof fn law_named_leaves_suffice(
    tree: TreeView,
    root: Option<Hash32>,
    txs: Seq<Transaction>,
    deposits: Seq<Deposit>,
    forced_txs: Seq<ForcedTx>,
)
    requires
        forall|key: Hash32| #[trigger]
            names(txs, deposits, forced_txs, key) ==> tree.answers(TreeQuery::Leaf { root, key }),
    ensures
        !(batch_accounts(tree, root, txs, deposits, forced_txs) matches Err(HaltView::Unread(_))),
{
    lemma_batch_named(tree, root, txs, deposits, forced_txs);
    law_batch_waits_for_the_unread(tree, root, txs, deposits, forced_txs);
}

/// A batch tells of no more than its items, and one that goes through of each of them.
pub proof fn law_one_outcome_per_item(
    tree: TreeView,
    root: Option<Hash32>,
    txs: Seq<Transaction>,
    deposits: Seq<Deposit>,
    forced_txs: Seq<ForcedTx>,
)
    ensures
        batch_applied(tree, root, txs, deposits, forced_txs).len() <= deposits.len()
            + forced_txs.len() + txs.len(),
        batch_accounts(tree, root, txs, deposits, forced_txs) is Ok ==> batch_applied(
            tree,
            root,
            txs,
            deposits,
            forced_txs,
        ).len() == deposits.len() + forced_txs.len() + txs.len(),
{
    lemma_deposits_outcomes(tree, root, deposits, deposits.len());
    if let Ok(accounts) = after_deposits(tree, root, deposits, deposits.len()) {
        lemma_forced_outcomes(tree, root, accounts, forced_txs, forced_txs.len());
        if let Ok(accounts) = after_forced(tree, root, accounts, forced_txs, forced_txs.len()) {
            lemma_txs_outcomes(tree, root, accounts, txs, txs.len());
        }
    }
}

proof fn lemma_deposits_outcomes(
    tree: TreeView,
    root: Option<Hash32>,
    deposits: Seq<Deposit>,
    n: nat,
)
    ensures
        deposits_applied(tree, root, deposits, n).len() <= n,
        after_deposits(tree, root, deposits, n) is Ok ==> deposits_applied(
            tree,
            root,
            deposits,
            n,
        ).len() == n,
    decreases n,
{
    if n > 0 {
        lemma_deposits_outcomes(tree, root, deposits, (n - 1) as nat);
    }
}

proof fn lemma_forced_outcomes(
    tree: TreeView,
    root: Option<Hash32>,
    start: Map<Hash32, Account>,
    txs: Seq<ForcedTx>,
    n: nat,
)
    ensures
        forced_applied(tree, root, start, txs, n).len() <= n,
        after_forced(tree, root, start, txs, n) is Ok ==> forced_applied(
            tree,
            root,
            start,
            txs,
            n,
        ).len() == n,
    decreases n,
{
    if n > 0 {
        lemma_forced_outcomes(tree, root, start, txs, (n - 1) as nat);
    }
}

proof fn lemma_txs_outcomes(
    tree: TreeView,
    root: Option<Hash32>,
    start: Map<Hash32, Account>,
    txs: Seq<Transaction>,
    n: nat,
)
    ensures
        txs_applied(tree, root, start, txs, n).len() <= n,
        after_txs(tree, root, start, txs, n) is Ok ==> txs_applied(tree, root, start, txs, n).len()
            == n,
    decreases n,
{
    if n > 0 {
        lemma_txs_outcomes(tree, root, start, txs, (n - 1) as nat);
    }
}

/// A batch executes its deposits one after the other, each on the accounts that the ones before left. It
/// stops at the first that stops, and tells and logs of each what became of it.
pub proof fn law_batch_executes_every_deposit(
    tree: TreeView,
    root: Option<Hash32>,
    items: Seq<Deposit>,
    n: nat,
    accounts: Map<Hash32, Account>,
)
    requires
        n < items.len(),
        after_deposits(tree, root, items, n) == Ok::<Map<Hash32, Account>, HaltView>(accounts),
    ensures
        after_deposits(tree, root, items, 0) == Ok::<Map<Hash32, Account>, HaltView>(Map::<Hash32, Account>::empty()),
        deposits_applied(tree, root, items, 0).len() == 0,
        deposits_lines(tree, root, items, 0).len() == 0,
        ({
            let (changed, applied) = deposit_effect(tree, root, accounts, items[n as int]);
            &&& deposits_lines(tree, root, items, n + 1) == deposits_lines(tree, root, items, n) + deposit_lines(
                tree,
                root,
                accounts,
                items[n as int],
            )
            &&& applied matches Ok(outcome) ==> after_deposits(tree, root, items, n + 1) == Ok::<
                Map<Hash32, Account>,
                HaltView,
            >(changed) && deposits_applied(tree, root, items, n + 1) == deposits_applied(tree, root, items, n).push(outcome)
            &&& applied matches Err(halt) ==> after_deposits(tree, root, items, n + 1) == Err::<
                Map<Hash32, Account>,
                HaltView,
            >(halt) && deposits_applied(tree, root, items, n + 1) == deposits_applied(tree, root, items, n)
        }),
{
}

/// A batch that stopped among its deposits stays as it stopped.
pub proof fn law_batch_stays_stopped_at_deposit(
    tree: TreeView,
    root: Option<Hash32>,
    items: Seq<Deposit>,
    i: nat,
    n: nat,
)
    requires
        i <= n,
        after_deposits(tree, root, items, i) is Err,
    ensures
        after_deposits(tree, root, items, n) == after_deposits(tree, root, items, i),
        deposits_applied(tree, root, items, n) == deposits_applied(tree, root, items, i),
        deposits_lines(tree, root, items, n) == deposits_lines(tree, root, items, i),
{
    lemma_deposits_halt(tree, root, items, i, n);
}

/// A batch executes its forced transfers one after the other, each on the accounts that the ones before left. It
/// stops at the first that stops, and tells and logs of each what became of it.
pub proof fn law_batch_executes_every_forced_transfer(
    tree: TreeView,
    root: Option<Hash32>,
    start: Map<Hash32, Account>,
    items: Seq<ForcedTx>,
    n: nat,
    accounts: Map<Hash32, Account>,
)
    requires
        n < items.len(),
        after_forced(tree, root, start, items, n) == Ok::<Map<Hash32, Account>, HaltView>(accounts),
    ensures
        after_forced(tree, root, start, items, 0) == Ok::<Map<Hash32, Account>, HaltView>(start),
        forced_applied(tree, root, start, items, 0).len() == 0,
        all_forced_lines(tree, root, start, items, 0).len() == 0,
        ({
            let (changed, applied) = forced_effect(tree, root, accounts, items[n as int]);
            &&& all_forced_lines(tree, root, start, items, n + 1) == all_forced_lines(tree, root, start, items, n) + forced_lines(
                tree,
                root,
                accounts,
                items[n as int],
            )
            &&& applied matches Ok(outcome) ==> after_forced(tree, root, start, items, n + 1) == Ok::<
                Map<Hash32, Account>,
                HaltView,
            >(changed) && forced_applied(tree, root, start, items, n + 1) == forced_applied(tree, root, start, items, n).push(outcome)
            &&& applied matches Err(halt) ==> after_forced(tree, root, start, items, n + 1) == Err::<
                Map<Hash32, Account>,
                HaltView,
            >(halt) && forced_applied(tree, root, start, items, n + 1) == forced_applied(tree, root, start, items, n)
        }),
{
}

/// A batch that stopped among its forced transfers stays as it stopped.
pub proof fn law_batch_stays_stopped_at_forced_transfer(
    tree: TreeView,
    root: Option<Hash32>,
    start: Map<Hash32, Account>,
    items: Seq<ForcedTx>,
    i: nat,
    n: nat,
)
    requires
        i <= n,
        after_forced(tree, root, start, items, i) is Err,
    ensures
        after_forced(tree, root, start, items, n) == after_forced(tree, root, start, items, i),
        forced_applied(tree, root, start, items, n) == forced_applied(tree, root, start, items, i),
        all_forced_lines(tree, root, start, items, n) == all_forced_lines(tree, root, start, items, i),
{
    lemma_forced_halt(tree, root, start, items, i, n);
}

/// A batch executes its transfers one after the other, each on the accounts that the ones before left. It
/// stops at the first that stops, and tells and logs of each what became of it.
pub proof fn law_batch_executes_every_transfer(
    tree: TreeView,
    root: Option<Hash32>,
    start: Map<Hash32, Account>,
    items: Seq<Transaction>,
    n: nat,
    accounts: Map<Hash32, Account>,
)
    requires
        n < items.len(),
        after_txs(tree, root, start, items, n) == Ok::<Map<Hash32, Account>, HaltView>(accounts),
    ensures
        after_txs(tree, root, start, items, 0) == Ok::<Map<Hash32, Account>, HaltView>(start),
        txs_applied(tree, root, start, items, 0).len() == 0,
        all_tx_lines(tree, root, start, items, 0).len() == 0,
        ({
            let (changed, applied) = tx_effect(tree, root, accounts, items[n as int]);
            &&& all_tx_lines(tree, root, start, items, n + 1) == all_tx_lines(tree, root, start, items, n) + tx_lines(
                tree,
                root,
                accounts,
                items[n as int],
            )
            &&& applied matches Ok(outcome) ==> after_txs(tree, root, start, items, n + 1) == Ok::<
                Map<Hash32, Account>,
                HaltView,
            >(changed) && txs_applied(tree, root, start, items, n + 1) == txs_applied(tree, root, start, items, n).push(outcome)
            &&& applied matches Err(halt) ==> after_txs(tree, root, start, items, n + 1) == Err::<
                Map<Hash32, Account>,
                HaltView,
            >(halt) && txs_applied(tree, root, start, items, n + 1) == txs_applied(tree, root, start, items, n)
        }),
{
}

/// A batch that stopped among its transfers stays as it stopped.
pub proof fn law_batch_stays_stopped_at_transfer(
    tree: TreeView,
    root: Option<Hash32>,
    start: Map<Hash32, Account>,
    items: Seq<Transaction>,
    i: nat,
    n: nat,
)
    requires
        i <= n,
        after_txs(tree, root, start, items, i) is Err,
    ensures
        after_txs(tree, root, start, items, n) == after_txs(tree, root, start, items, i),
        txs_applied(tree, root, start, items, n) == txs_applied(tree, root, start, items, i),
        all_tx_lines(tree, root, start, items, n) == all_tx_lines(tree, root, start, items, i),
{
    lemma_txs_halt(tree, root, start, items, i, n);
}

/// A batch goes through all of its deposits, then all of its forced transfers, then all of its
/// transfers, each part on the accounts that the part before left. It stops where a part stops, and
/// tells and logs of all that it got to, behind its heading.
pub proof fn law_batch_goes_through_all_items(
    tree: TreeView,
    root: Option<Hash32>,
    txs: Seq<Transaction>,
    deposits: Seq<Deposit>,
    forced_txs: Seq<ForcedTx>,
    second: Map<Hash32, Account>,
    third: Map<Hash32, Account>,
)
    ensures
        ({
            let result = batch_accounts(tree, root, txs, deposits, forced_txs);
            let told = batch_applied(tree, root, txs, deposits, forced_txs);
            let logged = batch_lines(tree, root, txs, deposits, forced_txs);
            let heading = seq!["apply_optimistic_batch start"@];
            let first_part = after_deposits(tree, root, deposits, deposits.len());
            let second_part = after_forced(tree, root, second, forced_txs, forced_txs.len());
            let third_part = after_txs(tree, root, third, txs, txs.len());
            let first_told = deposits_applied(tree, root, deposits, deposits.len());
            let second_told = forced_applied(tree, root, second, forced_txs, forced_txs.len());
            let third_told = txs_applied(tree, root, third, txs, txs.len());
            let first_logged = deposits_lines(tree, root, deposits, deposits.len());
            let second_logged = all_forced_lines(tree, root, second, forced_txs, forced_txs.len());
            let third_logged = all_tx_lines(tree, root, third, txs, txs.len());
            &&& first_part is Err ==> result == first_part && told == first_told && logged == heading
                + first_logged
            &&& first_part == Ok::<Map<Hash32, Account>, HaltView>(second) && second_part is Err
                ==> result == second_part && told == first_told + second_told && logged == heading
                + first_logged + second_logged
            &&& first_part == Ok::<Map<Hash32, Account>, HaltView>(second) && second_part == Ok::<
                Map<Hash32, Account>,
                HaltView,
            >(third) ==> result == third_part && told == first_told + second_told + third_told
                && logged == heading + first_logged + second_logged + third_logged
        }),
{
    let logged = batch_lines(tree, root, txs, deposits, forced_txs);
    let heading = seq!["apply_optimistic_batch start"@];
    let first_logged = deposits_lines(tree, root, deposits, deposits.len());
    let second_logged = all_forced_lines(tree, root, second, forced_txs, forced_txs.len());
    let third_logged = all_tx_lines(tree, root, third, txs, txs.len());
    let first_part = after_deposits(tree, root, deposits, deposits.len());
    let second_part = after_forced(tree, root, second, forced_txs, forced_txs.len());
    if first_part is Err {
        assert(logged =~= heading + first_logged);
    } else if first_part == Ok::<Map<Hash32, Account>, HaltView>(second) {
        if second_part is Err {
            assert(logged =~= heading + first_logged + second_logged);
        } else if second_part == Ok::<Map<Hash32, Account>, HaltView>(third) {
            assert(logged =~= heading + first_logged + second_logged + third_logged);
        }
    }
}

/// The sequencer stops where the core stops: with the same question, or with the error that stands
/// for the core's.
pub proof fn law_batch_halt_is_the_cores(halt: BatchHalt, core: HaltView)
    requires
        batch_halt(halt, core),
    ensures
        core matches HaltView::Unread(query) ==> halt == BatchHalt::Unread(query),
        core matches HaltView::Failed(e) ==> (halt matches BatchHalt::Failed(failure) && failure@
            == SequencerErrorView::of_core(e) && match e {
            CoreErrorView::AccountNotFound(key) => failure@ == SequencerErrorView::AccountNotFound(
                key,
            ),
            CoreErrorView::AccountDataCorrupted(key) => failure@
                == SequencerErrorView::AccountDataCorrupted(key),
            CoreErrorView::DatabaseError(message) => failure@ == SequencerErrorView::DatabaseError(
                message,
            ),
            CoreErrorView::ProofNotFound(key) => failure@ is DatabaseError,
            CoreErrorView::StfError(message) => failure@ is Stf,
        }),
        !(core is MalformedSibling) && !(core is RootMismatch),
{
}

/// A block takes in all that waits and all that came from the base layer, on top of the optimistic
/// head; there is none exactly where there is nothing.
pub proof fn law_round_takes_everything_in(
    txs: Seq<Transaction>,
    deposits: Seq<Deposit>,
    forced_txs: Seq<ForcedTx>,
    optimistic: Hash32,
)
    ensures
        begun(txs, deposits, forced_txs, optimistic) is None <==> txs.len() + deposits.len()
            + forced_txs.len() == 0,
        begun(txs, deposits, forced_txs, optimistic) matches Some(round) ==> round.txs == txs
            && round.deposits == deposits && round.forced_txs == forced_txs && round.pre_state_root
            == optimistic,
{
}

/// A sealed block holds all of its round between the root before and the root after; the next block
/// has the next number, and all of its transfers leave the mempool.
pub proof fn law_sealed_block_holds_its_round(
    round: Round,
    sealed: Sealed,
    block_number: u64,
    root: Hash32,
)
    requires
        block_number < u64::MAX,
        round.txs@.len() <= usize::MAX,
        sealed@ == round@.sealed(block_number, root),
    ensures
        sealed.block.block_number == block_number,
        sealed.block.txs@ == round.txs@,
        sealed.block.deposits@ == round.deposits@,
        sealed.block.forced_txs@ == round.forced_txs@,
        sealed.block.pre_state_root == round.pre_state_root,
        sealed.block.post_state_root == root,
        sealed.next_block_number == block_number + 1,
        sealed.included == round.txs@.len(),
        round@.txs == round.txs@,
        round@.deposits == round.deposits@,
        round@.forced_txs == round.forced_txs@,
        round@.pre_state_root == round.pre_state_root,
{
    law_block_view(sealed.block);
    assert(sealed@.block == sealed.block@);
}

/// Building a block moves the optimistic head alone, and proving one the proven head alone.
pub proof fn law_heads_move_one_at_a_time(heads: Heads, root: Hash32)
    ensures
        heads.with_optimistic(root).optimistic == root,
        heads.with_optimistic(root).proven == heads.proven,
        heads.with_proven(root).proven == root,
        heads.with_proven(root).optimistic == heads.optimistic,
{
}

} // verus!
