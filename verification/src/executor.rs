//! Execution of a block against the state tree, ahead of its proof.
use crate::error::{CoreError, CoreErrorView};
use crate::hash::{same_hash, zero, zero_hash, Hash32};
use crate::merkle::account_hash;
use crate::notes::{
    deposit_text, forced_text, lines_view, load_line, load_text, log_deposit, log_forced, log_tx,
    no_lines, push_line, recipient_line, recipient_text, start_line, start_text, tx_text,
};
use crate::stf::{deposited, nonce_exhausted, transferred, StfError, TransactionResult};
use crate::text::join;
use crate::tree::{
    account_at, get_account, law_account_answers, law_no_account_from_a_leaf, Halt, HaltView,
    TreeQuery, TreeReads, TreeView,
};
use crate::types::{Account, Deposit, ForcedTx, Transaction};
use vstd::prelude::*;

verus! {

/// The accounts that a block has read or changed, each once.
pub struct AccountCache {
    entries: Vec<(Hash32, Account)>,
}

spec fn entry_map(entries: Seq<(Hash32, Account)>) -> Map<Hash32, Account>
    decreases entries.len(),
{
    if entries.len() == 0 {
        Map::empty()
    } else {
        entry_map(entries.drop_last()).insert(entries.last().0, entries.last().1)
    }
}

spec fn distinct(entries: Seq<(Hash32, Account)>) -> bool {
    forall|i: int, j: int|
        0 <= i < j < entries.len() ==> (#[trigger] entries[i]).0 != (#[trigger] entries[j]).0
}

proof fn lemma_entry_map(entries: Seq<(Hash32, Account)>)
    requires
        distinct(entries),
    ensures
        forall|i: int|
            0 <= i < entries.len() ==> entry_map(entries).contains_key((#[trigger] entries[i]).0)
                && entry_map(entries)[entries[i].0] == entries[i].1,
        forall|key: Hash32| #[trigger]
            entry_map(entries).contains_key(key) ==> exists|i: int|
                0 <= i < entries.len() && (#[trigger] entries[i]).0 == key,
    decreases entries.len(),
{
    if entries.len() > 0 {
        let init = entries.drop_last();
        assert(distinct(init));
        lemma_entry_map(init);
        assert forall|i: int| 0 <= i < entries.len() implies entry_map(entries).contains_key(
            (#[trigger] entries[i]).0,
        ) && entry_map(entries)[entries[i].0] == entries[i].1 by {
            if i < init.len() {
                assert(init[i] == entries[i]);
                assert(entries[i].0 != entries[entries.len() - 1].0);
            }
        }
        assert forall|key: Hash32| #[trigger] entry_map(entries).contains_key(key) implies exists|
            i: int,
        |
            0 <= i < entries.len() && (#[trigger] entries[i]).0 == key by {
            if key == entries.last().0 {
                assert(entries[entries.len() - 1].0 == key);
            } else {
                assert(entry_map(init).contains_key(key));
                let i = choose|i: int| 0 <= i < init.len() && (#[trigger] init[i]).0 == key;
                assert(entries[i].0 == key);
            }
        }
    }
}

impl AccountCache {
    /// No address occurs twice.
    pub closed spec fn wf(self) -> bool {
        distinct(self.entries@)
    }

    fn new() -> (cache: Self)
        ensures
            cache.wf(),
            cache@ == Map::<Hash32, Account>::empty(),
    {
        AccountCache { entries: Vec::new() }
    }

    fn position(&self, key: &Hash32) -> (found: Option<usize>)
        ensures
            match found {
                Some(i) => i < self.entries@.len() && self.entries@[i as int].0 == *key,
                None => forall|i: int|
                    0 <= i < self.entries@.len() ==> (#[trigger] self.entries@[i]).0 != *key,
            },
    {
        let mut i: usize = 0;
        while i < self.entries.len()
            invariant
                i <= self.entries@.len(),
                forall|j: int| 0 <= j < i ==> (#[trigger] self.entries@[j]).0 != *key,
            decreases self.entries@.len() - i,
        {
            if same_hash(&self.entries[i].0, key) {
                return Some(i);
            }
            i = i + 1;
        }
        None
    }

    fn get(&self, key: &Hash32) -> (found: Option<Account>)
        requires
            self.wf(),
        ensures
            found is Some <==> self@.contains_key(*key),
            found matches Some(account) ==> account == self@[*key],
    {
        proof {
            lemma_entry_map(self.entries@);
        }
        match self.position(key) {
            Some(i) => Some(self.entries[i].1),
            None => None,
        }
    }

    fn insert(&mut self, key: Hash32, account: Account)
        requires
            old(self).wf(),
        ensures
            final(self).wf(),
            final(self)@ == old(self)@.insert(key, account),
    {
        let ghost before = self.entries@;
        match self.position(&key) {
            Some(i) => {
                self.entries[i] = (key, account);
                proof {
                    let after = self.entries@;
                    assert(after =~= before.update(i as int, (key, account)));
                    assert forall|a: int, b: int| 0 <= a < b < after.len() implies (
                    #[trigger] after[a]).0 != (#[trigger] after[b]).0 by {
                        assert(before[a].0 == after[a].0);
                        assert(before[b].0 == after[b].0);
                    }
                    lemma_entry_map(before);
                    lemma_entry_map(after);
                    assert forall|k: Hash32|
                        entry_map(after).contains_key(k) <==> entry_map(before).insert(
                            key,
                            account,
                        ).contains_key(k) by {
                        if entry_map(after).contains_key(k) {
                            let j = choose|j: int| 0 <= j < after.len() && (#[trigger] after[j]).0 == k;
                            assert(before[j].0 == k);
                        }
                        if entry_map(before).contains_key(k) {
                            let j = choose|j: int|
                                0 <= j < before.len() && (#[trigger] before[j]).0 == k;
                            assert(after[j].0 == k);
                        }
                        assert(after[i as int].0 == key);
                    }
                    assert forall|k: Hash32| entry_map(after).contains_key(k) implies entry_map(
                        after,
                    )[k] == entry_map(before).insert(key, account)[k] by {
                        let j = choose|j: int| 0 <= j < after.len() && (#[trigger] after[j]).0 == k;
                        assert(before[j].0 == k);
                        if j != i {
                            assert(after[j] == before[j]);
                            if k == key {
                                assert(after[i as int].0 == after[j].0);
                            }
                        }
                    }
                    assert(entry_map(after) =~= entry_map(before).insert(key, account));
                }
            },
            None => {
                self.entries.push((key, account));
                assert(self.entries@.drop_last() =~= before);
            },
        }
    }
}

impl View for AccountCache {
    type V = Map<Hash32, Account>;

    closed spec fn view(&self) -> Map<Hash32, Account> {
        entry_map(self.entries@)
    }
}

/// What became of an item of a block.
#[derive(Debug, Clone, PartialEq, Eq)]
pub enum Applied {
    /// The deposit was credited.
    Credited,
    /// The deposit would not fit and was skipped.
    DepositSkipped,
    /// The forced transfer is a dummy and was skipped.
    DummySkipped,
    /// The sender is unknown and the transfer was skipped.
    SenderMissing,
    /// The transfer went through.
    Transferred,
    /// The transfer was not covered, and the fee was charged.
    FeeCharged,
    /// The transfer was refused and changed nothing.
    Refused(StfError),
}

/// The account at `key`: from the cache if it is there, and else from the tree.
pub open spec fn loaded(
    tree: TreeView,
    root: Option<Hash32>,
    cache: Map<Hash32, Account>,
    key: Hash32,
) -> Result<Account, HaltView> {
    if cache.contains_key(key) {
        Ok(cache[key])
    } else {
        account_at(tree, root, key)
    }
}

/// The cache after the account at `key` was asked for.
pub open spec fn cache_after_load(
    tree: TreeView,
    root: Option<Hash32>,
    cache: Map<Hash32, Account>,
    key: Hash32,
) -> Map<Hash32, Account> {
    match loaded(tree, root, cache, key) {
        Ok(account) => cache.insert(key, account),
        Err(_) => cache,
    }
}

/// A deposit: the cache after it, and what became of it. An account that is not known yet is
/// opened.
pub open spec fn deposit_effect(
    tree: TreeView,
    root: Option<Hash32>,
    cache: Map<Hash32, Account>,
    deposit: Deposit,
) -> (Map<Hash32, Account>, Result<Applied, HaltView>) {
    let account = match loaded(tree, root, cache, deposit.to) {
        Err(HaltView::Failed(CoreErrorView::AccountNotFound(_))) => Ok(Account::fresh(deposit.to)),
        other => other,
    };
    let known = cache_after_load(tree, root, cache, deposit.to);
    match account {
        Err(halt) => (known, Err(halt)),
        Ok(account) => match deposited(account, deposit.amount) {
            Ok(updated) => (known.insert(deposit.to, updated), Ok(Applied::Credited)),
            Err(_) => (known, Ok(Applied::DepositSkipped)),
        },
    }
}

/// The cache after a transfer between two known accounts, and what became of the transfer. Where
/// sender and recipient are one, the recipient's side is what stays.
pub open spec fn settled(
    cache: Map<Hash32, Account>,
    from: Hash32,
    to: Hash32,
    outcome: Result<TransactionResult, StfError>,
) -> (Map<Hash32, Account>, Applied) {
    match outcome {
        Ok(TransactionResult::Success(updated_from, updated_to)) => (
            if from == to {
                cache.insert(from, updated_to)
            } else {
                cache.insert(from, updated_from).insert(to, updated_to)
            },
            Applied::Transferred,
        ),
        Ok(TransactionResult::Failure(updated_from)) => (
            cache.insert(from, updated_from),
            Applied::FeeCharged,
        ),
        Err(e) => (cache, Applied::Refused(e)),
    }
}

/// A transfer: the cache after it, and what became of it. A transfer of an unknown sender is
/// skipped; a recipient that cannot be read counts as a fresh account.
pub open spec fn transfer_effect(
    tree: TreeView,
    root: Option<Hash32>,
    cache: Map<Hash32, Account>,
    from: Hash32,
    to: Hash32,
    nonce: u64,
    amount: u64,
    fee: u64,
) -> (Map<Hash32, Account>, Result<Applied, HaltView>) {
    let with_from = cache_after_load(tree, root, cache, from);
    match loaded(tree, root, cache, from) {
        Err(HaltView::Failed(CoreErrorView::AccountNotFound(_))) => (
            with_from,
            Ok(Applied::SenderMissing),
        ),
        Err(halt) => (with_from, Err(halt)),
        Ok(sender) => {
            let with_both = cache_after_load(tree, root, with_from, to);
            match loaded(tree, root, with_from, to) {
                Err(HaltView::Unread(query)) => (with_both, Err(HaltView::Unread(query))),
                other => {
                    let recipient = match other {
                        Ok(account) => account,
                        Err(_) => Account::fresh(to),
                    };
                    let (after, applied) = settled(
                        with_both,
                        from,
                        to,
                        transferred(sender, recipient, nonce, amount, fee),
                    );
                    (after, Ok(applied))
                },
            }
        },
    }
}

/// A forced transfer. One whose sender is the zero address is a dummy.
pub open spec fn forced_effect(
    tree: TreeView,
    root: Option<Hash32>,
    cache: Map<Hash32, Account>,
    tx: ForcedTx,
) -> (Map<Hash32, Account>, Result<Applied, HaltView>) {
    if tx.from == zero() {
        (cache, Ok(Applied::DummySkipped))
    } else {
        transfer_effect(tree, root, cache, tx.from, tx.to, tx.nonce, tx.amount, tx.fee)
    }
}

/// A transfer.
pub open spec fn tx_effect(
    tree: TreeView,
    root: Option<Hash32>,
    cache: Map<Hash32, Account>,
    tx: Transaction,
) -> (Map<Hash32, Account>, Result<Applied, HaltView>) {
    transfer_effect(tree, root, cache, tx.from, tx.to, tx.nonce, tx.amount, tx.fee)
}

/// What is logged when the account at `key` is asked for: a line where the tree is asked.
pub open spec fn load_lines(
    root: Option<Hash32>,
    cache: Map<Hash32, Account>,
    key: Hash32,
) -> Seq<Seq<char>> {
    if cache.contains_key(key) {
        no_lines()
    } else {
        seq![load_text(root, key)]
    }
}

/// What is logged while a deposit is executed.
pub open spec fn deposit_lines(
    tree: TreeView,
    root: Option<Hash32>,
    cache: Map<Hash32, Account>,
    deposit: Deposit,
) -> Seq<Seq<char>> {
    load_lines(root, cache, deposit.to) + match deposit_effect(tree, root, cache, deposit).1 {
        Ok(applied) => deposit_text(applied, deposit.to),
        Err(_) => no_lines(),
    }
}

/// What is logged while the two accounts of a transfer are asked for: the recipient's only where
/// there is a sender.
pub open spec fn pair_lines(
    tree: TreeView,
    root: Option<Hash32>,
    cache: Map<Hash32, Account>,
    from: Hash32,
    to: Hash32,
) -> Seq<Seq<char>> {
    load_lines(root, cache, from) + match loaded(tree, root, cache, from) {
        Ok(_) => load_lines(root, cache_after_load(tree, root, cache, from), to),
        Err(_) => no_lines(),
    }
}

/// The recipient of a transfer, where the transfer gets so far.
pub open spec fn recipient_of(
    tree: TreeView,
    root: Option<Hash32>,
    cache: Map<Hash32, Account>,
    from: Hash32,
    to: Hash32,
) -> Option<Account> {
    match loaded(tree, root, cache, from) {
        Err(_) => None,
        Ok(_) => match loaded(tree, root, cache_after_load(tree, root, cache, from), to) {
            Err(HaltView::Unread(_)) => None,
            Err(_) => Some(Account::fresh(to)),
            Ok(recipient) => Some(recipient),
        },
    }
}

/// What is logged while a forced transfer is executed.
pub open spec fn forced_lines(
    tree: TreeView,
    root: Option<Hash32>,
    cache: Map<Hash32, Account>,
    tx: ForcedTx,
) -> Seq<Seq<char>> {
    if tx.from == zero() {
        forced_text(Applied::DummySkipped, tx.from)
    } else {
        pair_lines(tree, root, cache, tx.from, tx.to) + match forced_effect(
            tree,
            root,
            cache,
            tx,
        ).1 {
            Ok(applied) => forced_text(applied, tx.from),
            Err(_) => no_lines(),
        }
    }
}

/// What is logged while a transfer is executed: that it starts, what is asked of the tree, who the
/// recipient is, and what became of the transfer.
pub open spec fn tx_lines(
    tree: TreeView,
    root: Option<Hash32>,
    cache: Map<Hash32, Account>,
    tx: Transaction,
) -> Seq<Seq<char>> {
    seq![start_text(tx.from)] + pair_lines(tree, root, cache, tx.from, tx.to) + (match recipient_of(
        tree,
        root,
        cache,
        tx.from,
        tx.to,
    ) {
        Some(recipient) => seq![recipient_text(recipient)],
        None => no_lines(),
    }) + match tx_effect(tree, root, cache, tx).1 {
        Ok(applied) => tx_text(applied, tx.from),
        Err(_) => no_lines(),
    }
}

/// The sender's nonce can be counted up, if it comes to that.
pub open spec fn sender_can_count(
    tree: TreeView,
    root: Option<Hash32>,
    cache: Map<Hash32, Account>,
    from: Hash32,
    nonce: u64,
) -> bool {
    loaded(tree, root, cache, from) matches Ok(sender) ==> !nonce_exhausted(sender, nonce)
}

/// An outcome says what `expected` says.
pub open spec fn applied_agrees(
    result: Result<Applied, Halt>,
    expected: Result<Applied, HaltView>,
) -> bool {
    match result {
        Ok(applied) => expected == Ok::<Applied, HaltView>(applied),
        Err(halt) => expected == Err::<Applied, HaltView>(halt@),
    }
}

/// How a block's changes are written to the tree.
#[derive(Debug, Clone, PartialEq, Eq)]
pub enum Commit {
    /// Nothing is written, and the root stays.
    Unchanged(Hash32),
    /// The leaves are put under the keys, from `root` on.
    Insert { root: Option<Hash32>, keys: Vec<Hash32>, leaves: Vec<Hash32> },
}

/// The root, or the root of the empty state where there is none.
pub open spec fn root_or_zero(root: Option<Hash32>) -> Hash32 {
    match root {
        Some(r) => r,
        None => zero(),
    }
}

/// `keys` and `leaves` are the accounts of `cache` with their leaves, each once.
pub open spec fn lists_accounts(
    cache: Map<Hash32, Account>,
    keys: Seq<Hash32>,
    leaves: Seq<Hash32>,
) -> bool {
    &&& keys.len() == leaves.len()
    &&& keys.no_duplicates()
    &&& forall|key: Hash32| #[trigger] keys.contains(key) <==> cache.contains_key(key)
    &&& forall|i: int|
        0 <= i < keys.len() ==> (#[trigger] leaves[i]) == account_hash(cache[keys[i]])
}

/// Writing the changes of `cache` over `root` takes this commit.
pub open spec fn commits(root: Option<Hash32>, cache: Map<Hash32, Account>, commit: Commit) -> bool {
    match commit {
        Commit::Unchanged(unchanged) => cache =~= Map::<Hash32, Account>::empty() && unchanged
            == root_or_zero(root),
        Commit::Insert { root: under, keys, leaves } => !(cache =~= Map::<
            Hash32,
            Account,
        >::empty()) && under == root && lists_accounts(cache, keys@, leaves@),
    }
}

/// Executes the items of a block, one at a time.
pub struct BlockExecutor<'a> {
    tree: &'a TreeReads,
    root: Option<Hash32>,
    account_cache: AccountCache,
    log: Vec<String>,
}

impl<'a> BlockExecutor<'a> {
    /// The answers of the tree that it works on.
    pub closed spec fn tree(self) -> TreeView {
        self.tree@
    }

    /// The root that the block starts from.
    pub closed spec fn root(self) -> Option<Hash32> {
        self.root
    }

    /// The accounts that the block has read or changed.
    pub closed spec fn accounts(self) -> Map<Hash32, Account> {
        self.account_cache@
    }

    /// What has been logged.
    pub closed spec fn log(self) -> Seq<Seq<char>> {
        lines_view(self.log@)
    }

    /// The cache holds no address twice.
    pub closed spec fn wf(self) -> bool {
        self.account_cache.wf()
    }

    /// `self` differs from `before` in its accounts and its log only.
    pub open spec fn same_base(self, before: Self) -> bool {
        &&& self.wf()
        &&& self.tree() == before.tree()
        &&& self.root() == before.root()
    }

    /// A block on top of `root`.
    pub fn new(tree: &'a TreeReads, root: Option<Hash32>) -> (executor: Self)
        ensures
            executor.wf(),
            executor.tree() == tree@,
            executor.root() == root,
            executor.accounts() == Map::<Hash32, Account>::empty(),
            executor.log() == no_lines(),
    {
        let log: Vec<String> = Vec::new();
        assert(lines_view(log@) =~= no_lines());
        BlockExecutor { tree, root, account_cache: AccountCache::new(), log }
    }

    fn get_account_helper(&mut self, address: &Hash32) -> (result: Result<Account, Halt>)
        requires
            old(self).wf(),
        ensures
            final(self).same_base(*old(self)),
            final(self).accounts() == cache_after_load(
                old(self).tree(),
                old(self).root(),
                old(self).accounts(),
                *address,
            ),
            final(self).log() == old(self).log() + load_lines(
                old(self).root(),
                old(self).accounts(),
                *address,
            ),
            match result {
                Ok(account) => loaded(
                    old(self).tree(),
                    old(self).root(),
                    old(self).accounts(),
                    *address,
                ) == Ok::<Account, HaltView>(account),
                Err(halt) => loaded(
                    old(self).tree(),
                    old(self).root(),
                    old(self).accounts(),
                    *address,
                ) == Err::<Account, HaltView>(halt@),
            },
    {
        let ghost before = self.log();
        match self.account_cache.get(address) {
            Some(account) => {
                assert(self.accounts() =~= self.accounts().insert(*address, account));
                assert(before + no_lines() =~= before);
                Ok(account)
            },
            None => {
                push_line(&mut self.log, load_line(&self.root, address));
                assert(self.log() =~= before + seq![load_text(self.root, *address)]);
                match get_account(self.tree, self.root.as_ref(), address) {
                    Ok(account) => {
                        self.account_cache.insert(*address, account);
                        Ok(account)
                    },
                    Err(halt) => Err(halt),
                }
            },
        }
    }

    /// Credits a deposit.
    pub fn apply_deposit(&mut self, deposit: &Deposit) -> (result: Result<Applied, Halt>)
        requires
            old(self).wf(),
        ensures
            final(self).same_base(*old(self)),
            ({
                let (accounts, applied) = deposit_effect(
                    old(self).tree(),
                    old(self).root(),
                    old(self).accounts(),
                    *deposit,
                );
                final(self).accounts() == accounts && applied_agrees(result, applied)
            }),
            final(self).log() == old(self).log() + deposit_lines(
                old(self).tree(),
                old(self).root(),
                old(self).accounts(),
                *deposit,
            ),
    {
        let ghost start = self.log();
        let ghost asked = load_lines(self.root(), self.accounts(), deposit.to);
        let to_account: Account = match self.get_account_helper(&deposit.to) {
            Ok(account) => account,
            Err(Halt::Failed(CoreError::AccountNotFound(_))) => Account::new(deposit.to),
            Err(halt) => {
                assert(asked + no_lines() =~= asked);
                return Err(halt);
            },
        };
        let applied: Applied = match crate::stf::apply_deposit(to_account, deposit) {
            Ok(updated) => {
                self.account_cache.insert(deposit.to, updated);
                Applied::Credited
            },
            Err(_) => Applied::DepositSkipped,
        };
        log_deposit(&mut self.log, &applied, &deposit.to);
        assert(start + asked + deposit_text(applied, deposit.to) =~= start + (asked + deposit_text(
            applied,
            deposit.to,
        )));
        Ok(applied)
    }

    /// Executes a forced transfer.
    pub fn apply_forced_tx(&mut self, tx: &ForcedTx) -> (result: Result<Applied, Halt>)
        requires
            old(self).wf(),
            tx.from != zero() ==> sender_can_count(
                old(self).tree(),
                old(self).root(),
                old(self).accounts(),
                tx.from,
                tx.nonce,
            ),
        ensures
            final(self).same_base(*old(self)),
            ({
                let (accounts, applied) = forced_effect(
                    old(self).tree(),
                    old(self).root(),
                    old(self).accounts(),
                    *tx,
                );
                final(self).accounts() == accounts && applied_agrees(result, applied)
            }),
            final(self).log() == old(self).log() + forced_lines(
                old(self).tree(),
                old(self).root(),
                old(self).accounts(),
                *tx,
            ),
    {
        let ghost start = self.log();
        let ghost asked = pair_lines(self.tree(), self.root(), self.accounts(), tx.from, tx.to);
        if same_hash(&tx.from, &zero_hash()) {
            log_forced(&mut self.log, &Applied::DummySkipped, &tx.from);
            return Ok(Applied::DummySkipped);
        }
        let (from_account, to_account): (Account, Account) = match self.get_pair(
            &tx.from,
            &tx.to,
        ) {
            Ok(Some(pair)) => pair,
            Ok(None) => {
                let skipped: Applied = Applied::SenderMissing;
                log_forced(&mut self.log, &skipped, &tx.from);
                assert(start + asked + forced_text(skipped, tx.from) =~= start + (asked
                    + forced_text(skipped, tx.from)));
                return Ok(skipped);
            },
            Err(halt) => {
                assert(asked + no_lines() =~= asked);
                return Err(halt);
            },
        };
        let outcome: Result<TransactionResult, StfError> = crate::stf::apply_forced_tx(
            from_account,
            to_account,
            tx,
        );
        let applied: Applied = self.settle(tx.from, tx.to, outcome);
        log_forced(&mut self.log, &applied, &tx.from);
        assert(start + asked + forced_text(applied, tx.from) =~= start + (asked + forced_text(
            applied,
            tx.from,
        )));
        Ok(applied)
    }

    /// Executes a transfer.
    pub fn apply_transaction(&mut self, tx: &Transaction) -> (result: Result<Applied, Halt>)
        requires
            old(self).wf(),
            sender_can_count(
                old(self).tree(),
                old(self).root(),
                old(self).accounts(),
                tx.from,
                tx.nonce,
            ),
        ensures
            final(self).same_base(*old(self)),
            ({
                let (accounts, applied) = tx_effect(
                    old(self).tree(),
                    old(self).root(),
                    old(self).accounts(),
                    *tx,
                );
                final(self).accounts() == accounts && applied_agrees(result, applied)
            }),
            final(self).log() == old(self).log() + tx_lines(
                old(self).tree(),
                old(self).root(),
                old(self).accounts(),
                *tx,
            ),
    {
        let ghost start = self.log();
        let ghost asked = pair_lines(self.tree(), self.root(), self.accounts(), tx.from, tx.to);
        push_line(&mut self.log, start_line(&tx.from));
        let (from_account, to_account): (Account, Account) = match self.get_pair(
            &tx.from,
            &tx.to,
        ) {
            Ok(Some(pair)) => pair,
            Ok(None) => {
                let skipped: Applied = Applied::SenderMissing;
                log_tx(&mut self.log, &skipped, &tx.from);
                assert(self.log() =~= start + (seq![start_text(tx.from)] + asked + no_lines()
                    + tx_text(skipped, tx.from)));
                return Ok(skipped);
            },
            Err(halt) => {
                assert(self.log() =~= start + (seq![start_text(tx.from)] + asked + no_lines()
                    + no_lines()));
                return Err(halt);
            },
        };
        push_line(&mut self.log, recipient_line(&to_account));
        let outcome: Result<TransactionResult, StfError> = crate::stf::apply_transaction(
            from_account,
            to_account,
            tx,
        );
        let applied: Applied = self.settle(tx.from, tx.to, outcome);
        log_tx(&mut self.log, &applied, &tx.from);
        assert(self.log() =~= start + (seq![start_text(tx.from)] + asked + seq![
            recipient_text(to_account),
        ] + tx_text(applied, tx.from)));
        Ok(applied)
    }

    /// The sender and the recipient of a transfer, or nothing where the sender is unknown.
    fn get_pair(&mut self, from: &Hash32, to: &Hash32) -> (result: Result<
        Option<(Account, Account)>,
        Halt,
    >)
        requires
            old(self).wf(),
        ensures
            final(self).same_base(*old(self)),
            final(self).log() == old(self).log() + pair_lines(
                old(self).tree(),
                old(self).root(),
                old(self).accounts(),
                *from,
                *to,
            ),
            ({
                let with_from = cache_after_load(
                    old(self).tree(),
                    old(self).root(),
                    old(self).accounts(),
                    *from,
                );
                let with_both = cache_after_load(old(self).tree(), old(self).root(), with_from, *to);
                match loaded(old(self).tree(), old(self).root(), old(self).accounts(), *from) {
                    Err(HaltView::Failed(CoreErrorView::AccountNotFound(_))) => final(self).accounts()
                        == with_from && (result matches Ok(None)),
                    Err(halt_view) => final(self).accounts() == with_from && (result matches Err(
                        halt,
                    ) && halt@ == halt_view),
                    Ok(sender) => final(self).accounts() == with_both && match loaded(
                        old(self).tree(),
                        old(self).root(),
                        with_from,
                        *to,
                    ) {
                        Err(HaltView::Unread(query)) => result matches Err(halt) && halt@
                            == HaltView::Unread(query),
                        Err(_) => result == Ok::<Option<(Account, Account)>, Halt>(
                            Some((sender, Account::fresh(*to))),
                        ),
                        Ok(recipient) => result == Ok::<Option<(Account, Account)>, Halt>(
                            Some((sender, recipient)),
                        ),
                    },
                }
            }),
    {
        let ghost start = self.log();
        let ghost first = load_lines(self.root(), self.accounts(), *from);
        assert(first + no_lines() =~= first);
        let from_account: Account = match self.get_account_helper(from) {
            Ok(account) => account,
            Err(Halt::Failed(CoreError::AccountNotFound(_))) => return Ok(None),
            Err(halt) => return Err(halt),
        };
        let ghost second = load_lines(self.root(), self.accounts(), *to);
        assert(start + first + second =~= start + (first + second));
        let to_account: Account = match self.get_account_helper(to) {
            Ok(account) => account,
            Err(Halt::Unread(query)) => return Err(Halt::Unread(query)),
            Err(_) => Account::new(*to),
        };
        Ok(Some((from_account, to_account)))
    }

    fn settle(
        &mut self,
        from: Hash32,
        to: Hash32,
        outcome: Result<TransactionResult, StfError>,
    ) -> (applied: Applied)
        requires
            old(self).wf(),
        ensures
            final(self).same_base(*old(self)),
            final(self).log() == old(self).log(),
            (final(self).accounts(), applied) == settled(old(self).accounts(), from, to, outcome),
    {
        match outcome {
            Ok(TransactionResult::Success(updated_from, updated_to)) => {
                self.update_cache_success(from, updated_from, to, updated_to);
                Applied::Transferred
            },
            Ok(TransactionResult::Failure(updated_from)) => {
                self.account_cache.insert(from, updated_from);
                Applied::FeeCharged
            },
            Err(e) => Applied::Refused(e),
        }
    }

    fn update_cache_success(
        &mut self,
        from_key: Hash32,
        from_account: Account,
        to_key: Hash32,
        to_account: Account,
    )
        requires
            old(self).wf(),
        ensures
            final(self).same_base(*old(self)),
            final(self).log() == old(self).log(),
            final(self).accounts() == if from_key == to_key {
                old(self).accounts().insert(from_key, to_account)
            } else {
                old(self).accounts().insert(from_key, from_account).insert(to_key, to_account)
            },
    {
        if same_hash(&from_key, &to_key) {
            self.account_cache.insert(from_key, to_account);
        } else {
            self.account_cache.insert(from_key, from_account);
            self.account_cache.insert(to_key, to_account);
        }
    }

    /// Hands out what has been logged.
    pub fn take_log(&mut self) -> (lines: Vec<String>)
        requires
            old(self).wf(),
        ensures
            final(self).same_base(*old(self)),
            final(self).accounts() == old(self).accounts(),
            final(self).log() == no_lines(),
            lines_view(lines@) == old(self).log(),
    {
        let mut lines: Vec<String> = Vec::new();
        assert(lines_view(lines@) =~= no_lines());
        std::mem::swap(&mut lines, &mut self.log);
        lines
    }

    /// What is to be written to the tree for the block.
    pub fn commit_block(self) -> (commit: Commit)
        requires
            self.wf(),
        ensures
            commits(self.root(), self.accounts(), commit),
    {
        if self.account_cache.entries.len() == 0 {
            return Commit::Unchanged(
                match self.root {
                    Some(root) => root,
                    None => zero_hash(),
                },
            );
        }
        let ghost entries = self.account_cache.entries@;
        let mut keys: Vec<Hash32> = Vec::new();
        let mut leaves: Vec<Hash32> = Vec::new();
        let mut i: usize = 0;
        while i < self.account_cache.entries.len()
            invariant
                i <= self.account_cache.entries@.len(),
                keys@.len() == i,
                leaves@.len() == i,
                forall|j: int|
                    0 <= j < i ==> #[trigger] keys@[j] == self.account_cache.entries@[j].0,
                forall|j: int|
                    0 <= j < i ==> #[trigger] leaves@[j] == account_hash(
                        self.account_cache.entries@[j].1,
                    ),
            decreases self.account_cache.entries@.len() - i,
        {
            let entry: &(Hash32, Account) = &self.account_cache.entries[i];
            keys.push(entry.0);
            leaves.push(entry.1.hash());
            i = i + 1;
        }
        proof {
            lemma_entry_map(entries);
            assert(entry_map(entries).contains_key(entries[0].0));
            assert forall|key: Hash32| #[trigger] keys@.contains(key) <==> entry_map(
                entries,
            ).contains_key(key) by {
                if keys@.contains(key) {
                    let j = choose|j: int| 0 <= j < keys@.len() && keys@[j] == key;
                    assert(entries[j].0 == key);
                }
                if entry_map(entries).contains_key(key) {
                    let j = choose|j: int| 0 <= j < entries.len() && (#[trigger] entries[j]).0 == key;
                    assert(keys@[j] == key);
                }
            }
            assert forall|j: int| 0 <= j < keys@.len() implies (#[trigger] leaves@[j])
                == account_hash(entry_map(entries)[keys@[j]]) by {
                assert(keys@[j] == entries[j].0);
            }
            assert(keys@.no_duplicates()) by {
                assert forall|a: int, b: int|
                    0 <= a < keys@.len() && 0 <= b < keys@.len() && a != b implies keys@[a]
                    != keys@[b] by {
                    assert(entries[a].0 != entries[b].0);
                }
            }
        }
        Commit::Insert { root: self.root, keys, leaves }
    }
}

/// The tree's answer on a write: the new root, if there is one, or what the database said went
/// wrong.
pub type InsertReply = Result<Option<Hash32>, String>;

/// The root that a write led to.
pub fn finish_commit(reply: InsertReply) -> (result: Result<Hash32, CoreError>)
    ensures
        match reply {
            Ok(Some(root)) => result == Ok::<Hash32, CoreError>(root),
            Ok(None) => result matches Err(e) && e@ == CoreErrorView::DatabaseError(
                "commit_block inserts returned none err"@,
            ),
            Err(message) => result matches Err(e) && e@ == CoreErrorView::DatabaseError(
                "commit_block inserts err: "@ + message@,
            ),
        },
{
    match reply {
        Ok(Some(root)) => Ok(root),
        Ok(None) => Err(
            CoreError::DatabaseError("commit_block inserts returned none err".to_owned()),
        ),
        Err(message) => Err(
            CoreError::DatabaseError(join("commit_block inserts err: ", message.as_str())),
        ),
    }
}

/// A deposit leaves every account but the one that it goes to.
pub proof fn law_deposit_touches_one(
    tree: TreeView,
    root: Option<Hash32>,
    cache: Map<Hash32, Account>,
    deposit: Deposit,
    other: Hash32,
)
    requires
        other != deposit.to,
    ensures
        deposit_effect(tree, root, cache, deposit).0.contains_key(other) <==> cache.contains_key(
            other,
        ),
        cache.contains_key(other) ==> deposit_effect(tree, root, cache, deposit).0[other]
            == cache[other],
{
}

/// A transfer, forced or not, leaves every account but the sender's and the recipient's.
pub proof fn law_transfer_touches_two(
    tree: TreeView,
    root: Option<Hash32>,
    cache: Map<Hash32, Account>,
    from: Hash32,
    to: Hash32,
    nonce: u64,
    amount: u64,
    fee: u64,
    other: Hash32,
)
    requires
        other != from,
        other != to,
    ensures
        ({
            let (after, _) = transfer_effect(tree, root, cache, from, to, nonce, amount, fee);
            &&& after.contains_key(other) <==> cache.contains_key(other)
            &&& cache.contains_key(other) ==> after[other] == cache[other]
        }),
{
}

/// A transfer to oneself that goes through credits the amount, charges nothing and does not count.
pub proof fn law_transfer_to_oneself_credits(
    tree: TreeView,
    root: Option<Hash32>,
    cache: Map<Hash32, Account>,
    id: Hash32,
    nonce: u64,
    amount: u64,
    fee: u64,
)
    requires
        cache.contains_key(id),
    ensures
        ({
            let (after, applied) = transfer_effect(tree, root, cache, id, id, nonce, amount, fee);
            applied == Ok::<Applied, HaltView>(Applied::Transferred) ==> after == cache.insert(
                id,
                Account { balance: (cache[id].balance + amount) as u64, ..cache[id] },
            )
        }),
{
    let (after, applied) = transfer_effect(tree, root, cache, id, id, nonce, amount, fee);
    if applied == Ok::<Applied, HaltView>(Applied::Transferred) {
        assert(after =~= cache.insert(
            id,
            Account { balance: (cache[id].balance + amount) as u64, ..cache[id] },
        ));
    }
}

/// A transfer that is skipped or refused leaves the accounts that are known.
pub proof fn law_refused_transfer_changes_nothing(
    tree: TreeView,
    root: Option<Hash32>,
    cache: Map<Hash32, Account>,
    from: Hash32,
    to: Hash32,
    nonce: u64,
    amount: u64,
    fee: u64,
    key: Hash32,
)
    requires
        cache.contains_key(key),
        match transfer_effect(tree, root, cache, from, to, nonce, amount, fee).1 {
            Ok(Applied::SenderMissing) => true,
            Ok(Applied::Refused(_)) => true,
            _ => false,
        },
    ensures
        ({
            let (after, _) = transfer_effect(tree, root, cache, from, to, nonce, amount, fee);
            after.contains_key(key) && after[key] == cache[key]
        }),
{
}

/// The recipient of a transfer does not have to be waited for.
pub open spec fn readable(
    tree: TreeView,
    root: Option<Hash32>,
    cache: Map<Hash32, Account>,
    key: Hash32,
) -> bool {
    cache.contains_key(key) || root == Some(zero()) || tree.leaves.contains_key((root, key))
}

/// A transfer of a known sender to somebody else does what its numbers say. One that is covered
/// takes amount and fee from the sender, gives the amount to the recipient, who may be new, and
/// counts the sender's nonce. One that is not covered takes the fee, or all there is, and counts. One
/// with another nonce, or with numbers beyond 64 bits, changes nothing. Nobody else is touched.
pub proof fn law_submitted_transfer_moves_its_amount(
    tree: TreeView,
    root: Option<Hash32>,
    cache: Map<Hash32, Account>,
    tx: Transaction,
    other: Hash32,
)
    requires
        tx.from != tx.to,
        cache.contains_key(tx.from),
        readable(tree, root, cache, tx.to),
        cache[tx.from].nonce != tx.nonce || tx.nonce < u64::MAX,
        other != tx.from,
        other != tx.to,
    ensures
        ({
            let (after, applied) = tx_effect(tree, root, cache, tx);
            let sender = cache[tx.from];
            let new = !cache.contains_key(tx.to);
            let held: int = if new {
                0
            } else {
                cache[tx.to].balance as int
            };
            let due = sender.nonce == tx.nonce;
            let covered = sender.balance >= tx.amount + tx.fee;
            &&& after.contains_key(other) <==> cache.contains_key(other)
            &&& cache.contains_key(other) ==> after[other] == cache[other]
            &&& due && covered && held + tx.amount <= u64::MAX ==> {
                &&& applied == Ok::<Applied, HaltView>(Applied::Transferred)
                &&& after.contains_key(tx.from) && after.contains_key(tx.to)
                &&& after[tx.from].id == sender.id
                &&& after[tx.from].nonce == sender.nonce + 1
                &&& after[tx.from].balance == sender.balance - tx.amount - tx.fee
                &&& after[tx.to].balance == held + tx.amount
                &&& new ==> after[tx.to].id == tx.to && after[tx.to].nonce == 0
                &&& !new ==> after[tx.to].id == cache[tx.to].id && after[tx.to].nonce
                    == cache[tx.to].nonce
            }
            &&& due && !covered && tx.amount + tx.fee <= u64::MAX ==> {
                &&& applied == Ok::<Applied, HaltView>(Applied::FeeCharged)
                &&& after.contains_key(tx.from)
                &&& after[tx.from].id == sender.id
                &&& after[tx.from].nonce == sender.nonce + 1
                &&& sender.balance >= tx.fee ==> after[tx.from].balance == sender.balance - tx.fee
                &&& sender.balance < tx.fee ==> after[tx.from].balance == 0
                &&& after.contains_key(tx.to) <==> cache.contains_key(tx.to)
                &&& cache.contains_key(tx.to) ==> after[tx.to] == cache[tx.to]
            }
            &&& !due ==> after == cache && applied == Ok::<Applied, HaltView>(
                Applied::Refused(
                    StfError::InvalidNonce { expected: sender.nonce, got: tx.nonce },
                ),
            )
            &&& due && (tx.amount + tx.fee > u64::MAX || (covered && held + tx.amount > u64::MAX))
                ==> after == cache && applied == Ok::<Applied, HaltView>(
                Applied::Refused(StfError::BalanceOverflow),
            )
        }),
{
    law_no_account_from_a_leaf(tree, root, tx.to);
    let (after, applied) = tx_effect(tree, root, cache, tx);
    assert(cache.insert(tx.from, cache[tx.from]) =~= cache);
    if cache.contains_key(tx.to) {
        assert(cache.insert(tx.to, cache[tx.to]) =~= cache);
    }
}

/// A transfer of a known sender to themselves, if it is covered, leaves the account with the amount
/// on top; if it is not, it costs the fee and counts; and if it is refused, nothing changes.
pub proof fn law_submitted_transfer_to_oneself(
    tree: TreeView,
    root: Option<Hash32>,
    cache: Map<Hash32, Account>,
    tx: Transaction,
)
    requires
        tx.from == tx.to,
        cache.contains_key(tx.from),
        cache[tx.from].nonce != tx.nonce || tx.nonce < u64::MAX,
    ensures
        ({
            let (after, applied) = tx_effect(tree, root, cache, tx);
            let sender = cache[tx.from];
            let due = sender.nonce == tx.nonce;
            let covered = sender.balance >= tx.amount + tx.fee;
            &&& after.contains_key(tx.from) && after[tx.from].id == sender.id
            &&& due && covered && sender.balance + tx.amount <= u64::MAX ==> applied == Ok::<
                Applied,
                HaltView,
            >(Applied::Transferred) && after[tx.from].balance == sender.balance + tx.amount
                && after[tx.from].nonce == sender.nonce
            &&& due && !covered && tx.amount + tx.fee <= u64::MAX ==> applied == Ok::<
                Applied,
                HaltView,
            >(Applied::FeeCharged) && after[tx.from].nonce == sender.nonce + 1
                && after[tx.from].balance == if sender.balance < tx.fee {
                0
            } else {
                sender.balance - tx.fee
            }
            &&& !due ==> after == cache && applied == Ok::<Applied, HaltView>(
                Applied::Refused(
                    StfError::InvalidNonce { expected: sender.nonce, got: tx.nonce },
                ),
            )
            &&& due && (tx.amount + tx.fee > u64::MAX || (covered && sender.balance + tx.amount
                > u64::MAX)) ==> after == cache && applied == Ok::<Applied, HaltView>(
                Applied::Refused(StfError::BalanceOverflow),
            )
        }),
{
    assert(cache.insert(tx.from, cache[tx.from]) =~= cache);
}

/// A transfer whose sender is not known yet is skipped where the tree has no such account, waits
/// where the tree has not been asked, and fails where the tree's answer is no use; one of a known
/// sender waits for the recipient. No account changes in any of these.
pub proof fn law_transfer_without_its_accounts(
    tree: TreeView,
    root: Option<Hash32>,
    cache: Map<Hash32, Account>,
    tx: Transaction,
)
    ensures
        ({
            let (after, applied) = tx_effect(tree, root, cache, tx);
            let unknown = !cache.contains_key(tx.from);
            let answered = tree.leaves.contains_key((root, tx.from));
            let reply = tree.leaves[(root, tx.from)];
            &&& unknown ==> after == cache
            &&& unknown && (root == Some(zero()) || (answered && reply == Ok::<
                Option<Hash32>,
                Seq<char>,
            >(None))) ==> applied == Ok::<Applied, HaltView>(Applied::SenderMissing)
            &&& unknown && root != Some(zero()) && !answered ==> applied == Err::<
                Applied,
                HaltView,
            >(HaltView::Unread(TreeQuery::Leaf { root, key: tx.from }))
            &&& unknown && root != Some(zero()) && answered && (reply matches Ok(Some(_)))
                ==> applied == Err::<Applied, HaltView>(
                HaltView::Failed(CoreErrorView::AccountDataCorrupted(tx.from)),
            )
            &&& unknown && root != Some(zero()) && answered ==> (reply matches Err(message)
                ==> applied == Err::<Applied, HaltView>(
                HaltView::Failed(
                    CoreErrorView::DatabaseError("get_account get_leaf err: "@ + message),
                ),
            ))
            &&& !unknown && !readable(tree, root, cache, tx.to) ==> after == cache && applied
                == Err::<Applied, HaltView>(
                HaltView::Unread(TreeQuery::Leaf { root, key: tx.to }),
            )
        }),
{
    law_account_answers(tree, root, tx.from);
    law_account_answers(tree, root, tx.to);
    if cache.contains_key(tx.from) {
        assert(cache.insert(tx.from, cache[tx.from]) =~= cache);
    }
}

/// A forced transfer does what the same transfer does when its sender hands it in, except that one
/// of the zero address is a dummy, which is skipped without a look at any account.
pub proof fn law_forced_transfer_is_a_transfer(
    tree: TreeView,
    root: Option<Hash32>,
    cache: Map<Hash32, Account>,
    forced: ForcedTx,
    tx: Transaction,
)
    requires
        tx.from == forced.from,
        tx.to == forced.to,
        tx.nonce == forced.nonce,
        tx.amount == forced.amount,
        tx.fee == forced.fee,
    ensures
        forced.from == zero() ==> forced_effect(tree, root, cache, forced) == (
            cache,
            Ok::<Applied, HaltView>(Applied::DummySkipped),
        ),
        forced.from != zero() ==> forced_effect(tree, root, cache, forced) == tx_effect(
            tree,
            root,
            cache,
            tx,
        ),
{
}

/// A deposit raises the balance of its account by its amount, and opens the account where there is
/// none. It is skipped where the balance would not fit, waits where the tree has not been asked, and
/// fails where the tree's answer is no use; no account changes then. Nobody else is touched.
pub proof fn law_submitted_deposit_credits_its_amount(
    tree: TreeView,
    root: Option<Hash32>,
    cache: Map<Hash32, Account>,
    deposit: Deposit,
    other: Hash32,
)
    requires
        other != deposit.to,
    ensures
        ({
            let (after, applied) = deposit_effect(tree, root, cache, deposit);
            let to = deposit.to;
            let known = cache.contains_key(to);
            let answered = tree.leaves.contains_key((root, to));
            let reply = tree.leaves[(root, to)];
            &&& after.contains_key(other) <==> cache.contains_key(other)
            &&& cache.contains_key(other) ==> after[other] == cache[other]
            &&& known && cache[to].balance + deposit.amount <= u64::MAX ==> {
                &&& applied == Ok::<Applied, HaltView>(Applied::Credited)
                &&& after.contains_key(to)
                &&& after[to].balance == cache[to].balance + deposit.amount
                &&& after[to].id == cache[to].id && after[to].nonce == cache[to].nonce
            }
            &&& known && cache[to].balance + deposit.amount > u64::MAX ==> after == cache && applied
                == Ok::<Applied, HaltView>(Applied::DepositSkipped)
            &&& !known && (root == Some(zero()) || (answered && reply == Ok::<
                Option<Hash32>,
                Seq<char>,
            >(None))) ==> {
                &&& applied == Ok::<Applied, HaltView>(Applied::Credited)
                &&& after.contains_key(to)
                &&& after[to].balance == deposit.amount
                &&& after[to].id == to && after[to].nonce == 0
            }
            &&& !known && root != Some(zero()) && !answered ==> after == cache && applied == Err::<
                Applied,
                HaltView,
            >(HaltView::Unread(TreeQuery::Leaf { root, key: to }))
            &&& !known && root != Some(zero()) && answered && (reply matches Ok(Some(_)))
                ==> after == cache && applied == Err::<Applied, HaltView>(
                HaltView::Failed(CoreErrorView::AccountDataCorrupted(to)),
            )
            &&& !known && root != Some(zero()) && answered ==> (reply matches Err(message) ==> after
                == cache && applied == Err::<Applied, HaltView>(
                HaltView::Failed(
                    CoreErrorView::DatabaseError("get_account get_leaf err: "@ + message),
                ),
            ))
        }),
{
    law_account_answers(tree, root, deposit.to);
    if cache.contains_key(deposit.to) {
        assert(cache.insert(deposit.to, cache[deposit.to]) =~= cache);
    }
}

/// A commit writes the leaf of every account that the block has read or changed under its address,
/// once, over the root that the block started from, and nothing else; where there are no accounts,
/// it leaves the root, or the empty state where there was none.
pub proof fn law_commit_writes_every_account(
    root: Option<Hash32>,
    cache: Map<Hash32, Account>,
    commit: Commit,
    key: Hash32,
    i: int,
    j: int,
)
    requires
        commits(root, cache, commit),
    ensures
        match commit {
            Commit::Unchanged(unchanged) => !cache.contains_key(key) && (root matches Some(r)
                ==> unchanged == r) && (root is None ==> unchanged == zero()),
            Commit::Insert { root: under, keys, leaves } => {
                &&& under == root
                &&& 0 < keys@.len() == leaves@.len()
                &&& 0 <= i < keys@.len() ==> cache.contains_key(keys@[i]) && leaves@[i]
                    == account_hash(cache[keys@[i]])
                &&& 0 <= i < j < keys@.len() ==> keys@[i] != keys@[j]
                &&& cache.contains_key(key) ==> exists|k: int|
                    0 <= k < keys@.len() && #[trigger] keys@[k] == key && leaves@[k]
                        == account_hash(cache[key])
            },
        },
{
    if let Commit::Insert { root: _, keys, leaves } = commit {
        if cache.contains_key(key) {
            assert(keys@.contains(key));
            let k = choose|k: int| 0 <= k < keys@.len() && keys@[k] == key;
            assert(keys@[k] == key && leaves@[k] == account_hash(cache[key]));
        }
        if 0 <= i < keys@.len() {
            assert(keys@.contains(keys@[i]));
            assert(leaves@[i] == account_hash(cache[keys@[i]]));
        }
        if keys@.len() == 0 {
            assert forall|k: Hash32| !cache.contains_key(k) by {
                assert(!keys@.contains(k));
            }
            assert(cache =~= Map::<Hash32, Account>::empty());
        }
    }
}

/// Whether a commit writes at all depends on whether there are accounts; a missing root stands for
/// the empty state.
pub proof fn law_commit_is_by_the_accounts(
    root: Option<Hash32>,
    cache: Map<Hash32, Account>,
    commit: Commit,
)
    requires
        commits(root, cache, commit),
    ensures
        commit is Unchanged <==> (forall|key: Hash32| !#[trigger] cache.contains_key(key)),
        root_or_zero(None) == zero(),
        root matches Some(r) ==> root_or_zero(root) == r,
{
    if forall|key: Hash32| !#[trigger] cache.contains_key(key) {
        assert(cache =~= Map::<Hash32, Account>::empty());
    }
}

/// Only a known sender whose last nonce is due cannot count up.
pub proof fn law_sender_can_count(
    tree: TreeView,
    root: Option<Hash32>,
    cache: Map<Hash32, Account>,
    from: Hash32,
    nonce: u64,
)
    ensures
        sender_can_count(tree, root, cache, from, nonce) <==> !(cache.contains_key(from)
            && cache[from].nonce == u64::MAX && nonce == u64::MAX),
{
    law_no_account_from_a_leaf(tree, root, from);
}

/// An outcome agrees with what is expected where both are the same, or stop with the same; and an
/// executor has the same base as another where it is in order, on the same answers and the same root.
pub proof fn law_executor_agreement(
    result: Result<Applied, Halt>,
    expected: Result<Applied, HaltView>,
    a: BlockExecutor,
    b: BlockExecutor,
)
    ensures
        applied_agrees(result, expected) ==> (result matches Ok(applied) ==> expected == Ok::<
            Applied,
            HaltView,
        >(applied)) && (result matches Err(halt) ==> expected == Err::<Applied, HaltView>(halt@)),
        a.same_base(b) <==> a.wf() && a.tree() == b.tree() && a.root() == b.root(),
{
}

/// What is logged of a transfer: that it starts; that the tree is asked, for each of the two accounts
/// that is not known; the recipient as it was found, where there is a sender; and what became of the
/// transfer.
pub proof fn law_transfer_is_logged(
    tree: TreeView,
    root: Option<Hash32>,
    cache: Map<Hash32, Account>,
    tx: Transaction,
)
    ensures
        ({
            let lines = tx_lines(tree, root, cache, tx);
            let end = match tx_effect(tree, root, cache, tx).1 {
                Ok(applied) => tx_text(applied, tx.from),
                Err(_) => Seq::empty(),
            };
            let knows_from = cache.contains_key(tx.from);
            let knows_to = cache.contains_key(tx.to);
            &&& !knows_from ==> lines == seq![start_text(tx.from), load_text(root, tx.from)] + end
            &&& knows_from && knows_to ==> lines == seq![
                start_text(tx.from),
                recipient_text(cache[tx.to]),
            ] + end
            &&& knows_from && !knows_to && readable(tree, root, cache, tx.to) ==> lines == seq![
                start_text(tx.from),
                load_text(root, tx.to),
                recipient_text(Account { id: tx.to, balance: 0, nonce: 0 }),
            ] + end
            &&& knows_from && !readable(tree, root, cache, tx.to) ==> lines == seq![
                start_text(tx.from),
                load_text(root, tx.to),
            ]
        }),
{
    law_account_answers(tree, root, tx.from);
    law_account_answers(tree, root, tx.to);
    let lines = tx_lines(tree, root, cache, tx);
    let end = match tx_effect(tree, root, cache, tx).1 {
        Ok(applied) => tx_text(applied, tx.from),
        Err(_) => Seq::empty(),
    };
    if cache.contains_key(tx.from) {
        assert(cache.insert(tx.from, cache[tx.from]) =~= cache);
    }
    if !cache.contains_key(tx.from) {
        assert(lines =~= seq![start_text(tx.from), load_text(root, tx.from)] + end);
    } else if cache.contains_key(tx.to) {
        assert(lines =~= seq![start_text(tx.from), recipient_text(cache[tx.to])] + end);
    } else if readable(tree, root, cache, tx.to) {
        assert(lines =~= seq![
            start_text(tx.from),
            load_text(root, tx.to),
            recipient_text(Account::fresh(tx.to)),
        ] + end);
    } else {
        assert(lines =~= seq![start_text(tx.from), load_text(root, tx.to)]);
    }
}

/// What is logged of a forced transfer and of a deposit: that the tree is asked, for each account that
/// is not known and comes up, and what became of the item; of a dummy, only that it is skipped.
pub proof fn law_forced_transfer_and_deposit_are_logged(
    tree: TreeView,
    root: Option<Hash32>,
    cache: Map<Hash32, Account>,
    tx: ForcedTx,
    deposit: Deposit,
)
    ensures
        ({
            let lines = forced_lines(tree, root, cache, tx);
            let end = match forced_effect(tree, root, cache, tx).1 {
                Ok(applied) => forced_text(applied, tx.from),
                Err(_) => Seq::empty(),
            };
            let knows_from = cache.contains_key(tx.from);
            let knows_to = cache.contains_key(tx.to);
            &&& tx.from == zero() ==> lines == end
            &&& tx.from != zero() && !knows_from ==> lines == seq![load_text(root, tx.from)] + end
            &&& tx.from != zero() && knows_from && knows_to ==> lines == end
            &&& tx.from != zero() && knows_from && !knows_to ==> lines == seq![
                load_text(root, tx.to),
            ] + end
        }),
        ({
            let lines = deposit_lines(tree, root, cache, deposit);
            let end = match deposit_effect(tree, root, cache, deposit).1 {
                Ok(applied) => deposit_text(applied, deposit.to),
                Err(_) => Seq::empty(),
            };
            &&& cache.contains_key(deposit.to) ==> lines == end
            &&& !cache.contains_key(deposit.to) ==> lines == seq![load_text(root, deposit.to)] + end
        }),
{
    law_account_answers(tree, root, tx.from);
    let lines = forced_lines(tree, root, cache, tx);
    let end = match forced_effect(tree, root, cache, tx).1 {
        Ok(applied) => forced_text(applied, tx.from),
        Err(_) => Seq::empty(),
    };
    if cache.contains_key(tx.from) {
        assert(cache.insert(tx.from, cache[tx.from]) =~= cache);
    }
    if tx.from != zero() {
        if !cache.contains_key(tx.from) {
            assert(lines =~= seq![load_text(root, tx.from)] + end);
        } else if cache.contains_key(tx.to) {
            assert(lines =~= end);
        } else {
            assert(lines =~= seq![load_text(root, tx.to)] + end);
        }
    }
    let deposit_end = match deposit_effect(tree, root, cache, deposit).1 {
        Ok(applied) => deposit_text(applied, deposit.to),
        Err(_) => Seq::empty(),
    };
    if cache.contains_key(deposit.to) {
        assert(deposit_lines(tree, root, cache, deposit) =~= deposit_end);
    }
}

} // verus!
