//! How much money there is.
use crate::executor::{deposit_effect, forced_effect, transfer_effect, tx_effect, Applied};
use crate::hash::{zero, Hash32};
use crate::sequencer::{after_deposits, after_forced, after_txs, batch_accounts};
use crate::tree::{law_no_account_from_a_leaf, HaltView, TreeView};
use crate::types::{Account, Deposit, ForcedTx, Transaction};
use vstd::prelude::*;

verus! {

/// What the account at `key` holds; nothing where there is none.
pub open spec fn balance_of(accounts: Map<Hash32, Account>, key: Hash32) -> int {
    if accounts.contains_key(key) {
        accounts[key].balance as int
    } else {
        0
    }
}

/// What all accounts together hold.
pub open spec fn total(accounts: Map<Hash32, Account>) -> int
    decreases accounts.dom().len(),
{
    if !accounts.dom().finite() || accounts.dom().len() == 0 {
        0
    } else {
        let key = accounts.dom().choose();
        accounts[key].balance + total(accounts.remove(key))
    }
}

/// What the first `n` deposits bring in together.
pub open spec fn deposited_total(deposits: Seq<Deposit>, n: nat) -> int
    decreases n,
{
    if n == 0 {
        0
    } else {
        deposited_total(deposits, (n - 1) as nat) + deposits[n - 1].amount
    }
}

proof fn lemma_total_remove(accounts: Map<Hash32, Account>, key: Hash32)
    requires
        accounts.dom().finite(),
        accounts.contains_key(key),
    ensures
        total(accounts) == accounts[key].balance + total(accounts.remove(key)),
    decreases accounts.dom().len(),
{
    let first = accounts.dom().choose();
    assert(accounts.dom().contains(key));
    assert(accounts.dom().len() > 0);
    assert(accounts.dom().contains(first));
    if first != key {
        lemma_total_remove(accounts.remove(first), key);
        lemma_total_remove(accounts.remove(key), first);
        assert(accounts.remove(first).remove(key) =~= accounts.remove(key).remove(first));
    }
}

proof fn lemma_total_insert(accounts: Map<Hash32, Account>, key: Hash32, account: Account)
    requires
        accounts.dom().finite(),
    ensures
        accounts.insert(key, account).dom().finite(),
        total(accounts.insert(key, account)) == total(accounts) - balance_of(accounts, key)
            + account.balance,
{
    let after = accounts.insert(key, account);
    lemma_total_remove(after, key);
    if accounts.contains_key(key) {
        lemma_total_remove(accounts, key);
        assert(after.remove(key) =~= accounts.remove(key));
    } else {
        assert(after.remove(key) =~= accounts);
    }
}

/// A deposit adds its amount where it is credited, and else nothing.
pub proof fn law_deposit_adds_its_amount(
    tree: TreeView,
    root: Option<Hash32>,
    accounts: Map<Hash32, Account>,
    deposit: Deposit,
)
    requires
        accounts.dom().finite(),
    ensures
        ({
            let (after, applied) = deposit_effect(tree, root, accounts, deposit);
            after.dom().finite() && total(after) == total(accounts) + if applied == Ok::<
                Applied,
                HaltView,
            >(Applied::Credited) {
                deposit.amount as int
            } else {
                0
            }
        }),
{
    law_no_account_from_a_leaf(tree, root, deposit.to);
    let (after, applied) = deposit_effect(tree, root, accounts, deposit);
    if accounts.contains_key(deposit.to) {
        assert(accounts.insert(deposit.to, accounts[deposit.to]) =~= accounts);
    }
    if after != accounts {
        lemma_total_insert(accounts, deposit.to, after[deposit.to]);
    }
}

/// A transfer between two accounts, forced or not, takes its fee out of circulation where it goes
/// through, at most its fee where it is not covered, and else nothing.
pub proof fn law_transfer_burns_its_fee(
    tree: TreeView,
    root: Option<Hash32>,
    accounts: Map<Hash32, Account>,
    from: Hash32,
    to: Hash32,
    nonce: u64,
    amount: u64,
    fee: u64,
)
    requires
        accounts.dom().finite(),
        from != to,
    ensures
        ({
            let (after, applied) = transfer_effect(
                tree,
                root,
                accounts,
                from,
                to,
                nonce,
                amount,
                fee,
            );
            &&& after.dom().finite()
            &&& match applied {
                Ok(Applied::Transferred) => total(after) == total(accounts) - fee,
                Ok(Applied::FeeCharged) => total(accounts) - fee <= total(after) <= total(accounts),
                _ => total(after) == total(accounts),
            }
        }),
{
    law_no_account_from_a_leaf(tree, root, from);
    law_no_account_from_a_leaf(tree, root, to);
    let (after, applied) = transfer_effect(tree, root, accounts, from, to, nonce, amount, fee);
    if accounts.contains_key(from) {
        assert(accounts.insert(from, accounts[from]) =~= accounts);
    }
    if accounts.contains_key(to) {
        assert(accounts.insert(to, accounts[to]) =~= accounts);
    }
    match applied {
        Ok(Applied::Transferred) => {
            lemma_total_insert(accounts, from, after[from]);
            lemma_total_insert(accounts.insert(from, after[from]), to, after[to]);
            assert(after =~= accounts.insert(from, after[from]).insert(to, after[to]));
        },
        Ok(Applied::FeeCharged) => {
            lemma_total_insert(accounts, from, after[from]);
        },
        _ => {
            assert(after =~= accounts);
        },
    }
}

proof fn lemma_deposits_total(
    tree: TreeView,
    root: Option<Hash32>,
    deposits: Seq<Deposit>,
    n: nat,
)
    ensures
        after_deposits(tree, root, deposits, n) matches Ok(accounts) ==> accounts.dom().finite()
            && total(accounts) <= deposited_total(deposits, n),
    decreases n,
{
    if n > 0 {
        lemma_deposits_total(tree, root, deposits, (n - 1) as nat);
        if let Ok(before) = after_deposits(tree, root, deposits, (n - 1) as nat) {
            law_deposit_adds_its_amount(tree, root, before, deposits[n - 1]);
        }
    }
}

proof fn lemma_forced_total(
    tree: TreeView,
    root: Option<Hash32>,
    start: Map<Hash32, Account>,
    txs: Seq<ForcedTx>,
    n: nat,
)
    requires
        start.dom().finite(),
        n <= txs.len(),
        forall|i: int| 0 <= i < n ==> (#[trigger] txs[i]).from != txs[i].to || txs[i].from == zero(),
    ensures
        after_forced(tree, root, start, txs, n) matches Ok(accounts) ==> accounts.dom().finite()
            && total(accounts) <= total(start),
    decreases n,
{
    if n > 0 {
        lemma_forced_total(tree, root, start, txs, (n - 1) as nat);
        if let Ok(before) = after_forced(tree, root, start, txs, (n - 1) as nat) {
            let tx = txs[n - 1];
            if tx.from != zero() {
                law_transfer_burns_its_fee(
                    tree,
                    root,
                    before,
                    tx.from,
                    tx.to,
                    tx.nonce,
                    tx.amount,
                    tx.fee,
                );
            }
            assert(forced_effect(tree, root, before, tx).0.dom().finite());
        }
    }
}

proof fn lemma_txs_total(
    tree: TreeView,
    root: Option<Hash32>,
    start: Map<Hash32, Account>,
    txs: Seq<Transaction>,
    n: nat,
)
    requires
        start.dom().finite(),
        n <= txs.len(),
        forall|i: int| 0 <= i < n ==> (#[trigger] txs[i]).from != txs[i].to,
    ensures
        after_txs(tree, root, start, txs, n) matches Ok(accounts) ==> accounts.dom().finite()
            && total(accounts) <= total(start),
    decreases n,
{
    if n > 0 {
        lemma_txs_total(tree, root, start, txs, (n - 1) as nat);
        if let Ok(before) = after_txs(tree, root, start, txs, (n - 1) as nat) {
            assert(txs[n - 1].from != txs[n - 1].to);
            let tx = txs[n - 1];
            law_transfer_burns_its_fee(
                tree,
                root,
                before,
                tx.from,
                tx.to,
                tx.nonce,
                tx.amount,
                tx.fee,
            );
        }
    }
}

/// A batch in which nobody sends to themselves creates no money: the accounts that it writes hold
/// together no more than what its deposits bring in.
pub proof fn law_batch_creates_no_money(
    tree: TreeView,
    root: Option<Hash32>,
    txs: Seq<Transaction>,
    deposits: Seq<Deposit>,
    forced_txs: Seq<ForcedTx>,
)
    requires
        forall|i: int|
            0 <= i < forced_txs.len() ==> (#[trigger] forced_txs[i]).from != forced_txs[i].to
                || forced_txs[i].from == zero(),
        forall|i: int| 0 <= i < txs.len() ==> (#[trigger] txs[i]).from != txs[i].to,
    ensures
        batch_accounts(tree, root, txs, deposits, forced_txs) matches Ok(accounts) ==> total(
            accounts,
        ) <= deposited_total(deposits, deposits.len()),
{
    lemma_deposits_total(tree, root, deposits, deposits.len());
    if let Ok(from_deposits) = after_deposits(tree, root, deposits, deposits.len()) {
        lemma_forced_total(tree, root, from_deposits, forced_txs, forced_txs.len());
        if let Ok(from_forced) = after_forced(
            tree,
            root,
            from_deposits,
            forced_txs,
            forced_txs.len(),
        ) {
            lemma_txs_total(tree, root, from_forced, txs, txs.len());
        }
    }
}

/// A transfer that its sender handed in, to somebody else, takes exactly its fee out of circulation
/// where it goes through, the fee or all that the sender holds where it is not covered, and else
/// nothing.
pub proof fn law_submitted_transfer_loses_exactly_its_fee(
    tree: TreeView,
    root: Option<Hash32>,
    accounts: Map<Hash32, Account>,
    tx: Transaction,
)
    requires
        accounts.dom().finite(),
        tx.from != tx.to,
    ensures
        ({
            let (after, applied) = tx_effect(tree, root, accounts, tx);
            let lost = total(accounts) - total(after);
            &&& after.dom().finite()
            &&& match applied {
                Ok(Applied::Transferred) => lost == tx.fee,
                Ok(Applied::FeeCharged) => lost == if balance_of(accounts, tx.from) < tx.fee {
                    balance_of(accounts, tx.from)
                } else {
                    tx.fee as int
                },
                _ => lost == 0,
            }
        }),
{
    lemma_exact_loss(tree, root, accounts, tx.from, tx.to, tx.nonce, tx.amount, tx.fee);
}

proof fn lemma_exact_loss(
    tree: TreeView,
    root: Option<Hash32>,
    accounts: Map<Hash32, Account>,
    from: Hash32,
    to: Hash32,
    nonce: u64,
    amount: u64,
    fee: u64,
)
    requires
        accounts.dom().finite(),
        from != to,
    ensures
        ({
            let (after, applied) = transfer_effect(
                tree,
                root,
                accounts,
                from,
                to,
                nonce,
                amount,
                fee,
            );
            let lost = total(accounts) - total(after);
            &&& after.dom().finite()
            &&& match applied {
                Ok(Applied::Transferred) => lost == fee,
                Ok(Applied::FeeCharged) => lost == if balance_of(accounts, from) < fee {
                    balance_of(accounts, from)
                } else {
                    fee as int
                },
                _ => lost == 0,
            }
        }),
{
    law_transfer_burns_its_fee(tree, root, accounts, from, to, nonce, amount, fee);
    law_no_account_from_a_leaf(tree, root, from);
    law_no_account_from_a_leaf(tree, root, to);
    let (after, applied) = transfer_effect(tree, root, accounts, from, to, nonce, amount, fee);
    if let Ok(Applied::FeeCharged) = applied {
        assert(accounts.insert(from, accounts[from]) =~= accounts);
        if accounts.contains_key(to) {
            assert(accounts.insert(to, accounts[to]) =~= accounts);
        }
        lemma_total_insert(accounts, from, after[from]);
    }
}

/// What an item that came out like this takes out of circulation, of a sender who held `held`.
pub open spec fn lost_by(applied: Result<Applied, HaltView>, fee: u64, held: int) -> int {
    match applied {
        Ok(Applied::Transferred) => fee as int,
        Ok(Applied::FeeCharged) => if held < fee {
            held
        } else {
            fee as int
        },
        _ => 0,
    }
}

/// What the first `n` deposits bring in that are credited.
pub open spec fn credited_by(
    tree: TreeView,
    root: Option<Hash32>,
    deposits: Seq<Deposit>,
    n: nat,
) -> int
    decreases n,
{
    if n == 0 {
        0
    } else {
        let before = credited_by(tree, root, deposits, (n - 1) as nat);
        match after_deposits(tree, root, deposits, (n - 1) as nat) {
            Ok(accounts) => if deposit_effect(tree, root, accounts, deposits[n - 1]).1 == Ok::<
                Applied,
                HaltView,
            >(Applied::Credited) {
                before + deposits[n - 1].amount
            } else {
                before
            },
            Err(_) => before,
        }
    }
}

/// What the first `n` forced transfers take out of circulation.
pub open spec fn lost_by_forced(
    tree: TreeView,
    root: Option<Hash32>,
    start: Map<Hash32, Account>,
    txs: Seq<ForcedTx>,
    n: nat,
) -> int
    decreases n,
{
    if n == 0 {
        0
    } else {
        let before = lost_by_forced(tree, root, start, txs, (n - 1) as nat);
        match after_forced(tree, root, start, txs, (n - 1) as nat) {
            Ok(accounts) => before + lost_by(
                forced_effect(tree, root, accounts, txs[n - 1]).1,
                txs[n - 1].fee,
                balance_of(accounts, txs[n - 1].from),
            ),
            Err(_) => before,
        }
    }
}

/// What the first `n` transfers take out of circulation.
pub open spec fn lost_by_txs(
    tree: TreeView,
    root: Option<Hash32>,
    start: Map<Hash32, Account>,
    txs: Seq<Transaction>,
    n: nat,
) -> int
    decreases n,
{
    if n == 0 {
        0
    } else {
        let before = lost_by_txs(tree, root, start, txs, (n - 1) as nat);
        match after_txs(tree, root, start, txs, (n - 1) as nat) {
            Ok(accounts) => before + lost_by(
                tx_effect(tree, root, accounts, txs[n - 1]).1,
                txs[n - 1].fee,
                balance_of(accounts, txs[n - 1].from),
            ),
            Err(_) => before,
        }
    }
}

proof fn lemma_credited(tree: TreeView, root: Option<Hash32>, deposits: Seq<Deposit>, n: nat)
    ensures
        after_deposits(tree, root, deposits, n) matches Ok(accounts) ==> accounts.dom().finite()
            && total(accounts) == credited_by(tree, root, deposits, n),
    decreases n,
{
    if n > 0 {
        lemma_credited(tree, root, deposits, (n - 1) as nat);
        if let Ok(before) = after_deposits(tree, root, deposits, (n - 1) as nat) {
            law_deposit_adds_its_amount(tree, root, before, deposits[n - 1]);
        }
    }
}

proof fn lemma_lost_by_forced(
    tree: TreeView,
    root: Option<Hash32>,
    start: Map<Hash32, Account>,
    txs: Seq<ForcedTx>,
    n: nat,
)
    requires
        start.dom().finite(),
        n <= txs.len(),
        forall|i: int| 0 <= i < n ==> (#[trigger] txs[i]).from != txs[i].to || txs[i].from == zero(),
    ensures
        after_forced(tree, root, start, txs, n) matches Ok(accounts) ==> accounts.dom().finite()
            && total(accounts) == total(start) - lost_by_forced(tree, root, start, txs, n),
    decreases n,
{
    if n > 0 {
        lemma_lost_by_forced(tree, root, start, txs, (n - 1) as nat);
        if let Ok(before) = after_forced(tree, root, start, txs, (n - 1) as nat) {
            let tx = txs[n - 1];
            if tx.from != zero() {
                lemma_exact_loss(
                    tree,
                    root,
                    before,
                    tx.from,
                    tx.to,
                    tx.nonce,
                    tx.amount,
                    tx.fee,
                );
            }
        }
    }
}

proof fn lemma_lost_by_txs(
    tree: TreeView,
    root: Option<Hash32>,
    start: Map<Hash32, Account>,
    txs: Seq<Transaction>,
    n: nat,
)
    requires
        start.dom().finite(),
        n <= txs.len(),
        forall|i: int| 0 <= i < n ==> (#[trigger] txs[i]).from != txs[i].to,
    ensures
        after_txs(tree, root, start, txs, n) matches Ok(accounts) ==> accounts.dom().finite()
            && total(accounts) == total(start) - lost_by_txs(tree, root, start, txs, n),
    decreases n,
{
    if n > 0 {
        lemma_lost_by_txs(tree, root, start, txs, (n - 1) as nat);
        if let Ok(before) = after_txs(tree, root, start, txs, (n - 1) as nat) {
            law_submitted_transfer_loses_exactly_its_fee(tree, root, before, txs[n - 1]);
        }
    }
}

/// In a batch in which nobody sends to themselves, the accounts together hold exactly what the
/// credited deposits brought in, less the fees that were paid.
pub proof fn law_batch_keeps_the_books(
    tree: TreeView,
    root: Option<Hash32>,
    txs: Seq<Transaction>,
    deposits: Seq<Deposit>,
    forced_txs: Seq<ForcedTx>,
)
    requires
        forall|i: int|
            0 <= i < forced_txs.len() ==> (#[trigger] forced_txs[i]).from != forced_txs[i].to
                || forced_txs[i].from == zero(),
        forall|i: int| 0 <= i < txs.len() ==> (#[trigger] txs[i]).from != txs[i].to,
    ensures
        after_deposits(tree, root, deposits, deposits.len()) matches Ok(first) ==> (after_forced(
            tree,
            root,
            first,
            forced_txs,
            forced_txs.len(),
        ) matches Ok(second) ==> (batch_accounts(tree, root, txs, deposits, forced_txs) matches Ok(
            last,
        ) ==> total(last) == credited_by(tree, root, deposits, deposits.len()) - lost_by_forced(
            tree,
            root,
            first,
            forced_txs,
            forced_txs.len(),
        ) - lost_by_txs(tree, root, second, txs, txs.len()))),
{
    lemma_credited(tree, root, deposits, deposits.len());
    if let Ok(first) = after_deposits(tree, root, deposits, deposits.len()) {
        lemma_lost_by_forced(tree, root, first, forced_txs, forced_txs.len());
        if let Ok(second) = after_forced(tree, root, first, forced_txs, forced_txs.len()) {
            lemma_lost_by_txs(tree, root, second, txs, txs.len());
        }
    }
}

} // verus!
