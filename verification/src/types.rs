//! What goes into a block, and the accounts that it changes.
use crate::hash::{zero, zero_hash, Hash32};
use vstd::prelude::*;

verus! {

/// A transfer that a user handed to the sequencer.
#[derive(Debug, Clone, Copy, PartialEq, Eq, Hash)]
pub struct Transaction {
    pub from: Hash32,
    pub to: Hash32,
    pub nonce: u64,
    pub fee: u64,
    pub amount: u64,
}

/// An account of the rollup.
#[derive(Debug, Clone, Copy, PartialEq, Eq)]
pub struct Account {
    pub id: Hash32,
    pub balance: u64,
    pub nonce: u64,
}

/// Funds that came in from the base layer.
#[derive(Debug, Clone, Copy, PartialEq, Eq, Hash)]
pub struct Deposit {
    pub to: Hash32,
    pub amount: u64,
    pub timestamp: u64,
}

/// A transfer that a user forced in through the base layer. `l2_calldata` is the payload as it was
/// posted there.
#[derive(Debug, Clone, PartialEq, Eq, Hash)]
pub struct ForcedTx {
    pub from: Hash32,
    pub to: Hash32,
    pub nonce: u64,
    pub fee: u64,
    pub amount: u64,
    pub timestamp: u64,
    pub l2_calldata: Vec<u8>,
}

/// A block that the sequencer has built and that has not been proven yet.
#[derive(Debug, Clone)]
pub struct PendingBlock {
    pub block_number: u64,
    pub txs: Vec<Transaction>,
    pub deposits: Vec<Deposit>,
    pub forced_txs: Vec<ForcedTx>,
    pub pre_state_root: Hash32,
    pub post_state_root: Hash32,
}

/// What a `PendingBlock` holds.
pub struct BlockView {
    pub block_number: u64,
    pub txs: Seq<Transaction>,
    pub deposits: Seq<Deposit>,
    pub forced_txs: Seq<ForcedTx>,
    pub pre_state_root: Hash32,
    pub post_state_root: Hash32,
}

impl View for PendingBlock {
    type V = BlockView;

    open spec fn view(&self) -> BlockView {
        BlockView {
            block_number: self.block_number,
            txs: self.txs@,
            deposits: self.deposits@,
            forced_txs: self.forced_txs@,
            pre_state_root: self.pre_state_root,
            post_state_root: self.post_state_root,
        }
    }
}

impl Account {
    /// The account with no funds and no history.
    pub open spec fn fresh(id: Hash32) -> Account {
        Account { id, balance: 0, nonce: 0 }
    }

    /// The account with no funds and no history.
    pub fn new(id: Hash32) -> (account: Self)
        ensures
            account == Account::fresh(id),
    {
        Account { id, nonce: 0, balance: 0 }
    }
}

impl Default for Account {
    fn default() -> (account: Self)
        ensures
            account == Account::fresh(zero()),
    {
        Account::new(zero_hash())
    }
}

/// A fresh account has its address, no funds and no history.
pub proof fn law_fresh_account_is_empty(id: Hash32)
    ensures
        Account::fresh(id).id == id,
        Account::fresh(id).balance == 0,
        Account::fresh(id).nonce == 0,
{
}

/// What a block holds is what its fields hold.
pub proof fn law_block_view(block: PendingBlock)
    ensures
        block@.block_number == block.block_number,
        block@.txs == block.txs@,
        block@.deposits == block.deposits@,
        block@.forced_txs == block.forced_txs@,
        block@.pre_state_root == block.pre_state_root,
        block@.post_state_root == block.post_state_root,
{
}

} // verus!
