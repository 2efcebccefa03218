//! The lines that the execution of a batch writes to the log.
use crate::executor::{Applied, BlockExecutor};
use crate::hash::Hash32;
use crate::stf::StfError;
use crate::text::{decimal, hash_text, push_decimal, push_hash, with_hash};
use crate::types::Account;
use vstd::prelude::*;
use vstd::string::StringExecFns;

verus! {

/// What the lines say.
pub open spec fn lines_view(lines: Seq<String>) -> Seq<Seq<char>> {
    lines.map_values(|line: String| line@)
}

/// One line more says its text more.
pub proof fn lemma_push_line(lines: Seq<String>, line: String)
    ensures
        lines_view(lines.push(line)) == lines_view(lines).push(line@),
{
    assert(lines_view(lines.push(line)) =~= lines_view(lines).push(line@));
}

/// No lines.
pub open spec fn no_lines() -> Seq<Seq<char>> {
    Seq::empty()
}

/// A root, if there is one.
pub open spec fn root_text(root: Option<Hash32>) -> Seq<char> {
    match root {
        Some(hash) => "Some("@ + hash_text(hash) + ")"@,
        None => "None"@,
    }
}

/// The line before the tree is asked for the account at `key`.
pub open spec fn load_text(root: Option<Hash32>, key: Hash32) -> Seq<char> {
    "get_account start root: "@ + root_text(root) + ", key: "@ + hash_text(key)
}

/// An account with its fields, spelled out.
pub open spec fn account_text(account: Account) -> Seq<char> {
    "Account { id: "@ + hash_text(account.id) + ", balance: "@ + decimal(account.balance as nat)
        + ", nonce: "@ + decimal(account.nonce as nat) + " }"@
}

/// The line before a transfer of `from`.
pub open spec fn start_text(from: Hash32) -> Seq<char> {
    "apply_transaction start for from: "@ + hash_text(from)
}

/// The line about the recipient of a transfer.
pub open spec fn recipient_text(recipient: Account) -> Seq<char> {
    "apply_transaction: got to_account: "@ + account_text(recipient)
}

/// The line about a transfer of `from` that was refused.
pub open spec fn refusal_text(error: StfError, from: Hash32) -> Seq<char> {
    match error {
        StfError::InvalidNonce { expected, got } => "executor: nonce mismatch for "@ + hash_text(
            from,
        ) + ", expected "@ + decimal(expected as nat) + ", got "@ + decimal(got as nat)
            + ". skipping tx"@,
        StfError::BalanceOverflow => "executor: balance overflow on recipient, tx failed for "@
            + hash_text(from),
        StfError::InsufficientBalance => "executor: stf error - insufficient balance for "@
            + hash_text(from) + ". this should be handled by TransactionResult::Failure."@,
        StfError::MerkleProofVerificationFailed =>
        "executor: stf error - merkle proof verification failed for "@ + hash_text(from)
            + ". this should be handled by generate_proofs_for_block."@,
        StfError::InvalidTransaction(message) =>
        "executor: stf error - invalid transaction for "@ + hash_text(from) + ": "@ + message@,
    }
}

/// The lines about what became of a deposit to `to`.
pub open spec fn deposit_text(applied: Applied, to: Hash32) -> Seq<Seq<char>> {
    match applied {
        Applied::DepositSkipped => seq![
            "apply_deposit: balance overflow for "@ + hash_text(to) + ". skipping deposit"@,
        ],
        _ => no_lines(),
    }
}

/// The lines about what became of a forced transfer of `from`.
pub open spec fn forced_text(applied: Applied, from: Hash32) -> Seq<Seq<char>> {
    match applied {
        Applied::DummySkipped => seq!["apply_forced_tx: skipping dummy forced transaction"@],
        Applied::SenderMissing => seq!["apply_forced_tx: sender account not found, skipping tx"@],
        Applied::FeeCharged => seq![
            "executor: forced_tx failed, fee charged for "@ + hash_text(from),
        ],
        Applied::Refused(error) => seq![refusal_text(error, from)],
        _ => no_lines(),
    }
}

/// The lines about what became of a transfer of `from`.
pub open spec fn tx_text(applied: Applied, from: Hash32) -> Seq<Seq<char>> {
    match applied {
        Applied::SenderMissing => seq!["apply_transaction: sender account not found, skipping tx"@],
        Applied::Transferred => seq!["apply_transaction: success"@],
        Applied::FeeCharged => seq![
            "executor: transaction failed, fee charged for "@ + hash_text(from),
            "apply_transaction: failure"@,
        ],
        Applied::Refused(error) => seq![refusal_text(error, from)],
        _ => no_lines(),
    }
}

/// A hash between two texts.
fn around_hash(head: &str, hash: &Hash32, tail: &str) -> (text: String)
    ensures
        text@ == head@ + hash_text(*hash) + tail@,
{
    let mut text: String = with_hash(head, hash);
    text.append(tail);
    text
}

impl<'a> BlockExecutor<'a> {
    /// The line about a transfer of `from` that was refused. The block goes on without it.
    pub fn handle_stf_error(error: &StfError, from: &Hash32) -> (line: String)
        ensures
            line@ == refusal_text(*error, *from),
    {
        match error {
            StfError::InvalidNonce { expected, got } => {
                let mut line: String = around_hash(
                    "executor: nonce mismatch for ",
                    from,
                    ", expected ",
                );
                push_decimal(&mut line, *expected);
                line.append(", got ");
                push_decimal(&mut line, *got);
                line.append(". skipping tx");
                line
            },
            StfError::BalanceOverflow => with_hash(
                "executor: balance overflow on recipient, tx failed for ",
                from,
            ),
            StfError::InsufficientBalance => around_hash(
                "executor: stf error - insufficient balance for ",
                from,
                ". this should be handled by TransactionResult::Failure.",
            ),
            StfError::MerkleProofVerificationFailed => around_hash(
                "executor: stf error - merkle proof verification failed for ",
                from,
                ". this should be handled by generate_proofs_for_block.",
            ),
            StfError::InvalidTransaction(message) => {
                let mut line: String = around_hash(
                    "executor: stf error - invalid transaction for ",
                    from,
                    ": ",
                );
                line.append(message.as_str());
                line
            },
        }
    }
}

/// Appends a line.
pub(crate) fn push_line(log: &mut Vec<String>, line: String)
    ensures
        lines_view(final(log)@) == lines_view(old(log)@).push(line@),
{
    proof {
        lemma_push_line(log@, line);
    }
    log.push(line);
}

/// The line before the tree is asked for the account at `key`.
pub(crate) fn load_line(root: &Option<Hash32>, key: &Hash32) -> (line: String)
    ensures
        line@ == load_text(*root, *key),
{
    let mut line: String = "get_account start root: ".to_owned();
    let ghost head = line@;
    match root {
        Some(hash) => {
            line.append("Some(");
            push_hash(&mut line, hash);
            line.append(")");
        },
        None => {
            line.append("None");
        },
    }
    assert(line@ =~= head + root_text(*root));
    line.append(", key: ");
    push_hash(&mut line, key);
    line
}

/// The line before a transfer of `from`.
pub(crate) fn start_line(from: &Hash32) -> (line: String)
    ensures
        line@ == start_text(*from),
{
    with_hash("apply_transaction start for from: ", from)
}

/// The line about the recipient of a transfer.
pub(crate) fn recipient_line(recipient: &Account) -> (line: String)
    ensures
        line@ == recipient_text(*recipient),
{
    let mut line: String = "apply_transaction: got to_account: ".to_owned();
    let ghost head = line@;
    line.append("Account { id: ");
    push_hash(&mut line, &recipient.id);
    line.append(", balance: ");
    push_decimal(&mut line, recipient.balance);
    line.append(", nonce: ");
    push_decimal(&mut line, recipient.nonce);
    line.append(" }");
    assert(line@ =~= head + account_text(*recipient));
    line
}

/// Appends the lines about what became of a deposit.
pub(crate) fn log_deposit(log: &mut Vec<String>, applied: &Applied, to: &Hash32)
    ensures
        lines_view(final(log)@) == lines_view(old(log)@) + deposit_text(*applied, *to),
{
    let ghost before = lines_view(log@);
    match applied {
        Applied::DepositSkipped => {
            push_line(
                log,
                around_hash("apply_deposit: balance overflow for ", to, ". skipping deposit"),
            );
        },
        _ => {},
    }
    assert(lines_view(log@) =~= before + deposit_text(*applied, *to));
}

/// Appends the lines about what became of a forced transfer.
pub(crate) fn log_forced(log: &mut Vec<String>, applied: &Applied, from: &Hash32)
    ensures
        lines_view(final(log)@) == lines_view(old(log)@) + forced_text(*applied, *from),
{
    let ghost before = lines_view(log@);
    match applied {
        Applied::DummySkipped => {
            push_line(log, "apply_forced_tx: skipping dummy forced transaction".to_owned());
        },
        Applied::SenderMissing => {
            push_line(log, "apply_forced_tx: sender account not found, skipping tx".to_owned());
        },
        Applied::FeeCharged => {
            push_line(log, with_hash("executor: forced_tx failed, fee charged for ", from));
        },
        Applied::Refused(error) => {
            push_line(log, BlockExecutor::handle_stf_error(error, from));
        },
        _ => {},
    }
    assert(lines_view(log@) =~= before + forced_text(*applied, *from));
}

/// Appends the lines about what became of a transfer.
pub(crate) fn log_tx(log: &mut Vec<String>, applied: &Applied, from: &Hash32)
    ensures
        lines_view(final(log)@) == lines_view(old(log)@) + tx_text(*applied, *from),
{
    let ghost before = lines_view(log@);
    match applied {
        Applied::SenderMissing => {
            push_line(log, "apply_transaction: sender account not found, skipping tx".to_owned());
        },
        Applied::Transferred => {
            push_line(log, "apply_transaction: success".to_owned());
        },
        Applied::FeeCharged => {
            push_line(log, with_hash("executor: transaction failed, fee charged for ", from));
            push_line(log, "apply_transaction: failure".to_owned());
        },
        Applied::Refused(error) => {
            push_line(log, BlockExecutor::handle_stf_error(error, from));
        },
        _ => {},
    }
    assert(lines_view(log@) =~= before + tx_text(*applied, *from));
}

/// The lines about an item name its account, and there is one for each thing that there is to say.
pub proof fn law_lines_about_items(error: StfError, id: Hash32)
    ensures
        deposit_text(Applied::Credited, id).len() == 0,
        deposit_text(Applied::DepositSkipped, id) == seq![
            "apply_deposit: balance overflow for "@ + hash_text(id) + ". skipping deposit"@,
        ],
        forced_text(Applied::Transferred, id).len() == 0,
        forced_text(Applied::DummySkipped, id) == seq![
            "apply_forced_tx: skipping dummy forced transaction"@,
        ],
        forced_text(Applied::SenderMissing, id) == seq![
            "apply_forced_tx: sender account not found, skipping tx"@,
        ],
        forced_text(Applied::FeeCharged, id) == seq![
            "executor: forced_tx failed, fee charged for "@ + hash_text(id),
        ],
        forced_text(Applied::Refused(error), id) == seq![refusal_text(error, id)],
        tx_text(Applied::Transferred, id) == seq!["apply_transaction: success"@],
        tx_text(Applied::SenderMissing, id) == seq![
            "apply_transaction: sender account not found, skipping tx"@,
        ],
        tx_text(Applied::FeeCharged, id) == seq![
            "executor: transaction failed, fee charged for "@ + hash_text(id),
            "apply_transaction: failure"@,
        ],
        tx_text(Applied::Refused(error), id) == seq![refusal_text(error, id)],
{
}

/// The lines on the way name the account that the tree is asked for, under its root, and the
/// recipient with its balance and its nonce.
pub proof fn law_lines_on_the_way(root: Option<Hash32>, under: Hash32, account: Account)
    ensures
        start_text(account.id) == "apply_transaction start for from: "@ + hash_text(account.id),
        load_text(Some(under), account.id) == "get_account start root: "@ + ("Some("@ + hash_text(
            under,
        ) + ")"@) + ", key: "@ + hash_text(account.id),
        load_text(None, account.id) == "get_account start root: "@ + "None"@ + ", key: "@
            + hash_text(account.id),
        recipient_text(account) == "apply_transaction: got to_account: "@ + ("Account { id: "@
            + hash_text(account.id) + ", balance: "@ + decimal(account.balance as nat)
            + ", nonce: "@ + decimal(account.nonce as nat) + " }"@),
{
}

/// The lines about refused transfers, one by one.
pub proof fn law_refusal_lines(expected: u64, got: u64, message: String, id: Hash32)
    ensures
        refusal_text(StfError::InvalidNonce { expected, got }, id)
            == "executor: nonce mismatch for "@ + hash_text(id) + ", expected "@ + decimal(
            expected as nat,
        ) + ", got "@ + decimal(got as nat) + ". skipping tx"@,
        refusal_text(StfError::BalanceOverflow, id)
            == "executor: balance overflow on recipient, tx failed for "@ + hash_text(id),
        refusal_text(StfError::InsufficientBalance, id)
            == "executor: stf error - insufficient balance for "@ + hash_text(id)
            + ". this should be handled by TransactionResult::Failure."@,
        refusal_text(StfError::MerkleProofVerificationFailed, id)
            == "executor: stf error - merkle proof verification failed for "@ + hash_text(id)
            + ". this should be handled by generate_proofs_for_block."@,
        refusal_text(StfError::InvalidTransaction(message), id)
            == "executor: stf error - invalid transaction for "@ + hash_text(id) + ": "@ + message@,
{
}

/// What a log says are its lines, in their order.
pub proof fn law_log_view(lines: Seq<String>, i: int)
    ensures
        lines_view(lines).len() == lines.len(),
        0 <= i < lines.len() ==> lines_view(lines)[i] == lines[i]@,
        no_lines().len() == 0,
{
}

} // verus!
