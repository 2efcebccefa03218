//! The errors of the core and of the sequencer, and how they read.
use crate::hash::Hash32;
use crate::stf::StfError;
use crate::text::{decimal, hash_text, join, push_decimal, quote, quoted, with_hash};
use vstd::prelude::*;
use vstd::string::StringExecFns;

verus! {

/// What a `StfError` says.
pub enum StfErrorView {
    InsufficientBalance,
    BalanceOverflow,
    MerkleProofVerificationFailed,
    InvalidNonce { expected: u64, got: u64 },
    InvalidTransaction(Seq<char>),
}

impl View for StfError {
    type V = StfErrorView;

    open spec fn view(&self) -> StfErrorView {
        match *self {
            StfError::InsufficientBalance => StfErrorView::InsufficientBalance,
            StfError::BalanceOverflow => StfErrorView::BalanceOverflow,
            StfError::MerkleProofVerificationFailed => StfErrorView::MerkleProofVerificationFailed,
            StfError::InvalidNonce { expected, got } => StfErrorView::InvalidNonce {
                expected,
                got,
            },
            StfError::InvalidTransaction(message) => StfErrorView::InvalidTransaction(message@),
        }
    }
}

impl StfErrorView {
    /// The variant with its fields, spelled out.
    pub open spec fn debug_text(self) -> Seq<char> {
        match self {
            StfErrorView::InsufficientBalance => "InsufficientBalance"@,
            StfErrorView::BalanceOverflow => "BalanceOverflow"@,
            StfErrorView::MerkleProofVerificationFailed => "MerkleProofVerificationFailed"@,
            StfErrorView::InvalidNonce { expected, got } => "InvalidNonce { expected: "@ + decimal(
                expected as nat,
            ) + ", got: "@ + decimal(got as nat) + " }"@,
            StfErrorView::InvalidTransaction(message) => "InvalidTransaction("@ + quoted(message)
                + ")"@,
        }
    }
}

impl StfError {
    /// The variant with its fields, spelled out.
    pub fn debug_text(&self) -> (text: String)
        ensures
            text@ == self@.debug_text(),
    {
        match self {
            StfError::InsufficientBalance => "InsufficientBalance".to_owned(),
            StfError::BalanceOverflow => "BalanceOverflow".to_owned(),
            StfError::MerkleProofVerificationFailed => "MerkleProofVerificationFailed".to_owned(),
            StfError::InvalidNonce { expected, got } => {
                let mut text: String = "InvalidNonce { expected: ".to_owned();
                push_decimal(&mut text, *expected);
                text.append(", got: ");
                push_decimal(&mut text, *got);
                text.append(" }");
                text
            },
            StfError::InvalidTransaction(message) => {
                let mut text: String = "InvalidTransaction(".to_owned();
                let inner: String = quote(message.as_str());
                text.append(inner.as_str());
                text.append(")");
                text
            },
        }
    }
}

/// Why an account or a proof could not be had, or a block not be processed.
#[derive(Debug, Clone, PartialEq, Eq)]
pub enum CoreError {
    DatabaseError(String),
    AccountNotFound(Hash32),
    AccountDataCorrupted(Hash32),
    ProofNotFound(Hash32),
    StfError(String),
}

/// What a `CoreError` says.
pub enum CoreErrorView {
    DatabaseError(Seq<char>),
    AccountNotFound(Hash32),
    AccountDataCorrupted(Hash32),
    ProofNotFound(Hash32),
    StfError(Seq<char>),
}

impl View for CoreError {
    type V = CoreErrorView;

    open spec fn view(&self) -> CoreErrorView {
        match *self {
            CoreError::DatabaseError(message) => CoreErrorView::DatabaseError(message@),
            CoreError::AccountNotFound(key) => CoreErrorView::AccountNotFound(key),
            CoreError::AccountDataCorrupted(key) => CoreErrorView::AccountDataCorrupted(key),
            CoreError::ProofNotFound(key) => CoreErrorView::ProofNotFound(key),
            CoreError::StfError(message) => CoreErrorView::StfError(message@),
        }
    }
}

impl CoreErrorView {
    /// The message of the error.
    pub open spec fn text(self) -> Seq<char> {
        match self {
            CoreErrorView::DatabaseError(message) => "database error: "@ + message,
            CoreErrorView::AccountNotFound(key) => "account not found: "@ + hash_text(key),
            CoreErrorView::AccountDataCorrupted(key) => "account data corrupted: "@ + hash_text(
                key,
            ),
            CoreErrorView::ProofNotFound(key) => "proof not found for key: "@ + hash_text(key),
            CoreErrorView::StfError(message) => "stf error: "@ + message,
        }
    }
}

impl CoreError {
    /// The message of the error.
    pub fn to_string(&self) -> (text: String)
        ensures
            text@ == self@.text(),
    {
        match self {
            CoreError::DatabaseError(message) => join("database error: ", message.as_str()),
            CoreError::AccountNotFound(key) => with_hash("account not found: ", key),
            CoreError::AccountDataCorrupted(key) => with_hash("account data corrupted: ", key),
            CoreError::ProofNotFound(key) => with_hash("proof not found for key: ", key),
            CoreError::StfError(message) => join("stf error: ", message.as_str()),
        }
    }
}

/// What can go wrong in the sequencer.
#[derive(Debug, Clone, PartialEq, Eq)]
pub enum SequencerError {
    Stf(StfError),
    MempoolEmpty,
    AccountNotFound(Hash32),
    InsufficientBalance(Hash32),
    InvalidNonce(Hash32, u64, u64),
    L1SubmitFailed,
    StateLockPoisoned,
    AccountDataCorrupted(Hash32),
    DatabaseError(String),
}

/// What a `SequencerError` says.
pub enum SequencerErrorView {
    Stf(StfErrorView),
    MempoolEmpty,
    AccountNotFound(Hash32),
    InsufficientBalance(Hash32),
    InvalidNonce(Hash32, u64, u64),
    L1SubmitFailed,
    StateLockPoisoned,
    AccountDataCorrupted(Hash32),
    DatabaseError(Seq<char>),
}

impl View for SequencerError {
    type V = SequencerErrorView;

    open spec fn view(&self) -> SequencerErrorView {
        match *self {
            SequencerError::Stf(e) => SequencerErrorView::Stf(e@),
            SequencerError::MempoolEmpty => SequencerErrorView::MempoolEmpty,
            SequencerError::AccountNotFound(key) => SequencerErrorView::AccountNotFound(key),
            SequencerError::InsufficientBalance(key) => SequencerErrorView::InsufficientBalance(
                key,
            ),
            SequencerError::InvalidNonce(key, expected, got) => SequencerErrorView::InvalidNonce(
                key,
                expected,
                got,
            ),
            SequencerError::L1SubmitFailed => SequencerErrorView::L1SubmitFailed,
            SequencerError::StateLockPoisoned => SequencerErrorView::StateLockPoisoned,
            SequencerError::AccountDataCorrupted(key) => SequencerErrorView::AccountDataCorrupted(
                key,
            ),
            SequencerError::DatabaseError(message) => SequencerErrorView::DatabaseError(message@),
        }
    }
}

impl SequencerErrorView {
    /// The sequencer's error for an error of the core.
    pub open spec fn of_core(e: CoreErrorView) -> SequencerErrorView {
        match e {
            CoreErrorView::DatabaseError(message) => SequencerErrorView::DatabaseError(message),
            CoreErrorView::AccountNotFound(key) => SequencerErrorView::AccountNotFound(key),
            CoreErrorView::AccountDataCorrupted(key) => SequencerErrorView::AccountDataCorrupted(
                key,
            ),
            CoreErrorView::ProofNotFound(key) => SequencerErrorView::DatabaseError(
                "proof not found for "@ + hash_text(key),
            ),
            CoreErrorView::StfError(message) => SequencerErrorView::Stf(
                StfErrorView::InvalidTransaction(message),
            ),
        }
    }

    /// The message of the error.
    pub open spec fn text(self) -> Seq<char> {
        match self {
            SequencerErrorView::Stf(e) => "stf error: "@ + e.debug_text(),
            SequencerErrorView::MempoolEmpty => "mempool empty err"@,
            SequencerErrorView::AccountNotFound(key) => "account not found: "@ + hash_text(key),
            SequencerErrorView::InsufficientBalance(key) => "insufficient balance for account: "@
                + hash_text(key),
            SequencerErrorView::InvalidNonce(key, expected, got) => "invalid nonce for account "@
                + hash_text(key) + ": expected "@ + decimal(expected as nat) + ", got "@ + decimal(
                got as nat,
            ),
            SequencerErrorView::L1SubmitFailed => "l1 submit transaction err"@,
            SequencerErrorView::StateLockPoisoned => "state lock is poisoned"@,
            SequencerErrorView::AccountDataCorrupted(key) => "account data corrupted for key: "@
                + hash_text(key),
            SequencerErrorView::DatabaseError(message) => "database internal error: "@ + message,
        }
    }

    /// The HTTP status of the answer: not found for an unknown account, bad request where the
    /// request is at fault, and else an internal error.
    pub open spec fn status(self) -> u16 {
        match self {
            SequencerErrorView::AccountNotFound(_) => 404,
            SequencerErrorView::MempoolEmpty => 400,
            SequencerErrorView::InsufficientBalance(_) => 400,
            SequencerErrorView::InvalidNonce(_, _, _) => 400,
            _ => 500,
        }
    }
}

impl SequencerError {
    /// The message of the error.
    pub fn to_string(&self) -> (text: String)
        ensures
            text@ == self@.text(),
    {
        match self {
            SequencerError::Stf(e) => {
                let inner: String = e.debug_text();
                join("stf error: ", inner.as_str())
            },
            SequencerError::MempoolEmpty => "mempool empty err".to_owned(),
            SequencerError::AccountNotFound(key) => with_hash("account not found: ", key),
            SequencerError::InsufficientBalance(key) => with_hash(
                "insufficient balance for account: ",
                key,
            ),
            SequencerError::InvalidNonce(key, expected, got) => {
                let mut text: String = with_hash("invalid nonce for account ", key);
                text.append(": expected ");
                push_decimal(&mut text, *expected);
                text.append(", got ");
                push_decimal(&mut text, *got);
                text
            },
            SequencerError::L1SubmitFailed => "l1 submit transaction err".to_owned(),
            SequencerError::StateLockPoisoned => "state lock is poisoned".to_owned(),
            SequencerError::AccountDataCorrupted(key) => with_hash(
                "account data corrupted for key: ",
                key,
            ),
            SequencerError::DatabaseError(message) => join(
                "database internal error: ",
                message.as_str(),
            ),
        }
    }

    /// The HTTP status and the message that the error is answered with.
    pub fn into_response(self) -> (response: (u16, String))
        ensures
            response.0 == self@.status(),
            response.1@ == self@.text(),
    {
        let status: u16 = match &self {
            SequencerError::AccountNotFound(_) => 404,
            SequencerError::MempoolEmpty => 400,
            SequencerError::InsufficientBalance(_) => 400,
            SequencerError::InvalidNonce(_, _, _) => 400,
            _ => 500,
        };
        (status, self.to_string())
    }
}

impl From<StfError> for SequencerError {
    fn from(err: StfError) -> (e: Self) {
        SequencerError::Stf(err)
    }
}

impl vstd::std_specs::convert::FromSpecImpl<StfError> for SequencerError {
    open spec fn obeys_from_spec() -> bool {
        true
    }

    open spec fn from_spec(err: StfError) -> Self {
        SequencerError::Stf(err)
    }
}

impl From<CoreError> for SequencerError {
    fn from(value: CoreError) -> (e: Self)
        ensures
            e@ == SequencerErrorView::of_core(value@),
    {
        match value {
            CoreError::DatabaseError(message) => SequencerError::DatabaseError(message),
            CoreError::AccountNotFound(key) => SequencerError::AccountNotFound(key),
            CoreError::AccountDataCorrupted(key) => SequencerError::AccountDataCorrupted(key),
            CoreError::ProofNotFound(key) => SequencerError::DatabaseError(
                with_hash("proof not found for ", &key),
            ),
            CoreError::StfError(message) => SequencerError::Stf(
                StfError::InvalidTransaction(message),
            ),
        }
    }
}

impl vstd::std_specs::convert::FromSpecImpl<CoreError> for SequencerError {
    open spec fn obeys_from_spec() -> bool {
        false
    }

    open spec fn from_spec(value: CoreError) -> Self {
        arbitrary()
    }
}

/// What can go wrong in the offline prover.
#[derive(Debug, Clone, PartialEq, Eq)]
pub enum ScriptError {
    Stf(StfError),
}

impl ScriptError {
    /// The message of the error.
    pub fn to_string(&self) -> (text: String)
        ensures
            self matches ScriptError::Stf(e) ==> text@ == "stf error: "@ + e@.debug_text(),
    {
        match self {
            ScriptError::Stf(e) => {
                let inner: String = e.debug_text();
                join("stf error: ", inner.as_str())
            },
        }
    }
}

impl From<StfError> for ScriptError {
    fn from(err: StfError) -> (e: Self) {
        ScriptError::Stf(err)
    }
}

impl vstd::std_specs::convert::FromSpecImpl<StfError> for ScriptError {
    open spec fn obeys_from_spec() -> bool {
        true
    }

    open spec fn from_spec(err: StfError) -> Self {
        ScriptError::Stf(err)
    }
}

/// An unknown account is answered with 404, a request at fault with 400, and all else with 500.
pub proof fn law_status_is_by_fault(e: SequencerErrorView)
    ensures
        e.status() == 404 <==> e is AccountNotFound,
        e.status() == 400 <==> e is MempoolEmpty || e is InsufficientBalance || e is InvalidNonce,
        e.status() == 404 || e.status() == 400 || e.status() == 500,
{
}

/// The sequencer's error for an error of the core names the same account or the same message.
pub proof fn law_core_error_is_passed_on(key: Hash32, message: Seq<char>)
    ensures
        SequencerErrorView::of_core(CoreErrorView::DatabaseError(message))
            == SequencerErrorView::DatabaseError(message),
        SequencerErrorView::of_core(CoreErrorView::AccountNotFound(key))
            == SequencerErrorView::AccountNotFound(key),
        SequencerErrorView::of_core(CoreErrorView::AccountDataCorrupted(key))
            == SequencerErrorView::AccountDataCorrupted(key),
        SequencerErrorView::of_core(CoreErrorView::ProofNotFound(key))
            == SequencerErrorView::DatabaseError("proof not found for "@ + hash_text(key)),
        SequencerErrorView::of_core(CoreErrorView::StfError(message)) == SequencerErrorView::Stf(
            StfErrorView::InvalidTransaction(message),
        ),
{
}

/// The messages, one by one.
pub proof fn law_messages(
    key: Hash32,
    expected: u64,
    got: u64,
    message: Seq<char>,
    stf: StfErrorView,
)
    ensures
        CoreErrorView::DatabaseError(message).text() == "database error: "@ + message,
        CoreErrorView::AccountNotFound(key).text() == "account not found: "@ + hash_text(key),
        CoreErrorView::AccountDataCorrupted(key).text() == "account data corrupted: "@ + hash_text(
            key,
        ),
        CoreErrorView::ProofNotFound(key).text() == "proof not found for key: "@ + hash_text(key),
        CoreErrorView::StfError(message).text() == "stf error: "@ + message,
        SequencerErrorView::Stf(stf).text() == "stf error: "@ + stf.debug_text(),
        SequencerErrorView::MempoolEmpty.text() == "mempool empty err"@,
        SequencerErrorView::AccountNotFound(key).text() == "account not found: "@ + hash_text(key),
        SequencerErrorView::InsufficientBalance(key).text() == "insufficient balance for account: "@
            + hash_text(key),
        SequencerErrorView::InvalidNonce(key, expected, got).text()
            == "invalid nonce for account "@ + hash_text(key) + ": expected "@ + decimal(
            expected as nat,
        ) + ", got "@ + decimal(got as nat),
        SequencerErrorView::L1SubmitFailed.text() == "l1 submit transaction err"@,
        SequencerErrorView::StateLockPoisoned.text() == "state lock is poisoned"@,
        SequencerErrorView::AccountDataCorrupted(key).text() == "account data corrupted for key: "@
            + hash_text(key),
        SequencerErrorView::DatabaseError(message).text() == "database internal error: "@ + message,
        StfErrorView::InsufficientBalance.debug_text() == "InsufficientBalance"@,
        StfErrorView::BalanceOverflow.debug_text() == "BalanceOverflow"@,
        StfErrorView::MerkleProofVerificationFailed.debug_text()
            == "MerkleProofVerificationFailed"@,
        (StfErrorView::InvalidNonce { expected, got }).debug_text() == "InvalidNonce { expected: "@
            + decimal(expected as nat) + ", got: "@ + decimal(got as nat) + " }"@,
        StfErrorView::InvalidTransaction(message).debug_text() == "InvalidTransaction("@ + quoted(
            message,
        ) + ")"@,
{
}

/// An error says what it holds.
pub proof fn law_error_views(key: Hash32, expected: u64, got: u64, message: String, stf: StfError)
    ensures
        CoreError::DatabaseError(message)@ == CoreErrorView::DatabaseError(message@),
        CoreError::AccountNotFound(key)@ == CoreErrorView::AccountNotFound(key),
        CoreError::AccountDataCorrupted(key)@ == CoreErrorView::AccountDataCorrupted(key),
        CoreError::ProofNotFound(key)@ == CoreErrorView::ProofNotFound(key),
        CoreError::StfError(message)@ == CoreErrorView::StfError(message@),
        StfError::InsufficientBalance@ == StfErrorView::InsufficientBalance,
        StfError::BalanceOverflow@ == StfErrorView::BalanceOverflow,
        StfError::MerkleProofVerificationFailed@ == StfErrorView::MerkleProofVerificationFailed,
        (StfError::InvalidNonce { expected, got })@ == (StfErrorView::InvalidNonce {
            expected,
            got,
        }),
        StfError::InvalidTransaction(message)@ == StfErrorView::InvalidTransaction(message@),
        SequencerError::Stf(stf)@ == SequencerErrorView::Stf(stf@),
        SequencerError::MempoolEmpty@ == SequencerErrorView::MempoolEmpty,
        SequencerError::AccountNotFound(key)@ == SequencerErrorView::AccountNotFound(key),
        SequencerError::InsufficientBalance(key)@ == SequencerErrorView::InsufficientBalance(key),
        SequencerError::InvalidNonce(key, expected, got)@ == SequencerErrorView::InvalidNonce(
            key,
            expected,
            got,
        ),
        SequencerError::L1SubmitFailed@ == SequencerErrorView::L1SubmitFailed,
        SequencerError::StateLockPoisoned@ == SequencerErrorView::StateLockPoisoned,
        SequencerError::AccountDataCorrupted(key)@ == SequencerErrorView::AccountDataCorrupted(key),
        SequencerError::DatabaseError(message)@ == SequencerErrorView::DatabaseError(message@),
{
}

} // verus!
