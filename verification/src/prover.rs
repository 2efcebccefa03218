//! What the prover does with a block, and when it gives one up.
use crate::abi::{public_encoding, PublicValues};
use crate::config::L1Config;
use crate::hash::{lemma_same_bytes, same_hash, Hash32};
use crate::persistence::{
    block_key, holds, is_first_pending, law_block_keys_differ, law_peeked_block_is_the_lowest, Contents,
    Family, WriteView,
};
use crate::proofs::{block_proofs, law_transition_follows_the_generator, transition_of};
use crate::sequencer::Heads;
use crate::stf::{law_public_bytes_name_the_roots, Transition};
use crate::tree::TreeView;
use crate::types::PendingBlock;
use vstd::prelude::*;

verus! {

/// How often a block is tried.
pub const MAX_RETRIES: u32 = 3;

/// How long the prover sleeps before it looks at the queue, in seconds.
pub const POLL_SECS: u64 = 5;

/// How long the prover sleeps before it tries a block again, in seconds.
pub const RETRY_SECS: u64 = 10;

/// What the prover is waiting for.
#[derive(Debug, Clone, Copy, PartialEq, Eq)]
pub enum Phase {
    /// To wake up and look at the queue.
    Idle,
    /// The first block of the queue.
    Peeking,
    /// The proof of the block, after so many failed tries.
    Proving { retries: u32 },
    /// To wake up and try again, after so many failed tries.
    BackingOff { retries: u32 },
    /// The block to be filed as failed.
    Filing,
    /// The block to be taken out of the queue.
    Removing,
    /// Nothing: the queue database failed.
    Stopped,
}

/// What happened.
#[derive(Debug, Clone, Copy, PartialEq, Eq)]
pub enum Event {
    /// The work is done; where the queue was looked at, there is a block.
    Done,
    /// The queue is empty.
    Empty,
    /// The work failed.
    Failed,
}

/// What is to be done.
#[derive(Debug, Clone, Copy, PartialEq, Eq)]
pub enum Action {
    Sleep { secs: u64 },
    Peek,
    Prove,
    PushFailed,
    RemovePending,
    Stop,
}

/// What may happen in a phase: sleep does not fail, and only a look at the queue finds it empty.
pub open spec fn expects(phase: Phase, event: Event) -> bool {
    match phase {
        Phase::Idle => event == Event::Done,
        Phase::BackingOff { .. } => event == Event::Done,
        Phase::Peeking => true,
        Phase::Stopped => false,
        _ => event != Event::Empty,
    }
}

/// The phase after an event.
pub open spec fn next_phase(phase: Phase, event: Event) -> Phase {
    match (phase, event) {
        (Phase::Idle, _) => Phase::Peeking,
        (Phase::Peeking, Event::Done) => Phase::Proving { retries: 0 },
        (Phase::Peeking, Event::Empty) => Phase::Idle,
        (Phase::Proving { .. }, Event::Done) => Phase::Removing,
        (Phase::Proving { retries }, Event::Failed) => if retries + 1 >= MAX_RETRIES {
            Phase::Filing
        } else {
            Phase::BackingOff { retries: (retries + 1) as u32 }
        },
        (Phase::BackingOff { retries }, _) => Phase::Proving { retries },
        (Phase::Filing, Event::Done) => Phase::Removing,
        (Phase::Removing, Event::Done) => Phase::Idle,
        _ => Phase::Stopped,
    }
}

/// What is to be done on entering a phase.
pub open spec fn action_of(phase: Phase) -> Action {
    match phase {
        Phase::Idle => Action::Sleep { secs: POLL_SECS },
        Phase::Peeking => Action::Peek,
        Phase::Proving { .. } => Action::Prove,
        Phase::BackingOff { .. } => Action::Sleep { secs: RETRY_SECS },
        Phase::Filing => Action::PushFailed,
        Phase::Removing => Action::RemovePending,
        Phase::Stopped => Action::Stop,
    }
}

/// A block is being worked on and has tries left.
pub open spec fn phase_ok(phase: Phase) -> bool {
    match phase {
        Phase::Proving { retries } => retries < MAX_RETRIES,
        Phase::BackingOff { retries } => 0 < retries < MAX_RETRIES,
        _ => true,
    }
}

/// Works through the queue of blocks.
pub struct ProverWorker {
    phase: Phase,
}

impl ProverWorker {
    /// What the worker is waiting for.
    pub closed spec fn phase(self) -> Phase {
        self.phase
    }

    /// The worker has not used up the tries of a block that it works on.
    pub open spec fn wf(self) -> bool {
        phase_ok(self.phase())
    }

    /// A worker, with the first thing to do.
    pub fn new() -> (started: (ProverWorker, Action))
        ensures
            started.0.phase() == Phase::Idle,
            started.0.wf(),
            started.1 == action_of(Phase::Idle),
    {
        (ProverWorker { phase: Phase::Idle }, Action::Sleep { secs: POLL_SECS })
    }

    /// How many tries of the block that is worked on have failed.
    pub fn retries(&self) -> (retries: u32)
        ensures
            retries == match self.phase() {
                Phase::Proving { retries } => retries,
                Phase::BackingOff { retries } => retries,
                _ => 0,
            },
    {
        match self.phase {
            Phase::Proving { retries } => retries,
            Phase::BackingOff { retries } => retries,
            _ => 0,
        }
    }

    /// Takes note of an event, and says what to do next.
    pub fn step(&mut self, event: Event) -> (action: Action)
        requires
            old(self).wf(),
            expects(old(self).phase(), event),
        ensures
            final(self).wf(),
            final(self).phase() == next_phase(old(self).phase(), event),
            action == action_of(final(self).phase()),
    {
        let next: Phase = match (self.phase, event) {
            (Phase::Idle, _) => Phase::Peeking,
            (Phase::Peeking, Event::Done) => Phase::Proving { retries: 0 },
            (Phase::Peeking, Event::Empty) => Phase::Idle,
            (Phase::Proving { .. }, Event::Done) => Phase::Removing,
            (Phase::Proving { retries }, Event::Failed) => if retries + 1 >= MAX_RETRIES {
                Phase::Filing
            } else {
                Phase::BackingOff { retries: retries + 1 }
            },
            (Phase::BackingOff { retries }, _) => Phase::Proving { retries },
            (Phase::Filing, Event::Done) => Phase::Removing,
            (Phase::Removing, Event::Done) => Phase::Idle,
            _ => Phase::Stopped,
        };
        self.phase = next;
        match next {
            Phase::Idle => Action::Sleep { secs: POLL_SECS },
            Phase::Peeking => Action::Peek,
            Phase::Proving { .. } => Action::Prove,
            Phase::BackingOff { .. } => Action::Sleep { secs: RETRY_SECS },
            Phase::Filing => Action::PushFailed,
            Phase::Removing => Action::RemovePending,
            Phase::Stopped => Action::Stop,
        }
    }
}

/// Why a proof was not accepted.
#[derive(Debug, Clone, Copy, PartialEq, Eq)]
pub enum ProofRejected {
    /// The public values cannot be read.
    Undecodable,
    /// The proof leads to another root than the block.
    RootMismatch,
}

/// What to do with a proof.
#[derive(Debug, Clone, Copy, PartialEq, Eq)]
pub struct Accepted {
    /// The root that is proven once the proof is submitted.
    pub post_state_root: Hash32,
    /// Whether the proof goes to the base layer.
    pub submit: bool,
}

/// The verdict on a proof: its public values have to be four words, and the second of them the root
/// that the block claims.
pub open spec fn verdict(public_values: Seq<u8>, claimed: Hash32, l1_enabled: bool) -> Result<
    Accepted,
    ProofRejected,
> {
    if public_values.len() < 128 {
        Err(ProofRejected::Undecodable)
    } else if public_values.subrange(32, 64) == claimed@ {
        Ok(Accepted { post_state_root: claimed, submit: l1_enabled })
    } else {
        Err(ProofRejected::RootMismatch)
    }
}

/// Holds the public values of a proof against its block.
pub fn accept_proof(public_values: &[u8], block: &PendingBlock, l1: &L1Config) -> (result: Result<
    Accepted,
    ProofRejected,
>)
    ensures
        result == verdict(public_values@, block.post_state_root, l1.enabled),
{
    match PublicValues::abi_decode(public_values) {
        None => Err(ProofRejected::Undecodable),
        Some(values) => {
            assert(values.post_state_root@ =~= public_encoding(values).subrange(32, 64));
            assert(public_values@.take(128).subrange(32, 64) =~= public_values@.subrange(32, 64));
            if same_hash(&values.post_state_root, &block.post_state_root) {
                Ok(Accepted { post_state_root: values.post_state_root, submit: l1.enabled })
            } else {
                proof {
                    if values.post_state_root@ == block.post_state_root@ {
                        lemma_same_bytes(values.post_state_root, block.post_state_root);
                    }
                }
                Err(ProofRejected::RootMismatch)
            }
        },
    }
}

/// Ends the work on an accepted proof. `submitted` is whether the base layer took the proof, where
/// it goes there. The proven head moves, unless the base layer did not take it; then the block is
/// not done.
pub fn finish_proof(heads: &mut Heads, accepted: Accepted, submitted: Option<bool>) -> (done: bool)
    requires
        submitted is Some <==> accepted.submit,
    ensures
        done == (submitted != Some(false)),
        *final(heads) == if done {
            old(heads).with_proven(accepted.post_state_root)
        } else {
            *old(heads)
        },
{
    let done: bool = match submitted {
        Some(taken) => taken,
        None => true,
    };
    if done {
        heads.advance_proven(accepted.post_state_root);
    }
    done
}

/// What the offline prover is asked to do.
#[derive(Debug, Clone, Copy, PartialEq, Eq)]
pub enum Mode {
    Execute,
    Prove,
}

/// The mode that two switches ask for; exactly one of them has to be set.
pub fn choose_mode(execute: bool, prove: bool) -> (mode: Option<Mode>)
    ensures
        mode == if execute == prove {
            None::<Mode>
        } else if execute {
            Some(Mode::Execute)
        } else {
            Some(Mode::Prove)
        },
{
    if execute == prove {
        None
    } else if execute {
        Some(Mode::Execute)
    } else {
        Some(Mode::Prove)
    }
}

/// A block leaves the queue only after it was proven or filed as failed.
pub proof fn law_removed_after_proven_or_filed(phase: Phase, event: Event)
    requires
        expects(phase, event),
        next_phase(phase, event) == Phase::Removing,
    ensures
        event == Event::Done,
        phase is Proving || phase == Phase::Filing,
{
}

/// A block is filed as failed exactly when its last try fails.
pub proof fn law_filed_after_the_last_try(phase: Phase, event: Event)
    requires
        phase_ok(phase),
        expects(phase, event),
    ensures
        next_phase(phase, event) == Phase::Filing <==> phase == (Phase::Proving {
            retries: (MAX_RETRIES - 1) as u32,
        }) && event == Event::Failed,
{
}

/// How many tries the block that is worked on has left.
pub open spec fn tries_left(phase: Phase) -> int {
    match phase {
        Phase::Proving { retries } => MAX_RETRIES - retries,
        Phase::BackingOff { retries } => MAX_RETRIES - retries,
        _ => 0,
    }
}

/// A failed try leaves one try less, and waiting to try again costs none; a block starts out with
/// all of its tries.
pub proof fn law_tries_run_out(phase: Phase, event: Event)
    requires
        phase_ok(phase),
        expects(phase, event),
    ensures
        phase is Proving && event == Event::Failed ==> tries_left(next_phase(phase, event))
            == tries_left(phase) - 1,
        phase is BackingOff ==> tries_left(next_phase(phase, event)) == tries_left(phase),
        phase == Phase::Peeking && event == Event::Done ==> tries_left(next_phase(phase, event))
            == MAX_RETRIES,
{
}

/// What a transition makes public is accepted for a block exactly if the transition leads to the
/// root that the block claims.
pub proof fn law_accepted_iff_root_reached(transition: Transition, claimed: Hash32, l1_enabled: bool)
    ensures
        transition.public_bytes() matches Some(Ok(bytes)) ==> (transition.outcome() matches Some(
            Ok((root, _, _)),
        ) && (verdict(bytes, claimed, l1_enabled) is Ok <==> root == claimed)),
{
    law_public_bytes_name_the_roots(transition);
    if let Some(Ok((root, _, _))) = transition.outcome() {
        if root@ == claimed@ {
            lemma_same_bytes(root, claimed);
        }
    }
}

/// Where a block holds deposits and forced transfers only, and its transition goes through with the
/// proofs that were generated for it, what it makes public is accepted.
pub proof fn law_generated_block_is_accepted(
    tree: TreeView,
    block: PendingBlock,
    l1_enabled: bool,
)
    requires
        block.txs@.len() == 0,
    ensures
        block_proofs(tree, block) matches Ok(bundle) ==> (transition_of(block, bundle).public_bytes()
            matches Some(Ok(bytes)) ==> verdict(bytes, block.post_state_root, l1_enabled) == Ok::<
            Accepted,
            ProofRejected,
        >(Accepted { post_state_root: block.post_state_root, submit: l1_enabled })),
{
    if let Ok(bundle) = block_proofs(tree, block) {
        law_transition_follows_the_generator(tree, block);
        law_accepted_iff_root_reached(
            transition_of(block, bundle),
            block.post_state_root,
            l1_enabled,
        );
    }
}

/// An accepted proof moves the proven head to the root that its block claims, and goes to the base
/// layer exactly where this is used.
pub proof fn law_accepted_proof_moves_the_head_to_its_block(
    public_values: Seq<u8>,
    claimed: Hash32,
    l1_enabled: bool,
    heads: Heads,
)
    ensures
        verdict(public_values, claimed, l1_enabled) matches Ok(accepted) ==> accepted.submit
            == l1_enabled && heads.with_proven(accepted.post_state_root) == (Heads {
            proven: claimed,
            optimistic: heads.optimistic,
        }),
{
}

/// What the queue database holds after the action was carried out for a block.
pub open spec fn queue_after(
    action: Action,
    contents: Contents,
    block_number: u64,
    encoded: Seq<u8>,
) -> Contents {
    match action {
        Action::PushFailed => (WriteView::Put {
            family: Family::Failed,
            key: block_key(block_number),
            value: encoded,
        }).on(contents),
        Action::RemovePending => (WriteView::Delete {
            family: Family::Pending,
            key: block_key(block_number),
        }).on(contents),
        _ => contents,
    }
}

/// Peeking leaves the queue, and gives the block with the lowest number.
pub proof fn law_peeking_leaves_the_queue(
    contents: Contents,
    block_number: u64,
    encoded: Seq<u8>,
    other: u64,
)
    requires
        is_first_pending(contents, Some((block_key(block_number), encoded))),
    ensures
        queue_after(action_of(Phase::Peeking), contents, block_number, encoded) == contents,
        contents.contains_key((Family::Pending, block_key(other))) ==> block_number <= other,
{
    law_peeked_block_is_the_lowest(contents, block_number, encoded, other);
}

/// As long as a block is neither proven nor given up, the queue stays as it is.
pub proof fn law_queue_changes_only_at_the_end(
    phase: Phase,
    contents: Contents,
    block_number: u64,
    encoded: Seq<u8>,
)
    requires
        phase != Phase::Filing,
        phase != Phase::Removing,
    ensures
        queue_after(action_of(phase), contents, block_number, encoded) == contents,
{
}

/// When the work on the first block of the queue is over, it is out of the queue, every other block
/// is still there, and a block that was given up is filed.
pub proof fn law_finished_block_leaves_the_queue(
    contents: Contents,
    block_number: u64,
    encoded: Seq<u8>,
    given_up: bool,
    other: u64,
    other_encoded: Seq<u8>,
)
    requires
        other != block_number,
    ensures
        ({
            let filed = if given_up {
                queue_after(action_of(Phase::Filing), contents, block_number, encoded)
            } else {
                contents
            };
            let after = queue_after(action_of(Phase::Removing), filed, block_number, encoded);
            &&& !after.contains_key((Family::Pending, block_key(block_number)))
            &&& holds(after, Family::Pending, other, other_encoded) <==> holds(
                contents,
                Family::Pending,
                other,
                other_encoded,
            )
            &&& given_up ==> holds(after, Family::Failed, block_number, encoded)
        }),
{
    law_block_keys_differ(block_number, other);
}

/// The phase after the events, from a worker that is about to sleep.
pub open spec fn worked(events: Seq<Event>) -> Phase
    decreases events.len(),
{
    if events.len() == 0 {
        Phase::Idle
    } else {
        next_phase(worked(events.drop_last()), events.last())
    }
}

/// Where the worker goes from each phase. It looks at the queue after it slept, sleeps again where
/// the queue is empty, and proves the block where there is one. A proven block is removed. A first
/// or a second failure is waited out and tried again; after the third the block is filed, and then
/// removed. After a block is removed, the worker sleeps. Where the queue fails, it stops.
pub proof fn law_worker_goes_its_way(retries: u32)
    ensures
        next_phase(Phase::Idle, Event::Done) == Phase::Peeking,
        next_phase(Phase::Peeking, Event::Empty) == Phase::Idle,
        next_phase(Phase::Peeking, Event::Done) == (Phase::Proving { retries: 0 }),
        next_phase(Phase::Peeking, Event::Failed) == Phase::Stopped,
        next_phase(Phase::Proving { retries }, Event::Done) == Phase::Removing,
        next_phase(Phase::Proving { retries: 0 }, Event::Failed) == (Phase::BackingOff {
            retries: 1,
        }),
        next_phase(Phase::Proving { retries: 1 }, Event::Failed) == (Phase::BackingOff {
            retries: 2,
        }),
        next_phase(Phase::Proving { retries: 2 }, Event::Failed) == Phase::Filing,
        next_phase(Phase::BackingOff { retries }, Event::Done) == (Phase::Proving { retries }),
        next_phase(Phase::Filing, Event::Done) == Phase::Removing,
        next_phase(Phase::Filing, Event::Failed) == Phase::Stopped,
        next_phase(Phase::Removing, Event::Done) == Phase::Idle,
        next_phase(Phase::Removing, Event::Failed) == Phase::Stopped,
{
}

/// What the worker does in each phase, and how long it sleeps.
pub proof fn law_worker_does_its_work(retries: u32)
    ensures
        action_of(Phase::Idle) == (Action::Sleep { secs: 5 }),
        action_of(Phase::Peeking) == Action::Peek,
        action_of(Phase::Proving { retries }) == Action::Prove,
        action_of(Phase::BackingOff { retries }) == (Action::Sleep { secs: 10 }),
        action_of(Phase::Filing) == Action::PushFailed,
        action_of(Phase::Removing) == Action::RemovePending,
        action_of(Phase::Stopped) == Action::Stop,
{
}

/// What can happen in a phase, and how many failed tries a phase can have behind it.
pub proof fn law_worker_expects(phase: Phase, event: Event)
    ensures
        phase is Idle || phase is BackingOff ==> (expects(phase, event) <==> event == Event::Done),
        phase is Peeking ==> expects(phase, event),
        phase is Proving || phase is Filing || phase is Removing ==> (expects(phase, event)
            <==> event == Event::Done || event == Event::Failed),
        phase is Stopped ==> !expects(phase, event),
        phase matches Phase::Proving { retries } ==> (phase_ok(phase) <==> retries <= 2),
        phase matches Phase::BackingOff { retries } ==> (phase_ok(phase) <==> 1 <= retries <= 2),
        !(phase is Proving) && !(phase is BackingOff) ==> phase_ok(phase),
        phase_ok(phase) && expects(phase, event) ==> phase_ok(next_phase(phase, event)),
{
}

/// What happens up to the next try of a block that has failed so often: the worker wakes up, finds
/// the block, and each failure is followed by a wait.
pub open spec fn failed_tries(tries: nat) -> Seq<Event>
    decreases tries,
{
    if tries == 0 {
        seq![Event::Done, Event::Done]
    } else {
        failed_tries((tries - 1) as nat).push(Event::Failed).push(Event::Done)
    }
}

proof fn lemma_worked_push(events: Seq<Event>, event: Event)
    ensures
        worked(events.push(event)) == next_phase(worked(events), event),
{
    assert(events.push(event).drop_last() =~= events);
}

/// A block that keeps failing is tried three times, with a wait between two tries, then filed, and
/// then removed.
pub proof fn law_block_is_tried_three_times()
    ensures
        worked(failed_tries(0)) == (Phase::Proving { retries: 0 }),
        worked(failed_tries(1)) == (Phase::Proving { retries: 1 }),
        worked(failed_tries(2)) == (Phase::Proving { retries: 2 }),
        worked(failed_tries(2).push(Event::Failed)) == Phase::Filing,
        worked(failed_tries(2).push(Event::Failed).push(Event::Done)) == Phase::Removing,
        worked(failed_tries(2).push(Event::Failed).push(Event::Done).push(Event::Done))
            == Phase::Idle,
{
    assert(seq![Event::Done, Event::Done] =~= Seq::<Event>::empty().push(Event::Done).push(
        Event::Done,
    ));
    assert(worked(Seq::<Event>::empty()) == Phase::Idle);
    lemma_worked_push(Seq::empty(), Event::Done);
    lemma_worked_push(Seq::empty().push(Event::Done), Event::Done);
    lemma_worked_push(failed_tries(0), Event::Failed);
    lemma_worked_push(failed_tries(0).push(Event::Failed), Event::Done);
    assert(failed_tries(1) == failed_tries(0).push(Event::Failed).push(Event::Done));
    lemma_worked_push(failed_tries(1), Event::Failed);
    lemma_worked_push(failed_tries(1).push(Event::Failed), Event::Done);
    assert(failed_tries(2) == failed_tries(1).push(Event::Failed).push(Event::Done));
    lemma_worked_push(failed_tries(2), Event::Failed);
    lemma_worked_push(failed_tries(2).push(Event::Failed), Event::Done);
    lemma_worked_push(failed_tries(2).push(Event::Failed).push(Event::Done), Event::Done);
}

/// A proof is accepted exactly where its public values have at least four words and the second is the
/// root that the block claims; then that root is proven, and the proof goes out where the base layer
/// is used. Too few words cannot be read, and another root is turned down.
pub proof fn law_verdict_is_by_the_second_word(
    public_values: Seq<u8>,
    claimed: Hash32,
    l1_enabled: bool,
)
    ensures
        public_values.len() < 128 ==> verdict(public_values, claimed, l1_enabled) == Err::<
            Accepted,
            ProofRejected,
        >(ProofRejected::Undecodable),
        public_values.len() >= 128 && (exists|i: int|
            0 <= i < 32 && #[trigger] claimed[i] != public_values[32 + i]) ==> verdict(
            public_values,
            claimed,
            l1_enabled,
        ) == Err::<Accepted, ProofRejected>(ProofRejected::RootMismatch),
        public_values.len() >= 128 && (forall|i: int|
            0 <= i < 32 ==> #[trigger] claimed[i] == public_values[32 + i]) ==> (verdict(
            public_values,
            claimed,
            l1_enabled,
        ) matches Ok(accepted) && accepted.post_state_root == claimed && accepted.submit
            == l1_enabled),
{
    if public_values.len() >= 128 {
        let word = public_values.subrange(32, 64);
        if forall|i: int| 0 <= i < 32 ==> #[trigger] claimed[i] == public_values[32 + i] {
            assert(word =~= claimed@);
        } else {
            let i = choose|i: int| 0 <= i < 32 && #[trigger] claimed[i] != public_values[32 + i];
            assert(word[i] != claimed@[i]);
        }
    }
}

} // verus!
