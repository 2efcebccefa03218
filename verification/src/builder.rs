//! The order in which the sequencer builds a block, and what it changes when.
use crate::bytes::be_bytes;
use crate::hash::Hash32;
use crate::persistence::{
    block_key, counter_key, counter_of, holds, law_committed_block_is_pending, Contents, Family,
    WriteView,
};
use crate::sequencer::{begun, Heads, Round, RoundView, Sealed, SealedView};
use crate::types::{BlockView, Deposit, ForcedTx, Transaction};
use vstd::prelude::*;

verus! {

/// How long the builder sleeps before it starts a block, in seconds.
pub const BUILD_SECS: u64 = 2;

/// What happened.
#[derive(Debug, Clone)]
pub enum BuilderEvent {
    /// The work is done.
    Done,
    /// The work failed, and changed nothing.
    Failed,
    /// The bridge gave what is new on the base layer.
    Fetched { deposits: Vec<Deposit>, forced_txs: Vec<ForcedTx> },
    /// The transfers that wait, and the roots that were reached.
    Collected { txs: Vec<Transaction>, heads: Heads },
    /// The batch went through and led to this root.
    Applied { root: Hash32 },
    /// The block counter went up; the block has the number that it was at.
    Counted { block_number: u64 },
}

/// What a `BuilderEvent` says.
pub enum BuilderEventView {
    Done,
    Failed,
    Fetched { deposits: Seq<Deposit>, forced_txs: Seq<ForcedTx> },
    Collected { txs: Seq<Transaction>, heads: Heads },
    Applied { root: Hash32 },
    Counted { block_number: u64 },
}

impl View for BuilderEvent {
    type V = BuilderEventView;

    open spec fn view(&self) -> BuilderEventView {
        match *self {
            BuilderEvent::Done => BuilderEventView::Done,
            BuilderEvent::Failed => BuilderEventView::Failed,
            BuilderEvent::Fetched { deposits, forced_txs } => BuilderEventView::Fetched {
                deposits: deposits@,
                forced_txs: forced_txs@,
            },
            BuilderEvent::Collected { txs, heads } => BuilderEventView::Collected {
                txs: txs@,
                heads,
            },
            BuilderEvent::Applied { root } => BuilderEventView::Applied { root },
            BuilderEvent::Counted { block_number } => BuilderEventView::Counted { block_number },
        }
    }
}

/// What is to be done.
#[derive(Debug, Clone, Copy, PartialEq, Eq)]
pub enum BuilderAction {
    Sleep { secs: u64 },
    /// Ask the bridge for what is new.
    Fetch,
    /// Look at the mempool and the heads.
    Collect,
    /// Execute the round as a batch, and write what it commits.
    Apply,
    /// Make this root the head of the tree.
    SetHeadroot { root: Hash32 },
    /// Count the block.
    Count,
    /// Move the optimistic head.
    Advance { root: Hash32 },
    /// Drop so many transfers from the front of the mempool.
    Drain { included: usize },
    /// Queue the sealed block, with the number of the next.
    Enqueue,
    Stop,
}

/// What the builder is waiting for.
pub enum BuilderPhase {
    /// To wake up.
    Idle,
    /// What is new on the base layer.
    Fetching,
    /// The transfers that wait.
    Collecting { deposits: Seq<Deposit>, forced_txs: Seq<ForcedTx> },
    /// The batch to go through.
    Applying { round: RoundView },
    /// The head of the tree to be set.
    SettingHead { round: RoundView, root: Hash32 },
    /// The block to be counted.
    Counting { round: RoundView, root: Hash32 },
    /// The optimistic head to be moved.
    Advancing { sealed: SealedView },
    /// The transfers of the block to be dropped from the mempool.
    Draining { sealed: SealedView },
    /// The block to be queued.
    Enqueueing { sealed: SealedView },
    /// Nothing: the builder failed.
    Stopped,
}

/// What may happen in a phase. Only the bridge, the batch and the queue can fail, and a block
/// number has one after it.
pub open spec fn builder_expects(phase: BuilderPhase, event: BuilderEventView) -> bool {
    match phase {
        BuilderPhase::Idle => event is Done,
        BuilderPhase::Fetching => event is Fetched || event is Failed,
        BuilderPhase::Collecting { .. } => event is Collected,
        BuilderPhase::Applying { .. } => event is Applied || event is Failed,
        BuilderPhase::SettingHead { .. } => event is Done,
        BuilderPhase::Counting { .. } => event matches BuilderEventView::Counted { block_number }
            && block_number < u64::MAX,
        BuilderPhase::Advancing { .. } => event is Done,
        BuilderPhase::Draining { .. } => event is Done,
        BuilderPhase::Enqueueing { .. } => event is Done || event is Failed,
        BuilderPhase::Stopped => false,
    }
}

/// The phase after an event. Where the base layer is not used, the bridge is not asked; where there
/// is nothing to put into a block, none is built.
pub open spec fn builder_next(
    l1_enabled: bool,
    phase: BuilderPhase,
    event: BuilderEventView,
) -> BuilderPhase {
    match (phase, event) {
        (BuilderPhase::Idle, BuilderEventView::Done) => if l1_enabled {
            BuilderPhase::Fetching
        } else {
            BuilderPhase::Collecting { deposits: Seq::empty(), forced_txs: Seq::empty() }
        },
        (
            BuilderPhase::Fetching,
            BuilderEventView::Fetched { deposits, forced_txs },
        ) => BuilderPhase::Collecting { deposits, forced_txs },
        (
            BuilderPhase::Collecting { deposits, forced_txs },
            BuilderEventView::Collected { txs, heads },
        ) => match begun(txs, deposits, forced_txs, heads.optimistic) {
            Some(round) => BuilderPhase::Applying { round },
            None => BuilderPhase::Idle,
        },
        (
            BuilderPhase::Applying { round },
            BuilderEventView::Applied { root },
        ) => BuilderPhase::SettingHead { round, root },
        (
            BuilderPhase::SettingHead { round, root },
            BuilderEventView::Done,
        ) => BuilderPhase::Counting { round, root },
        (
            BuilderPhase::Counting { round, root },
            BuilderEventView::Counted { block_number },
        ) => BuilderPhase::Advancing { sealed: round.sealed(block_number, root) },
        (BuilderPhase::Advancing { sealed }, BuilderEventView::Done) => BuilderPhase::Draining {
            sealed,
        },
        (BuilderPhase::Draining { sealed }, BuilderEventView::Done) => BuilderPhase::Enqueueing {
            sealed,
        },
        (BuilderPhase::Enqueueing { .. }, BuilderEventView::Done) => BuilderPhase::Idle,
        _ => BuilderPhase::Stopped,
    }
}

/// What is to be done on entering a phase.
pub open spec fn builder_action(phase: BuilderPhase) -> BuilderAction {
    match phase {
        BuilderPhase::Idle => BuilderAction::Sleep { secs: BUILD_SECS },
        BuilderPhase::Fetching => BuilderAction::Fetch,
        BuilderPhase::Collecting { .. } => BuilderAction::Collect,
        BuilderPhase::Applying { .. } => BuilderAction::Apply,
        BuilderPhase::SettingHead { root, .. } => BuilderAction::SetHeadroot { root },
        BuilderPhase::Counting { .. } => BuilderAction::Count,
        BuilderPhase::Advancing { sealed } => BuilderAction::Advance {
            root: sealed.block.post_state_root,
        },
        BuilderPhase::Draining { sealed } => BuilderAction::Drain { included: sealed.included },
        BuilderPhase::Enqueueing { .. } => BuilderAction::Enqueue,
        BuilderPhase::Stopped => BuilderAction::Stop,
    }
}

/// A sealed block drops its own transfers from the mempool, and the next block has the next number.
pub open spec fn sealed_ok(sealed: SealedView) -> bool {
    &&& sealed.included == sealed.block.txs.len()
    &&& sealed.next_block_number == sealed.block.block_number + 1
}

/// A block that is being built has something in it.
pub open spec fn round_ok(round: RoundView) -> bool {
    &&& round.txs.len() <= usize::MAX
    &&& begun(round.txs, round.deposits, round.forced_txs, round.pre_state_root) == Some(round)
}

/// The phase holds a block with something in it, if it holds one.
pub open spec fn builder_phase_ok(phase: BuilderPhase) -> bool {
    match phase {
        BuilderPhase::Applying { round } => round_ok(round),
        BuilderPhase::SettingHead { round, .. } => round_ok(round),
        BuilderPhase::Counting { round, .. } => round_ok(round),
        BuilderPhase::Advancing { sealed } => sealed_ok(sealed),
        BuilderPhase::Draining { sealed } => sealed_ok(sealed),
        BuilderPhase::Enqueueing { sealed } => sealed_ok(sealed),
        _ => true,
    }
}

enum Stage {
    Idle,
    Fetching,
    Collecting { deposits: Vec<Deposit>, forced_txs: Vec<ForcedTx> },
    Applying { round: Round },
    SettingHead { round: Round, root: Hash32 },
    Counting { round: Round, root: Hash32 },
    Advancing { sealed: Sealed },
    Draining { sealed: Sealed },
    Enqueueing { sealed: Sealed },
    Stopped,
}

impl Stage {
    spec fn phase(self) -> BuilderPhase {
        match self {
            Stage::Idle => BuilderPhase::Idle,
            Stage::Fetching => BuilderPhase::Fetching,
            Stage::Collecting { deposits, forced_txs } => BuilderPhase::Collecting {
                deposits: deposits@,
                forced_txs: forced_txs@,
            },
            Stage::Applying { round } => BuilderPhase::Applying { round: round@ },
            Stage::SettingHead { round, root } => BuilderPhase::SettingHead { round: round@, root },
            Stage::Counting { round, root } => BuilderPhase::Counting { round: round@, root },
            Stage::Advancing { sealed } => BuilderPhase::Advancing { sealed: sealed@ },
            Stage::Draining { sealed } => BuilderPhase::Draining { sealed: sealed@ },
            Stage::Enqueueing { sealed } => BuilderPhase::Enqueueing { sealed: sealed@ },
            Stage::Stopped => BuilderPhase::Stopped,
        }
    }
}

/// Builds one block after the other.
pub struct Builder {
    l1_enabled: bool,
    stage: Stage,
}

impl Builder {
    /// Whether the base layer is used.
    pub closed spec fn l1_enabled(self) -> bool {
        self.l1_enabled
    }

    /// What the builder is waiting for.
    pub closed spec fn phase(self) -> BuilderPhase {
        self.stage.phase()
    }

    /// A block that the builder works on is in order.
    pub open spec fn wf(self) -> bool {
        builder_phase_ok(self.phase())
    }

    /// A builder, with the first thing to do.
    pub fn new(l1_enabled: bool) -> (started: (Builder, BuilderAction))
        ensures
            started.0.wf(),
            started.0.l1_enabled() == l1_enabled,
            started.0.phase() == BuilderPhase::Idle,
            started.1 == builder_action(BuilderPhase::Idle),
    {
        (Builder { l1_enabled, stage: Stage::Idle }, BuilderAction::Sleep { secs: BUILD_SECS })
    }

    /// The input of the block that is to be executed.
    pub fn round(&self) -> (round: Option<&Round>)
        ensures
            match self.phase() {
                BuilderPhase::Applying { round: expected } => round matches Some(r) && r@
                    == expected,
                _ => round is None,
            },
    {
        match &self.stage {
            Stage::Applying { round } => Some(round),
            _ => None,
        }
    }

    /// The block that is to be queued.
    pub fn sealed(&self) -> (sealed: Option<&Sealed>)
        ensures
            match self.phase() {
                BuilderPhase::Enqueueing { sealed: expected } => sealed matches Some(s) && s@
                    == expected,
                _ => sealed is None,
            },
    {
        match &self.stage {
            Stage::Enqueueing { sealed } => Some(sealed),
            _ => None,
        }
    }

    /// Takes note of an event, and says what to do next.
    pub fn step(&mut self, event: BuilderEvent) -> (action: BuilderAction)
        requires
            old(self).wf(),
            builder_expects(old(self).phase(), event@),
        ensures
            final(self).wf(),
            final(self).l1_enabled() == old(self).l1_enabled(),
            final(self).phase() == builder_next(old(self).l1_enabled(), old(self).phase(), event@),
            action == builder_action(final(self).phase()),
    {
        let mut stage: Stage = Stage::Stopped;
        std::mem::swap(&mut stage, &mut self.stage);
        let (next, action): (Stage, BuilderAction) = match (stage, event) {
            (Stage::Idle, BuilderEvent::Done) => if self.l1_enabled {
                (Stage::Fetching, BuilderAction::Fetch)
            } else {
                let deposits: Vec<Deposit> = Vec::new();
                let forced_txs: Vec<ForcedTx> = Vec::new();
                (Stage::Collecting { deposits, forced_txs }, BuilderAction::Collect)
            },
            (Stage::Fetching, BuilderEvent::Fetched { deposits, forced_txs }) => (
                Stage::Collecting { deposits, forced_txs },
                BuilderAction::Collect,
            ),
            (
                Stage::Collecting { deposits, forced_txs },
                BuilderEvent::Collected { txs, heads },
            ) => {
                assert(txs.len() == txs@.len());
                match Round::begin(txs, deposits, forced_txs, &heads) {
                    Some(round) => (Stage::Applying { round }, BuilderAction::Apply),
                    None => (Stage::Idle, BuilderAction::Sleep { secs: BUILD_SECS }),
                }
            },
            (Stage::Applying { round }, BuilderEvent::Applied { root }) => (
                Stage::SettingHead { round, root },
                BuilderAction::SetHeadroot { root },
            ),
            (Stage::SettingHead { round, root }, BuilderEvent::Done) => (
                Stage::Counting { round, root },
                BuilderAction::Count,
            ),
            (Stage::Counting { round, root }, BuilderEvent::Counted { block_number }) => {
                let sealed: Sealed = round.seal(block_number, root);
                (Stage::Advancing { sealed }, BuilderAction::Advance { root })
            },
            (Stage::Advancing { sealed }, BuilderEvent::Done) => {
                let included: usize = sealed.included;
                (Stage::Draining { sealed }, BuilderAction::Drain { included })
            },
            (Stage::Draining { sealed }, BuilderEvent::Done) => (
                Stage::Enqueueing { sealed },
                BuilderAction::Enqueue,
            ),
            (Stage::Enqueueing { .. }, BuilderEvent::Done) => (
                Stage::Idle,
                BuilderAction::Sleep { secs: BUILD_SECS },
            ),
            _ => (Stage::Stopped, BuilderAction::Stop),
        };
        self.stage = next;
        action
    }
}

/// What a block changes: the head of the tree, the block counter, the heads, the mempool and the
/// queue.
pub struct World {
    pub headroot: Hash32,
    pub counter: int,
    pub heads: Heads,
    pub mempool: Seq<Transaction>,
    pub queue: Contents,
}

/// The world after what the phase is waiting for was done. Blocks are stored under `encode`.
pub open spec fn carried_out(
    phase: BuilderPhase,
    world: World,
    encode: spec_fn(BlockView) -> Seq<u8>,
) -> World {
    match phase {
        BuilderPhase::SettingHead { root, .. } => World { headroot: root, ..world },
        BuilderPhase::Counting { .. } => World { counter: world.counter + 1, ..world },
        BuilderPhase::Advancing { sealed } => World {
            heads: world.heads.with_optimistic(sealed.block.post_state_root),
            ..world
        },
        BuilderPhase::Draining { sealed } => World {
            mempool: world.mempool.skip(sealed.included as int),
            ..world
        },
        BuilderPhase::Enqueueing { sealed } => World {
            queue: (WriteView::Put {
                family: Family::Meta,
                key: counter_key(),
                value: be_bytes(sealed.next_block_number as nat, 8),
            }).on(
                (WriteView::Put {
                    family: Family::Pending,
                    key: block_key(sealed.block.block_number),
                    value: encode(sealed.block),
                }).on(world.queue),
            ),
            ..world
        },
        _ => world,
    }
}

/// The phase and the world after an event. What failed changed nothing.
pub open spec fn lived(
    l1_enabled: bool,
    phase: BuilderPhase,
    world: World,
    encode: spec_fn(BlockView) -> Seq<u8>,
    event: BuilderEventView,
) -> (BuilderPhase, World) {
    (
        builder_next(l1_enabled, phase, event),
        if event is Failed {
            world
        } else {
            carried_out(phase, world, encode)
        },
    )
}

/// The phase and the world after the events, from a builder that is about to sleep.
pub open spec fn history(
    l1_enabled: bool,
    world: World,
    encode: spec_fn(BlockView) -> Seq<u8>,
    events: Seq<BuilderEventView>,
) -> (BuilderPhase, World)
    decreases events.len(),
{
    if events.len() == 0 {
        (BuilderPhase::Idle, world)
    } else {
        let (phase, before) = history(l1_enabled, world, encode, events.drop_last());
        lived(l1_enabled, phase, before, encode, events.last())
    }
}

/// No batch went through.
pub open spec fn no_batch(events: Seq<BuilderEventView>) -> bool {
    forall|i: int| 0 <= i < events.len() ==> !((#[trigger] events[i]) is Applied)
}

/// As long as no batch goes through, nothing changes, whatever else happens.
pub proof fn law_nothing_changes_without_a_batch(
    l1_enabled: bool,
    world: World,
    encode: spec_fn(BlockView) -> Seq<u8>,
    events: Seq<BuilderEventView>,
)
    requires
        no_batch(events),
    ensures
        history(l1_enabled, world, encode, events).1 == world,
        match history(l1_enabled, world, encode, events).0 {
            BuilderPhase::Idle => true,
            BuilderPhase::Fetching => true,
            BuilderPhase::Collecting { .. } => true,
            BuilderPhase::Applying { .. } => true,
            BuilderPhase::Stopped => true,
            _ => false,
        },
    decreases events.len(),
{
    if events.len() > 0 {
        let init = events.drop_last();
        assert forall|i: int| 0 <= i < init.len() implies !((#[trigger] init[i]) is Applied) by {
            assert(init[i] == events[i]);
        }
        law_nothing_changes_without_a_batch(l1_enabled, world, encode, init);
        assert(!(events[events.len() - 1] is Applied));
    }
}

/// A round whose fetch or batch fails stops the builder, and leaves the head of the tree, the
/// counter, the heads, the mempool and the queue as they were when it started.
pub proof fn law_failed_round_changes_nothing(
    l1_enabled: bool,
    world: World,
    encode: spec_fn(BlockView) -> Seq<u8>,
    events: Seq<BuilderEventView>,
)
    requires
        no_batch(events),
        ({
            let (phase, _) = history(l1_enabled, world, encode, events);
            phase is Fetching || phase is Applying
        }),
    ensures
        history(l1_enabled, world, encode, events.push(BuilderEventView::Failed)) == (
            BuilderPhase::Stopped,
            world,
        ),
{
    law_nothing_changes_without_a_batch(l1_enabled, world, encode, events);
    assert(events.push(BuilderEventView::Failed).drop_last() =~= events);
}

/// The bridge is asked where the base layer is used, and only there.
pub proof fn law_bridge_is_asked_where_it_is_used(
    l1_enabled: bool,
    phase: BuilderPhase,
    event: BuilderEventView,
)
    requires
        builder_expects(phase, event),
    ensures
        builder_next(l1_enabled, phase, event) is Fetching <==> l1_enabled && phase is Idle,
{
}

/// After a batch went through, the rest of the round makes each change once: the tree, the heads
/// and the block have the root that the batch led to, the block has the number that the counter was
/// at, its transfers are dropped from the front of the mempool, and it is queued and counted.
pub proof fn law_round_that_goes_through(
    l1_enabled: bool,
    world: World,
    encode: spec_fn(BlockView) -> Seq<u8>,
    round: RoundView,
    root: Hash32,
)
    requires
        round_ok(round),
        0 <= world.counter < u64::MAX,
    ensures
        ({
            let number = world.counter as u64;
            let done = BuilderEventView::Done;
            let applying = BuilderPhase::Applying { round };
            let applied = BuilderEventView::Applied { root };
            let counted = BuilderEventView::Counted { block_number: number };
            let (p1, w1) = lived(l1_enabled, applying, world, encode, applied);
            let (p2, w2) = lived(l1_enabled, p1, w1, encode, done);
            let (p3, w3) = lived(l1_enabled, p2, w2, encode, counted);
            let (p4, w4) = lived(l1_enabled, p3, w3, encode, done);
            let (p5, w5) = lived(l1_enabled, p4, w4, encode, done);
            let (p6, w6) = lived(l1_enabled, p5, w5, encode, done);
            let sealed = round.sealed(number, root);
            &&& builder_expects(applying, applied) && builder_expects(p1, done)
            &&& builder_expects(p2, counted) && builder_expects(p3, done)
            &&& builder_expects(p4, done) && builder_expects(p5, done)
            &&& p6 is Idle
            &&& w6.headroot == root
            &&& w6.counter == world.counter + 1
            &&& w6.heads == world.heads.with_optimistic(root)
            &&& w6.mempool == world.mempool.skip(round.txs.len() as int)
            &&& holds(w6.queue, Family::Pending, number, encode(sealed.block))
            &&& w6.queue.contains_key((Family::Meta, counter_key()))
            &&& counter_of(Some(w6.queue[(Family::Meta, counter_key())])) == w6.counter
        }),
{
    let sealed = round.sealed(world.counter as u64, root);
    law_committed_block_is_pending(
        world.queue,
        WriteView::Put {
            family: Family::Pending,
            key: block_key(sealed.block.block_number),
            value: encode(sealed.block),
        },
        WriteView::Put {
            family: Family::Meta,
            key: counter_key(),
            value: be_bytes(sealed.next_block_number as nat, 8),
        },
        sealed.block.block_number,
        encode(sealed.block),
        sealed.next_block_number,
    );
}

/// The block that is begun on the heads that a block left starts from the root that this block led
/// to.
pub proof fn law_blocks_chain(
    l1_enabled: bool,
    world: World,
    encode: spec_fn(BlockView) -> Seq<u8>,
    sealed: SealedView,
    txs: Seq<Transaction>,
    deposits: Seq<Deposit>,
    forced_txs: Seq<ForcedTx>,
)
    ensures
        ({
            let after = carried_out(BuilderPhase::Advancing { sealed }, world, encode);
            let collected = BuilderEventView::Collected { txs, heads: after.heads };
            builder_next(
                l1_enabled,
                BuilderPhase::Collecting { deposits, forced_txs },
                collected,
            ) matches BuilderPhase::Applying { round } ==> round.pre_state_root
                == sealed.block.post_state_root
        }),
{
}

/// How a round gets under way: after the sleep the bridge is asked where it is used, then what waits
/// is collected, and then all of it is executed on top of the optimistic head. Where there is
/// nothing, the builder sleeps again.
pub proof fn law_round_gets_under_way(
    deposits: Seq<Deposit>,
    forced_txs: Seq<ForcedTx>,
    txs: Seq<Transaction>,
    heads: Heads,
    l1_enabled: bool,
)
    ensures
        builder_next(true, BuilderPhase::Idle, BuilderEventView::Done) == BuilderPhase::Fetching,
        builder_next(false, BuilderPhase::Idle, BuilderEventView::Done) matches
            BuilderPhase::Collecting { deposits: none, forced_txs: none_forced } && none.len() == 0
            && none_forced.len() == 0,
        builder_next(
            l1_enabled,
            BuilderPhase::Fetching,
            BuilderEventView::Fetched { deposits, forced_txs },
        ) == (BuilderPhase::Collecting { deposits, forced_txs }),
        ({
            let next = builder_next(
                l1_enabled,
                BuilderPhase::Collecting { deposits, forced_txs },
                BuilderEventView::Collected { txs, heads },
            );
            &&& txs.len() + deposits.len() + forced_txs.len() == 0 ==> next == BuilderPhase::Idle
            &&& txs.len() + deposits.len() + forced_txs.len() > 0 ==> (next matches
                BuilderPhase::Applying { round } && round.txs == txs && round.deposits == deposits
                && round.forced_txs == forced_txs && round.pre_state_root == heads.optimistic)
        }),
{
}

/// How a round ends: after the batch went through, the head of the tree is set to its root; then the
/// block is counted and sealed under the number that it got; then the optimistic head moves to the
/// block's root, its transfers leave the mempool, and it is queued; and then the builder sleeps. It
/// stops where the bridge, the batch or the queue fails.
pub proof fn law_round_comes_to_its_end(
    l1_enabled: bool,
    round: RoundView,
    sealed: SealedView,
    root: Hash32,
    block_number: u64,
)
    ensures
        builder_next(
            l1_enabled,
            BuilderPhase::Applying { round },
            BuilderEventView::Applied { root },
        ) == (BuilderPhase::SettingHead { round, root }),
        builder_next(
            l1_enabled,
            BuilderPhase::SettingHead { round, root },
            BuilderEventView::Done,
        ) == (BuilderPhase::Counting { round, root }),
        builder_next(
            l1_enabled,
            BuilderPhase::Counting { round, root },
            BuilderEventView::Counted { block_number },
        ) matches BuilderPhase::Advancing { sealed: s } && s.block.block_number == block_number
            && s.block.txs == round.txs && s.block.deposits == round.deposits && s.block.forced_txs
            == round.forced_txs && s.block.pre_state_root == round.pre_state_root
            && s.block.post_state_root == root,
        builder_next(l1_enabled, BuilderPhase::Advancing { sealed }, BuilderEventView::Done) == (
        BuilderPhase::Draining { sealed }),
        builder_next(l1_enabled, BuilderPhase::Draining { sealed }, BuilderEventView::Done) == (
        BuilderPhase::Enqueueing { sealed }),
        builder_next(l1_enabled, BuilderPhase::Enqueueing { sealed }, BuilderEventView::Done)
            == BuilderPhase::Idle,
        builder_next(l1_enabled, BuilderPhase::Fetching, BuilderEventView::Failed)
            == BuilderPhase::Stopped,
        builder_next(l1_enabled, BuilderPhase::Applying { round }, BuilderEventView::Failed)
            == BuilderPhase::Stopped,
        builder_next(l1_enabled, BuilderPhase::Enqueueing { sealed }, BuilderEventView::Failed)
            == BuilderPhase::Stopped,
{
}

/// What the builder does in each phase, and with what.
pub proof fn law_builder_does_its_work(
    deposits: Seq<Deposit>,
    forced_txs: Seq<ForcedTx>,
    round: RoundView,
    sealed: SealedView,
    root: Hash32,
)
    ensures
        builder_action(BuilderPhase::Idle) == (BuilderAction::Sleep { secs: 2 }),
        builder_action(BuilderPhase::Fetching) == BuilderAction::Fetch,
        builder_action(BuilderPhase::Collecting { deposits, forced_txs }) == BuilderAction::Collect,
        builder_action(BuilderPhase::Applying { round }) == BuilderAction::Apply,
        builder_action(BuilderPhase::SettingHead { round, root }) == (BuilderAction::SetHeadroot {
            root,
        }),
        builder_action(BuilderPhase::Counting { round, root }) == BuilderAction::Count,
        builder_action(BuilderPhase::Advancing { sealed }) == (BuilderAction::Advance {
            root: sealed.block.post_state_root,
        }),
        builder_action(BuilderPhase::Draining { sealed }) == (BuilderAction::Drain {
            included: sealed.included,
        }),
        builder_action(BuilderPhase::Enqueueing { sealed }) == BuilderAction::Enqueue,
        builder_action(BuilderPhase::Stopped) == BuilderAction::Stop,
{
}

/// What can happen in a phase: each kind of work ends in its own way, and only the bridge, the batch
/// and the queue can fail.
pub proof fn law_builder_expects(phase: BuilderPhase, event: BuilderEventView)
    ensures
        builder_expects(phase, event) <==> {
            ||| event is Done && (phase is Idle || phase is SettingHead || phase is Advancing
                || phase is Draining || phase is Enqueueing)
            ||| event is Failed && (phase is Fetching || phase is Applying || phase is Enqueueing)
            ||| event is Fetched && phase is Fetching
            ||| event is Collected && phase is Collecting
            ||| event is Applied && phase is Applying
            ||| phase is Counting && (event matches BuilderEventView::Counted { block_number }
                && block_number < u64::MAX)
        },
{
}

/// An event says what it holds.
pub proof fn law_builder_event_view(
    deposits: Vec<Deposit>,
    forced_txs: Vec<ForcedTx>,
    txs: Vec<Transaction>,
    heads: Heads,
    root: Hash32,
    block_number: u64,
)
    ensures
        BuilderEvent::Done@ == BuilderEventView::Done,
        BuilderEvent::Failed@ == BuilderEventView::Failed,
        (BuilderEvent::Fetched { deposits, forced_txs })@ == (BuilderEventView::Fetched {
            deposits: deposits@,
            forced_txs: forced_txs@,
        }),
        (BuilderEvent::Collected { txs, heads })@ == (BuilderEventView::Collected {
            txs: txs@,
            heads,
        }),
        (BuilderEvent::Applied { root })@ == (BuilderEventView::Applied { root }),
        (BuilderEvent::Counted { block_number })@ == (BuilderEventView::Counted { block_number }),
{
}

} // verus!
