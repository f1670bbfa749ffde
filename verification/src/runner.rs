//! The loop that claims batches, runs each through a runtime, persists what
//! the run left behind and settles the claim.
//!
//! [`Runner`] decides; its caller performs the step that [`Runner::phase`]
//! names and reports how it went. A batch whose state could not be persisted
//! is released, never acknowledged. The loop ends only between batches, so a
//! clean end holds no claim.

use vstd::prelude::*;

use crate::consensus::types::Uid;
use crate::error::{ErrorView, PcsError};
use crate::text::{uuid_hyphenated, uuid_text};

verus! {

/// When a run's dataset is checkpointed.
#[derive(Debug, Clone, Copy, PartialEq, Eq, Structural)]
pub enum CheckpointStrategy {
    /// Not at all.
    Never,
    /// After every stage.
    EveryStage,
}

impl CheckpointStrategy {
    /// Whether the given stage is checkpointed.
    pub fn should_checkpoint(&self, stage_idx: u32) -> (r: bool)
        ensures
            r == (*self == CheckpointStrategy::EveryStage),
    {
        matches!(self, CheckpointStrategy::EveryStage)
    }
}

/// The uuid is one of those ordered by time: version seven, in the variant
/// that has versions.
pub open spec fn is_time_ordered(u: Uid) -> bool {
    &&& (u / 75557863725914323419136) % 16 == 7
    &&& (u / 4611686018427387904) % 4 == 2
}

/// A new time-ordered uuid: `uuid::Uuid::now_v7`. Its version and variant are
/// those of such a uuid; the rest is the time and chance.
#[verifier::external_body]
fn fresh_uid() -> (r: Uid)
    ensures
        is_time_ordered(r),
{
    uuid::Uuid::now_v7().as_u128()
}

/// A share of the keys: that of one instance among several.
#[derive(Debug, Clone, Copy, PartialEq, Eq, Structural)]
pub struct KeyPartition {
    /// Which of the instances, counted from zero.
    pub index: u32,
    /// How many instances share the keys.
    pub count: u32,
}

/// Configuration of a runner.
#[derive(Debug, Clone)]
pub struct RunnerConfig {
    /// Unique identifier for this runner instance.
    pub instance_id: Uid,
    /// Checkpoint frequency.
    pub checkpoint_strategy: CheckpointStrategy,
    /// Default schema version applied when writing checkpoints.
    pub schema_id: u32,
    /// Maximum number of batches to process.
    pub max_batches: Option<usize>,
    /// How frequently to check lease renewal, in milliseconds.
    pub lease_renewal_check_interval_millis: u64,
    /// The workflow this runner drives.
    pub workflow_id: String,
    /// The processor node the runtime stands for.
    pub processor_id: String,
    /// The keys whose rows this runner accumulates; all of them where none are
    /// named.
    pub partition_mask: Option<KeyPartition>,
}

impl Default for RunnerConfig {
    /// An instance of its own that checkpoints every stage and runs until no
    /// batch is left.
    fn default() -> (r: Self)
        ensures
            is_time_ordered(r.instance_id),
            r.checkpoint_strategy == CheckpointStrategy::EveryStage,
            r.schema_id == 1,
            r.max_batches is None,
            r.lease_renewal_check_interval_millis == 5_000,
            r.workflow_id@ == Seq::<char>::empty(),
            r.processor_id@ == Seq::<char>::empty(),
            r.partition_mask is None,
    {
        RunnerConfig {
            instance_id: fresh_uid(),
            checkpoint_strategy: CheckpointStrategy::EveryStage,
            schema_id: 1,
            max_batches: None,
            lease_renewal_check_interval_millis: 5_000,
            workflow_id: String::new(),
            processor_id: String::new(),
            partition_mask: None,
        }
    }
}

/// How often expired leases of other runners are swept, in milliseconds.
pub const SWEEP_INTERVAL_MILLIS: u64 = 30_000;

/// What the runner does next.
#[derive(Debug, Clone, Copy, PartialEq, Eq, Structural)]
pub enum Phase {
    /// Look at the clock and at the request to stop.
    Poll,
    /// Sweep expired leases.
    Sweep,
    /// Claim the next batch.
    Claim,
    /// Load the accumulator that the last durable save wrote.
    LoadAccumulator,
    /// Load the runtime state that the last durable save wrote.
    LoadState,
    /// Ask whether the lease is due for renewal.
    AskRenewal,
    /// Renew the lease.
    Renew,
    /// Run the batch, renewing the lease meanwhile.
    Run,
    /// Write the dataset checkpoint.
    WriteCheckpoint,
    /// Save the accumulator.
    SaveAccumulator,
    /// Save the runtime state.
    SaveState,
    /// Acknowledge the claim.
    Ack,
    /// Give the claim back.
    Release,
    /// The loop has ended.
    Finished,
}

/// The claim the runner holds.
#[derive(Debug, Clone, Copy, PartialEq, Eq, Structural)]
pub struct HeldClaim {
    pub claim_id: Uid,
    pub instance_id: Uid,
    pub lease_ttl_millis: u64,
}

/// What has been achieved for the claimed batch.
#[derive(Debug, Clone, Copy, PartialEq, Eq, Structural)]
pub struct Progress {
    /// The runtime ran it to the end.
    pub ran: bool,
    /// The run left a state to save.
    pub has_state: bool,
    pub checkpointed: bool,
    pub accumulator_saved: bool,
    pub state_saved: bool,
}

/// Nothing yet.
pub open spec fn no_progress() -> Progress {
    Progress {
        ran: false,
        has_state: false,
        checkpointed: false,
        accumulator_saved: false,
        state_saved: false,
    }
}

/// The contents of a [`Runner`].
pub ghost struct RunnerView {
    /// How many batches to process at most.
    pub max_batches: Option<usize>,
    /// Whether runs are checkpointed.
    pub checkpoints: bool,
    /// Batches acknowledged so far.
    pub processed: usize,
    /// When leases are swept next.
    pub next_sweep: u64,
    /// The claim under which the runtime state was last saved.
    pub state_claim: Option<Uid>,
    /// The claim under which the accumulator was last saved.
    pub accumulator_claim: Option<Uid>,
    pub claim: Option<HeldClaim>,
    pub progress: Progress,
    pub phase: Phase,
    /// What the loop ends in, once it is known.
    pub failure: Option<ErrorView>,
    /// The claim is given back for a failure of its workflow.
    pub workflow_error: bool,
}

/// How one step went.
pub ghost enum Event {
    Polled { cancelled: bool, now: u64 },
    Swept,
    Claimed(Option<HeldClaim>),
    ClaimFailed(ErrorView),
    AccumulatorLoaded,
    AccumulatorLoadFailed,
    AccumulatorUnusable(Seq<char>),
    StateLoaded,
    StateLoadFailed,
    RenewalAsked { due: bool },
    Renewed,
    RenewFailed(Seq<char>),
    Ran { has_state: bool },
    RunFailed(ErrorView),
    LeaseLost,
    CheckpointWritten,
    CheckpointFailed,
    AccumulatorSaved,
    AccumulatorSaveFailed,
    StateSaved,
    StateSaveFailed,
    Acked,
    AckFailed(ErrorView),
    Released,
}

/// The step whose outcome the event is.
pub open spec fn phase_of(e: Event) -> Phase {
    match e {
        Event::Polled { .. } => Phase::Poll,
        Event::Swept => Phase::Sweep,
        Event::Claimed(_) => Phase::Claim,
        Event::ClaimFailed(_) => Phase::Claim,
        Event::AccumulatorLoaded => Phase::LoadAccumulator,
        Event::AccumulatorLoadFailed => Phase::LoadAccumulator,
        Event::AccumulatorUnusable(_) => Phase::LoadAccumulator,
        Event::StateLoaded => Phase::LoadState,
        Event::StateLoadFailed => Phase::LoadState,
        Event::RenewalAsked { .. } => Phase::AskRenewal,
        Event::Renewed => Phase::Renew,
        Event::RenewFailed(_) => Phase::Renew,
        Event::Ran { .. } => Phase::Run,
        Event::RunFailed(_) => Phase::Run,
        Event::LeaseLost => Phase::Run,
        Event::CheckpointWritten => Phase::WriteCheckpoint,
        Event::CheckpointFailed => Phase::WriteCheckpoint,
        Event::AccumulatorSaved => Phase::SaveAccumulator,
        Event::AccumulatorSaveFailed => Phase::SaveAccumulator,
        Event::StateSaved => Phase::SaveState,
        Event::StateSaveFailed => Phase::SaveState,
        Event::Acked => Phase::Ack,
        Event::AckFailed(_) => Phase::Ack,
        Event::Released => Phase::Release,
    }
}

/// The sweep after one at `now`.
pub open spec fn sweep_after(now: u64) -> u64 {
    if now + SWEEP_INTERVAL_MILLIS <= u64::MAX {
        (now + SWEEP_INTERVAL_MILLIS) as u64
    } else {
        u64::MAX
    }
}

/// Give the claim back, then go on, or end in `failure` where there is one.
pub open spec fn giving_back(
    v: RunnerView,
    failure: Option<ErrorView>,
    workflow_error: bool,
) -> RunnerView {
    RunnerView { phase: Phase::Release, failure, workflow_error, ..v }
}

/// End the loop at once.
pub open spec fn ended(v: RunnerView, failure: Option<ErrorView>) -> RunnerView {
    RunnerView { phase: Phase::Finished, failure, ..v }
}

/// Go on to the runtime state, where one was saved.
pub open spec fn before_state(v: RunnerView) -> RunnerView {
    RunnerView {
        phase: if v.state_claim is Some {
            Phase::LoadState
        } else {
            Phase::AskRenewal
        },
        ..v
    }
}

/// The message of a lease that could not be renewed before the run.
pub open spec fn renewal_text(claim_id: Uid, cause: Seq<char>) -> Seq<char> {
    "lease renewal failed for claim "@ + uuid_hyphenated(claim_id) + ": "@ + cause
}

/// The runner after one step.
pub open spec fn after(v: RunnerView, e: Event) -> RunnerView {
    match e {
        Event::Polled { cancelled, now } => if cancelled || (v.max_batches is Some && v.processed
            >= v.max_batches->0) {
            ended(v, None)
        } else if now >= v.next_sweep {
            RunnerView { phase: Phase::Sweep, next_sweep: sweep_after(now), ..v }
        } else {
            RunnerView { phase: Phase::Claim, ..v }
        },
        Event::Swept => RunnerView { phase: Phase::Claim, ..v },
        Event::Claimed(None) => ended(v, None),
        Event::Claimed(Some(c)) => {
            let held = RunnerView { claim: Some(c), progress: no_progress(), ..v };
            if v.accumulator_claim is Some {
                RunnerView { phase: Phase::LoadAccumulator, ..held }
            } else {
                before_state(held)
            }
        },
        Event::ClaimFailed(err) => ended(v, Some(err)),
        Event::AccumulatorLoaded => before_state(v),
        Event::AccumulatorLoadFailed => giving_back(v, None, false),
        Event::AccumulatorUnusable(m) => giving_back(v, Some(ErrorView::Generic(m)), false),
        Event::StateLoaded => RunnerView { phase: Phase::AskRenewal, ..v },
        Event::StateLoadFailed => giving_back(v, None, false),
        Event::RenewalAsked { due } => RunnerView {
            phase: if due {
                Phase::Renew
            } else {
                Phase::Run
            },
            ..v
        },
        Event::Renewed => RunnerView { phase: Phase::Run, ..v },
        Event::RenewFailed(cause) => giving_back(
            v,
            Some(ErrorView::Generic(renewal_text(v.claim->0.claim_id, cause))),
            false,
        ),
        Event::Ran { has_state } => RunnerView {
            phase: if v.checkpoints {
                Phase::WriteCheckpoint
            } else {
                Phase::SaveAccumulator
            },
            progress: Progress { ran: true, has_state, ..v.progress },
            ..v
        },
        Event::RunFailed(err) => giving_back(v, Some(err), true),
        Event::LeaseLost => giving_back(v, None, true),
        Event::CheckpointWritten => RunnerView {
            phase: Phase::SaveAccumulator,
            progress: Progress { checkpointed: true, ..v.progress },
            ..v
        },
        Event::CheckpointFailed => giving_back(v, None, true),
        Event::AccumulatorSaved => RunnerView {
            phase: if v.progress.has_state {
                Phase::SaveState
            } else {
                Phase::Ack
            },
            accumulator_claim: Some(v.claim->0.claim_id),
            progress: Progress { accumulator_saved: true, ..v.progress },
            ..v
        },
        Event::AccumulatorSaveFailed => giving_back(v, None, true),
        Event::StateSaved => RunnerView {
            phase: Phase::Ack,
            state_claim: Some(v.claim->0.claim_id),
            progress: Progress { state_saved: true, ..v.progress },
            ..v
        },
        Event::StateSaveFailed => giving_back(v, None, true),
        Event::Acked => RunnerView {
            phase: Phase::Poll,
            processed: (v.processed + 1) as usize,
            claim: None,
            ..v
        },
        Event::AckFailed(err) => RunnerView { claim: None, ..ended(v, Some(err)) },
        Event::Released => RunnerView {
            phase: if v.failure is Some {
                Phase::Finished
            } else {
                Phase::Poll
            },
            claim: None,
            workflow_error: false,
            ..v
        },
    }
}

/// A claim is held in this phase.
pub open spec fn holds_claim(p: Phase) -> bool {
    !(p is Poll || p is Sweep || p is Claim || p is Finished)
}

/// Everything the run left behind is durable.
pub open spec fn all_saved(v: RunnerView) -> bool {
    &&& v.progress.ran
    &&& v.checkpoints ==> v.progress.checkpointed
    &&& v.progress.accumulator_saved
    &&& v.progress.has_state ==> v.progress.state_saved
}

/// What holds of a runner at every step.
pub open spec fn sound(v: RunnerView) -> bool {
    &&& holds_claim(v.phase) ==> v.claim is Some
    &&& !holds_claim(v.phase) ==> v.claim is None
    &&& !(v.phase is Finished || v.phase is Release) ==> v.failure is None
    &&& v.phase is LoadAccumulator ==> v.accumulator_claim is Some
    &&& v.phase is LoadState ==> v.state_claim is Some
    &&& v.phase is WriteCheckpoint ==> v.progress.ran && v.checkpoints
    &&& v.phase is SaveAccumulator ==> v.progress.ran && (v.checkpoints ==> v.progress.checkpointed)
    &&& v.phase is SaveState ==> v.progress.ran && (v.checkpoints ==> v.progress.checkpointed)
        && v.progress.accumulator_saved && v.progress.has_state
    &&& v.phase is Ack ==> all_saved(v)
    &&& v.max_batches is Some && holds_claim(v.phase) ==> v.processed < v.max_batches->0
    &&& v.max_batches is Some && (v.phase is Sweep || v.phase is Claim) ==> v.processed
        < v.max_batches->0
    &&& v.max_batches is Some ==> v.processed <= v.max_batches->0
}

/// How loading the accumulator went.
pub enum AccumulatorLoad {
    /// The rows are in the dataset, or there were none.
    Ready,
    /// The store failed.
    Failed,
    /// The stored rows could not be decoded.
    Undecodable(String),
    /// The decoded rows could not be put into the dataset.
    Unappendable(String),
}

/// The event that an outcome of loading the accumulator is.
pub open spec fn accumulator_event(a: AccumulatorLoad) -> Event {
    match a {
        AccumulatorLoad::Ready => Event::AccumulatorLoaded,
        AccumulatorLoad::Failed => Event::AccumulatorLoadFailed,
        AccumulatorLoad::Undecodable(e) => Event::AccumulatorUnusable(
            "DistributedRunner: failed to decode accumulator: "@ + e@,
        ),
        AccumulatorLoad::Unappendable(e) => Event::AccumulatorUnusable(
            "DistributedRunner: failed to restore accumulator rows: "@ + e@,
        ),
    }
}

/// How the run ended.
pub enum RunOutcome {
    /// The runtime finished, and may have left a state.
    Ran { has_state: bool },
    /// The runtime failed.
    Failed(PcsError),
    /// The lease could not be renewed while it ran; the run was cut short.
    RenewalFailed,
}

/// The event that an outcome of the run is.
pub open spec fn run_event(o: RunOutcome) -> Event {
    match o {
        RunOutcome::Ran { has_state } => Event::Ran { has_state },
        RunOutcome::Failed(e) => Event::RunFailed(e@),
        RunOutcome::RenewalFailed => Event::LeaseLost,
    }
}

/// The decisions of the processing loop.
pub struct Runner {
    max_batches: Option<usize>,
    checkpoints: bool,
    processed: usize,
    next_sweep: u64,
    state_claim: Option<Uid>,
    accumulator_claim: Option<Uid>,
    claim: Option<HeldClaim>,
    progress: Progress,
    phase: Phase,
    failure: Option<PcsError>,
    workflow_error: bool,
}

impl View for Runner {
    type V = RunnerView;

    closed spec fn view(&self) -> RunnerView {
        RunnerView {
            max_batches: self.max_batches,
            checkpoints: self.checkpoints,
            processed: self.processed,
            next_sweep: self.next_sweep,
            state_claim: self.state_claim,
            accumulator_claim: self.accumulator_claim,
            claim: self.claim,
            progress: self.progress,
            phase: self.phase,
            failure: match self.failure {
                Some(e) => Some(e@),
                None => None,
            },
            workflow_error: self.workflow_error,
        }
    }
}

/// A runner that has not looked for a batch yet.
pub open spec fn starting(max_batches: Option<usize>, checkpoints: bool, now: u64) -> RunnerView {
    RunnerView {
        max_batches,
        checkpoints,
        processed: 0,
        next_sweep: sweep_after(now),
        state_claim: None,
        accumulator_claim: None,
        claim: None,
        progress: no_progress(),
        phase: Phase::Poll,
        failure: None,
        workflow_error: false,
    }
}

impl Runner {
    pub fn new(config: &RunnerConfig, now: u64) -> (r: Self)
        ensures
            r@ == starting(
                config.max_batches,
                config.checkpoint_strategy == CheckpointStrategy::EveryStage,
                now,
            ),
            sound(r@),
    {
        Runner {
            max_batches: config.max_batches,
            checkpoints: config.checkpoint_strategy.should_checkpoint(0),
            processed: 0,
            next_sweep: now.saturating_add(SWEEP_INTERVAL_MILLIS),
            state_claim: None,
            accumulator_claim: None,
            claim: None,
            progress: Progress {
                ran: false,
                has_state: false,
                checkpointed: false,
                accumulator_saved: false,
                state_saved: false,
            },
            phase: Phase::Poll,
            failure: None,
            workflow_error: false,
        }
    }

    /// The step to perform.
    pub fn phase(&self) -> (r: Phase)
        ensures
            r == self@.phase,
    {
        self.phase
    }

    /// The claim held.
    pub fn claim(&self) -> (r: Option<HeldClaim>)
        ensures
            r == self@.claim,
    {
        self.claim
    }

    /// The claim under which the accumulator is to be loaded.
    pub fn accumulator_claim(&self) -> (r: Option<Uid>)
        ensures
            r == self@.accumulator_claim,
    {
        self.accumulator_claim
    }

    /// The claim under which the runtime state is to be loaded.
    pub fn state_claim(&self) -> (r: Option<Uid>)
        ensures
            r == self@.state_claim,
    {
        self.state_claim
    }

    /// Whether giving back the claim counts as an error of the workflow.
    pub fn is_workflow_error(&self) -> (r: bool)
        ensures
            r == self@.workflow_error,
    {
        self.workflow_error
    }

    /// The pause between renewals while the batch runs: a third of the
    /// lease, at least a millisecond.
    pub fn renewal_interval_millis(&self) -> (r: u64)
        requires
            self@.claim is Some,
        ensures
            r == if self@.claim->0.lease_ttl_millis / 3 > 1 {
                self@.claim->0.lease_ttl_millis / 3
            } else {
                1
            },
    {
        match self.claim {
            Some(c) => {
                let third: u64 = c.lease_ttl_millis / 3;
                if third > 1 {
                    third
                } else {
                    1
                }
            },
            None => 1,
        }
    }

    fn give_back(&mut self, failure: Option<PcsError>, workflow_error: bool)
        ensures
            final(self)@ == giving_back(
                old(self)@,
                match failure {
                    Some(e) => Some(e@),
                    None => None,
                },
                workflow_error,
            ),
    {
        self.phase = Phase::Release;
        self.failure = failure;
        self.workflow_error = workflow_error;
    }

    fn end(&mut self, failure: Option<PcsError>)
        ensures
            final(self)@ == ended(
                old(self)@,
                match failure {
                    Some(e) => Some(e@),
                    None => None,
                },
            ),
    {
        self.phase = Phase::Finished;
        self.failure = failure;
    }

    fn go_before_state(&mut self)
        ensures
            final(self)@ == before_state(old(self)@),
    {
        self.phase = if self.state_claim.is_some() {
            Phase::LoadState
        } else {
            Phase::AskRenewal
        };
    }

    /// Between batches: whether a stop was asked for, and the time.
    pub fn on_polled(&mut self, cancelled: bool, now: u64)
        requires
            old(self)@.phase is Poll,
            sound(old(self)@),
        ensures
            final(self)@ == after(old(self)@, Event::Polled { cancelled, now }),
            sound(final(self)@),
    {
        let full = match self.max_batches {
            Some(max) => self.processed >= max,
            None => false,
        };
        if full || cancelled {
            self.end(None);
        } else if now >= self.next_sweep {
            self.next_sweep = now.saturating_add(SWEEP_INTERVAL_MILLIS);
            self.phase = Phase::Sweep;
        } else {
            self.phase = Phase::Claim;
        }
    }

    /// The sweep is over. How it went makes no difference.
    pub fn on_swept(&mut self)
        requires
            old(self)@.phase is Sweep,
            sound(old(self)@),
        ensures
            final(self)@ == after(old(self)@, Event::Swept),
            sound(final(self)@),
    {
        self.phase = Phase::Claim;
    }

    /// A batch was claimed, none was there, or the store failed.
    pub fn on_claimed(&mut self, claimed: Result<Option<HeldClaim>, PcsError>)
        requires
            old(self)@.phase is Claim,
            sound(old(self)@),
        ensures
            final(self)@ == after(
                old(self)@,
                match claimed {
                    Ok(c) => Event::Claimed(c),
                    Err(e) => Event::ClaimFailed(e@),
                },
            ),
            sound(final(self)@),
    {
        match claimed {
            Err(e) => self.end(Some(e)),
            Ok(None) => self.end(None),
            Ok(Some(c)) => {
                self.claim = Some(c);
                self.progress = Progress {
                    ran: false,
                    has_state: false,
                    checkpointed: false,
                    accumulator_saved: false,
                    state_saved: false,
                };
                if self.accumulator_claim.is_some() {
                    self.phase = Phase::LoadAccumulator;
                } else {
                    self.go_before_state();
                }
            },
        }
    }

    /// The accumulator was loaded, or not.
    pub fn on_accumulator_loaded(&mut self, load: AccumulatorLoad)
        requires
            old(self)@.phase is LoadAccumulator,
            sound(old(self)@),
        ensures
            final(self)@ == after(old(self)@, accumulator_event(load)),
            sound(final(self)@),
    {
        match load {
            AccumulatorLoad::Ready => self.go_before_state(),
            AccumulatorLoad::Failed => self.give_back(None, false),
            AccumulatorLoad::Undecodable(e) => {
                let mut m = "DistributedRunner: failed to decode accumulator: ".to_owned();
                m.append(e.as_str());
                self.give_back(Some(PcsError::Generic(m)), false);
            },
            AccumulatorLoad::Unappendable(e) => {
                let mut m = "DistributedRunner: failed to restore accumulator rows: ".to_owned();
                m.append(e.as_str());
                self.give_back(Some(PcsError::Generic(m)), false);
            },
        }
    }

    /// The runtime state was loaded, or not.
    pub fn on_state_loaded(&mut self, loaded: bool)
        requires
            old(self)@.phase is LoadState,
            sound(old(self)@),
        ensures
            final(self)@ == after(
                old(self)@,
                if loaded {
                    Event::StateLoaded
                } else {
                    Event::StateLoadFailed
                },
            ),
            sound(final(self)@),
    {
        if loaded {
            self.phase = Phase::AskRenewal;
        } else {
            self.give_back(None, false);
        }
    }

    /// Whether the lease is due for renewal.
    pub fn on_renewal_asked(&mut self, due: bool)
        requires
            old(self)@.phase is AskRenewal,
            sound(old(self)@),
        ensures
            final(self)@ == after(old(self)@, Event::RenewalAsked { due }),
            sound(final(self)@),
    {
        self.phase = if due {
            Phase::Renew
        } else {
            Phase::Run
        };
    }

    /// The lease was renewed before the run, or the loop ends: to run on a
    /// lost lease would let two runners hold one batch.
    pub fn on_renewed(&mut self, renewed: Result<(), String>)
        requires
            old(self)@.phase is Renew,
            sound(old(self)@),
        ensures
            final(self)@ == after(
                old(self)@,
                match renewed {
                    Ok(()) => Event::Renewed,
                    Err(e) => Event::RenewFailed(e@),
                },
            ),
            sound(final(self)@),
    {
        match renewed {
            Ok(()) => {
                self.phase = Phase::Run;
            },
            Err(e) => {
                let mut m = "lease renewal failed for claim ".to_owned();
                match self.claim {
                    Some(c) => m.append(uuid_text(c.claim_id).as_str()),
                    None => {},
                }
                m.append(": ");
                m.append(e.as_str());
                self.give_back(Some(PcsError::Generic(m)), false);
            },
        }
    }

    /// The run ended.
    pub fn on_run(&mut self, outcome: RunOutcome)
        requires
            old(self)@.phase is Run,
            sound(old(self)@),
        ensures
            final(self)@ == after(old(self)@, run_event(outcome)),
            sound(final(self)@),
    {
        match outcome {
            RunOutcome::Ran { has_state } => {
                self.progress.ran = true;
                self.progress.has_state = has_state;
                self.phase = if self.checkpoints {
                    Phase::WriteCheckpoint
                } else {
                    Phase::SaveAccumulator
                };
            },
            RunOutcome::Failed(e) => self.give_back(Some(e), true),
            RunOutcome::RenewalFailed => self.give_back(None, true),
        }
    }

    /// The dataset checkpoint was written, or not.
    pub fn on_checkpoint_written(&mut self, written: bool)
        requires
            old(self)@.phase is WriteCheckpoint,
            sound(old(self)@),
        ensures
            final(self)@ == after(
                old(self)@,
                if written {
                    Event::CheckpointWritten
                } else {
                    Event::CheckpointFailed
                },
            ),
            sound(final(self)@),
    {
        if written {
            self.progress.checkpointed = true;
            self.phase = Phase::SaveAccumulator;
        } else {
            self.give_back(None, true);
        }
    }

    /// The accumulator was saved, or not. Only a durable save moves the claim
    /// under which the next batch loads it.
    pub fn on_accumulator_saved(&mut self, saved: bool)
        requires
            old(self)@.phase is SaveAccumulator,
            sound(old(self)@),
        ensures
            final(self)@ == after(
                old(self)@,
                if saved {
                    Event::AccumulatorSaved
                } else {
                    Event::AccumulatorSaveFailed
                },
            ),
            sound(final(self)@),
    {
        if saved {
            match self.claim {
                Some(c) => {
                    self.accumulator_claim = Some(c.claim_id);
                },
                None => {},
            }
            self.progress.accumulator_saved = true;
            self.phase = if self.progress.has_state {
                Phase::SaveState
            } else {
                Phase::Ack
            };
        } else {
            self.give_back(None, true);
        }
    }

    /// The runtime state was saved, or not. Only a durable save moves the
    /// claim under which the next batch loads it.
    pub fn on_state_saved(&mut self, saved: bool)
        requires
            old(self)@.phase is SaveState,
            sound(old(self)@),
        ensures
            final(self)@ == after(
                old(self)@,
                if saved {
                    Event::StateSaved
                } else {
                    Event::StateSaveFailed
                },
            ),
            sound(final(self)@),
    {
        if saved {
            match self.claim {
                Some(c) => {
                    self.state_claim = Some(c.claim_id);
                },
                None => {},
            }
            self.progress.state_saved = true;
            self.phase = Phase::Ack;
        } else {
            self.give_back(None, true);
        }
    }

    /// The claim was acknowledged, or the store failed and the loop ends. Either
    /// way the claim is out of the runner's hands.
    pub fn on_acked(&mut self, acked: Result<(), PcsError>)
        requires
            old(self)@.phase is Ack,
            sound(old(self)@),
            old(self)@.processed < usize::MAX,
        ensures
            final(self)@ == after(
                old(self)@,
                match acked {
                    Ok(()) => Event::Acked,
                    Err(e) => Event::AckFailed(e@),
                },
            ),
            sound(final(self)@),
    {
        match acked {
            Ok(()) => {
                self.processed = self.processed + 1;
                self.claim = None;
                self.phase = Phase::Poll;
            },
            Err(e) => {
                self.claim = None;
                self.end(Some(e));
            },
        }
    }

    /// The claim was given back. How that went makes no difference: a claim
    /// that could not be given back runs out with its lease.
    pub fn on_released(&mut self)
        requires
            old(self)@.phase is Release,
            sound(old(self)@),
        ensures
            final(self)@ == after(old(self)@, Event::Released),
            sound(final(self)@),
    {
        self.claim = None;
        self.workflow_error = false;
        self.phase = if self.failure.is_some() {
            Phase::Finished
        } else {
            Phase::Poll
        };
    }

    /// What the loop ended in: how many batches were processed, or the first
    /// hard error.
    pub fn into_result(self) -> (r: Result<usize, PcsError>)
        requires
            self@.phase is Finished,
        ensures
            match self@.failure {
                None => r == Ok::<usize, PcsError>(self@.processed),
                Some(e) => r matches Err(err) && err@ == e,
            },
    {
        match self.failure {
            None => Ok(self.processed),
            Some(e) => Err(e),
        }
    }
}

/// The runner after a series of steps.
pub open spec fn after_all(v: RunnerView, events: Seq<Event>) -> RunnerView
    decreases events.len(),
{
    if events.len() == 0 {
        v
    } else {
        after(after_all(v, events.drop_last()), events.last())
    }
}

/// Each event is the outcome of the step the runner was at.
pub open spec fn is_history(v: RunnerView, events: Seq<Event>) -> bool
    decreases events.len(),
{
    events.len() > 0 ==> {
        &&& is_history(v, events.drop_last())
        &&& phase_of(events.last()) == after_all(v, events.drop_last()).phase
        &&& after_all(v, events.drop_last()).processed < usize::MAX
    }
}

/// How many claims the events acknowledge.
pub open spec fn acks(events: Seq<Event>) -> nat
    decreases events.len(),
{
    if events.len() == 0 {
        0
    } else {
        acks(events.drop_last()) + if events.last() is Acked {
            1nat
        } else {
            0nat
        }
    }
}

/// Every runner that starts fresh and steps along is sound at each step, and
/// has processed as many batches as it acknowledged.
pub proof fn law_runner_stays_sound(
    max_batches: Option<usize>,
    checkpoints: bool,
    now: u64,
    events: Seq<Event>,
)
    requires
        is_history(starting(max_batches, checkpoints, now), events),
    ensures
        sound(after_all(starting(max_batches, checkpoints, now), events)),
        after_all(starting(max_batches, checkpoints, now), events).processed == acks(events),
        max_batches matches Some(max) ==> acks(events) <= max,
        after_all(starting(max_batches, checkpoints, now), events).max_batches == max_batches,
        after_all(starting(max_batches, checkpoints, now), events).checkpoints == checkpoints,
    decreases events.len(),
{
    if events.len() > 0 {
        law_runner_stays_sound(max_batches, checkpoints, now, events.drop_last());
        lemma_step(after_all(starting(max_batches, checkpoints, now), events.drop_last()), events.last());
    }
}

proof fn lemma_step(v: RunnerView, e: Event)
    requires
        sound(v),
        phase_of(e) == v.phase,
        v.processed < usize::MAX,
    ensures
        sound(after(v, e)),
        after(v, e).processed == v.processed + if e is Acked {
            1int
        } else {
            0int
        },
        after(v, e).max_batches == v.max_batches,
        after(v, e).checkpoints == v.checkpoints,
{
}

/// A claim is acknowledged only after its batch ran to the end and all that
/// the run left behind was saved under that claim.
pub proof fn law_acks_only_what_is_durable(
    max_batches: Option<usize>,
    checkpoints: bool,
    now: u64,
    events: Seq<Event>,
)
    requires
        is_history(starting(max_batches, checkpoints, now), events),
        after_all(starting(max_batches, checkpoints, now), events).phase is Ack,
    ensures
        ({
            let v = after_all(starting(max_batches, checkpoints, now), events);
            &&& v.claim is Some
            &&& v.progress.ran
            &&& checkpoints ==> v.progress.checkpointed
            &&& v.accumulator_claim == Some(v.claim->0.claim_id)
            &&& v.progress.has_state ==> v.state_claim == Some(v.claim->0.claim_id)
        }),
{
    law_runner_stays_sound(max_batches, checkpoints, now, events);
    lemma_saved_under_claim(max_batches, checkpoints, now, events);
}

spec fn saved_under_claim(v: RunnerView) -> bool {
    holds_claim(v.phase) ==> {
        &&& v.progress.accumulator_saved ==> v.accumulator_claim == Some(v.claim->0.claim_id)
        &&& v.progress.state_saved ==> v.state_claim == Some(v.claim->0.claim_id)
    }
}

proof fn lemma_saved_under_claim(
    max_batches: Option<usize>,
    checkpoints: bool,
    now: u64,
    events: Seq<Event>,
)
    requires
        is_history(starting(max_batches, checkpoints, now), events),
    ensures
        saved_under_claim(after_all(starting(max_batches, checkpoints, now), events)),
    decreases events.len(),
{
    if events.len() > 0 {
        lemma_saved_under_claim(max_batches, checkpoints, now, events.drop_last());
        law_runner_stays_sound(max_batches, checkpoints, now, events.drop_last());
        lemma_saved_step(
            after_all(starting(max_batches, checkpoints, now), events.drop_last()),
            events.last(),
        );
    }
}

proof fn lemma_saved_step(v: RunnerView, e: Event)
    requires
        sound(v),
        phase_of(e) == v.phase,
        saved_under_claim(v),
    ensures
        saved_under_claim(after(v, e)),
{
}

/// The claims under which saved state is found move only on a durable save,
/// and only to the claim in hand: a failed save leaves the state before it
/// readable.
pub proof fn law_chain_moves_on_durable_saves(v: RunnerView, e: Event)
    requires
        sound(v),
        phase_of(e) == v.phase,
    ensures
        after(v, e).accumulator_claim == if e is AccumulatorSaved {
            Some(v.claim->0.claim_id)
        } else {
            v.accumulator_claim
        },
        after(v, e).state_claim == if e is StateSaved {
            Some(v.claim->0.claim_id)
        } else {
            v.state_claim
        },
{
}

/// A claim is let go only by asking for its acknowledgement or giving it back,
/// and none is taken while one is held.
pub proof fn law_every_claim_is_settled(v: RunnerView, e: Event)
    requires
        sound(v),
        phase_of(e) == v.phase,
    ensures
        v.claim is Some && after(v, e).claim != v.claim ==> settles(e) && after(v, e).claim is None,
        after(v, e).claim is Some && after(v, e).claim != v.claim ==> v.claim is None && takes(e),
{
}

/// The event takes a claim.
pub open spec fn takes(e: Event) -> bool {
    e matches Event::Claimed(Some(_))
}

/// The event ends a claim: it was passed to the store to be acknowledged or to
/// be given back.
pub open spec fn settles(e: Event) -> bool {
    e is Acked || e is AckFailed || e is Released
}

/// How many claims the events take.
pub open spec fn claims_taken(events: Seq<Event>) -> nat
    decreases events.len(),
{
    if events.len() == 0 {
        0
    } else {
        claims_taken(events.drop_last()) + if takes(events.last()) {
            1nat
        } else {
            0nat
        }
    }
}

/// How many claims the events end.
pub open spec fn claims_settled(events: Seq<Event>) -> nat
    decreases events.len(),
{
    if events.len() == 0 {
        0
    } else {
        claims_settled(events.drop_last()) + if settles(events.last()) {
            1nat
        } else {
            0nat
        }
    }
}

/// Every claim but the one in hand was ended once, by acknowledging it or by
/// giving it back; when the loop has ended, that is every claim, and none is in
/// hand.
pub proof fn law_no_claim_is_left_behind(
    max_batches: Option<usize>,
    checkpoints: bool,
    now: u64,
    events: Seq<Event>,
)
    requires
        is_history(starting(max_batches, checkpoints, now), events),
    ensures
        ({
            let v = after_all(starting(max_batches, checkpoints, now), events);
            &&& claims_taken(events) == claims_settled(events) + if v.claim is Some {
                1int
            } else {
                0int
            }
            &&& v.phase is Finished ==> v.claim is None && claims_taken(events) == claims_settled(
                events,
            )
        }),
    decreases events.len(),
{
    law_runner_stays_sound(max_batches, checkpoints, now, events);
    if events.len() > 0 {
        let before = events.drop_last();
        law_runner_stays_sound(max_batches, checkpoints, now, before);
        law_no_claim_is_left_behind(max_batches, checkpoints, now, before);
        law_every_claim_is_settled(
            after_all(starting(max_batches, checkpoints, now), before),
            events.last(),
        );
    }
}

/// Whatever fails after a batch was run, its claim is given back, not
/// acknowledged, and the batch is not counted.
pub proof fn law_failed_batch_is_given_back(v: RunnerView, e: Event)
    requires
        sound(v),
        phase_of(e) == v.phase,
        e is RunFailed || e is LeaseLost || e is CheckpointFailed || e is AccumulatorSaveFailed || e
            is StateSaveFailed,
    ensures
        after(v, e).phase is Release,
        after(v, e).claim == v.claim,
        after(v, e).processed == v.processed,
        after(v, e).workflow_error,
        after(after(v, e), Event::Released).claim is None,
        after(after(v, e), Event::Released).processed == v.processed,
        after(after(v, e), Event::Released).phase == if e is RunFailed {
            Phase::Finished
        } else {
            Phase::Poll
        },
{
}

/// A run is remembered as it reported itself: whether it left a state is what is
/// known of the batch from then on, whatever was saved for batches before it. It is
/// followed by its checkpoint where runs are checkpointed, else by its accumulator.
pub proof fn law_run_is_remembered(v: RunnerView, has_state: bool)
    ensures
        ({
            let n = after(v, Event::Ran { has_state });
            &&& n.progress.ran
            &&& n.progress.has_state == has_state
            &&& n.progress.checkpointed == v.progress.checkpointed
            &&& n.progress.accumulator_saved == v.progress.accumulator_saved
            &&& n.progress.state_saved == v.progress.state_saved
            &&& v.checkpoints ==> n.phase is WriteCheckpoint
            &&& !v.checkpoints ==> n.phase is SaveAccumulator
            &&& n == (RunnerView { phase: n.phase, progress: n.progress, ..v })
        }),
{
}

/// A batch whose run left a state is acknowledged only once that state was saved,
/// after the run and under the claim in hand. One whose run left none is acknowledged
/// without such a save.
pub proof fn law_state_is_saved_before_the_ack(
    max_batches: Option<usize>,
    checkpoints: bool,
    now: u64,
    events: Seq<Event>,
    i: int,
)
    requires
        is_history(starting(max_batches, checkpoints, now), events),
        after_all(starting(max_batches, checkpoints, now), events).phase is Ack,
        0 <= i < events.len(),
        events[i] is Ran,
        forall|j: int| i < j < events.len() ==> !(#[trigger] events[j] is Ran),
    ensures
        ({
            let v = after_all(starting(max_batches, checkpoints, now), events);
            &&& v.claim is Some
            &&& events[i]->has_state ==> v.state_claim == Some(v.claim->0.claim_id)
            &&& events[i]->has_state <==> exists|j: int|
                i < j < events.len() && #[trigger] events[j] is StateSaved
        }),
{
    law_acks_only_what_is_durable(max_batches, checkpoints, now, events);
    law_runner_stays_sound(max_batches, checkpoints, now, events);
    lemma_since_the_run(max_batches, checkpoints, now, events, i);
}

proof fn lemma_since_the_run(
    max_batches: Option<usize>,
    checkpoints: bool,
    now: u64,
    events: Seq<Event>,
    i: int,
)
    requires
        is_history(starting(max_batches, checkpoints, now), events),
        0 <= i < events.len(),
        events[i] is Ran,
        forall|j: int| i < j < events.len() ==> !(#[trigger] events[j] is Ran),
    ensures
        ({
            let v = after_all(starting(max_batches, checkpoints, now), events);
            let saved = exists|j: int| i < j < events.len() && #[trigger] events[j] is StateSaved;
            &&& v.phase is WriteCheckpoint || v.phase is SaveAccumulator || v.phase is SaveState
                || v.phase is Ack ==> v.progress.has_state == events[i]->has_state
            &&& v.phase is WriteCheckpoint || v.phase is SaveAccumulator || v.phase is SaveState
                ==> !saved
            &&& v.phase is Ack ==> (saved <==> events[i]->has_state)
        }),
    decreases events.len(),
{
    let start = starting(max_batches, checkpoints, now);
    let before = events.drop_last();
    law_runner_stays_sound(max_batches, checkpoints, now, before);
    assert(events[events.len() - 1] == events.last());
    if i + 1 < events.len() {
        assert(before[i] == events[i]);
        assert forall|j: int| i < j < before.len() implies !(#[trigger] before[j] is Ran) by {
            assert(before[j] == events[j]);
        }
        lemma_since_the_run(max_batches, checkpoints, now, before, i);
        assert forall|j: int| i < j < events.len() && #[trigger] events[j] is StateSaved implies j
            == events.len() - 1 || (i < j < before.len() && before[j] is StateSaved) by {
            if j < events.len() - 1 {
                assert(before[j] == events[j]);
            }
        }
        assert(forall|j: int|
            i < j < before.len() && #[trigger] before[j] is StateSaved ==> events[j] is StateSaved);
        if events.last() is StateSaved {
            assert(events[events.len() - 1] is StateSaved);
        }
        if exists|j: int| i < j < before.len() && #[trigger] before[j] is StateSaved {
            let j = choose|j: int| i < j < before.len() && #[trigger] before[j] is StateSaved;
            assert(events[j] is StateSaved);
        }
    }
}

/// A history grows by the outcome of the step that the runner is at.
pub proof fn law_history_grows(v: RunnerView, events: Seq<Event>, e: Event)
    ensures
        after_all(v, Seq::empty()) == v,
        is_history(v, Seq::empty()),
        after_all(v, events.push(e)) == after(after_all(v, events), e),
        is_history(v, events.push(e)) <==> is_history(v, events) && phase_of(e) == after_all(
            v,
            events,
        ).phase && after_all(v, events).processed < usize::MAX,
        acks(Seq::empty()) == 0,
        e is Acked ==> acks(events.push(e)) == acks(events) + 1,
        !(e is Acked) ==> acks(events.push(e)) == acks(events),
{
    assert(events.push(e).drop_last() =~= events);
}

/// Between batches the loop ends where it is told to stop or has done as many as it
/// was asked for. Otherwise leases are swept once that is due, and again half a minute
/// later at the earliest; then the next batch is claimed.
pub proof fn law_loop_ends_between_batches(v: RunnerView, cancelled: bool, now: u64)
    ensures
        ({
            let n = after(v, Event::Polled { cancelled, now });
            let full = v.max_batches matches Some(max) && max <= v.processed;
            &&& n.phase is Finished <==> cancelled || full
            &&& n.phase is Finished ==> n.failure is None && n.next_sweep == v.next_sweep
            &&& n.phase is Sweep <==> !cancelled && !full && v.next_sweep <= now
            &&& n.phase is Sweep ==> n.failure == v.failure && (now + 30_000 <= u64::MAX
                ==> n.next_sweep == now + 30_000) && (now + 30_000 > u64::MAX ==> n.next_sweep
                == u64::MAX)
            &&& n.phase is Claim <==> !cancelled && !full && now < v.next_sweep
            &&& n.phase is Claim ==> n == (RunnerView { phase: Phase::Claim, ..v })
            &&& after(v, Event::Swept) == (RunnerView { phase: Phase::Claim, ..v })
        }),
{
}

/// A claimed batch starts with nothing achieved. The accumulator of the batch before
/// is loaded first, then its state, each where it was saved. Where nothing is left to
/// claim, the loop ends well; where claiming fails, it ends in that error.
pub proof fn law_claimed_batch_is_prepared(v: RunnerView, c: HeldClaim, err: ErrorView)
    ensures
        ({
            let n = after(v, Event::Claimed(Some(c)));
            &&& n.claim == Some(c)
            &&& !n.progress.ran && !n.progress.has_state && !n.progress.checkpointed
                && !n.progress.accumulator_saved && !n.progress.state_saved
            &&& n.phase is LoadAccumulator <==> v.accumulator_claim is Some
            &&& n.phase is LoadState <==> v.accumulator_claim is None && v.state_claim is Some
            &&& n.phase is AskRenewal <==> v.accumulator_claim is None && v.state_claim is None
            &&& n == (RunnerView { claim: n.claim, progress: n.progress, phase: n.phase, ..v })
        }),
        after(v, Event::Claimed(None)) == (RunnerView {
            phase: Phase::Finished,
            failure: None,
            ..v
        }),
        after(v, Event::ClaimFailed(err)) == (RunnerView {
            phase: Phase::Finished,
            failure: Some(err),
            ..v
        }),
        v.state_claim is Some ==> after(v, Event::AccumulatorLoaded) == (RunnerView {
            phase: Phase::LoadState,
            ..v
        }),
        v.state_claim is None ==> after(v, Event::AccumulatorLoaded) == (RunnerView {
            phase: Phase::AskRenewal,
            ..v
        }),
        after(v, Event::StateLoaded) == (RunnerView { phase: Phase::AskRenewal, ..v }),
        after(v, Event::RenewalAsked { due: true }) == (RunnerView { phase: Phase::Renew, ..v }),
        after(v, Event::RenewalAsked { due: false }) == (RunnerView { phase: Phase::Run, ..v }),
        after(v, Event::Renewed) == (RunnerView { phase: Phase::Run, ..v }),
{
}

/// A batch that could not be prepared, run or saved is given back with all else as it
/// was. The loop goes on after a store that failed, and ends in what went wrong where
/// the rows cannot be used, the lease was not renewed or the run failed.
pub proof fn law_failed_step_gives_back(v: RunnerView, m: Seq<char>, err: ErrorView)
    ensures
        forall|e: Event|
            #![trigger after(v, e)]
            e is AccumulatorLoadFailed || e is StateLoadFailed ==> after(v, e) == (RunnerView {
                phase: Phase::Release,
                failure: None,
                workflow_error: false,
                ..v
            }),
        forall|e: Event|
            #![trigger after(v, e)]
            e is LeaseLost || e is CheckpointFailed || e is AccumulatorSaveFailed || e
                is StateSaveFailed ==> after(v, e) == (RunnerView {
                phase: Phase::Release,
                failure: None,
                workflow_error: true,
                ..v
            }),
        after(v, Event::RunFailed(err)) == (RunnerView {
            phase: Phase::Release,
            failure: Some(err),
            workflow_error: true,
            ..v
        }),
        after(v, Event::AccumulatorUnusable(m)) == (RunnerView {
            phase: Phase::Release,
            failure: Some(ErrorView::Generic(m)),
            workflow_error: false,
            ..v
        }),
        v.claim matches Some(c) ==> after(v, Event::RenewFailed(m)) == (RunnerView {
            phase: Phase::Release,
            failure: Some(
                ErrorView::Generic(
                    "lease renewal failed for claim "@ + uuid_hyphenated(c.claim_id) + ": "@ + m,
                ),
            ),
            workflow_error: false,
            ..v
        }),
{
}

/// What a run left is saved in turn: its checkpoint, its accumulator under the claim
/// in hand, its state under that claim where it has one; then the claim is
/// acknowledged.
pub proof fn law_saves_lead_to_the_ack(v: RunnerView, c: HeldClaim)
    requires
        v.claim == Some(c),
    ensures
        after(v, Event::CheckpointWritten) == (RunnerView {
            phase: Phase::SaveAccumulator,
            progress: Progress { checkpointed: true, ..v.progress },
            ..v
        }),
        v.progress.has_state ==> after(v, Event::AccumulatorSaved).phase is SaveState,
        !v.progress.has_state ==> after(v, Event::AccumulatorSaved).phase is Ack,
        after(v, Event::AccumulatorSaved).progress == (Progress {
            accumulator_saved: true,
            ..v.progress
        }),
        after(v, Event::AccumulatorSaved) == (RunnerView {
            phase: after(v, Event::AccumulatorSaved).phase,
            progress: after(v, Event::AccumulatorSaved).progress,
            accumulator_claim: Some(c.claim_id),
            ..v
        }),
        after(v, Event::StateSaved) == (RunnerView {
            phase: Phase::Ack,
            progress: Progress { state_saved: true, ..v.progress },
            state_claim: Some(c.claim_id),
            ..v
        }),
{
}

/// An acknowledged batch counts once, and the loop goes on. Where the acknowledgement
/// fails the loop ends in that error, the batch not counted. A claim that was given
/// back ends the loop where something went wrong that ends it.
pub proof fn law_settled_claim_is_let_go(v: RunnerView, err: ErrorView)
    requires
        v.processed < usize::MAX,
    ensures
        after(v, Event::Acked).processed == v.processed + 1,
        after(v, Event::Acked) == (RunnerView {
            phase: Phase::Poll,
            claim: None,
            processed: after(v, Event::Acked).processed,
            ..v
        }),
        after(v, Event::AckFailed(err)) == (RunnerView {
            phase: Phase::Finished,
            claim: None,
            failure: Some(err),
            ..v
        }),
        v.failure is Some ==> after(v, Event::Released) == (RunnerView {
            phase: Phase::Finished,
            claim: None,
            workflow_error: false,
            ..v
        }),
        v.failure is None ==> after(v, Event::Released) == (RunnerView {
            phase: Phase::Poll,
            claim: None,
            workflow_error: false,
            ..v
        }),
{
}

/// A fresh runner has done nothing, holds nothing, knows of nothing saved, and sweeps
/// first half a minute from now.
pub proof fn law_fresh_runner(max_batches: Option<usize>, checkpoints: bool, now: u64)
    ensures
        ({
            let v = starting(max_batches, checkpoints, now);
            &&& v.max_batches == max_batches && v.checkpoints == checkpoints
            &&& v.processed == 0 && v.phase is Poll
            &&& now + 30_000 <= u64::MAX ==> v.next_sweep == now + 30_000
            &&& now + 30_000 > u64::MAX ==> v.next_sweep == u64::MAX
            &&& v.claim is None && v.state_claim is None && v.accumulator_claim is None
            &&& v.failure is None && !v.workflow_error
            &&& !v.progress.ran && !v.progress.has_state && !v.progress.checkpointed
                && !v.progress.accumulator_saved && !v.progress.state_saved
        }),
{
}

/// Each outcome is that of one step, the one in whose name it speaks.
pub proof fn law_each_outcome_has_its_step(e: Event)
    ensures
        phase_of(e) is Poll <==> e is Polled,
        phase_of(e) is Sweep <==> e is Swept,
        phase_of(e) is Claim <==> e is Claimed || e is ClaimFailed,
        phase_of(e) is LoadAccumulator <==> e is AccumulatorLoaded || e is AccumulatorLoadFailed
            || e is AccumulatorUnusable,
        phase_of(e) is LoadState <==> e is StateLoaded || e is StateLoadFailed,
        phase_of(e) is AskRenewal <==> e is RenewalAsked,
        phase_of(e) is Renew <==> e is Renewed || e is RenewFailed,
        phase_of(e) is Run <==> e is Ran || e is RunFailed || e is LeaseLost,
        phase_of(e) is WriteCheckpoint <==> e is CheckpointWritten || e is CheckpointFailed,
        phase_of(e) is SaveAccumulator <==> e is AccumulatorSaved || e is AccumulatorSaveFailed,
        phase_of(e) is SaveState <==> e is StateSaved || e is StateSaveFailed,
        phase_of(e) is Ack <==> e is Acked || e is AckFailed,
        phase_of(e) is Release <==> e is Released,
        !(phase_of(e) is Finished),
{
}

/// A report of the run or of the load is taken for what it says: a run that finished
/// with or without a state, a run that failed with its error, a run cut short; rows
/// that are ready, a store that failed, rows that cannot be used, with the reason.
pub proof fn law_reports_are_taken_as_they_are(o: RunOutcome, a: AccumulatorLoad)
    ensures
        o matches RunOutcome::Ran { has_state } ==> run_event(o) == (Event::Ran { has_state }),
        o matches RunOutcome::Failed(e) ==> run_event(o) == Event::RunFailed(e@),
        o is RenewalFailed ==> run_event(o) is LeaseLost,
        a is Ready ==> accumulator_event(a) is AccumulatorLoaded,
        a is Failed ==> accumulator_event(a) is AccumulatorLoadFailed,
        a matches AccumulatorLoad::Undecodable(e) ==> accumulator_event(a)
            == Event::AccumulatorUnusable(
            "DistributedRunner: failed to decode accumulator: "@ + e@,
        ),
        a matches AccumulatorLoad::Unappendable(e) ==> accumulator_event(a)
            == Event::AccumulatorUnusable(
            "DistributedRunner: failed to restore accumulator rows: "@ + e@,
        ),
{
}

/// A runner at every step holds a claim exactly while it works on a batch, and comes
/// to an acknowledgement only with all of it done.
pub proof fn law_sound_runner(v: RunnerView)
    requires
        sound(v),
    ensures
        v.claim is None <==> v.phase is Poll || v.phase is Sweep || v.phase is Claim || v.phase
            is Finished,
        v.phase is Ack ==> v.progress.ran && v.progress.accumulator_saved && (v.checkpoints
            ==> v.progress.checkpointed) && (v.progress.has_state ==> v.progress.state_saved),
        v.failure is Some ==> v.phase is Finished || v.phase is Release,
        v.max_batches matches Some(max) ==> v.processed <= max && (v.phase is Poll || v.phase
            is Finished || v.processed < max),
{
}

} // verus!
