//! The controller of a batched, resumable, cancellable extraction run.
//!
//! The controller decides; it does not extract. A worker asks it what to
//! do next, does that, and tells it what happened. Control calls (pause,
//! resume, cancel) reach the same controller from another thread, behind
//! whatever lock the application puts around it.

use vstd::prelude::*;
use vstd::arithmetic::div_mod::{lemma_mod_adds, lemma_mod_self_0, lemma_small_mod};

verus! {

/// Number of units of a batch where the caller names none.
pub const DEFAULT_BATCH_SIZE: usize = 100;

/// Milliseconds that a worker sleeps when told to wait, and after each
/// batch that it extracted.
pub const POLL_INTERVAL_MS: u64 = 100;

/// Where a run stands.
#[derive(Clone, Copy, Debug, PartialEq, Eq, Structural)]
pub enum JobState {
    /// No run was started yet.
    Idle,
    /// Batches are being extracted.
    Running,
    /// The run waits for a resume signal.
    Paused,
    /// A cancel signal came in that the worker has not seen yet.
    Cancelling,
    /// The run has ended: every unit is extracted, or it was cancelled.
    Done,
    /// The run has ended with a failure.
    Failed,
}

/// What can happen to a run.
#[derive(Clone, Copy, Debug, PartialEq, Eq, Structural)]
pub enum Event {
    /// A new run over `total_units` units in batches of `batch_size`.
    Start { total_units: usize, batch_size: usize },
    /// The pause signal.
    Pause,
    /// The resume signal.
    Resume,
    /// The cancel signal.
    Cancel,
    /// The worker is between two batches, or woke up from a wait.
    Poll,
    /// Every artifact of the offered batch exists already.
    BatchPresent,
    /// The offered batch was extracted.
    BatchExtracted,
    /// Extracting the offered batch failed.
    BatchFailed,
}

/// What the worker does next.
#[derive(Clone, Copy, Debug, PartialEq, Eq, Structural)]
pub enum Action {
    /// Nothing.
    Nothing,
    /// Sleep one poll interval, then poll again.
    Wait,
    /// Look for the artifacts of units `first..=last`; extract the range if
    /// one is missing; answer with what happened.
    Batch { first: usize, last: usize },
    /// Publish the progress, throttle, then poll again.
    Report { current: usize, total: usize },
    /// Publish the final progress and end.
    Finish { total: usize },
    /// End without further work: the run was cancelled.
    Stop,
    /// Publish the failure and end.
    Fail,
}

/// The whole state of a run.
#[derive(Clone, Copy, Debug, PartialEq, Eq)]
pub struct JobData {
    pub batch_size: usize,
    pub total_units: usize,
    /// Units done with: extracted, or found present.
    pub completed_units: usize,
    pub paused: bool,
    pub cancelled: bool,
    pub state: JobState,
    /// Last unit of the batch that the worker was offered and has not
    /// answered for yet.
    pub offered: Option<usize>,
}

/// A run with a worker: running, paused or being cancelled.
pub open spec fn is_active(state: JobState) -> bool {
    state == JobState::Running || state == JobState::Paused || state == JobState::Cancelling
}

/// Last unit of the batch that begins at unit `first`: the batch has
/// `batch_size` units, or fewer where the sequence ends before.
pub open spec fn batch_last(first: int, batch_size: int, total_units: int) -> int {
    if first + batch_size - 1 < total_units - 1 {
        first + batch_size - 1
    } else {
        total_units - 1
    }
}

/// What holds of the state of every run.
pub open spec fn valid(job: JobData) -> bool {
    &&& job.completed_units <= job.total_units
    &&& is_active(job.state) ==> job.batch_size >= 1 && job.total_units >= 1
    &&& job.state == JobState::Running ==> !job.paused && !job.cancelled
    &&& job.state == JobState::Paused ==> job.paused && !job.cancelled
    &&& job.state == JobState::Cancelling ==> job.cancelled
    &&& job.state == JobState::Done && !job.cancelled ==> job.completed_units == job.total_units
    &&& job.batch_size >= 1 ==> job.completed_units == job.total_units || job.completed_units
        % job.batch_size == 0
    &&& job.offered matches Some(last) ==> is_active(job.state) && job.completed_units
        < job.total_units && last == batch_last(
        job.completed_units as int,
        job.batch_size as int,
        job.total_units as int,
    )
}

/// The state before any run.
pub open spec fn idle() -> JobData {
    JobData {
        batch_size: 0,
        total_units: 0,
        completed_units: 0,
        paused: false,
        cancelled: false,
        state: JobState::Idle,
        offered: None,
    }
}

/// The state machine: the state after `event`, and what the worker is told.
pub open spec fn step(job: JobData, event: Event) -> (JobData, Action) {
    match event {
        Event::Start { total_units, batch_size } => {
            if is_active(job.state) {
                (job, Action::Nothing)
            } else {
                let fresh = JobData {
                    batch_size,
                    total_units,
                    completed_units: 0,
                    paused: false,
                    cancelled: false,
                    state: JobState::Running,
                    offered: None,
                };
                if total_units == 0 || batch_size == 0 {
                    (JobData { state: JobState::Failed, ..fresh }, Action::Fail)
                } else {
                    (fresh, Action::Nothing)
                }
            }
        },
        Event::Pause => {
            let state = if job.state == JobState::Running {
                JobState::Paused
            } else {
                job.state
            };
            (JobData { paused: true, state, ..job }, Action::Nothing)
        },
        Event::Resume => {
            let state = if job.state == JobState::Paused {
                JobState::Running
            } else {
                job.state
            };
            (JobData { paused: false, state, ..job }, Action::Nothing)
        },
        Event::Cancel => {
            let state = if job.state == JobState::Running || job.state == JobState::Paused {
                JobState::Cancelling
            } else {
                job.state
            };
            (JobData { cancelled: true, state, ..job }, Action::Nothing)
        },
        Event::Poll => {
            match job.state {
                JobState::Cancelling => (
                    JobData { state: JobState::Done, offered: None, ..job },
                    Action::Stop,
                ),
                JobState::Paused => (job, Action::Wait),
                JobState::Running => {
                    if job.completed_units == job.total_units {
                        (
                            JobData { state: JobState::Done, offered: None, ..job },
                            Action::Finish { total: job.total_units },
                        )
                    } else {
                        let last = batch_last(
                            job.completed_units as int,
                            job.batch_size as int,
                            job.total_units as int,
                        ) as usize;
                        (
                            JobData { offered: Some(last), ..job },
                            Action::Batch { first: job.completed_units, last },
                        )
                    }
                },
                _ => (job, Action::Nothing),
            }
        },
        Event::BatchPresent => {
            match job.offered {
                Some(last) => (
                    JobData { completed_units: (last + 1) as usize, offered: None, ..job },
                    Action::Nothing,
                ),
                None => (job, Action::Nothing),
            }
        },
        Event::BatchExtracted => {
            match job.offered {
                Some(last) => (
                    JobData { completed_units: (last + 1) as usize, offered: None, ..job },
                    Action::Report { current: (last + 1) as usize, total: job.total_units },
                ),
                None => (job, Action::Nothing),
            }
        },
        Event::BatchFailed => {
            match job.offered {
                Some(_) => (JobData { state: JobState::Failed, offered: None, ..job }, Action::Fail),
                None => (job, Action::Nothing),
            }
        },
    }
}

/// The end of a batch lies inside the sequence, at or after its start.
pub proof fn lemma_batch_last_bounds(first: int, batch_size: int, total_units: int)
    requires
        0 <= first < total_units,
        batch_size >= 1,
    ensures
        first <= batch_last(first, batch_size, total_units) < total_units,
{
}

/// A batch that starts on a multiple of the batch size ends right before
/// the next multiple, or with the sequence.
proof fn lemma_next_batch_aligned(first: int, batch_size: int, total_units: int)
    requires
        0 <= first < total_units,
        batch_size >= 1,
        first % batch_size == 0,
    ensures
        batch_last(first, batch_size, total_units) + 1 == total_units || (batch_last(
            first,
            batch_size,
            total_units,
        ) + 1) % batch_size == 0,
{
    lemma_mod_self_0(batch_size);
    lemma_mod_adds(first, batch_size, batch_size);
}

/// Every step leaves a valid state valid.
pub proof fn lemma_step_keeps_valid(job: JobData, event: Event)
    requires
        valid(job),
    ensures
        valid(step(job, event).0),
{
    let next = step(job, event).0;
    match event {
        Event::Start { total_units, batch_size } => {
            if batch_size >= 1 {
                lemma_small_mod(0, batch_size as nat);
            }
        },
        Event::Poll => {
            if job.state == JobState::Running && job.completed_units < job.total_units {
                lemma_batch_last_bounds(
                    job.completed_units as int,
                    job.batch_size as int,
                    job.total_units as int,
                );
            }
        },
        Event::BatchPresent | Event::BatchExtracted => {
            if job.offered is Some {
                lemma_batch_last_bounds(
                    job.completed_units as int,
                    job.batch_size as int,
                    job.total_units as int,
                );
                lemma_next_batch_aligned(
                    job.completed_units as int,
                    job.batch_size as int,
                    job.total_units as int,
                );
            }
        },
        _ => {},
    }
}


/// Number of batches that a run still has to get through.
pub open spec fn batches_left(job: JobData) -> int {
    (job.total_units - job.completed_units + job.batch_size - 1) / (job.batch_size as int)
}

/// Progress never recedes within a run: only a new start resets it.
pub proof fn lemma_progress_never_recedes(job: JobData, event: Event)
    requires
        valid(job),
        !(event is Start),
    ensures
        step(job, event).0.completed_units >= job.completed_units,
        step(job, event).0.total_units == job.total_units,
        step(job, event).1 matches Action::Report { current, total } ==> current == step(
            job,
            event,
        ).0.completed_units && total == job.total_units && current > job.completed_units,
{
    if job.offered is Some {
        lemma_batch_last_bounds(
            job.completed_units as int,
            job.batch_size as int,
            job.total_units as int,
        );
    }
}

/// A batch is offered only to a run that is running, and it is the batch
/// that begins at the first unit not done with, on a multiple of the batch
/// size.
pub proof fn lemma_offered_batch(job: JobData, event: Event)
    requires
        valid(job),
        step(job, event).1 is Batch,
    ensures
        event is Poll,
        job.state == JobState::Running,
        step(job, event).1 == (Action::Batch {
            first: job.completed_units,
            last: batch_last(
                job.completed_units as int,
                job.batch_size as int,
                job.total_units as int,
            ) as usize,
        }),
        job.completed_units % job.batch_size == 0,
        job.completed_units <= batch_last(
            job.completed_units as int,
            job.batch_size as int,
            job.total_units as int,
        ) < job.total_units,
{
    lemma_batch_last_bounds(
        job.completed_units as int,
        job.batch_size as int,
        job.total_units as int,
    );
}

/// Answering for the offered batch, extracted or found present, moves the
/// run to the unit after it and leaves one batch fewer to do; with none
/// left, every unit is done with.
pub proof fn lemma_batch_answered(job: JobData, event: Event)
    requires
        valid(job),
        job.offered is Some,
        event is BatchPresent || event is BatchExtracted,
    ensures
        step(job, event).0.completed_units == job.offered->0 + 1,
        batches_left(step(job, event).0) == batches_left(job) - 1,
        batches_left(step(job, event).0) == 0 <==> step(job, event).0.completed_units
            == job.total_units,
{
    let b = job.batch_size as int;
    let rest = job.total_units - job.completed_units;
    lemma_batch_last_bounds(job.completed_units as int, b, job.total_units as int);
    if rest <= b {
        assert((rest + b - 1) / b == 1) by (nonlinear_arith)
            requires
                0 < rest <= b,
        ;
        assert((0 + b - 1) / b == 0) by (nonlinear_arith)
            requires
                b >= 1,
        ;
    } else {
        assert((rest - b + b - 1) / b == (rest + b - 1) / b - 1) by (nonlinear_arith)
            requires
                b >= 1,
                rest > b,
        ;
        assert((rest - b + b - 1) / b >= 1) by (nonlinear_arith)
            requires
                b >= 1,
                rest > b,
        ;
    }
}

/// Once the cancel signal is set, no batch is offered until a new start,
/// and the signal stays set.
pub proof fn lemma_cancel_is_honoured(job: JobData, event: Event)
    requires
        valid(job),
        job.cancelled,
        !(event is Start),
    ensures
        !(step(job, event).1 is Batch),
        step(job, event).0.cancelled,
{
}

/// While the pause signal is set, no batch is offered.
pub proof fn lemma_pause_is_honoured(job: JobData)
    requires
        valid(job),
        job.paused,
    ensures
        !(step(job, Event::Poll).1 is Batch),
        job.state == JobState::Paused ==> step(job, Event::Poll) == (job, Action::Wait),
{
}

/// Cancelling a paused run: the worker's next poll ends it, with no batch
/// offered in between.
pub proof fn lemma_cancel_during_pause(job: JobData)
    requires
        valid(job),
        job.state == JobState::Paused,
    ensures
        step(job, Event::Cancel).0.state == JobState::Cancelling,
        step(job, Event::Cancel).1 == Action::Nothing,
        step(step(job, Event::Cancel).0, Event::Poll).1 == Action::Stop,
        step(step(job, Event::Cancel).0, Event::Poll).0.state == JobState::Done,
        step(step(job, Event::Cancel).0, Event::Poll).0.completed_units == job.completed_units,
{
}

/// A run that has ended, done or failed, stays so until a new start, and
/// tells the worker nothing more: a failure is published once.
pub proof fn lemma_ended_run_stays_ended(job: JobData, event: Event)
    requires
        valid(job),
        job.state == JobState::Done || job.state == JobState::Failed || job.state
            == JobState::Idle,
        !(event is Start),
    ensures
        step(job, event).1 == Action::Nothing,
        step(job, event).0.state == job.state,
        step(job, event).0.completed_units == job.completed_units,
{
}

/// A new run over at least one unit, in batches of at least one, begins
/// running with nothing done and both signals cleared, whatever was set
/// before; its batches number the unit count divided by the batch size,
/// rounded up.
pub proof fn lemma_start_resets(job: JobData, total_units: usize, batch_size: usize)
    requires
        valid(job),
        !is_active(job.state),
        total_units >= 1,
        batch_size >= 1,
    ensures
        step(job, Event::Start { total_units, batch_size }).0 == (JobData {
            batch_size,
            total_units,
            completed_units: 0,
            paused: false,
            cancelled: false,
            state: JobState::Running,
            offered: None,
        }),
        batches_left(step(job, Event::Start { total_units, batch_size }).0) == (total_units
            + batch_size - 1) / (batch_size as int),
{
}

/// Last unit of the batch that begins at `first`.
fn last_of_batch(first: usize, batch_size: usize, total_units: usize) -> (last: usize)
    requires
        first < total_units,
        batch_size >= 1,
    ensures
        last == batch_last(first as int, batch_size as int, total_units as int),
{
    if batch_size - 1 < total_units - 1 - first {
        first + (batch_size - 1)
    } else {
        total_units - 1
    }
}

/// One step of the state machine.
fn advance(job: JobData, event: Event) -> (out: (JobData, Action))
    requires
        valid(job),
    ensures
        out == step(job, event),
{
    let mut next = job;
    let mut action = Action::Nothing;
    match event {
        Event::Start { total_units, batch_size } => {
            let active = match job.state {
                JobState::Running | JobState::Paused | JobState::Cancelling => true,
                _ => false,
            };
            if !active {
                next.batch_size = batch_size;
                next.total_units = total_units;
                next.completed_units = 0;
                next.paused = false;
                next.cancelled = false;
                next.offered = None;
                if total_units == 0 || batch_size == 0 {
                    next.state = JobState::Failed;
                    action = Action::Fail;
                } else {
                    next.state = JobState::Running;
                }
            }
        },
        Event::Pause => {
            next.paused = true;
            if let JobState::Running = job.state {
                next.state = JobState::Paused;
            }
        },
        Event::Resume => {
            next.paused = false;
            if let JobState::Paused = job.state {
                next.state = JobState::Running;
            }
        },
        Event::Cancel => {
            next.cancelled = true;
            match job.state {
                JobState::Running | JobState::Paused => {
                    next.state = JobState::Cancelling;
                },
                _ => {},
            }
        },
        Event::Poll => {
            match job.state {
                JobState::Cancelling => {
                    next.state = JobState::Done;
                    next.offered = None;
                    action = Action::Stop;
                },
                JobState::Paused => {
                    action = Action::Wait;
                },
                JobState::Running => {
                    if job.completed_units == job.total_units {
                        next.state = JobState::Done;
                        next.offered = None;
                        action = Action::Finish { total: job.total_units };
                    } else {
                        let last = last_of_batch(
                            job.completed_units,
                            job.batch_size,
                            job.total_units,
                        );
                        next.offered = Some(last);
                        action = Action::Batch { first: job.completed_units, last };
                    }
                },
                _ => {},
            }
        },
        Event::BatchPresent => {
            if let Some(last) = job.offered {
                proof {
                    lemma_batch_last_bounds(
                        job.completed_units as int,
                        job.batch_size as int,
                        job.total_units as int,
                    );
                }
                next.completed_units = last + 1;
                next.offered = None;
            }
        },
        Event::BatchExtracted => {
            if let Some(last) = job.offered {
                proof {
                    lemma_batch_last_bounds(
                        job.completed_units as int,
                        job.batch_size as int,
                        job.total_units as int,
                    );
                }
                next.completed_units = last + 1;
                next.offered = None;
                action = Action::Report { current: last + 1, total: job.total_units };
            }
        },
        Event::BatchFailed => {
            if job.offered.is_some() {
                next.state = JobState::Failed;
                next.offered = None;
                action = Action::Fail;
            }
        },
    }
    (next, action)
}

/// The controller of one extraction run. Two runs, such as one for full
/// frames and one for thumbnails, are two controllers that share nothing.
pub struct ExtractionJob {
    data: JobData,
}

impl View for ExtractionJob {
    type V = JobData;

    closed spec fn view(&self) -> JobData {
        self.data
    }
}

impl ExtractionJob {
    #[verifier::type_invariant]
    spec fn well_formed(self) -> bool {
        valid(self.data)
    }

    /// A controller without a run.
    pub fn new() -> (job: Self)
        ensures
            job@ == idle(),
    {
        ExtractionJob {
            data: JobData {
                batch_size: 0,
                total_units: 0,
                completed_units: 0,
                paused: false,
                cancelled: false,
                state: JobState::Idle,
                offered: None,
            },
        }
    }

    /// Takes in one event, and says what the worker does next.
    pub fn handle(&mut self, event: Event) -> (action: Action)
        ensures
            valid(old(self)@),
            valid(final(self)@),
            (final(self)@, action) == step(old(self)@, event),
    {
        proof {
            use_type_invariant(&*self);
            lemma_step_keeps_valid(self.data, event);
        }
        let (next, action) = advance(self.data, event);
        self.data = next;
        action
    }

    /// The state of the run, which is always valid.
    pub fn snapshot(&self) -> (data: JobData)
        ensures
            data == self@,
            valid(data),
    {
        proof {
            use_type_invariant(self);
        }
        self.data
    }

    /// Starts a run, unless one is active.
    pub fn start(&mut self, total_units: usize, batch_size: usize) -> (action: Action)
        ensures
            (final(self)@, action) == step(old(self)@, Event::Start { total_units, batch_size }),
    {
        self.handle(Event::Start { total_units, batch_size })
    }

    /// Sets the pause signal.
    pub fn pause(&mut self)
        ensures
            final(self)@ == step(old(self)@, Event::Pause).0,
    {
        let _ = self.handle(Event::Pause);
    }

    /// Clears the pause signal.
    pub fn resume(&mut self)
        ensures
            final(self)@ == step(old(self)@, Event::Resume).0,
    {
        let _ = self.handle(Event::Resume);
    }

    /// Sets the cancel signal.
    pub fn cancel(&mut self)
        ensures
            final(self)@ == step(old(self)@, Event::Cancel).0,
    {
        let _ = self.handle(Event::Cancel);
    }

    /// Where the run stands.
    pub fn state(&self) -> (state: JobState)
        ensures
            state == self@.state,
    {
        self.data.state
    }

    /// Number of units done with.
    pub fn completed_units(&self) -> (n: usize)
        ensures
            n == self@.completed_units,
    {
        self.data.completed_units
    }

    /// Number of units of the run.
    pub fn total_units(&self) -> (n: usize)
        ensures
            n == self@.total_units,
    {
        self.data.total_units
    }

    /// Whether the pause signal is set.
    pub fn is_paused(&self) -> (b: bool)
        ensures
            b == self@.paused,
    {
        self.data.paused
    }

    /// Whether the cancel signal is set.
    pub fn is_cancelled(&self) -> (b: bool)
        ensures
            b == self@.cancelled,
    {
        self.data.cancelled
    }
}

} // verus!
