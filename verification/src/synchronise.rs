//! A reconciliation pass over every declared job and every running stream.

use vstd::prelude::*;
use crate::block_stream::{
    begin_job, job_step, resume_block_stream, synchronise_block_stream, JobStage, JobStep,
    JobStepView,
};
use crate::config::{IndexerConfig, IndexerConfigView, StreamInfo, StreamInfoView};
use crate::matching::{matched, take_block_stream, unmatched};
use crate::protocol::{streams_view, Action, ActionView, Event, EventView, SyncError};

verus! {

/// Where a pass stands.
#[derive(Clone, Copy, Debug, PartialEq, Eq, Structural)]
pub enum Phase {
    /// The list of running streams is awaited.
    Listing,
    /// The job under the cursor waits in this stage.
    Job(JobStage),
    /// Every job is through; the stop of an unregistered stream is awaited.
    Orphans,
    /// The pass is complete.
    Done,
    /// The pass was given up.
    Aborted,
}

/// Mathematical value of a [`Synchroniser`].
pub struct PassView {
    /// The declared jobs, in the order in which they are taken up.
    pub jobs: Seq<IndexerConfigView>,
    /// The running streams that no job has taken yet.
    pub active: Seq<StreamInfoView>,
    /// The position of the job under way; every job before it is through.
    pub cursor: int,
    pub phase: Phase,
}

impl PassView {
    /// The cursor is on a job whenever one is under way, and never beyond
    /// the list.
    pub open spec fn well_formed(self) -> bool {
        &&& 0 <= self.cursor <= self.jobs.len()
        &&& self.phase is Job ==> self.cursor < self.jobs.len()
    }

    /// No call is pending.
    pub open spec fn is_over(self) -> bool {
        self.phase is Done || self.phase is Aborted
    }
}

/// A job that was given up, and why.
#[derive(Clone, Copy, Debug, PartialEq, Eq, Structural)]
pub struct JobFailure {
    pub job: usize,
    pub error: SyncError,
}

/// Mathematical value of a [`JobFailure`].
pub struct FailedJob {
    pub job: int,
    pub error: SyncError,
}

impl View for JobFailure {
    type V = FailedJob;

    open spec fn view(&self) -> FailedJob {
        FailedJob { job: self.job as int, error: self.error }
    }
}

/// Mathematical value of a [`Step`].
pub struct StepView {
    pub failure: Option<FailedJob>,
    pub action: ActionView,
}

/// What a reply leads to: the job it ended in failure, if it did, and the
/// next call.
#[derive(Debug, PartialEq, Eq)]
pub struct Step {
    pub failure: Option<JobFailure>,
    pub action: Action,
}

impl View for Step {
    type V = StepView;

    open spec fn view(&self) -> StepView {
        StepView {
            failure: match self.failure {
                Some(failure) => Some(failure@),
                None => None,
            },
            action: self.action@,
        }
    }
}

/// The jobs of a list, each by its value.
pub open spec fn configs_view(jobs: Seq<IndexerConfig>) -> Seq<IndexerConfigView> {
    jobs.map_values(|config: IndexerConfig| config@)
}

/// A pass that has issued `List` and nothing else.
pub open spec fn listing(jobs: Seq<IndexerConfigView>) -> PassView {
    PassView { jobs, active: Seq::empty(), cursor: 0, phase: Phase::Listing }
}

/// With every job through, the streams that are left are stopped one by
/// one, from the front; with none left the pass is complete.
pub open spec fn stop_next(jobs: Seq<IndexerConfigView>, active: Seq<StreamInfoView>) -> (
    PassView,
    ActionView,
) {
    if active.len() == 0 {
        (PassView { jobs, active, cursor: jobs.len() as int, phase: Phase::Done }, ActionView::Done)
    } else {
        (
            PassView {
                jobs,
                active: active.drop_first(),
                cursor: jobs.len() as int,
                phase: Phase::Orphans,
            },
            ActionView::Stop { stream_id: active[0].stream_id },
        )
    }
}

/// Takes up the jobs from `cursor` on, each with the first stream of its
/// key, until one of them needs a call; the streams of the jobs that need
/// none leave the list with them.
pub open spec fn advance(jobs: Seq<IndexerConfigView>, active: Seq<StreamInfoView>, cursor: int) -> (
    PassView,
    ActionView,
)
    decreases jobs.len() - cursor,
{
    if 0 <= cursor < jobs.len() {
        let key = jobs[cursor].key();
        let rest = unmatched(active, key);
        match begin_job(cursor, jobs[cursor], matched(active, key)) {
            JobStepView::Next(stage, action) => (
                PassView { jobs, active: rest, cursor, phase: Phase::Job(stage) },
                action,
            ),
            JobStepView::Finished(_) => advance(jobs, rest, cursor + 1),
        }
    } else {
        stop_next(jobs, active)
    }
}

/// The failure to report for a job that ended with `result`.
pub open spec fn failure_of(job: int, result: Result<(), SyncError>) -> Option<FailedJob> {
    match result {
        Ok(_) => None,
        Err(error) => Some(FailedJob { job, error }),
    }
}

pub open spec fn aborted(pass: PassView) -> (PassView, StepView) {
    (
        PassView { phase: Phase::Aborted, ..pass },
        StepView { failure: None, action: ActionView::Abort },
    )
}

/// The transition of a pass.
///
/// A failure while a job is under way ends that job and is reported; the
/// pass goes on with the next job. A failure of the list, or of the stop of
/// an unregistered stream, ends the pass.
pub open spec fn pass_step(pass: PassView, event: EventView) -> (PassView, StepView) {
    match pass.phase {
        Phase::Listing => match event {
            EventView::Listed(streams) => {
                let (next, action) = advance(pass.jobs, streams, 0);
                (next, StepView { failure: None, action })
            },
            _ => aborted(pass),
        },
        Phase::Job(stage) => match job_step(stage, pass.cursor, pass.jobs[pass.cursor], event) {
            JobStepView::Next(stage, action) => (
                PassView { phase: Phase::Job(stage), ..pass },
                StepView { failure: None, action },
            ),
            JobStepView::Finished(result) => {
                let (next, action) = advance(pass.jobs, pass.active, pass.cursor + 1);
                (next, StepView { failure: failure_of(pass.cursor, result), action })
            },
        },
        Phase::Orphans => match event {
            EventView::Done => {
                let (next, action) = stop_next(pass.jobs, pass.active);
                (next, StepView { failure: None, action })
            },
            _ => aborted(pass),
        },
        Phase::Done => (pass, StepView { failure: None, action: ActionView::Done }),
        Phase::Aborted => (pass, StepView { failure: None, action: ActionView::Abort }),
    }
}

/// A reconciliation pass under way.
pub struct Synchroniser {
    jobs: Vec<IndexerConfig>,
    active: Vec<StreamInfo>,
    cursor: usize,
    phase: Phase,
}

impl View for Synchroniser {
    type V = PassView;

    closed spec fn view(&self) -> PassView {
        PassView {
            jobs: configs_view(self.jobs@),
            active: streams_view(self.active@),
            cursor: self.cursor as int,
            phase: self.phase,
        }
    }
}

impl Synchroniser {
    #[verifier::type_invariant]
    spec fn well_formed(self) -> bool {
        &&& self.cursor <= self.jobs.len()
        &&& self.phase is Job ==> self.cursor < self.jobs.len()
    }

    /// Where the pass stands.
    pub fn phase(&self) -> (phase: Phase)
        ensures
            phase == self@.phase,
    {
        self.phase
    }

    /// Whether the pass has ended, complete or given up.
    pub fn is_over(&self) -> (over: bool)
        ensures
            over == self@.is_over(),
    {
        match self.phase {
            Phase::Done | Phase::Aborted => true,
            _ => false,
        }
    }

    /// The position of the job under way; the number of jobs once all are
    /// through.
    pub fn cursor(&self) -> (cursor: usize)
        ensures
            cursor == self@.cursor,
            cursor <= self@.jobs.len(),
    {
        proof {
            use_type_invariant(self);
        }
        self.cursor
    }

    /// The declared jobs, in the order in which the pass takes them up.
    pub fn jobs(&self) -> (jobs: &Vec<IndexerConfig>)
        ensures
            configs_view(jobs@) == self@.jobs,
    {
        &self.jobs
    }

    /// The running streams that no job has taken yet.
    pub fn active(&self) -> (active: &Vec<StreamInfo>)
        ensures
            streams_view(active@) == self@.active,
    {
        &self.active
    }

    fn stop_next(jobs: Vec<IndexerConfig>, active: Vec<StreamInfo>) -> (next: (Synchroniser, Action))
        ensures
            (next.0@, next.1@) == stop_next(configs_view(jobs@), streams_view(active@)),
    {
        let mut active = active;
        let cursor = jobs.len();
        if active.len() == 0 {
            (Synchroniser { jobs, active, cursor, phase: Phase::Done }, Action::Done)
        } else {
            let ghost before = streams_view(active@);
            let stream = active.remove(0);
            assert(streams_view(active@) =~= before.drop_first());
            assert(stream@ == before[0]);
            (
                Synchroniser { jobs, active, cursor, phase: Phase::Orphans },
                Action::Stop { stream_id: stream.stream_id },
            )
        }
    }

    fn advance(jobs: Vec<IndexerConfig>, active: Vec<StreamInfo>, cursor: usize) -> (next: (
        Synchroniser,
        Action,
    ))
        requires
            cursor <= jobs.len(),
        ensures
            (next.0@, next.1@) == advance(configs_view(jobs@), streams_view(active@), cursor as int),
    {
        let mut rest = active;
        let mut position = cursor;
        while position < jobs.len()
            invariant
                position <= jobs.len(),
                advance(configs_view(jobs@), streams_view(rest@), position as int) == advance(
                    configs_view(jobs@),
                    streams_view(active@),
                    cursor as int,
                ),
            decreases jobs.len() - position,
        {
            assert(configs_view(jobs@)[position as int] == jobs@[position as int]@);
            let taken = take_block_stream(&mut rest, &jobs[position]);
            match synchronise_block_stream(taken, position, &jobs[position]) {
                JobStep::Next(stage, action) => {
                    return (
                        Synchroniser { jobs, active: rest, cursor: position, phase: Phase::Job(stage) },
                        action,
                    );
                },
                JobStep::Finished(_) => {
                    position += 1;
                },
            }
        }
        Self::stop_next(jobs, rest)
    }

    /// Hands the reply to the pending call to the pass and returns the next
    /// call, with the failure of the job that the reply ended, if it did.
    pub fn step(self, event: Event) -> (next: (Synchroniser, Step))
        requires
            event@.in_range(),
        ensures
            (next.0@, next.1@) == pass_step(self@, event@),
            self@.well_formed(),
            next.0@.well_formed(),
    {
        proof {
            use_type_invariant(&self);
        }
        let Synchroniser { jobs, active, cursor, phase } = self;
        let next = match phase {
            Phase::Listing => match event {
                Event::Listed(streams) => {
                    let (next, action) = Self::advance(jobs, streams, 0);
                    (next, Step { failure: None, action })
                },
                _ => (
                    Synchroniser { jobs, active, cursor, phase: Phase::Aborted },
                    Step { failure: None, action: Action::Abort },
                ),
            },
            Phase::Job(stage) => {
                assert(configs_view(jobs@)[cursor as int] == jobs@[cursor as int]@);
                match resume_block_stream(stage, cursor, &jobs[cursor], event) {
                    JobStep::Next(stage, action) => (
                        Synchroniser { jobs, active, cursor, phase: Phase::Job(stage) },
                        Step { failure: None, action },
                    ),
                    JobStep::Finished(result) => {
                        let failure = match result {
                            Ok(_) => None,
                            Err(error) => Some(JobFailure { job: cursor, error }),
                        };
                        let (next, action) = Self::advance(jobs, active, cursor + 1);
                        (next, Step { failure, action })
                    },
                }
            },
            Phase::Orphans => match event {
                Event::Done => {
                    let (next, action) = Self::stop_next(jobs, active);
                    (next, Step { failure: None, action })
                },
                _ => (
                    Synchroniser { jobs, active, cursor, phase: Phase::Aborted },
                    Step { failure: None, action: Action::Abort },
                ),
            },
            Phase::Done => (
                Synchroniser { jobs, active, cursor, phase },
                Step { failure: None, action: Action::Done },
            ),
            Phase::Aborted => (
                Synchroniser { jobs, active, cursor, phase },
                Step { failure: None, action: Action::Abort },
            ),
        };
        proof {
            use_type_invariant(&next.0);
        }
        next
    }
}

/// Opens a pass over the declared jobs, which are taken up in the order of
/// the list. The first call of every pass is the list of running streams.
pub fn synchronise_block_streams(jobs: Vec<IndexerConfig>) -> (begun: (Synchroniser, Action))
    ensures
        begun.0@ == listing(configs_view(jobs@)),
        begun.1@ == ActionView::List,
{
    let pass = Synchroniser { jobs, active: Vec::new(), cursor: 0, phase: Phase::Listing };
    assert(streams_view(pass.active@) =~= Seq::empty());
    (pass, Action::List)
}

} // verus!
