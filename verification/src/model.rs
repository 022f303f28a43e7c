//! A pass against collaborators that answer truthfully and never fail:
//! the fleet and the store as mathematical values, and the calls a pass
//! makes when each of its actions is carried out on them.

use vstd::prelude::*;
use crate::block_stream::{begin_job, job_step, JobStage, JobStepView};
use crate::config::{IndexerConfigView, JobKey, StreamInfoView};
use crate::protocol::{ActionView, EventView, SyncError};
use crate::synchronise::{advance, listing, pass_step, FailedJob, PassView, Phase};

verus! {

/// The fleet and the durable store.
pub struct World {
    /// The streams that run.
    pub streams: Set<StreamInfoView>,
    /// The identifier the fleet gives to a stream it starts for a job.
    pub stream_ids: spec_fn(JobKey) -> Seq<char>,
    /// The recorded version of each job that has one.
    pub versions: Map<JobKey, u64>,
    /// The last published block of each job that published one.
    pub published: Map<JobKey, u64>,
}

impl World {
    pub open spec fn version(self, key: JobKey) -> Option<u64> {
        if self.versions.dom().contains(key) {
            Some(self.versions[key])
        } else {
            None
        }
    }

    pub open spec fn last_published(self, key: JobKey) -> Option<u64> {
        if self.published.dom().contains(key) {
            Some(self.published[key])
        } else {
            None
        }
    }

    /// Behind every published block there is a height.
    pub open spec fn in_range(self) -> bool {
        forall|key: JobKey| #[trigger]
            self.published.dom().contains(key) ==> self.published[key] < u64::MAX
    }

    /// The stream that a start for `config` brings up: it reports the
    /// version of the registry.
    pub open spec fn started(self, config: IndexerConfigView) -> StreamInfoView {
        StreamInfoView {
            stream_id: (self.stream_ids)(config.key()),
            account_id: config.account_id,
            function_name: config.function_name,
            version: config.registry_version(),
        }
    }

    /// What comes back when `action` is carried out.
    pub open spec fn answer(self, jobs: Seq<IndexerConfigView>, action: ActionView) -> EventView {
        match action {
            ActionView::GetStreamVersion { job } => EventView::StreamVersion(
                self.version(jobs[job].key()),
            ),
            ActionView::GetLastPublishedBlock { job } => EventView::LastPublishedBlock(
                self.last_published(jobs[job].key()),
            ),
            _ => EventView::Done,
        }
    }

    /// The world once `action` is carried out.
    pub open spec fn after(self, jobs: Seq<IndexerConfigView>, action: ActionView) -> World {
        match action {
            ActionView::Stop { stream_id } => World {
                streams: self.streams.filter(|stream: StreamInfoView| stream.stream_id != stream_id),
                ..self
            },
            ActionView::Start { job, height } => World {
                streams: self.streams.insert(self.started(jobs[job])),
                ..self
            },
            ActionView::SetStreamVersion { job, version } => World {
                versions: self.versions.insert(jobs[job].key(), version),
                ..self
            },
            _ => self,
        }
    }
}

/// The calls of one job, how the job ended, and the world it left.
pub struct JobRun {
    pub actions: Seq<ActionView>,
    pub result: Result<(), SyncError>,
    pub world: World,
}

/// The number of calls a job can still make from `step`, at most.
pub open spec fn calls_left(step: JobStepView) -> nat {
    match step {
        JobStepView::Finished(_) => 0,
        JobStepView::Next(JobStage::Recording, _) => 1,
        JobStepView::Next(JobStage::Starting, _) => 2,
        JobStepView::Next(JobStage::ReadingProgress, _) => 3,
        JobStepView::Next(JobStage::Clearing(_), _) => 4,
        JobStepView::Next(JobStage::ReadingVersion, _) => 5,
        JobStepView::Next(JobStage::Stopping, _) => 6,
    }
}

/// The job at position `job` from `step` on: each call is carried out on
/// the world and answered by it, until the job is through.
pub open spec fn job_run(step: JobStepView, jobs: Seq<IndexerConfigView>, job: int, world: World) -> JobRun
    decreases calls_left(step),
{
    match step {
        JobStepView::Finished(result) => JobRun { actions: Seq::empty(), result, world },
        JobStepView::Next(stage, action) => {
            let rest = job_run(
                job_step(stage, job, jobs[job], world.answer(jobs, action)),
                jobs,
                job,
                world.after(jobs, action),
            );
            JobRun { actions: seq![action] + rest.actions, ..rest }
        },
    }
}

/// The synchronisation of the job at position `job`, which `active` runs.
pub open spec fn sync_job(
    jobs: Seq<IndexerConfigView>,
    job: int,
    active: Option<StreamInfoView>,
    world: World,
) -> JobRun {
    job_run(begin_job(job, jobs[job], active), jobs, job, world)
}

/// The calls of a pass, the jobs it gave up, and the world it left.
pub struct Run {
    pub actions: Seq<ActionView>,
    pub failures: Seq<FailedJob>,
    pub world: World,
}

pub open spec fn phase_rank(phase: Phase) -> nat {
    match phase {
        Phase::Listing => 8,
        Phase::Job(stage) => 1 + calls_left(JobStepView::Next(stage, ActionView::Done)),
        Phase::Orphans => 1,
        Phase::Done => 0,
        Phase::Aborted => 0,
    }
}

pub open spec fn reported(failure: Option<FailedJob>) -> Seq<FailedJob> {
    match failure {
        Some(failure) => seq![failure],
        None => Seq::empty(),
    }
}

/// A pass from the state `pass` with the call `pending`: each call is
/// carried out on the world and its answer handed to the pass, until the
/// pass is over. The last action is the one that ends the pass.
pub open spec fn run(pass: PassView, pending: ActionView, world: World) -> Run
    decreases pass.jobs.len() - pass.cursor, phase_rank(pass.phase), pass.active.len(),
    when pass.well_formed()
    via run_terminates
{
    if pass.is_over() {
        Run { actions: seq![pending], failures: Seq::empty(), world }
    } else {
        let (next, step) = pass_step(pass, world.answer(pass.jobs, pending));
        let rest = run(next, step.action, world.after(pass.jobs, pending));
        Run {
            actions: seq![pending] + rest.actions,
            failures: reported(step.failure) + rest.failures,
            world: rest.world,
        }
    }
}

#[via_fn]
proof fn run_terminates(pass: PassView, pending: ActionView, world: World) {
    if pass.phase is Job {
        lemma_advance_moves_on(pass.jobs, pass.active, pass.cursor + 1);
    }
    if let EventView::Listed(streams) = world.answer(pass.jobs, pending) {
        lemma_advance_moves_on(pass.jobs, streams, 0);
    }
}

/// A whole pass over `jobs`, to which the fleet lists `streams`.
pub open spec fn pass_run(jobs: Seq<IndexerConfigView>, streams: Seq<StreamInfoView>, world: World) -> Run {
    let (next, step) = pass_step(listing(jobs), EventView::Listed(streams));
    let rest = run(next, step.action, world);
    Run { actions: seq![ActionView::List] + rest.actions, ..rest }
}

/// Taking up the jobs from `cursor` on never moves the cursor back, and
/// leaves it on a job or behind the last one.
pub proof fn lemma_advance_moves_on(jobs: Seq<IndexerConfigView>, active: Seq<StreamInfoView>, cursor: int)
    requires
        0 <= cursor <= jobs.len(),
    ensures
        ({
            let (next, action) = advance(jobs, active, cursor);
            &&& next.well_formed()
            &&& next.jobs == jobs
            &&& next.cursor >= cursor
            &&& next.phase is Job || next.phase is Orphans || next.phase is Done
            &&& next.phase is Job || next.cursor == jobs.len()
            &&& next.phase is Done <==> action is Done
            &&& !(action is Abort)
        }),
    decreases jobs.len() - cursor,
{
    if cursor < jobs.len() {
        let key = jobs[cursor].key();
        lemma_advance_moves_on(jobs, crate::matching::unmatched(active, key), cursor + 1);
    }
}

/// A step leaves the list of jobs alone and the cursor where a pass can
/// go on from.
pub proof fn lemma_step_keeps_well_formed(pass: PassView, event: EventView)
    requires
        pass.well_formed(),
    ensures
        pass_step(pass, event).0.well_formed(),
        pass_step(pass, event).0.jobs == pass.jobs,
{
    if pass.phase is Job {
        lemma_advance_moves_on(pass.jobs, pass.active, pass.cursor + 1);
    }
    if let EventView::Listed(streams) = event {
        lemma_advance_moves_on(pass.jobs, streams, 0);
    }
}

/// A pass that is not over carries out the pending call and goes on from
/// the state that the answer leads to.
pub proof fn lemma_run_unfolds(pass: PassView, pending: ActionView, world: World)
    requires
        pass.well_formed(),
        !pass.is_over(),
    ensures
        ({
            let (next, step) = pass_step(pass, world.answer(pass.jobs, pending));
            let rest = run(next, step.action, world.after(pass.jobs, pending));
            run(pass, pending, world) == (Run {
                actions: seq![pending] + rest.actions,
                failures: reported(step.failure) + rest.failures,
                world: rest.world,
            })
        }),
{
    lemma_step_keeps_well_formed(pass, world.answer(pass.jobs, pending));
}

/// A world in range answers in range: what it hands to a pass is what a
/// pass accepts.
pub proof fn lemma_answers_in_range(world: World, jobs: Seq<IndexerConfigView>, action: ActionView)
    requires
        world.in_range(),
    ensures
        world.answer(jobs, action).in_range(),
        world.after(jobs, action).in_range(),
{
}

} // verus!
