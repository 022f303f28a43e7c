//! Synchronising one job: the calls it takes, one reply at a time.

use vstd::prelude::*;
use crate::config::{IndexerConfig, IndexerConfigView, StartBlock, StreamInfo, StreamInfoView};
use crate::protocol::{stream_view, Action, ActionView, Event, EventView, SyncError};
use crate::status::{
    clear_block_stream_if_needed, clear_needed, continuation_height, get_continuation_block_height,
    get_stream_status, resumes, resumes_from_last_published_block, stream_status, StreamStatus,
};

verus! {

/// The call a job waits on.
#[derive(Clone, Copy, Debug, PartialEq, Eq, Structural)]
pub enum JobStage {
    /// The stop of the job's outdated stream.
    Stopping,
    /// The read of the recorded version.
    ReadingVersion,
    /// The clearing of the buffered stream, for a job of this status.
    Clearing(StreamStatus),
    /// The read of the last published block.
    ReadingProgress,
    /// The start of the stream.
    Starting,
    /// The write of the new recorded version.
    Recording,
}

/// Mathematical value of a [`JobStep`].
pub enum JobStepView {
    Next(JobStage, ActionView),
    Finished(Result<(), SyncError>),
}

/// How a job goes on: with another call, or not at all.
#[derive(Debug, PartialEq, Eq)]
pub enum JobStep {
    /// The job now waits in this stage on this call.
    Next(JobStage, Action),
    /// The job is through: synchronised, or given up for this pass.
    Finished(Result<(), SyncError>),
}

impl View for JobStep {
    type V = JobStepView;

    open spec fn view(&self) -> JobStepView {
        match *self {
            JobStep::Next(stage, action) => JobStepView::Next(stage, action@),
            JobStep::Finished(result) => JobStepView::Finished(result),
        }
    }
}

/// The height at which a job that does not resume begins.
pub open spec fn declared_height(config: IndexerConfigView) -> u64 {
    match config.start_block {
        StartBlock::Height(height) => height,
        _ => config.registry_version(),
    }
}

/// The first call of a job, by the stream that runs it: none where the
/// stream reports the registry's version; the stop of a stream that reports
/// another; the read of the recorded version where no stream runs.
pub open spec fn begin_job(job: int, config: IndexerConfigView, active: Option<StreamInfoView>) -> JobStepView {
    match active {
        Some(stream) => if stream.version == config.registry_version() {
            JobStepView::Finished(Ok(()))
        } else {
            JobStepView::Next(JobStage::Stopping, ActionView::Stop { stream_id: stream.stream_id })
        },
        None => JobStepView::Next(JobStage::ReadingVersion, ActionView::GetStreamVersion { job }),
    }
}

/// The call that follows once the status is known and the buffered stream
/// dealt with: the read of the last published block for a job that resumes,
/// the start at the declared height for any other.
pub open spec fn plan_start(job: int, config: IndexerConfigView, status: StreamStatus) -> JobStepView {
    if resumes(status, config.start_block) {
        JobStepView::Next(JobStage::ReadingProgress, ActionView::GetLastPublishedBlock { job })
    } else {
        JobStepView::Next(
            JobStage::Starting,
            ActionView::Start { job, height: declared_height(config) },
        )
    }
}

/// The call that follows the recorded version.
pub open spec fn plan_clear(job: int, config: IndexerConfigView, stream_version: Option<u64>) -> JobStepView {
    let status = stream_status(config.registry_version(), stream_version);
    if clear_needed(status, config.start_block) {
        JobStepView::Next(JobStage::Clearing(status), ActionView::ClearBlockStream { job })
    } else {
        plan_start(job, config, status)
    }
}

/// The call that follows the last published block.
pub open spec fn plan_resume(job: int, last_published_block: Option<u64>) -> JobStepView {
    match continuation_height(last_published_block) {
        Ok(height) => JobStepView::Next(JobStage::Starting, ActionView::Start { job, height }),
        Err(error) => JobStepView::Finished(Err(error)),
    }
}

/// How a job in `stage` goes on when `event` comes back. A failed call ends
/// the job, and so does an event that answers another call.
pub open spec fn job_step(stage: JobStage, job: int, config: IndexerConfigView, event: EventView) -> JobStepView {
    match (stage, event) {
        (_, EventView::Failed) => JobStepView::Finished(Err(SyncError::CallFailed)),
        (JobStage::Stopping, EventView::Done) => JobStepView::Next(
            JobStage::ReadingVersion,
            ActionView::GetStreamVersion { job },
        ),
        (JobStage::ReadingVersion, EventView::StreamVersion(version)) => plan_clear(
            job,
            config,
            version,
        ),
        (JobStage::Clearing(status), EventView::Done) => plan_start(job, config, status),
        (JobStage::ReadingProgress, EventView::LastPublishedBlock(height)) => plan_resume(
            job,
            height,
        ),
        (JobStage::Starting, EventView::Done) => JobStepView::Next(
            JobStage::Recording,
            ActionView::SetStreamVersion { job, version: config.registry_version() },
        ),
        (JobStage::Recording, EventView::Done) => JobStepView::Finished(Ok(())),
        _ => JobStepView::Finished(Err(SyncError::UnexpectedReply)),
    }
}

/// Begins the synchronisation of the job at position `job`, given the stream
/// that was found running it.
pub fn synchronise_block_stream(
    active_block_stream: Option<StreamInfo>,
    job: usize,
    config: &IndexerConfig,
) -> (step: JobStep)
    ensures
        step@ == begin_job(job as int, config@, stream_view(active_block_stream)),
{
    match active_block_stream {
        Some(stream) => {
            if stream.version == config.get_registry_version() {
                JobStep::Finished(Ok(()))
            } else {
                JobStep::Next(JobStage::Stopping, Action::Stop { stream_id: stream.stream_id })
            }
        },
        None => JobStep::Next(JobStage::ReadingVersion, Action::GetStreamVersion { job }),
    }
}

fn start_or_resume(job: usize, config: &IndexerConfig, status: StreamStatus) -> (step: JobStep)
    ensures
        step@ == plan_start(job as int, config@, status),
{
    if resumes_from_last_published_block(status, config) {
        JobStep::Next(JobStage::ReadingProgress, Action::GetLastPublishedBlock { job })
    } else {
        let height = match config.start_block {
            StartBlock::Height(height) => height,
            _ => config.get_registry_version(),
        };
        JobStep::Next(JobStage::Starting, Action::Start { job, height })
    }
}

/// Takes the synchronisation of the job at position `job` one reply further.
pub fn resume_block_stream(stage: JobStage, job: usize, config: &IndexerConfig, event: Event) -> (step:
    JobStep)
    requires
        event@.in_range(),
    ensures
        step@ == job_step(stage, job as int, config@, event@),
{
    match (stage, event) {
        (_, Event::Failed) => JobStep::Finished(Err(SyncError::CallFailed)),
        (JobStage::Stopping, Event::Done) => JobStep::Next(
            JobStage::ReadingVersion,
            Action::GetStreamVersion { job },
        ),
        (JobStage::ReadingVersion, Event::StreamVersion(version)) => {
            let status = get_stream_status(config.get_registry_version(), version);
            if clear_block_stream_if_needed(status, config) {
                JobStep::Next(JobStage::Clearing(status), Action::ClearBlockStream { job })
            } else {
                start_or_resume(job, config, status)
            }
        },
        (JobStage::Clearing(status), Event::Done) => start_or_resume(job, config, status),
        (JobStage::ReadingProgress, Event::LastPublishedBlock(published)) => {
            match get_continuation_block_height(published) {
                Ok(height) => JobStep::Next(JobStage::Starting, Action::Start { job, height }),
                Err(error) => JobStep::Finished(Err(error)),
            }
        },
        (JobStage::Starting, Event::Done) => JobStep::Next(
            JobStage::Recording,
            Action::SetStreamVersion { job, version: config.get_registry_version() },
        ),
        (JobStage::Recording, Event::Done) => JobStep::Finished(Ok(())),
        _ => JobStep::Finished(Err(SyncError::UnexpectedReply)),
    }
}

} // verus!
