//! What holds of the calls of every job.

use vstd::prelude::*;
use crate::config::{IndexerConfigView, StartBlock, StreamInfoView, MIGRATED_STREAM_VERSION};
use crate::model::{job_run, sync_job, JobRun, World};
use crate::protocol::{ActionView, SyncError};
use crate::status::{clear_needed, resumes, start_height, stream_status};

verus! {

/// The stop of the stream that runs a job under another version.
pub open spec fn stop_of(active: Option<StreamInfoView>) -> Seq<ActionView> {
    match active {
        Some(stream) => seq![ActionView::Stop { stream_id: stream.stream_id }],
        None => Seq::empty(),
    }
}

/// The world once the stream that runs a job under another version is
/// stopped.
pub open spec fn stopped(world: World, jobs: Seq<IndexerConfigView>, active: Option<StreamInfoView>) -> World {
    match active {
        Some(stream) => world.after(jobs, ActionView::Stop { stream_id: stream.stream_id }),
        None => world,
    }
}

/// The calls of a job in full: nothing for a job whose stream reports the
/// registry's version; for any other the stop of its stream, the read of
/// the recorded version, the clearing where the status asks for it, the
/// read of the last published block where the job resumes, and, once a
/// start height is resolved, the start and the write of the new version.
pub open spec fn job_calls(
    jobs: Seq<IndexerConfigView>,
    job: int,
    active: Option<StreamInfoView>,
    world: World,
) -> Seq<ActionView> {
    let config = jobs[job];
    let status = stream_status(config.registry_version(), world.version(config.key()));
    if in_sync(config, active) {
        Seq::empty()
    } else {
        stop_of(active) + seq![ActionView::GetStreamVersion { job }] + (if clear_needed(
            status,
            config.start_block,
        ) {
            seq![ActionView::ClearBlockStream { job }]
        } else {
            Seq::empty()
        }) + (if resumes(status, config.start_block) {
            seq![ActionView::GetLastPublishedBlock { job }]
        } else {
            Seq::empty()
        }) + (match start_height(status, config, world.last_published(config.key())) {
            Ok(height) => seq![
                ActionView::Start { job, height },
                ActionView::SetStreamVersion { job, version: config.registry_version() },
            ],
            Err(_) => Seq::empty(),
        })
    }
}

/// Whether the job at position `job` ends with a stream started for it.
pub open spec fn job_starts(
    jobs: Seq<IndexerConfigView>,
    job: int,
    active: Option<StreamInfoView>,
    world: World,
) -> bool {
    let config = jobs[job];
    let status = stream_status(config.registry_version(), world.version(config.key()));
    &&& !in_sync(config, active)
    &&& start_height(status, config, world.last_published(config.key())) is Ok
}

/// Whether the stream that runs a job reports the registry's version.
pub open spec fn in_sync(config: IndexerConfigView, active: Option<StreamInfoView>) -> bool {
    active matches Some(stream) && stream.version == config.registry_version()
}

/// A job whose stream reports the registry's version makes no call and
/// changes nothing. Any other job makes exactly the calls of
/// [`job_calls`]; it fails only for want of a last published block, and then
/// leaves the store as it was; where it starts a stream, the registry's
/// version is the recorded one afterwards.
pub proof fn lemma_job_calls(
    jobs: Seq<IndexerConfigView>,
    job: int,
    active: Option<StreamInfoView>,
    world: World,
)
    requires
        0 <= job < jobs.len(),
    ensures
        ({
            let run = sync_job(jobs, job, active, world);
            let key = jobs[job].key();
            &&& run.actions == job_calls(jobs, job, active, world)
            &&& run.world.published == world.published
            &&& run.world.stream_ids == world.stream_ids
            &&& in_sync(jobs[job], active) ==> run.result == Ok::<(), SyncError>(()) && run.world
                == world
            &&& job_starts(jobs, job, active, world) ==> {
                &&& run.result == Ok::<(), SyncError>(())
                &&& run.world.versions == world.versions.insert(key, jobs[job].registry_version())
                &&& run.world.streams == stopped(world, jobs, active).streams.insert(
                    world.started(jobs[job]),
                )
            }
            &&& !in_sync(jobs[job], active) && !job_starts(jobs, job, active, world) ==> {
                &&& run.result == Err::<(), SyncError>(SyncError::MissingProgress)
                &&& run.world.versions == world.versions
                &&& run.world.streams == stopped(world, jobs, active).streams
            }
        }),
{
    reveal_with_fuel(job_run, 7);
    let run = sync_job(jobs, job, active, world);
    assert(run.actions =~= job_calls(jobs, job, active, world));
}

/// A job whose stream reports the registry's version is left alone: no
/// call is made for it, and nothing changes.
pub proof fn lemma_matching_version_is_left_alone(
    jobs: Seq<IndexerConfigView>,
    job: int,
    stream: StreamInfoView,
    world: World,
)
    requires
        0 <= job < jobs.len(),
        stream.version == jobs[job].registry_version(),
    ensures
        sync_job(jobs, job, Some(stream), world) == (JobRun {
            actions: Seq::empty(),
            result: Ok(()),
            world,
        }),
{
    lemma_job_calls(jobs, job, Some(stream), world);
}

/// A job without a recorded version that declares a height starts exactly
/// there, and the registry's version is the recorded one afterwards.
pub proof fn lemma_new_job_starts_at_declared_height(
    jobs: Seq<IndexerConfigView>,
    job: int,
    active: Option<StreamInfoView>,
    world: World,
    height: u64,
)
    requires
        0 <= job < jobs.len(),
        !in_sync(jobs[job], active),
        world.version(jobs[job].key()) is None,
        jobs[job].start_block == StartBlock::Height(height),
    ensures
        ({
            let run = sync_job(jobs, job, active, world);
            let version = jobs[job].registry_version();
            &&& run.actions == stop_of(active) + seq![
                ActionView::GetStreamVersion { job },
                ActionView::Start { job, height },
                ActionView::SetStreamVersion { job, version },
            ]
            &&& run.result == Ok::<(), SyncError>(())
            &&& run.world.version(jobs[job].key()) == Some(version)
        }),
{
    lemma_job_calls(jobs, job, active, world);
    let run = sync_job(jobs, job, active, world);
    assert(run.actions =~= stop_of(active) + seq![
        ActionView::GetStreamVersion { job },
        ActionView::Start { job, height },
        ActionView::SetStreamVersion { job, version: jobs[job].registry_version() },
    ]);
}

/// A job that asks to continue and has published no block starts and stops
/// nothing, where no stream runs it under another version; the recorded
/// version and the fleet stay as they were.
pub proof fn lemma_continue_without_progress_fails_closed(
    jobs: Seq<IndexerConfigView>,
    job: int,
    active: Option<StreamInfoView>,
    world: World,
)
    requires
        0 <= job < jobs.len(),
        active is Some ==> in_sync(jobs[job], active),
        jobs[job].start_block == StartBlock::Continue,
        world.last_published(jobs[job].key()) is None,
    ensures
        ({
            let run = sync_job(jobs, job, active, world);
            &&& forall|at: int| 0 <= at < run.actions.len() ==> !(#[trigger] run.actions[at]).touches_fleet()
            &&& run.world.versions == world.versions
            &&& run.world.streams == world.streams
            &&& active is None ==> run.result == Err::<(), SyncError>(SyncError::MissingProgress)
        }),
{
    lemma_job_calls(jobs, job, active, world);
}

/// A job whose recorded version is neither the registry's nor the mark of a
/// migration, and which declares a height: its stream, if one runs, is
/// stopped, the buffered stream is cleared, and a stream is started at the
/// declared height.
pub proof fn lemma_outdated_job_clears_and_restarts(
    jobs: Seq<IndexerConfigView>,
    job: int,
    active: Option<StreamInfoView>,
    world: World,
    recorded: u64,
    height: u64,
)
    requires
        0 <= job < jobs.len(),
        !in_sync(jobs[job], active),
        world.version(jobs[job].key()) == Some(recorded),
        recorded != jobs[job].registry_version(),
        recorded != MIGRATED_STREAM_VERSION,
        jobs[job].start_block == StartBlock::Height(height),
    ensures
        ({
            let run = sync_job(jobs, job, active, world);
            let version = jobs[job].registry_version();
            &&& run.actions == stop_of(active) + seq![
                ActionView::GetStreamVersion { job },
                ActionView::ClearBlockStream { job },
                ActionView::Start { job, height },
                ActionView::SetStreamVersion { job, version },
            ]
            &&& run.result == Ok::<(), SyncError>(())
            &&& run.world.version(jobs[job].key()) == Some(version)
        }),
{
    lemma_job_calls(jobs, job, active, world);
    let run = sync_job(jobs, job, active, world);
    assert(run.actions =~= stop_of(active) + seq![
        ActionView::GetStreamVersion { job },
        ActionView::ClearBlockStream { job },
        ActionView::Start { job, height },
        ActionView::SetStreamVersion { job, version: jobs[job].registry_version() },
    ]);
}

/// A migrated job resumes behind its last published block, whatever it
/// declares as its start, and nothing is cleared.
pub proof fn lemma_migrated_job_resumes(
    jobs: Seq<IndexerConfigView>,
    job: int,
    active: Option<StreamInfoView>,
    world: World,
    published: u64,
)
    requires
        0 <= job < jobs.len(),
        !in_sync(jobs[job], active),
        world.version(jobs[job].key()) == Some(MIGRATED_STREAM_VERSION),
        world.last_published(jobs[job].key()) == Some(published),
        published < u64::MAX,
    ensures
        ({
            let run = sync_job(jobs, job, active, world);
            let version = jobs[job].registry_version();
            &&& run.actions == stop_of(active) + seq![
                ActionView::GetStreamVersion { job },
                ActionView::GetLastPublishedBlock { job },
                ActionView::Start { job, height: (published + 1) as u64 },
                ActionView::SetStreamVersion { job, version },
            ]
            &&& run.result == Ok::<(), SyncError>(())
            &&& run.world.version(jobs[job].key()) == Some(version)
        }),
{
    lemma_job_calls(jobs, job, active, world);
    let run = sync_job(jobs, job, active, world);
    assert(run.actions =~= stop_of(active) + seq![
        ActionView::GetStreamVersion { job },
        ActionView::GetLastPublishedBlock { job },
        ActionView::Start { job, height: (published + 1) as u64 },
        ActionView::SetStreamVersion { job, version: jobs[job].registry_version() },
    ]);
}

/// An outdated job that asks to continue resumes behind its last published
/// block, and its buffered stream is not cleared.
pub proof fn lemma_outdated_job_continues_without_clearing(
    jobs: Seq<IndexerConfigView>,
    job: int,
    active: Option<StreamInfoView>,
    world: World,
    recorded: u64,
    published: u64,
)
    requires
        0 <= job < jobs.len(),
        !in_sync(jobs[job], active),
        world.version(jobs[job].key()) == Some(recorded),
        recorded != jobs[job].registry_version(),
        recorded != MIGRATED_STREAM_VERSION,
        jobs[job].start_block == StartBlock::Continue,
        world.last_published(jobs[job].key()) == Some(published),
        published < u64::MAX,
    ensures
        ({
            let run = sync_job(jobs, job, active, world);
            let version = jobs[job].registry_version();
            &&& run.actions == stop_of(active) + seq![
                ActionView::GetStreamVersion { job },
                ActionView::GetLastPublishedBlock { job },
                ActionView::Start { job, height: (published + 1) as u64 },
                ActionView::SetStreamVersion { job, version },
            ]
            &&& forall|at: int| 0 <= at < run.actions.len() ==> !(#[trigger] run.actions[at] is ClearBlockStream)
            &&& run.result == Ok::<(), SyncError>(())
        }),
{
    lemma_job_calls(jobs, job, active, world);
    let run = sync_job(jobs, job, active, world);
    assert(run.actions =~= stop_of(active) + seq![
        ActionView::GetStreamVersion { job },
        ActionView::GetLastPublishedBlock { job },
        ActionView::Start { job, height: (published + 1) as u64 },
        ActionView::SetStreamVersion { job, version: jobs[job].registry_version() },
    ]);
}

/// A stream is started only at the height that the job's status, its
/// declared start and its last published block resolve to, and a version
/// is recorded only right behind the start of a stream.
pub proof fn lemma_every_start_is_resolved(
    jobs: Seq<IndexerConfigView>,
    job: int,
    active: Option<StreamInfoView>,
    world: World,
)
    requires
        0 <= job < jobs.len(),
    ensures
        ({
            let actions = sync_job(jobs, job, active, world).actions;
            let config = jobs[job];
            let status = stream_status(config.registry_version(), world.version(config.key()));
            &&& forall|at: int|
                0 <= at < actions.len() ==> (#[trigger] actions[at] matches ActionView::Start {
                    job: started,
                    height,
                } ==> started == job && start_height(
                    status,
                    config,
                    world.last_published(config.key()),
                ) == Ok::<u64, SyncError>(height))
            &&& forall|at: int|
                0 <= at < actions.len() && #[trigger] actions[at] is SetStreamVersion ==> at > 0
                    && actions[at - 1] is Start && actions[at] == (ActionView::SetStreamVersion {
                    job,
                    version: config.registry_version(),
                })
        }),
{
    lemma_job_calls(jobs, job, active, world);
}

} // verus!
