use coordinator::block_stream::{resume_block_stream, synchronise_block_stream, JobStage, JobStep};
use coordinator::config::{IndexerConfig, StartBlock, StreamInfo, MIGRATED_STREAM_VERSION};
use coordinator::protocol::{Action, Event, SyncError};
use coordinator::status::StreamStatus;

fn config(start_block: StartBlock) -> IndexerConfig {
    IndexerConfig {
        account_id: "morgs.near".to_string(),
        function_name: "test".to_string(),
        created_at_block_height: 101,
        updated_at_block_height: Some(200),
        start_block,
    }
}

fn running(version: u64) -> StreamInfo {
    StreamInfo {
        stream_id: "stream_id".to_string(),
        account_id: "morgs.near".to_string(),
        function_name: "test".to_string(),
        version,
    }
}

const STAGES: [JobStage; 6] = [
    JobStage::Stopping,
    JobStage::ReadingVersion,
    JobStage::Clearing(StreamStatus::Outdated),
    JobStage::ReadingProgress,
    JobStage::Starting,
    JobStage::Recording,
];

#[test]
fn stream_with_the_registry_version_needs_nothing() {
    assert_eq!(
        synchronise_block_stream(Some(running(200)), 3, &config(StartBlock::Latest)),
        JobStep::Finished(Ok(()))
    );
}

#[test]
fn stream_with_another_version_is_stopped_first() {
    assert_eq!(
        synchronise_block_stream(Some(running(199)), 3, &config(StartBlock::Latest)),
        JobStep::Next(JobStage::Stopping, Action::Stop { stream_id: "stream_id".to_string() })
    );
    assert_eq!(
        synchronise_block_stream(Some(running(201)), 3, &config(StartBlock::Latest)),
        JobStep::Next(JobStage::Stopping, Action::Stop { stream_id: "stream_id".to_string() })
    );
}

#[test]
fn job_without_stream_reads_its_version_first() {
    assert_eq!(
        synchronise_block_stream(None, 3, &config(StartBlock::Latest)),
        JobStep::Next(JobStage::ReadingVersion, Action::GetStreamVersion { job: 3 })
    );
}

#[test]
fn version_is_read_after_the_stop() {
    assert_eq!(
        resume_block_stream(JobStage::Stopping, 3, &config(StartBlock::Latest), Event::Done),
        JobStep::Next(JobStage::ReadingVersion, Action::GetStreamVersion { job: 3 })
    );
}

#[test]
fn outdated_job_clears_unless_it_continues() {
    let outdated = Event::StreamVersion(Some(101));
    assert_eq!(
        resume_block_stream(JobStage::ReadingVersion, 0, &config(StartBlock::Latest), outdated.clone()),
        JobStep::Next(
            JobStage::Clearing(StreamStatus::Outdated),
            Action::ClearBlockStream { job: 0 }
        )
    );
    assert_eq!(
        resume_block_stream(
            JobStage::ReadingVersion,
            0,
            &config(StartBlock::Height(7)),
            outdated.clone()
        ),
        JobStep::Next(
            JobStage::Clearing(StreamStatus::Outdated),
            Action::ClearBlockStream { job: 0 }
        )
    );
    assert_eq!(
        resume_block_stream(JobStage::ReadingVersion, 0, &config(StartBlock::Continue), outdated),
        JobStep::Next(JobStage::ReadingProgress, Action::GetLastPublishedBlock { job: 0 })
    );
}

#[test]
fn new_job_starts_where_it_declares() {
    let new = Event::StreamVersion(None);
    assert_eq!(
        resume_block_stream(JobStage::ReadingVersion, 2, &config(StartBlock::Latest), new.clone()),
        JobStep::Next(JobStage::Starting, Action::Start { job: 2, height: 200 })
    );
    assert_eq!(
        resume_block_stream(JobStage::ReadingVersion, 2, &config(StartBlock::Height(50)), new.clone()),
        JobStep::Next(JobStage::Starting, Action::Start { job: 2, height: 50 })
    );
    assert_eq!(
        resume_block_stream(JobStage::ReadingVersion, 2, &config(StartBlock::Continue), new),
        JobStep::Next(JobStage::ReadingProgress, Action::GetLastPublishedBlock { job: 2 })
    );
}

#[test]
fn synced_and_migrated_jobs_read_their_progress() {
    for version in [200, MIGRATED_STREAM_VERSION] {
        for policy in [StartBlock::Latest, StartBlock::Height(1000), StartBlock::Continue] {
            assert_eq!(
                resume_block_stream(
                    JobStage::ReadingVersion,
                    1,
                    &config(policy),
                    Event::StreamVersion(Some(version))
                ),
                JobStep::Next(JobStage::ReadingProgress, Action::GetLastPublishedBlock { job: 1 })
            );
        }
    }
}

#[test]
fn cleared_job_starts_where_it_declares() {
    assert_eq!(
        resume_block_stream(
            JobStage::Clearing(StreamStatus::Outdated),
            4,
            &config(StartBlock::Height(1000)),
            Event::Done
        ),
        JobStep::Next(JobStage::Starting, Action::Start { job: 4, height: 1000 })
    );
    assert_eq!(
        resume_block_stream(
            JobStage::Clearing(StreamStatus::Outdated),
            4,
            &config(StartBlock::Latest),
            Event::Done
        ),
        JobStep::Next(JobStage::Starting, Action::Start { job: 4, height: 200 })
    );
}

#[test]
fn job_resumes_one_past_its_progress() {
    assert_eq!(
        resume_block_stream(
            JobStage::ReadingProgress,
            0,
            &config(StartBlock::Height(1000)),
            Event::LastPublishedBlock(Some(500))
        ),
        JobStep::Next(JobStage::Starting, Action::Start { job: 0, height: 501 })
    );
}

#[test]
fn job_without_progress_is_given_up() {
    assert_eq!(
        resume_block_stream(
            JobStage::ReadingProgress,
            0,
            &config(StartBlock::Continue),
            Event::LastPublishedBlock(None)
        ),
        JobStep::Finished(Err(SyncError::MissingProgress))
    );
}

#[test]
fn version_is_recorded_after_the_start() {
    assert_eq!(
        resume_block_stream(JobStage::Starting, 5, &config(StartBlock::Latest), Event::Done),
        JobStep::Next(JobStage::Recording, Action::SetStreamVersion { job: 5, version: 200 })
    );
    assert_eq!(
        resume_block_stream(JobStage::Recording, 5, &config(StartBlock::Latest), Event::Done),
        JobStep::Finished(Ok(()))
    );
}

#[test]
fn failed_call_ends_the_job_in_every_stage() {
    for stage in STAGES {
        assert_eq!(
            resume_block_stream(stage, 0, &config(StartBlock::Latest), Event::Failed),
            JobStep::Finished(Err(SyncError::CallFailed))
        );
    }
}

#[test]
fn reply_to_another_call_ends_the_job() {
    let config = config(StartBlock::Latest);
    let unexpected = JobStep::Finished(Err(SyncError::UnexpectedReply));
    assert_eq!(
        resume_block_stream(JobStage::Stopping, 0, &config, Event::StreamVersion(None)),
        unexpected
    );
    assert_eq!(resume_block_stream(JobStage::ReadingVersion, 0, &config, Event::Done), unexpected);
    assert_eq!(
        resume_block_stream(JobStage::ReadingVersion, 0, &config, Event::LastPublishedBlock(Some(1))),
        unexpected
    );
    assert_eq!(
        resume_block_stream(
            JobStage::Clearing(StreamStatus::Outdated),
            0,
            &config,
            Event::Listed(vec![])
        ),
        unexpected
    );
    assert_eq!(resume_block_stream(JobStage::ReadingProgress, 0, &config, Event::Done), unexpected);
    assert_eq!(
        resume_block_stream(JobStage::Starting, 0, &config, Event::StreamVersion(Some(1))),
        unexpected
    );
    assert_eq!(
        resume_block_stream(JobStage::Recording, 0, &config, Event::LastPublishedBlock(None)),
        unexpected
    );
}

#[test]
fn only_the_last_height_is_out_of_range() {
    assert!(Event::LastPublishedBlock(Some(u64::MAX - 1)).is_in_range());
    assert!(!Event::LastPublishedBlock(Some(u64::MAX)).is_in_range());
    assert!(Event::LastPublishedBlock(None).is_in_range());
    assert!(Event::StreamVersion(Some(u64::MAX)).is_in_range());
    assert!(Event::Done.is_in_range());
    assert!(Event::Failed.is_in_range());
    assert!(Event::Listed(vec![]).is_in_range());
}
