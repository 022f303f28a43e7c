use coordinator::config::{IndexerConfig, StartBlock, MIGRATED_STREAM_VERSION};
use coordinator::protocol::SyncError;
use coordinator::status::{
    clear_block_stream_if_needed, determine_start_block_height, get_continuation_block_height,
    get_stream_status, is_ahead_of_registry, resumes_from_last_published_block, StreamStatus,
};

fn config(start_block: StartBlock) -> IndexerConfig {
    IndexerConfig {
        account_id: "morgs.near".to_string(),
        function_name: "test".to_string(),
        created_at_block_height: 101,
        updated_at_block_height: Some(200),
        start_block,
    }
}

const STATUSES: [StreamStatus; 4] =
    [StreamStatus::Migrated, StreamStatus::Synced, StreamStatus::Outdated, StreamStatus::New];

const POLICIES: [StartBlock; 3] = [StartBlock::Latest, StartBlock::Height(1000), StartBlock::Continue];

#[test]
fn registry_version_is_the_last_update() {
    assert_eq!(config(StartBlock::Latest).get_registry_version(), 200);
}

#[test]
fn registry_version_falls_back_to_creation() {
    let mut never_updated = config(StartBlock::Latest);
    never_updated.updated_at_block_height = None;
    assert_eq!(never_updated.get_registry_version(), 101);
}

#[test]
fn migrated_sentinel_is_zero() {
    assert_eq!(MIGRATED_STREAM_VERSION, 0);
}

#[test]
fn status_without_recorded_version_is_new() {
    assert_eq!(get_stream_status(200, None), StreamStatus::New);
}

#[test]
fn status_of_sentinel_is_migrated() {
    assert_eq!(get_stream_status(200, Some(MIGRATED_STREAM_VERSION)), StreamStatus::Migrated);
}

#[test]
fn status_of_equal_version_is_synced() {
    assert_eq!(get_stream_status(200, Some(200)), StreamStatus::Synced);
}

#[test]
fn status_of_older_version_is_outdated() {
    assert_eq!(get_stream_status(200, Some(199)), StreamStatus::Outdated);
}

#[test]
fn status_of_newer_version_is_outdated() {
    assert_eq!(get_stream_status(200, Some(201)), StreamStatus::Outdated);
}

#[test]
fn sentinel_wins_over_an_equal_registry_version() {
    assert_eq!(get_stream_status(0, Some(0)), StreamStatus::Migrated);
}

#[test]
fn clears_only_outdated_jobs_that_do_not_continue() {
    for status in STATUSES {
        for policy in POLICIES {
            let expected = status == StreamStatus::Outdated && policy != StartBlock::Continue;
            assert_eq!(clear_block_stream_if_needed(status, &config(policy)), expected);
        }
    }
}

#[test]
fn resumes_when_synced_migrated_or_asked_to_continue() {
    for status in STATUSES {
        for policy in POLICIES {
            let expected = status == StreamStatus::Migrated
                || status == StreamStatus::Synced
                || policy == StartBlock::Continue;
            assert_eq!(resumes_from_last_published_block(status, &config(policy)), expected);
        }
    }
}

#[test]
fn continuation_is_one_past_the_last_published_block() {
    assert_eq!(get_continuation_block_height(Some(100)), Ok(101));
    assert_eq!(get_continuation_block_height(Some(0)), Ok(1));
    assert_eq!(get_continuation_block_height(Some(u64::MAX - 1)), Ok(u64::MAX));
}

#[test]
fn continuation_without_progress_fails() {
    assert_eq!(get_continuation_block_height(None), Err(SyncError::MissingProgress));
}

#[test]
fn synced_and_migrated_resume_whatever_the_policy() {
    for status in [StreamStatus::Migrated, StreamStatus::Synced] {
        for policy in POLICIES {
            assert_eq!(determine_start_block_height(status, &config(policy), Some(100)), Ok(101));
            assert_eq!(
                determine_start_block_height(status, &config(policy), None),
                Err(SyncError::MissingProgress)
            );
        }
    }
}

#[test]
fn new_and_outdated_follow_the_policy() {
    for status in [StreamStatus::New, StreamStatus::Outdated] {
        assert_eq!(
            determine_start_block_height(status, &config(StartBlock::Latest), Some(100)),
            Ok(200)
        );
        assert_eq!(determine_start_block_height(status, &config(StartBlock::Latest), None), Ok(200));
        assert_eq!(
            determine_start_block_height(status, &config(StartBlock::Height(1000)), Some(100)),
            Ok(1000)
        );
        assert_eq!(
            determine_start_block_height(status, &config(StartBlock::Height(50)), None),
            Ok(50)
        );
        assert_eq!(
            determine_start_block_height(status, &config(StartBlock::Continue), Some(100)),
            Ok(101)
        );
        assert_eq!(
            determine_start_block_height(status, &config(StartBlock::Continue), None),
            Err(SyncError::MissingProgress)
        );
    }
}

#[test]
fn only_a_newer_recorded_version_is_ahead() {
    assert!(is_ahead_of_registry(200, Some(201)));
    assert!(!is_ahead_of_registry(200, Some(200)));
    assert!(!is_ahead_of_registry(200, Some(199)));
    assert!(!is_ahead_of_registry(200, None));
    assert!(!is_ahead_of_registry(0, Some(MIGRATED_STREAM_VERSION)));
}
