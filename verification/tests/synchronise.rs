use coordinator::config::{IndexerConfig, StartBlock, StreamInfo, MIGRATED_STREAM_VERSION};
use coordinator::protocol::{Action, Event, SyncError};
use coordinator::synchronise::{synchronise_block_streams, JobFailure};

/// What the store holds for one job, or that the read fails.
#[derive(Clone, Copy)]
enum Stored {
    Value(Option<u64>),
    Unreachable,
}

/// Runs a whole pass against a fleet that lists `streams` and a store that
/// answers by job position; every other call succeeds.
fn run_pass(
    jobs: Vec<IndexerConfig>,
    streams: Vec<StreamInfo>,
    versions: Vec<Stored>,
    published: Vec<Stored>,
) -> (Vec<Action>, Vec<JobFailure>) {
    let (mut pass, mut action) = synchronise_block_streams(jobs);
    let mut issued = Vec::new();
    let mut failures = Vec::new();
    loop {
        issued.push(action.clone());
        let event = match &action {
            Action::List => Event::Listed(streams.clone()),
            Action::GetStreamVersion { job } => match versions[*job] {
                Stored::Value(version) => Event::StreamVersion(version),
                Stored::Unreachable => Event::Failed,
            },
            Action::GetLastPublishedBlock { job } => match published[*job] {
                Stored::Value(height) => Event::LastPublishedBlock(height),
                Stored::Unreachable => Event::Failed,
            },
            Action::Done | Action::Abort => break,
            _ => Event::Done,
        };
        let (next, step) = pass.step(event);
        pass = next;
        if let Some(failure) = step.failure {
            failures.push(failure);
        }
        action = step.action;
    }
    (issued, failures)
}

fn morgs_test(updated_at_block_height: Option<u64>, created_at_block_height: u64, start_block: StartBlock) -> IndexerConfig {
    IndexerConfig {
        account_id: "morgs.near".to_string(),
        function_name: "test".to_string(),
        created_at_block_height,
        updated_at_block_height,
        start_block,
    }
}

fn running(version: u64) -> StreamInfo {
    StreamInfo {
        stream_id: "stream_id".to_string(),
        account_id: "morgs.near".to_string(),
        function_name: "test".to_string(),
        version,
    }
}

#[test]
fn resumes_stream_with_matching_redis_version() {
    let config = morgs_test(Some(200), 1, StartBlock::Height(100));
    let (issued, failures) = run_pass(
        vec![config],
        vec![],
        vec![Stored::Value(Some(200))],
        vec![Stored::Value(Some(500))],
    );
    assert_eq!(
        issued,
        vec![
            Action::List,
            Action::GetStreamVersion { job: 0 },
            Action::GetLastPublishedBlock { job: 0 },
            Action::Start { job: 0, height: 501 },
            Action::SetStreamVersion { job: 0, version: 200 },
            Action::Done,
        ]
    );
    assert!(failures.is_empty());
}

#[test]
fn starts_stream_with_latest() {
    let config = morgs_test(Some(200), 1, StartBlock::Latest);
    let (issued, failures) = run_pass(
        vec![config],
        vec![],
        vec![Stored::Value(Some(1))],
        vec![Stored::Unreachable],
    );
    assert_eq!(
        issued,
        vec![
            Action::List,
            Action::GetStreamVersion { job: 0 },
            Action::ClearBlockStream { job: 0 },
            Action::Start { job: 0, height: 200 },
            Action::SetStreamVersion { job: 0, version: 200 },
            Action::Done,
        ]
    );
    assert!(failures.is_empty());
}

#[test]
fn starts_stream_with_height() {
    let config = morgs_test(Some(200), 1, StartBlock::Height(100));
    let (issued, failures) = run_pass(
        vec![config],
        vec![],
        vec![Stored::Value(Some(1))],
        vec![Stored::Unreachable],
    );
    assert_eq!(
        issued,
        vec![
            Action::List,
            Action::GetStreamVersion { job: 0 },
            Action::ClearBlockStream { job: 0 },
            Action::Start { job: 0, height: 100 },
            Action::SetStreamVersion { job: 0, version: 200 },
            Action::Done,
        ]
    );
    assert!(failures.is_empty());
}

#[test]
fn starts_stream_with_continue() {
    let config = morgs_test(Some(200), 1, StartBlock::Continue);
    let (issued, failures) = run_pass(
        vec![config],
        vec![],
        vec![Stored::Value(Some(1))],
        vec![Stored::Value(Some(100))],
    );
    assert_eq!(
        issued,
        vec![
            Action::List,
            Action::GetStreamVersion { job: 0 },
            Action::GetLastPublishedBlock { job: 0 },
            Action::Start { job: 0, height: 101 },
            Action::SetStreamVersion { job: 0, version: 200 },
            Action::Done,
        ]
    );
    assert!(failures.is_empty());
}

#[test]
fn stops_stream_not_in_registry() {
    let (issued, failures) = run_pass(vec![], vec![running(1)], vec![], vec![]);
    assert_eq!(
        issued,
        vec![Action::List, Action::Stop { stream_id: "stream_id".to_string() }, Action::Done]
    );
    assert!(failures.is_empty());
}

#[test]
fn ignores_stream_with_matching_registry_version() {
    let config = morgs_test(None, 101, StartBlock::Latest);
    let (issued, failures) = run_pass(
        vec![config],
        vec![running(101)],
        vec![Stored::Unreachable],
        vec![Stored::Unreachable],
    );
    assert_eq!(issued, vec![Action::List, Action::Done]);
    assert!(failures.is_empty());
}

#[test]
fn restarts_streams_when_registry_version_differs() {
    let config = morgs_test(Some(199), 101, StartBlock::Height(1000));
    let (issued, failures) = run_pass(
        vec![config],
        vec![running(101)],
        vec![Stored::Value(Some(101))],
        vec![Stored::Unreachable],
    );
    assert_eq!(
        issued,
        vec![
            Action::List,
            Action::Stop { stream_id: "stream_id".to_string() },
            Action::GetStreamVersion { job: 0 },
            Action::ClearBlockStream { job: 0 },
            Action::Start { job: 0, height: 1000 },
            Action::SetStreamVersion { job: 0, version: 199 },
            Action::Done,
        ]
    );
    assert!(failures.is_empty());
}

#[test]
fn resumes_stream_post_migration() {
    let config = morgs_test(Some(200), 101, StartBlock::Height(1000));
    let (issued, failures) = run_pass(
        vec![config],
        vec![],
        vec![Stored::Value(Some(MIGRATED_STREAM_VERSION))],
        vec![Stored::Value(Some(100))],
    );
    assert_eq!(
        issued,
        vec![
            Action::List,
            Action::GetStreamVersion { job: 0 },
            Action::GetLastPublishedBlock { job: 0 },
            Action::Start { job: 0, height: 101 },
            Action::SetStreamVersion { job: 0, version: 200 },
            Action::Done,
        ]
    );
    assert!(failures.is_empty());
}

#[test]
fn does_not_start_stream_without_last_published_block() {
    let config = morgs_test(Some(200), 101, StartBlock::Continue);
    let (issued, failures) = run_pass(
        vec![config],
        vec![],
        vec![Stored::Value(Some(101))],
        vec![Stored::Unreachable],
    );
    assert_eq!(
        issued,
        vec![
            Action::List,
            Action::GetStreamVersion { job: 0 },
            Action::GetLastPublishedBlock { job: 0 },
            Action::Done,
        ]
    );
    assert_eq!(failures, vec![JobFailure { job: 0, error: SyncError::CallFailed }]);
}

#[test]
fn starts_block_stream_for_first_time() {
    let config = morgs_test(None, 101, StartBlock::Height(50));
    let (issued, failures) = run_pass(
        vec![config],
        vec![],
        vec![Stored::Value(None)],
        vec![Stored::Unreachable],
    );
    assert_eq!(
        issued,
        vec![
            Action::List,
            Action::GetStreamVersion { job: 0 },
            Action::Start { job: 0, height: 50 },
            Action::SetStreamVersion { job: 0, version: 101 },
            Action::Done,
        ]
    );
    assert!(failures.is_empty());
}
