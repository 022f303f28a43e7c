//! Classification of a job against the durable store, and where it resumes.

use vstd::prelude::*;
use crate::config::{IndexerConfig, IndexerConfigView, StartBlock, MIGRATED_STREAM_VERSION};
use crate::protocol::SyncError;

verus! {

/// Lifecycle state of a job's stream, by its recorded version.
#[derive(Clone, Copy, Debug, PartialEq, Eq, Structural)]
pub enum StreamStatus {
    /// The stream was carried over from the predecessor system.
    Migrated,
    /// The recorded version is the registry's.
    Synced,
    /// The recorded version is not the registry's.
    Outdated,
    /// No version was ever recorded.
    New,
}

/// The status of a stream by its recorded version: new without one,
/// migrated under the mark of a migration, synced under the registry's
/// version, outdated under any other, be it older or newer.
pub open spec fn stream_status(registry_version: u64, stream_version: Option<u64>) -> StreamStatus {
    match stream_version {
        None => StreamStatus::New,
        Some(version) => if version == MIGRATED_STREAM_VERSION {
            StreamStatus::Migrated
        } else if version == registry_version {
            StreamStatus::Synced
        } else {
            StreamStatus::Outdated
        },
    }
}

/// The recorded version is ahead of the registry's: an anomaly, which is
/// treated as outdated all the same.
pub open spec fn ahead_of_registry(registry_version: u64, stream_version: Option<u64>) -> bool {
    stream_version matches Some(version) && version != MIGRATED_STREAM_VERSION && version
        > registry_version
}

/// The buffered stream is discarded exactly for an outdated job that does
/// not ask to continue.
pub open spec fn clear_needed(status: StreamStatus, start_block: StartBlock) -> bool {
    status == StreamStatus::Outdated && start_block != StartBlock::Continue
}

/// Whether the start height is read off the last published block.
pub open spec fn resumes(status: StreamStatus, start_block: StartBlock) -> bool {
    status == StreamStatus::Migrated || status == StreamStatus::Synced
        || start_block == StartBlock::Continue
}

/// The height behind the last published block; none without such a block.
pub open spec fn continuation_height(last_published_block: Option<u64>) -> Result<u64, SyncError> {
    match last_published_block {
        Some(height) => Ok((height + 1) as u64),
        None => Err(SyncError::MissingProgress),
    }
}

/// The height a stream starts at. A migrated or synced job resumes behind
/// its last published block. A new or outdated job begins where it declares:
/// at the registry's version, at a fixed height, or behind its last
/// published block.
pub open spec fn start_height(
    status: StreamStatus,
    config: IndexerConfigView,
    last_published_block: Option<u64>,
) -> Result<u64, SyncError> {
    if status == StreamStatus::Migrated || status == StreamStatus::Synced {
        continuation_height(last_published_block)
    } else {
        match config.start_block {
            StartBlock::Latest => Ok(config.registry_version()),
            StartBlock::Height(height) => Ok(height),
            StartBlock::Continue => continuation_height(last_published_block),
        }
    }
}

/// Classifies a job's stream by the version the store recorded for it.
pub fn get_stream_status(registry_version: u64, stream_version: Option<u64>) -> (status: StreamStatus)
    ensures
        status == stream_status(registry_version, stream_version),
        status == StreamStatus::New <==> stream_version is None,
        status == StreamStatus::Migrated <==> stream_version == Some(MIGRATED_STREAM_VERSION),
        status == StreamStatus::Synced <==> stream_version == Some(registry_version)
            && registry_version != MIGRATED_STREAM_VERSION,
        status == StreamStatus::Outdated <==> (stream_version matches Some(version) && version
            != MIGRATED_STREAM_VERSION && version != registry_version),
{
    match stream_version {
        None => StreamStatus::New,
        Some(version) => {
            if version == MIGRATED_STREAM_VERSION {
                StreamStatus::Migrated
            } else if version == registry_version {
                StreamStatus::Synced
            } else {
                StreamStatus::Outdated
            }
        },
    }
}

/// Whether the store holds a version that the registry has not reached.
pub fn is_ahead_of_registry(registry_version: u64, stream_version: Option<u64>) -> (ahead: bool)
    ensures
        ahead == ahead_of_registry(registry_version, stream_version),
        ahead ==> stream_status(registry_version, stream_version) == StreamStatus::Outdated,
{
    match stream_version {
        Some(version) => version != MIGRATED_STREAM_VERSION && version > registry_version,
        None => false,
    }
}

/// Whether the job's buffered stream has to be cleared before it starts.
pub fn clear_block_stream_if_needed(status: StreamStatus, config: &IndexerConfig) -> (clear: bool)
    ensures
        clear == clear_needed(status, config@.start_block),
{
    match status {
        StreamStatus::Outdated => match config.start_block {
            StartBlock::Continue => false,
            _ => true,
        },
        _ => false,
    }
}

/// Whether the job's start height is read off its last published block.
pub fn resumes_from_last_published_block(status: StreamStatus, config: &IndexerConfig) -> (resume: bool)
    ensures
        resume == resumes(status, config@.start_block),
{
    match status {
        StreamStatus::Migrated | StreamStatus::Synced => true,
        _ => match config.start_block {
            StartBlock::Continue => true,
            _ => false,
        },
    }
}

/// The height at which a job resumes: one past its last published block.
pub fn get_continuation_block_height(last_published_block: Option<u64>) -> (height: Result<u64, SyncError>)
    requires
        last_published_block matches Some(published) ==> published < u64::MAX,
    ensures
        height == continuation_height(last_published_block),
        last_published_block matches Some(published) ==> height == Ok::<u64, SyncError>(
            (published + 1) as u64,
        ),
        last_published_block is None ==> height == Err::<u64, SyncError>(
            SyncError::MissingProgress,
        ),
{
    match last_published_block {
        Some(published) => Ok(published + 1),
        None => Err(SyncError::MissingProgress),
    }
}

/// The height at which the job's stream starts. The last published block
/// is read only for a job that resumes.
pub fn determine_start_block_height(
    status: StreamStatus,
    config: &IndexerConfig,
    last_published_block: Option<u64>,
) -> (height: Result<u64, SyncError>)
    requires
        resumes(status, config@.start_block) ==> (last_published_block matches Some(published)
            ==> published < u64::MAX),
    ensures
        height == start_height(status, config@, last_published_block),
        height is Err <==> resumes(status, config@.start_block) && last_published_block is None,
        height is Err ==> height == Err::<u64, SyncError>(SyncError::MissingProgress),
{
    match status {
        StreamStatus::Migrated | StreamStatus::Synced => get_continuation_block_height(
            last_published_block,
        ),
        _ => match config.start_block {
            StartBlock::Latest => Ok(config.get_registry_version()),
            StartBlock::Height(height) => Ok(height),
            StartBlock::Continue => get_continuation_block_height(last_published_block),
        },
    }
}

} // verus!
