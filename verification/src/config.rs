//! The data a reconciliation pass reads: declared jobs and running streams.

use vstd::prelude::*;

verus! {

/// Stream version that marks a job carried over from the predecessor system.
pub const MIGRATED_STREAM_VERSION: u64 = 0;

/// Where a job that does not resume asks to begin.
#[derive(Clone, Copy, Debug, PartialEq, Eq, Structural)]
pub enum StartBlock {
    /// Begin at the job's current registry version.
    Latest,
    /// Begin at exactly this height.
    Height(u64),
    /// Resume behind the last block the job published.
    Continue,
}

/// Identity of a job: the account that owns it and the function's name.
pub type JobKey = (Seq<char>, Seq<char>);

/// Mathematical value of an [`IndexerConfig`].
pub struct IndexerConfigView {
    pub account_id: Seq<char>,
    pub function_name: Seq<char>,
    pub created_at_block_height: u64,
    pub updated_at_block_height: Option<u64>,
    pub start_block: StartBlock,
}

impl IndexerConfigView {
    /// The version the registry declares: the height of the last update, or
    /// of the creation where the job was never updated.
    pub open spec fn registry_version(self) -> u64 {
        match self.updated_at_block_height {
            Some(height) => height,
            None => self.created_at_block_height,
        }
    }

    /// The job's identity.
    pub open spec fn key(self) -> JobKey {
        (self.account_id, self.function_name)
    }
}

/// One declared job, reduced to what reconciliation reads.
#[derive(Clone, Debug, PartialEq, Eq)]
pub struct IndexerConfig {
    pub account_id: String,
    pub function_name: String,
    pub created_at_block_height: u64,
    pub updated_at_block_height: Option<u64>,
    pub start_block: StartBlock,
}

impl View for IndexerConfig {
    type V = IndexerConfigView;

    open spec fn view(&self) -> IndexerConfigView {
        IndexerConfigView {
            account_id: self.account_id@,
            function_name: self.function_name@,
            created_at_block_height: self.created_at_block_height,
            updated_at_block_height: self.updated_at_block_height,
            start_block: self.start_block,
        }
    }
}

impl IndexerConfig {
    /// The version the registry declares for the job.
    pub fn get_registry_version(&self) -> (version: u64)
        ensures
            version == self@.registry_version(),
    {
        match self.updated_at_block_height {
            Some(height) => height,
            None => self.created_at_block_height,
        }
    }
}

/// Mathematical value of a [`StreamInfo`].
pub struct StreamInfoView {
    pub stream_id: Seq<char>,
    pub account_id: Seq<char>,
    pub function_name: Seq<char>,
    pub version: u64,
}

impl StreamInfoView {
    /// The identity of the job that the stream runs.
    pub open spec fn key(self) -> JobKey {
        (self.account_id, self.function_name)
    }
}

/// A running block stream as the fleet reports it.
#[derive(Clone, Debug, PartialEq, Eq)]
pub struct StreamInfo {
    pub stream_id: String,
    pub account_id: String,
    pub function_name: String,
    pub version: u64,
}

impl View for StreamInfo {
    type V = StreamInfoView;

    open spec fn view(&self) -> StreamInfoView {
        StreamInfoView {
            stream_id: self.stream_id@,
            account_id: self.account_id@,
            function_name: self.function_name@,
            version: self.version,
        }
    }
}

} // verus!
