//! What the engine asks of its collaborators, and what they answer.

use vstd::prelude::*;
use crate::config::{StreamInfo, StreamInfoView};

verus! {

/// Mathematical value of an [`Action`].
pub enum ActionView {
    List,
    Stop { stream_id: Seq<char> },
    GetStreamVersion { job: int },
    ClearBlockStream { job: int },
    GetLastPublishedBlock { job: int },
    Start { job: int, height: u64 },
    SetStreamVersion { job: int, version: u64 },
    Done,
    Abort,
}

impl ActionView {
    /// The action starts or stops a stream.
    pub open spec fn touches_fleet(self) -> bool {
        self is Start || self is Stop
    }
}

/// The next call the driver has to make. Jobs are named by their position in
/// the list the pass was created with.
#[derive(Clone, Debug, PartialEq, Eq)]
pub enum Action {
    /// Ask the fleet for the running streams.
    List,
    /// Stop the stream with this identifier.
    Stop { stream_id: String },
    /// Read the job's recorded version from the store.
    GetStreamVersion { job: usize },
    /// Discard what the store buffered for the job.
    ClearBlockStream { job: usize },
    /// Read the last block the job published.
    GetLastPublishedBlock { job: usize },
    /// Start a stream for the job at this height.
    Start { job: usize, height: u64 },
    /// Record this version for the job in the store.
    SetStreamVersion { job: usize, version: u64 },
    /// The pass is complete.
    Done,
    /// The pass is over: the failure just handed in ends it.
    Abort,
}

impl View for Action {
    type V = ActionView;

    open spec fn view(&self) -> ActionView {
        match *self {
            Action::List => ActionView::List,
            Action::Stop { stream_id } => ActionView::Stop { stream_id: stream_id@ },
            Action::GetStreamVersion { job } => ActionView::GetStreamVersion { job: job as int },
            Action::ClearBlockStream { job } => ActionView::ClearBlockStream { job: job as int },
            Action::GetLastPublishedBlock { job } => ActionView::GetLastPublishedBlock {
                job: job as int,
            },
            Action::Start { job, height } => ActionView::Start { job: job as int, height },
            Action::SetStreamVersion { job, version } => ActionView::SetStreamVersion {
                job: job as int,
                version,
            },
            Action::Done => ActionView::Done,
            Action::Abort => ActionView::Abort,
        }
    }
}

/// The streams of a list, each by its value.
pub open spec fn streams_view(streams: Seq<StreamInfo>) -> Seq<StreamInfoView> {
    streams.map_values(|stream: StreamInfo| stream@)
}

/// The value of a stream that may be absent.
pub open spec fn stream_view(stream: Option<StreamInfo>) -> Option<StreamInfoView> {
    match stream {
        Some(stream) => Some(stream@),
        None => None,
    }
}

/// Mathematical value of an [`Event`].
pub enum EventView {
    Listed(Seq<StreamInfoView>),
    StreamVersion(Option<u64>),
    LastPublishedBlock(Option<u64>),
    Done,
    Failed,
}

/// What came back from the call that the last [`Action`] asked for.
#[derive(Clone, Debug, PartialEq, Eq)]
pub enum Event {
    /// The fleet's answer to [`Action::List`].
    Listed(Vec<StreamInfo>),
    /// The store's answer to [`Action::GetStreamVersion`].
    StreamVersion(Option<u64>),
    /// The store's answer to [`Action::GetLastPublishedBlock`].
    LastPublishedBlock(Option<u64>),
    /// A call that returns nothing succeeded.
    Done,
    /// The call failed.
    Failed,
}

impl View for Event {
    type V = EventView;

    open spec fn view(&self) -> EventView {
        match *self {
            Event::Listed(streams) => EventView::Listed(streams_view(streams@)),
            Event::StreamVersion(version) => EventView::StreamVersion(version),
            Event::LastPublishedBlock(height) => EventView::LastPublishedBlock(height),
            Event::Done => EventView::Done,
            Event::Failed => EventView::Failed,
        }
    }
}

impl EventView {
    /// The height behind a published block must exist.
    pub open spec fn in_range(self) -> bool {
        self matches EventView::LastPublishedBlock(Some(height)) ==> height < u64::MAX
    }
}

impl Event {
    /// Whether a pass accepts the event: the last published block, where
    /// the event carries one, is not the last height there is.
    pub fn is_in_range(&self) -> (accepted: bool)
        ensures
            accepted == self@.in_range(),
    {
        match self {
            Event::LastPublishedBlock(Some(height)) => *height < u64::MAX,
            _ => true,
        }
    }
}

/// Why the synchronisation of one job ended early.
#[derive(Clone, Copy, Debug, PartialEq, Eq, Structural)]
pub enum SyncError {
    /// The job has to resume and published no block yet.
    MissingProgress,
    /// A call to the fleet or to the store failed.
    CallFailed,
    /// The event does not answer the call that was pending.
    UnexpectedReply,
}

} // verus!
