//! Reconciliation of declared indexing jobs with the block streams that run them.
//!
//! The crate decides; it performs no I/O. A pass over the registry is a state
//! machine ([`synchronise::Synchroniser`]): every call that must go to the
//! stream fleet or to the durable store leaves the machine as a
//! [`protocol::Action`], and what came back re-enters it as a
//! [`protocol::Event`]. The caller carries the calls out.
//!
//! - [`config`]: declared jobs and running streams.
//! - [`status`]: the status of a job's stream, and the height it starts at.
//! - [`matching`]: pairing a job with the stream that runs it.
//! - [`block_stream`]: the calls of one job, reply by reply.
//! - [`synchronise`]: the pass over all jobs and all streams.
//! - [`model`]: a pass against a fleet and a store that answer truthfully.
//! - [`job_laws`], [`pass_laws`], [`idempotence`]: what is proved of it.

pub mod block_stream;
pub mod config;
pub mod idempotence;
pub mod job_laws;
pub mod matching;
pub mod model;
pub mod pass_laws;
pub mod protocol;
pub mod status;
pub mod synchronise;
