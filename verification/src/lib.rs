//! An ndt7 network-performance measurement client library.
//!
//! ndt7 measures download and upload throughput over a secured,
//! message-oriented connection and reports kernel-level metrics such as
//! latency and retransmission. This crate holds the measurement engine:
//! the wire model, target resolution, the two subtest state machines,
//! the payload-scaling policy and the summary calculator, each with a
//! verified contract.

use vstd::prelude::*;

pub mod client;
pub mod download;
pub mod error;
pub mod json;
pub mod locate;
pub mod messages;
pub mod params;
pub mod render;
pub mod roundtrip;
pub mod summary;
pub mod text;
pub mod upload;

verus! {

} // verus!
