//! Command framing, reassembly, dispatch and response encoding for a USB
//! peripheral bridge.
//!
//! The host sends length-framed commands over a chunked byte stream. The
//! [`reassembly`] module cuts the stream into frames, [`command`] decodes
//! each into a command for one of three peripheral families, [`queue`] and
//! [`controller`] hand the commands out one at a time and in order, and
//! [`response`] encodes the outcome of each into the frame that answers it.
//! [`chunking`] states what holds of a stream however it is cut into reads.

pub mod error;
pub mod wire;
pub mod response;
pub mod command;
pub mod reassembly;
pub mod chunking;
pub mod queue;
pub mod controller;
pub mod serial;
