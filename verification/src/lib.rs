//! Segmented download pipeline for a single HTTP resource.
//!
//! The resource's total length is discovered from a `Content-Length` header,
//! the range `[0, total_length)` is partitioned into fixed-size segment
//! windows, each window's response body is copied into the matching slice of
//! one preallocated buffer, and a SHA-256 digest is computed over the
//! reassembled bytes.
//!
//! All network traffic stays outside this crate: callers hand raw response
//! bytes in and take plain values back.

use vstd::prelude::*;

pub mod decimal;
pub mod digest;
pub mod framing;
pub mod headers;
pub mod pipeline;
pub mod request;
pub mod windows;

verus! {

/// Number of payload bytes requested per segment window.
pub const PACKET_SIZE: u32 = 64000;

/// Protocol-level failures of the pipeline. Transport failures (refused
/// connection, timeouts) never reach this crate; they abort in the caller.
#[derive(Clone, Copy, Debug, PartialEq, Eq, Structural)]
pub enum ProtocolError {
    /// No blank line (CR LF CR LF) separates header block from body.
    MissingSeparator,
    /// No header line starts with `Content-Length:`.
    MissingContentLength,
    /// A `Content-Length` value is not a positive decimal `u32`.
    InvalidContentLength,
    /// A segment body's length differs from the requested window length.
    BodyLengthMismatch,
}

} // verus!
