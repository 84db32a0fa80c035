//! Protocol constants and tuning parameters.

use vstd::prelude::*;

verus! {

/// Value of the Sec-WebSocket-Protocol header.
pub const SEC_WEBSOCKET_PROTOCOL: &'static str = "net.measurementlab.ndt.v7";

/// URL path for the download test.
pub const DOWNLOAD_URL_PATH: &'static str = "/ndt/v7/download";

/// URL path for the upload test.
pub const UPLOAD_URL_PATH: &'static str = "/ndt/v7/upload";

/// Initial size of uploaded messages (8 KiB).
pub const INITIAL_MESSAGE_SIZE: usize = 8192;

/// Maximum accepted message size (1 MiB).
pub const MAX_MESSAGE_SIZE: usize = 1048576;

/// Threshold for scaling binary messages. When the current message size is
/// at most 1/SCALING_FRACTION of the total bytes sent, the message size
/// doubles.
pub const SCALING_FRACTION: usize = 16;

/// Time in microseconds after which the download test must stop.
pub const DOWNLOAD_TIMEOUT_MICROS: i64 = 15_000_000;

/// Time in microseconds after which the upload test must stop.
pub const UPLOAD_TIMEOUT_MICROS: i64 = 10_000_000;

/// Timeout in microseconds for the connect phase.
pub const IO_TIMEOUT_MICROS: i64 = 7_000_000;

/// Interval in microseconds between client-side measurement updates.
pub const UPDATE_INTERVAL_MICROS: i64 = 250_000;

} // verus!
