//! ndt7 protocol data types.
//!
//! These structs match the JSON measurement messages that client and
//! server exchange during a test. Every leaf field is independently
//! optional on the wire; absent fields are omitted entirely.

use vstd::prelude::*;

verus! {

/// Which side produced a measurement.
#[derive(Debug, Clone, Copy, PartialEq, Eq, Structural)]
pub enum Origin {
    /// Measurement computed by the client.
    Client,
    /// Measurement reported by the server.
    Server,
}

/// Which subtest a measurement belongs to.
#[derive(Debug, Clone, Copy, PartialEq, Eq, Structural)]
pub enum TestKind {
    /// Download (server-to-client) test.
    Download,
    /// Upload (client-to-server) test.
    Upload,
}

/// Application-level throughput counters.
#[derive(Debug, Clone, PartialEq, Eq, Structural)]
pub struct AppInfo {
    /// Microseconds elapsed since the start of the test.
    pub elapsed_time: i64,
    /// Total bytes transferred so far.
    pub num_bytes: i64,
}

/// Endpoint addresses and connection metadata.
#[derive(Debug, Clone)]
pub struct ConnectionInfo {
    /// Client address as `ip:port`.
    pub client: String,
    /// Server address as `ip:port`.
    pub server: String,
    /// Unique identifier for the test assigned by the server.
    pub uuid: Option<String>,
    /// Start time of the test in RFC 3339 format.
    pub start_time: Option<String>,
}

/// TCP connection metrics from the kernel (server-side).
#[derive(Debug, Clone, PartialEq, Eq, Structural)]
pub struct TCPInfo {
    /// Time (microseconds) the connection has been actively sending data.
    pub busy_time: Option<i64>,
    /// Bytes acknowledged by the peer.
    pub bytes_acked: Option<i64>,
    /// Bytes received from the peer.
    pub bytes_received: Option<i64>,
    /// Bytes sent to the peer.
    pub bytes_sent: Option<i64>,
    /// Bytes retransmitted.
    pub bytes_retrans: Option<i64>,
    /// Microseconds elapsed since the TCP connection was established.
    pub elapsed_time: Option<i64>,
    /// Minimum round-trip time observed (microseconds).
    pub min_rtt: Option<i64>,
    /// Smoothed round-trip time (microseconds).
    pub rtt: Option<i64>,
    /// Round-trip time variance (microseconds).
    pub rtt_var: Option<i64>,
    /// Time (microseconds) limited by the receive window.
    pub rwnd_limited: Option<i64>,
    /// Time (microseconds) limited by the send buffer.
    pub snd_buf_limited: Option<i64>,
}

/// A single measurement message exchanged during an ndt7 test.
///
/// Both the server and client produce measurements. Server measurements
/// include [`TCPInfo`] from the kernel; client measurements include
/// [`AppInfo`] with application-level byte counts.
#[derive(Debug, Clone)]
pub struct Measurement {
    /// Application-level throughput counters.
    pub app_info: Option<AppInfo>,
    /// Connection endpoint addresses.
    pub connection_info: Option<ConnectionInfo>,
    /// Which side produced this measurement.
    pub origin: Option<Origin>,
    /// Which subtest this measurement belongs to.
    pub test: Option<TestKind>,
    /// TCP-level metrics from the kernel.
    pub tcp_info: Option<TCPInfo>,
}

/// One incoming frame of the message-oriented connection, as the
/// engines see it. Control frames the transport answers by itself are
/// `Other`.
#[derive(Debug)]
pub enum WireMessage {
    /// Opaque filler payload; only its length is meaningful.
    Binary(Vec<u8>),
    /// A JSON-encoded measurement record.
    Text(String),
    /// The peer closed the connection.
    Close,
    /// Any other frame (ping, pong).
    Other,
}

/// The synthetic client-origin snapshot built from local counters.
pub open spec fn client_snapshot(elapsed_micros: i64, total_bytes: i64, t: TestKind) -> Measurement {
    Measurement {
        app_info: Some(AppInfo { elapsed_time: elapsed_micros, num_bytes: total_bytes }),
        connection_info: None,
        origin: Some(Origin::Client),
        test: Some(t),
        tcp_info: None,
    }
}

/// Equivalence of optional strings, compared by their character content.
pub open spec fn opt_string_eqv(a: Option<String>, b: Option<String>) -> bool {
    match (a, b) {
        (Option::None, Option::None) => true,
        (Option::Some(x), Option::Some(y)) => x@ == y@,
        _ => false,
    }
}

/// Field-for-field equivalence of connection records; strings are
/// compared by their character content.
pub open spec fn connection_info_eqv(a: ConnectionInfo, b: ConnectionInfo) -> bool {
    &&& a.client@ == b.client@
    &&& a.server@ == b.server@
    &&& opt_string_eqv(a.uuid, b.uuid)
    &&& opt_string_eqv(a.start_time, b.start_time)
}

/// Field-for-field equivalence of measurements; strings are compared by
/// their character content.
pub open spec fn measurement_eqv(a: Measurement, b: Measurement) -> bool {
    &&& a.app_info == b.app_info
    &&& match (a.connection_info, b.connection_info) {
        (Option::None, Option::None) => true,
        (Option::Some(x), Option::Some(y)) => connection_info_eqv(x, y),
        _ => false,
    }
    &&& a.origin == b.origin
    &&& a.test == b.test
    &&& a.tcp_info == b.tcp_info
}

impl PartialEq for ConnectionInfo {
    fn eq(&self, other: &ConnectionInfo) -> (r: bool) {
        let uuid_eq: bool = match (&self.uuid, &other.uuid) {
            (Option::None, Option::None) => true,
            (Option::Some(x), Option::Some(y)) => *x == *y,
            _ => false,
        };
        let start_eq: bool = match (&self.start_time, &other.start_time) {
            (Option::None, Option::None) => true,
            (Option::Some(x), Option::Some(y)) => *x == *y,
            _ => false,
        };
        self.client == other.client && self.server == other.server && uuid_eq && start_eq
    }
}

impl vstd::std_specs::cmp::PartialEqSpecImpl for ConnectionInfo {
    open spec fn obeys_eq_spec() -> bool {
        true
    }

    open spec fn eq_spec(&self, other: &ConnectionInfo) -> bool {
        connection_info_eqv(*self, *other)
    }
}

impl PartialEq for Measurement {
    fn eq(&self, other: &Measurement) -> (r: bool) {
        let app_eq: bool = match (&self.app_info, &other.app_info) {
            (Option::None, Option::None) => true,
            (Option::Some(x), Option::Some(y)) => *x == *y,
            _ => false,
        };
        let conn_eq: bool = match (&self.connection_info, &other.connection_info) {
            (Option::None, Option::None) => true,
            (Option::Some(x), Option::Some(y)) => *x == *y,
            _ => false,
        };
        let origin_eq: bool = match (&self.origin, &other.origin) {
            (Option::None, Option::None) => true,
            (Option::Some(x), Option::Some(y)) => *x == *y,
            _ => false,
        };
        let test_eq: bool = match (&self.test, &other.test) {
            (Option::None, Option::None) => true,
            (Option::Some(x), Option::Some(y)) => *x == *y,
            _ => false,
        };
        let tcp_eq: bool = match (&self.tcp_info, &other.tcp_info) {
            (Option::None, Option::None) => true,
            (Option::Some(x), Option::Some(y)) => *x == *y,
            _ => false,
        };
        app_eq && conn_eq && origin_eq && test_eq && tcp_eq
    }
}

impl vstd::std_specs::cmp::PartialEqSpecImpl for Measurement {
    open spec fn obeys_eq_spec() -> bool {
        true
    }

    open spec fn eq_spec(&self, other: &Measurement) -> bool {
        measurement_eqv(*self, *other)
    }
}

/// The all-zero application counters.
pub open spec fn spec_default_app_info() -> AppInfo {
    AppInfo { elapsed_time: 0, num_bytes: 0 }
}

impl Default for AppInfo {
    fn default() -> (r: AppInfo)
        ensures
            r == spec_default_app_info(),
    {
        AppInfo { elapsed_time: 0, num_bytes: 0 }
    }
}

/// A connection record with empty addresses and nothing else set.
pub open spec fn connection_info_is_default(r: ConnectionInfo) -> bool {
    r.client@ == Seq::<char>::empty() && r.server@ == Seq::<char>::empty() && r.uuid is None
        && r.start_time is None
}

impl Default for ConnectionInfo {
    fn default() -> (r: ConnectionInfo)
        ensures
            connection_info_is_default(r),
    {
        ConnectionInfo { client: String::new(), server: String::new(), uuid: None, start_time: None }
    }
}

/// The kernel-metrics record with every counter absent.
pub open spec fn spec_default_tcp_info() -> TCPInfo {
    TCPInfo {
        busy_time: None,
        bytes_acked: None,
        bytes_received: None,
        bytes_sent: None,
        bytes_retrans: None,
        elapsed_time: None,
        min_rtt: None,
        rtt: None,
        rtt_var: None,
        rwnd_limited: None,
        snd_buf_limited: None,
    }
}

impl Default for TCPInfo {
    fn default() -> (r: TCPInfo)
        ensures
            r == spec_default_tcp_info(),
    {
        TCPInfo {
            busy_time: None,
            bytes_acked: None,
            bytes_received: None,
            bytes_sent: None,
            bytes_retrans: None,
            elapsed_time: None,
            min_rtt: None,
            rtt: None,
            rtt_var: None,
            rwnd_limited: None,
            snd_buf_limited: None,
        }
    }
}

/// A measurement with no fields set. It serializes to an empty structure.
pub open spec fn spec_default_measurement() -> Measurement {
    Measurement { app_info: None, connection_info: None, origin: None, test: None, tcp_info: None }
}

impl Default for Measurement {
    fn default() -> (r: Measurement)
        ensures
            r == spec_default_measurement(),
    {
        Measurement { app_info: None, connection_info: None, origin: None, test: None, tcp_info: None }
    }
}

} // verus!
