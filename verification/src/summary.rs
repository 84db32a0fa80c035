//! Derivation of the run summary from terminal measurement records.
//!
//! The derived metrics are exact rationals: throughput in Mbit/s is
//! `8 × bytes / elapsed_microseconds`, latency in ms is the minimum
//! round-trip time over 1000, and the retransmission percentage is
//! `100 × retransmitted / sent`. Rendering them at a chosen precision
//! is presentation, not derivation, and happens elsewhere.

use vstd::prelude::*;
use vstd::string::StrSliceExecFns;
use vstd::string::StringExecFns;

use crate::messages::ConnectionInfo;
use crate::messages::Measurement;
use crate::text::digit_run_end;
use crate::text::digit_val;
use crate::text::digits_value;
use crate::text::is_digit;
use crate::text::is_hex_digit;

verus! {

/// An exact ratio of two integers; the denominator is positive.
#[derive(Debug, Clone, Copy, PartialEq, Eq, Structural)]
pub struct Ratio {
    /// Numerator.
    pub num: i128,
    /// Denominator, always positive.
    pub den: i128,
}

impl Ratio {
    /// Well-formedness: the denominator is positive.
    pub open spec fn wf(self) -> bool {
        self.den > 0
    }
}

/// The three derived metrics of one subtest.
#[derive(Debug, Clone, Copy, PartialEq, Eq, Structural)]
pub struct SubtestSummary {
    /// Throughput in Mbit/s.
    pub throughput_mbps: Ratio,
    /// Latency (minimum round-trip time) in milliseconds.
    pub latency_ms: Ratio,
    /// Share of sent bytes that were retransmitted, as a percentage.
    pub retransmission_pct: Ratio,
}

/// The condensed result of a whole run.
#[derive(Debug, Clone)]
pub struct Summary {
    /// Name of the server the tests ran against.
    pub server_fqdn: String,
    /// Client address with the port stripped.
    pub client_ip: String,
    /// Server address with the port stripped.
    pub server_ip: String,
    /// Download metrics, when the download subtest produced both
    /// terminal records.
    pub download: Option<SubtestSummary>,
    /// Upload metrics, when the server reported usable counters.
    pub upload: Option<SubtestSummary>,
}

/// The latency and retransmission metrics shared by both subtests,
/// from an optional kernel-metrics record.
pub open spec fn spec_latency_ms(tcp: Option<crate::messages::TCPInfo>) -> Ratio {
    let rtt: i64 = match tcp {
        Option::Some(t) => match t.min_rtt {
            Option::Some(v) => v,
            Option::None => 0,
        },
        Option::None => 0,
    };
    Ratio { num: rtt as int as i128, den: 1000 }
}

/// The retransmission percentage: `100 × retransmitted / sent` when
/// any bytes were sent, zero otherwise.
pub open spec fn spec_retransmission_pct(tcp: Option<crate::messages::TCPInfo>) -> Ratio {
    let sent: i64 = match tcp {
        Option::Some(t) => match t.bytes_sent {
            Option::Some(v) => v,
            Option::None => 0,
        },
        Option::None => 0,
    };
    let retrans: i64 = match tcp {
        Option::Some(t) => match t.bytes_retrans {
            Option::Some(v) => v,
            Option::None => 0,
        },
        Option::None => 0,
    };
    if sent > 0 {
        Ratio { num: (100 * retrans) as i128, den: sent as int as i128 }
    } else {
        Ratio { num: 0, den: 1 }
    }
}

/// The download summary: throughput from the last client-origin
/// application counters, latency and retransmission from the last
/// server-origin kernel counters. Absent counters or a non-positive
/// elapsed time suppress the summary.
pub open spec fn spec_from_download(client: Measurement, server: Measurement) -> Option<
    SubtestSummary,
> {
    match client.app_info {
        Option::None => None,
        Option::Some(app) => if app.elapsed_time <= 0 {
            None
        } else {
            Some(
                SubtestSummary {
                    throughput_mbps: Ratio {
                        num: (8 * app.num_bytes) as i128,
                        den: app.elapsed_time as int as i128,
                    },
                    latency_ms: spec_latency_ms(server.tcp_info),
                    retransmission_pct: spec_retransmission_pct(server.tcp_info),
                },
            )
        },
    }
}

/// The upload summary, derived purely from the last server-origin
/// record: a missing or non-positive server elapsed time suppresses it.
pub open spec fn spec_from_upload(server: Measurement) -> Option<SubtestSummary> {
    match server.tcp_info {
        Option::None => None,
        Option::Some(tcp) => match tcp.elapsed_time {
            Option::None => None,
            Option::Some(elapsed) => if elapsed <= 0 {
                None
            } else {
                let received: i64 = match tcp.bytes_received {
                    Option::Some(v) => v,
                    Option::None => 0,
                };
                Some(
                    SubtestSummary {
                        throughput_mbps: Ratio {
                            num: (8 * received) as i128,
                            den: elapsed as int as i128,
                        },
                        latency_ms: spec_latency_ms(server.tcp_info),
                        retransmission_pct: spec_retransmission_pct(server.tcp_info),
                    },
                )
            },
        },
    }
}

impl SubtestSummary {
    /// Build the download summary; see [`spec_from_download`].
    pub fn from_download(client: &Measurement, server: &Measurement) -> (r: Option<SubtestSummary>)
        ensures
            r == spec_from_download(*client, *server),
            r matches Some(s) ==> s.throughput_mbps.wf() && s.latency_ms.wf()
                && s.retransmission_pct.wf(),
    {
        let app = match &client.app_info {
            Option::Some(a) => a,
            Option::None => {
                return None;
            },
        };
        if app.elapsed_time <= 0 {
            return None;
        }
        let throughput_mbps = Ratio {
            num: 8 * (app.num_bytes as i128),
            den: app.elapsed_time as i128,
        };
        Some(
            SubtestSummary {
                throughput_mbps,
                latency_ms: latency_ms_of(&server.tcp_info),
                retransmission_pct: retransmission_pct_of(&server.tcp_info),
            },
        )
    }

    /// Build the upload summary; see [`spec_from_upload`].
    pub fn from_upload(server: &Measurement) -> (r: Option<SubtestSummary>)
        ensures
            r == spec_from_upload(*server),
            r matches Some(s) ==> s.throughput_mbps.wf() && s.latency_ms.wf()
                && s.retransmission_pct.wf(),
    {
        let tcp = match &server.tcp_info {
            Option::Some(t) => t,
            Option::None => {
                return None;
            },
        };
        let elapsed = match tcp.elapsed_time {
            Option::Some(e) => e,
            Option::None => {
                return None;
            },
        };
        if elapsed <= 0 {
            return None;
        }
        let received = match tcp.bytes_received {
            Option::Some(v) => v,
            Option::None => 0,
        };
        Some(
            SubtestSummary {
                throughput_mbps: Ratio { num: 8 * (received as i128), den: elapsed as i128 },
                latency_ms: latency_ms_of(&server.tcp_info),
                retransmission_pct: retransmission_pct_of(&server.tcp_info),
            },
        )
    }
}

/// Exec mirror of [`spec_latency_ms`].
fn latency_ms_of(tcp: &Option<crate::messages::TCPInfo>) -> (r: Ratio)
    ensures
        r == spec_latency_ms(*tcp),
        r.wf(),
{
    let rtt: i64 = match tcp {
        Option::Some(t) => match t.min_rtt {
            Option::Some(v) => v,
            Option::None => 0,
        },
        Option::None => 0,
    };
    Ratio { num: rtt as i128, den: 1000 }
}

/// Exec mirror of [`spec_retransmission_pct`].
fn retransmission_pct_of(tcp: &Option<crate::messages::TCPInfo>) -> (r: Ratio)
    ensures
        r == spec_retransmission_pct(*tcp),
        r.wf(),
{
    let sent: i64 = match tcp {
        Option::Some(t) => match t.bytes_sent {
            Option::Some(v) => v,
            Option::None => 0,
        },
        Option::None => 0,
    };
    let retrans: i64 = match tcp {
        Option::Some(t) => match t.bytes_retrans {
            Option::Some(v) => v,
            Option::None => 0,
        },
        Option::None => 0,
    };
    if sent > 0 {
        Ratio { num: 100 * (retrans as i128), den: sent as i128 }
    } else {
        Ratio { num: 0, den: 1 }
    }
}

/// One address octet: one to three digits, no redundant leading zero,
/// value at most 255.
pub open spec fn valid_octet(s: Seq<char>, i: int, j: int) -> bool {
    &&& 1 <= j - i <= 3
    &&& (j - i == 1 || s[i] != '0')
    &&& digits_value(s, i, j) <= 255
}

/// A dotted-quad address covering all of `s[i..j)`.
pub open spec fn valid_ipv4(s: Seq<char>, i: int, j: int) -> bool {
    let e1 = digit_run_end(s, i);
    let e2 = digit_run_end(s, e1 + 1);
    let e3 = digit_run_end(s, e2 + 1);
    let e4 = digit_run_end(s, e3 + 1);
    &&& valid_octet(s, i, e1)
    &&& e1 < j && s[e1] == '.'
    &&& valid_octet(s, e1 + 1, e2)
    &&& e2 < j && s[e2] == '.'
    &&& valid_octet(s, e2 + 1, e3)
    &&& e3 < j && s[e3] == '.'
    &&& valid_octet(s, e3 + 1, e4)
    &&& e4 == j
}

/// A port: one or more digits valuing at most 65535.
pub open spec fn valid_port(s: Seq<char>, i: int) -> bool {
    &&& i < s.len()
    &&& digit_run_end(s, i) == s.len()
    &&& digits_value(s, i, s.len() as int) <= 65535
}

/// The unbracketed strippable shape: a dotted quad, exactly one
/// colon, then a port.
pub open spec fn is_v4_port(a: Seq<char>) -> bool {
    let p = first_colon(a, 0);
    &&& p < a.len()
    &&& first_colon(a, p + 1) == a.len()
    &&& valid_ipv4(a, 0, p)
    &&& valid_port(a, p + 1)
}

/// A plausible bracketed address body: hexadecimal digits, colons and
/// dots, with at least one colon, and not itself of the strippable
/// `ip:port` shape (so stripping is idempotent). This is a
/// best-effort check, not a full address grammar.
pub open spec fn plausible_ipv6(b: Seq<char>) -> bool {
    &&& b.len() >= 2
    &&& forall|k: int| 0 <= k < b.len() ==> is_hex_digit(#[trigger] b[k]) || b[k] == ':' || b[k]
        == '.'
    &&& exists|k: int| 0 <= k < b.len() && #[trigger] b[k] == ':'
    &&& !is_v4_port(b)
}

/// The position of the first colon at or after `i` (or the length).
pub open spec fn first_colon(s: Seq<char>, i: int) -> int
    decreases s.len() - i,
{
    if 0 <= i < s.len() {
        if s[i] == ':' {
            i
        } else {
            first_colon(s, i + 1)
        }
    } else {
        s.len() as int
    }
}

/// The position of the first closing bracket at or after `i` (or the
/// length).
pub open spec fn first_bracket_end(s: Seq<char>, i: int) -> int
    decreases s.len() - i,
{
    if 0 <= i < s.len() {
        if s[i] == ']' {
            i
        } else {
            first_bracket_end(s, i + 1)
        }
    } else {
        s.len() as int
    }
}

/// An address with the port stripped, best-effort: `a.b.c.d:port`
/// becomes the dotted quad, `[addr]:port` becomes the bracket body,
/// anything malformed passes through unchanged.
pub open spec fn spec_strip_port(a: Seq<char>) -> Seq<char> {
    if a.len() > 0 && a[0] == '[' {
        let p = first_bracket_end(a, 1);
        if p + 1 < a.len() && a[p + 1] == ':' && valid_port(a, p + 2) && plausible_ipv6(
            a.subrange(1, p),
        ) {
            a.subrange(1, p)
        } else {
            a
        }
    } else {
        if is_v4_port(a) {
            a.subrange(0, first_colon(a, 0))
        } else {
            a
        }
    }
}

/// Where no colon occurs, the first-colon scan reaches the end.
proof fn lemma_first_colon_all(s: Seq<char>, i: int)
    requires
        0 <= i <= s.len(),
        forall|k: int| i <= k < s.len() ==> #[trigger] s[k] != ':',
    ensures
        first_colon(s, i) == s.len(),
    decreases s.len() - i,
{
    if i < s.len() {
        lemma_first_colon_all(s, i + 1);
    }
}

/// A dotted-quad address consists of digits and dots alone.
proof fn lemma_ipv4_chars(s: Seq<char>, i: int, j: int)
    requires
        0 <= i,
        j <= s.len(),
        valid_ipv4(s, i, j),
    ensures
        forall|k: int| i <= k < j ==> is_digit(#[trigger] s[k]) || s[k] == '.',
{
    let e1 = digit_run_end(s, i);
    let e2 = digit_run_end(s, e1 + 1);
    let e3 = digit_run_end(s, e2 + 1);
    let e4 = digit_run_end(s, e3 + 1);
    crate::text::lemma_digit_run_end(s, i);
    crate::text::lemma_digit_run_end(s, e1 + 1);
    crate::text::lemma_digit_run_end(s, e2 + 1);
    crate::text::lemma_digit_run_end(s, e3 + 1);
    assert forall|k: int| i <= k < j implies is_digit(#[trigger] s[k]) || s[k] == '.' by {
        if k < e1 {
        } else if k == e1 {
        } else if k < e2 {
        } else if k == e2 {
        } else if k < e3 {
        } else if k == e3 {
        }
    }
}

/// Port stripping is idempotent: a second application leaves the
/// result of the first unchanged. In particular a stripped result
/// never reads as another `ip:port` or `[addr]:port` form.
pub proof fn lemma_strip_port_idempotent(a: Seq<char>)
    ensures
        spec_strip_port(spec_strip_port(a)) == spec_strip_port(a),
{
    if a.len() > 0 && a[0] == '[' {
        let p = first_bracket_end(a, 1);
        if p + 1 < a.len() && a[p + 1] == ':' && valid_port(a, p + 2) && plausible_ipv6(
            a.subrange(1, p),
        ) {
            let b = a.subrange(1, p);
            // the body holds no bracket, and by construction it is not
            // of the strippable shape
            assert(is_hex_digit(b[0]) || b[0] == ':' || b[0] == '.');
            assert(b[0] != '[') by {
                if b[0] == '[' {
                    assert(('[' as u32) == 91);
                }
            }
            assert(!is_v4_port(b));
            assert(spec_strip_port(b) == b);
        }
    } else {
        if is_v4_port(a) {
            let p = first_colon(a, 0);
            let b = a.subrange(0, p);
            // the quad is digits and dots alone: no colon, no bracket
            lemma_ipv4_chars(a, 0, p);
            assert forall|k: int| 0 <= k < b.len() implies #[trigger] b[k] != ':' by {
                assert(b[k] == a[k]);
                assert(is_digit(a[k]) || a[k] == '.');
                if b[k] == ':' {
                    assert((':' as u32) == 58);
                    assert(('.' as u32) == 46);
                }
            }
            lemma_first_colon_all(b, 0);
            assert(!is_v4_port(b));
            let e1 = digit_run_end(a, 0);
            assert(valid_octet(a, 0, e1));
            assert(is_digit(a[0]));
            assert(b.len() > 0 && b[0] == a[0]);
            assert(b[0] != '[') by {
                if b[0] == '[' {
                    assert(('[' as u32) == 91);
                }
            }
            assert(spec_strip_port(b) == b);
        }
    }
}

/// Ten to the `k`-th power.
pub open spec fn pow10(k: nat) -> nat
    decreases k,
{
    if k == 0 {
        1
    } else {
        10 * pow10((k - 1) as nat)
    }
}

/// A digit run's value is below ten to the number of its digits.
pub proof fn lemma_digits_value_small(s: Seq<char>, i: int, j: int)
    requires
        i <= j,
        forall|k: int| i <= k < j ==> is_digit(#[trigger] s[k]),
    ensures
        digits_value(s, i, j) < pow10((j - i) as nat),
    decreases j - i,
{
    if j > i {
        lemma_digits_value_small(s, i, j - 1);
        assert(pow10((j - i) as nat) == 10 * pow10((j - i - 1) as nat));
    }
}

/// Exec mirror of [`first_colon`].
fn first_colon_exec(s: &str, n: usize, i: usize) -> (r: usize)
    requires
        n == s@.len(),
        i <= n,
    ensures
        r == first_colon(s@, i as int),
        i <= r <= n,
    decreases n - i,
{
    if i < n {
        if s.get_char(i) == ':' {
            i
        } else {
            first_colon_exec(s, n, i + 1)
        }
    } else {
        n
    }
}

/// Exec mirror of [`first_bracket_end`].
fn first_bracket_end_exec(s: &str, n: usize, i: usize) -> (r: usize)
    requires
        n == s@.len(),
        i <= n,
    ensures
        r == first_bracket_end(s@, i as int),
        i <= r <= n,
    decreases n - i,
{
    if i < n {
        if s.get_char(i) == ']' {
            i
        } else {
            first_bracket_end_exec(s, n, i + 1)
        }
    } else {
        n
    }
}

/// Exec mirror of [`digit_run_end`].
fn digit_run_end_exec(s: &str, n: usize, i: usize) -> (r: usize)
    requires
        n == s@.len(),
        i <= n,
    ensures
        r == digit_run_end(s@, i as int),
        i <= r <= n,
    decreases n - i,
{
    if i < n {
        let c = s.get_char(i);
        if (c as u32) >= 48 && (c as u32) <= 57 {
            return digit_run_end_exec(s, n, i + 1);
        }
    }
    i
}

/// The value of a short digit run `s[i..j)`.
fn short_digits_value(s: &str, n: usize, i: usize, j: usize) -> (r: u32)
    requires
        n == s@.len(),
        i <= j <= n,
        j - i <= 5,
        forall|k: int| i <= k < j ==> is_digit(#[trigger] s@[k]),
    ensures
        r == digits_value(s@, i as int, j as int),
    decreases j - i,
{
    if j == i {
        0
    } else {
        let prefix = short_digits_value(s, n, i, j - 1);
        proof {
            crate::text::lemma_digits_value_bounds(s@, i as int, j as int - 1);
            lemma_digits_value_small(s@, i as int, j as int - 1);
            lemma_pow10_pos_mono((j - i - 1) as nat, 4);
            assert(pow10(4) == 10000) by {
                assert(pow10(0) == 1);
                assert(pow10(1) == 10);
                assert(pow10(2) == 100);
                assert(pow10(3) == 1000);
                assert(pow10(4) == 10000);
            }
        }
        let c = s.get_char(j - 1);
        prefix * 10 + ((c as u32) - 48)
    }
}

/// Whether `s[i..)` is a valid port.
fn is_valid_port(s: &str, n: usize, i: usize) -> (r: bool)
    requires
        n == s@.len(),
        i <= n,
    ensures
        r == valid_port(s@, i as int),
{
    if i >= n {
        return false;
    }
    let e = digit_run_end_exec(s, n, i);
    if e != n {
        return false;
    }
    proof {
        crate::text::lemma_digit_run_end(s@, i as int);
    }
    // Leading zeros do not change the value; the rest must be short
    // enough that its value can be compared against the port maximum.
    let z = zero_run_end_exec(s, n, i);
    proof {
        lemma_leading_zeros(s@, i as int, z as int, n as int);
    }
    if z == n {
        return true;
    }
    if n - z > 5 {
        proof {
            lemma_digits_value_min(s@, z as int, n as int);
            lemma_pow10_pos_mono(5, (n - z - 1) as nat);
            assert(pow10(5) == 100000) by {
                assert(pow10(0) == 1);
                assert(pow10(1) == 10);
                assert(pow10(2) == 100);
                assert(pow10(3) == 1000);
                assert(pow10(4) == 10000);
                assert(pow10(5) == 100000);
            }
        }
        return false;
    }
    let v = short_digits_value(s, n, z, n);
    v <= 65535
}

/// Powers of ten are positive and monotone.
proof fn lemma_pow10_pos_mono(k1: nat, k2: nat)
    requires
        k1 <= k2,
    ensures
        1 <= pow10(k1),
        pow10(k1) <= pow10(k2),
    decreases k2,
{
    if k2 > 0 {
        if k1 < k2 {
            lemma_pow10_pos_mono(k1, (k2 - 1) as nat);
        } else {
            lemma_pow10_pos_mono((k1 - 1) as nat, (k2 - 1) as nat);
        }
    }
}

/// The position of the first character at or after `i` that is not a
/// zero digit (or the end of `s`).
pub open spec fn zero_run_end(s: Seq<char>, i: int) -> int
    decreases s.len() - i,
{
    if 0 <= i < s.len() && (s[i] as u32) == 48 {
        zero_run_end(s, i + 1)
    } else {
        i
    }
}

/// Exec mirror of [`zero_run_end`].
fn zero_run_end_exec(s: &str, n: usize, i: usize) -> (r: usize)
    requires
        n == s@.len(),
        i <= n,
    ensures
        r == zero_run_end(s@, i as int),
        i <= r <= n,
        forall|k: int| i <= k < r ==> (#[trigger] s@[k] as u32) == 48,
        r < n ==> (s@[r as int] as u32) != 48,
    decreases n - i,
{
    if i < n {
        let c = s.get_char(i);
        if (c as u32) == 48 {
            return zero_run_end_exec(s, n, i + 1);
        }
    }
    i
}

/// Leading zero digits do not change a run's value.
proof fn lemma_leading_zeros(s: Seq<char>, i: int, z: int, j: int)
    requires
        i <= z <= j,
        forall|k: int| i <= k < z ==> (#[trigger] s[k] as u32) == 48,
    ensures
        digits_value(s, i, j) == digits_value(s, z, j),
    decreases j - i,
{
    if i < z {
        lemma_one_leading_zero(s, i, j);
        lemma_leading_zeros(s, i + 1, z, j);
    }
}

/// One leading zero digit does not change a run's value.
proof fn lemma_one_leading_zero(s: Seq<char>, i: int, j: int)
    requires
        i < j,
        (s[i] as u32) == 48,
    ensures
        digits_value(s, i, j) == digits_value(s, i + 1, j),
    decreases j - i,
{
    if j > i + 1 {
        lemma_one_leading_zero(s, i, j - 1);
        assert(digits_value(s, i, j) == digits_value(s, i, j - 1) * 10 + digit_val(s[j - 1]));
        assert(digits_value(s, i + 1, j) == digits_value(s, i + 1, j - 1) * 10 + digit_val(
            s[j - 1],
        ));
    } else {
        assert(digits_value(s, i, i) == 0);
        assert(digits_value(s, i + 1, j) == 0);
        assert(digits_value(s, i, j) == digits_value(s, i, i) * 10 + digit_val(s[i]));
    }
}

/// A run that starts with a non-zero digit values at least ten to one
/// less than the number of its digits.
proof fn lemma_digits_value_min(s: Seq<char>, i: int, j: int)
    requires
        i < j,
        forall|k: int| i <= k < j ==> is_digit(#[trigger] s[k]),
        (s[i] as u32) != 48,
    ensures
        digits_value(s, i, j) >= pow10((j - i - 1) as nat),
    decreases j - i,
{
    if j == i + 1 {
        assert(digits_value(s, i, i) == 0);
        assert(digits_value(s, i, j) == digits_value(s, i, i) * 10 + digit_val(s[i]));
        assert(is_digit(s[i]));
        assert(digit_val(s[i]) >= 1);
        assert(pow10(0) == 1);
    } else {
        lemma_digits_value_min(s, i, j - 1);
        assert(digits_value(s, i, j) == digits_value(s, i, j - 1) * 10 + digit_val(s[j - 1]));
        assert(pow10((j - i - 1) as nat) == 10 * pow10((j - i - 2) as nat));
        assert(digits_value(s, i, j - 1) * 10 >= pow10((j - i - 2) as nat) * 10)
            by (nonlinear_arith)
            requires
                digits_value(s, i, j - 1) >= pow10((j - i - 2) as nat),
        ;
    }
}

/// Whether `s[i..j)` is a valid dotted-quad address.
fn is_valid_ipv4(s: &str, n: usize, i: usize, j: usize) -> (r: bool)
    requires
        n == s@.len(),
        i <= j <= n,
    ensures
        r == valid_ipv4(s@, i as int, j as int),
{
    let e1 = digit_run_end_exec(s, n, i);
    if !octet_ok(s, n, i, e1) || e1 >= j || s.get_char(e1) != '.' {
        return false;
    }
    let e2 = digit_run_end_exec(s, n, e1 + 1);
    if !octet_ok(s, n, e1 + 1, e2) || e2 >= j || s.get_char(e2) != '.' {
        return false;
    }
    let e3 = digit_run_end_exec(s, n, e2 + 1);
    if !octet_ok(s, n, e2 + 1, e3) || e3 >= j || s.get_char(e3) != '.' {
        return false;
    }
    let e4 = digit_run_end_exec(s, n, e3 + 1);
    if !octet_ok(s, n, e3 + 1, e4) || e4 != j {
        return false;
    }
    true
}

/// Whether `s[i..j)` is a valid address octet, `j` being the end of the
/// digit run starting at `i`.
fn octet_ok(s: &str, n: usize, i: usize, j: usize) -> (r: bool)
    requires
        n == s@.len(),
        i <= j <= n,
        j == digit_run_end(s@, i as int),
    ensures
        r == valid_octet(s@, i as int, j as int),
{
    proof {
        crate::text::lemma_digit_run_end(s@, i as int);
    }
    if j - i < 1 || j - i > 3 {
        return false;
    }
    if j - i > 1 && s.get_char(i) == '0' {
        return false;
    }
    let v = short_digits_value(s, n, i, j);
    v <= 255
}

/// Exec mirror of [`is_v4_port`]: the colon position when the address
/// has the strippable shape.
fn v4_port_split(s: &str, n: usize) -> (r: Option<usize>)
    requires
        n == s@.len(),
    ensures
        r is Some <==> is_v4_port(s@),
        r matches Some(p) ==> p == first_colon(s@, 0) && p < n,
{
    let p = first_colon_exec(s, n, 0);
    if p < n {
        let rest = first_colon_exec(s, n, p + 1);
        if rest == n && is_valid_ipv4(s, n, 0, p) && is_valid_port(s, n, p + 1) {
            return Some(p);
        }
    }
    None
}

/// Strips the port from an `ip:port` or `[addr]:port` string; a
/// malformed address passes through unchanged, best-effort.
pub fn strip_port(addr: &str) -> (r: String)
    ensures
        r@ == spec_strip_port(addr@),
{
    let n = addr.unicode_len();
    if n > 0 && addr.get_char(0) == '[' {
        let p = first_bracket_end_exec(addr, n, 1);
        if n - p > 1 && addr.get_char(p + 1) == ':' && is_valid_port(addr, n, p + 2) {
            let inner = addr.substring_char(1, p);
            if is_plausible_ipv6(inner) {
                return String::from_str(inner);
            }
        }
        return String::from_str(addr);
    }
    match v4_port_split(addr, n) {
        Option::Some(p) => {
            let prefix = addr.substring_char(0, p);
            String::from_str(prefix)
        },
        Option::None => String::from_str(addr),
    }
}

/// Exec mirror of [`plausible_ipv6`].
fn is_plausible_ipv6(b: &str) -> (r: bool)
    ensures
        r == plausible_ipv6(b@),
{
    let n = b.unicode_len();
    if n < 2 {
        return false;
    }
    let mut k: usize = 0;
    let mut seen_colon: bool = false;
    while k < n
        invariant
            k <= n,
            n == b@.len(),
            forall|q: int| 0 <= q < k ==> is_hex_digit(#[trigger] b@[q]) || b@[q] == ':' || b@[q]
                == '.',
            seen_colon <==> exists|q: int| 0 <= q < k && #[trigger] b@[q] == ':',
        decreases n - k,
    {
        let c = b.get_char(k);
        let v = c as u32;
        let hex = (48 <= v && v <= 57) || (97 <= v && v <= 102) || (65 <= v && v <= 70);
        if c == ':' {
            seen_colon = true;
        } else if !hex && c != '.' {
            return false;
        }
        k = k + 1;
    }
    if !seen_colon {
        return false;
    }
    v4_port_split(b, n).is_none()
}

/// The connection record that address normalization draws from: the
/// download server record when there is one, else the upload server
/// record.
pub open spec fn spec_summary_conn(
    dl_server: Option<Measurement>,
    ul_server: Option<Measurement>,
) -> Option<ConnectionInfo> {
    match dl_server {
        Option::Some(m) => m.connection_info,
        Option::None => match ul_server {
            Option::Some(m) => m.connection_info,
            Option::None => None,
        },
    }
}

impl Summary {
    /// Condenses the terminal records of both subtests into the run
    /// summary: addresses normalized from whichever server record is
    /// present, and one optional metrics block per subtest.
    pub fn from_measurements(
        server_fqdn: String,
        dl_client: Option<&Measurement>,
        dl_server: Option<&Measurement>,
        ul_server: Option<&Measurement>,
    ) -> (r: Summary)
        ensures
            r.server_fqdn@ == server_fqdn@,
            match spec_summary_conn(
                match dl_server {
                    Option::None => None,
                    Option::Some(m) => Some(*m),
                },
                match ul_server {
                    Option::None => None,
                    Option::Some(m) => Some(*m),
                },
            ) {
                Option::Some(c) => r.client_ip@ == spec_strip_port(c.client@) && r.server_ip@
                    == spec_strip_port(c.server@),
                Option::None => r.client_ip@ == Seq::<char>::empty() && r.server_ip@
                    == Seq::<char>::empty(),
            },
            r.download == match (dl_client, dl_server) {
                (Option::Some(c), Option::Some(s)) => spec_from_download(*c, *s),
                _ => None,
            },
            r.upload == match ul_server {
                Option::Some(s) => spec_from_upload(*s),
                Option::None => None,
            },
    {
        let conn: Option<&ConnectionInfo> = match dl_server {
            Option::Some(m) => match &m.connection_info {
                Option::Some(c) => Some(c),
                Option::None => None,
            },
            Option::None => match ul_server {
                Option::Some(m) => match &m.connection_info {
                    Option::Some(c) => Some(c),
                    Option::None => None,
                },
                Option::None => None,
            },
        };
        let (client_ip, server_ip) = match conn {
            Option::Some(c) => (strip_port(c.client.as_str()), strip_port(c.server.as_str())),
            Option::None => (String::new(), String::new()),
        };
        let download = match (dl_client, dl_server) {
            (Option::Some(c), Option::Some(s)) => SubtestSummary::from_download(c, s),
            _ => None,
        };
        let upload = match ul_server {
            Option::Some(s) => SubtestSummary::from_upload(s),
            Option::None => None,
        };
        Summary { server_fqdn, client_ip, server_ip, download, upload }
    }
}

} // verus!
