//! Rendering of test events for human-readable and machine-readable
//! output.
//!
//! Every line and JSON object that the output layer prints is built
//! here as a verified function of the event's values. Derived metrics
//! are exact rationals; they are rendered at one decimal place with
//! ties rounded to even, which fixes the presentation precisely
//! instead of leaning on floating point.

use vstd::prelude::*;
use vstd::string::StringExecFns;

use crate::json::abs_measurement;
use crate::json::entry;
use crate::json::entry_views;
use crate::json::make_entry;
use crate::json::make_string_entry;
use crate::json::obj;
use crate::json::push_obj;
use crate::json::measurement_to_json;
use crate::json::ser_measurement;
use crate::json::ser_string;
use crate::messages::Measurement;
use crate::messages::Origin;
use crate::messages::TestKind;
use crate::summary::Ratio;
use crate::summary::SubtestSummary;
use crate::summary::Summary;
use crate::text::digit_char;
use crate::text::push_dec_u128;
use crate::text::spec_dec_nat;

verus! {

/// The nearest integer to `p / d` with ties to even, for `p, d >= 0`.
pub open spec fn half_even_div(p: int, d: int) -> int {
    let q = p / d;
    let r2 = 2 * (p % d);
    if r2 < d {
        q
    } else if r2 > d {
        q + 1
    } else if q % 2 == 0 {
        q
    } else {
        q + 1
    }
}

/// A ratio in tenths, rounded to the nearest with ties to even,
/// magnitude and sign kept apart.
pub open spec fn spec_tenths(r: Ratio) -> int {
    let m = half_even_div(
        10 * (if r.num < 0 {
            -r.num as int
        } else {
            r.num as int
        }),
        r.den as int,
    );
    if r.num < 0 {
        -m
    } else {
        m
    }
}

/// A ratio rendered at one decimal place.
pub open spec fn spec_ratio_1dp(r: Ratio) -> Seq<char> {
    let t = spec_tenths(r);
    let m = if t < 0 {
        -t
    } else {
        t
    };
    (if t < 0 {
        seq!['-']
    } else {
        Seq::<char>::empty()
    }) + spec_dec_nat(m / 10) + seq!['.'] + seq![digit_char(m % 10)]
}

/// Whether a ratio is small enough to render: its numerator leaves room
/// for the tenths scaling.
pub open spec fn ratio_renderable(r: Ratio) -> bool {
    r.den > 0 && -(i128::MAX / 10) <= r.num <= i128::MAX / 10
}

/// Renders a ratio at one decimal place, ties to even.
pub fn format_ratio_1dp(r: Ratio) -> (out: String)
    requires
        ratio_renderable(r),
    ensures
        out@ == spec_ratio_1dp(r),
{
    let neg: bool = r.num < 0;
    let mag: u128 = if neg {
        (-r.num) as u128
    } else {
        r.num as u128
    };
    let den: u128 = r.den as u128;
    let p: u128 = 10 * mag;
    let q: u128 = p / den;
    let rem: u128 = p % den;
    let t_mag: u128 = if 2 * rem < den {
        q
    } else if 2 * rem > den {
        q + 1
    } else if q % 2 == 0 {
        q
    } else {
        q + 1
    };
    let mut out = String::new();
    if neg && t_mag > 0 {
        out.push('-');
    }
    push_dec_u128(&mut out, t_mag / 10);
    out.push('.');
    let d = crate::text::digit_char_exec((t_mag % 10) as u64);
    out.push(d);
    proof {
        assert(out@ =~= spec_ratio_1dp(r));
    }
    out
}

/// A run of `n` spaces.
pub open spec fn spaces(n: int) -> Seq<char>
    decreases n,
{
    if n <= 0 {
        Seq::empty()
    } else {
        spaces(n - 1) + seq![' ']
    }
}

/// `s` right-aligned in a field of `w` characters.
pub open spec fn pad_left(s: Seq<char>, w: int) -> Seq<char> {
    spaces(w - s.len()) + s
}

/// Appends `s` right-aligned in a field of `w` characters.
fn push_padded(out: &mut String, s: &str, w: usize)
    ensures
        final(out)@ == old(out)@ + pad_left(s@, w as int),
{
    let n = s.unicode_len();
    let mut k: usize = if n >= w {
        0
    } else {
        w - n
    };
    proof {
        assert(old(out)@ + spaces(0) =~= old(out)@);
    }
    let ghost total: int = k as int;
    let mut done: usize = 0;
    while done < k
        invariant
            done <= k,
            total == k as int,
            out@ == old(out)@ + spaces(done as int),
        decreases k - done,
    {
        out.push(' ');
        proof {
            assert(out@ =~= old(out)@ + spaces(done as int + 1));
        }
        done = done + 1;
    }
    out.append(s);
    proof {
        assert(final(out)@ =~= old(out)@ + pad_left(s@, w as int));
    }
}

/// The display label of a subtest.
pub open spec fn kind_label(t: TestKind) -> Seq<char> {
    match t {
        TestKind::Download => "Download"@,
        TestKind::Upload => "Upload"@,
    }
}

/// Exec mirror of [`kind_label`].
fn kind_label_exec(t: TestKind) -> (r: &'static str)
    ensures
        r@ == kind_label(t),
{
    match t {
        TestKind::Download => "Download",
        TestKind::Upload => "Upload",
    }
}

/// The wire name of a subtest, as in the JSON events.
pub open spec fn kind_wire_name(t: TestKind) -> Seq<char> {
    crate::json::test_name(t)
}

/// Exec mirror of [`kind_wire_name`].
fn kind_wire_name_exec(t: TestKind) -> (r: &'static str)
    ensures
        r@ == kind_wire_name(t),
{
    match t {
        TestKind::Download => "download",
        TestKind::Upload => "upload",
    }
}

/// The carriage-returned progress line announcing a subtest.
pub open spec fn spec_starting_line(t: TestKind) -> Seq<char> {
    "\rstarting "@ + kind_label(t)
}

/// Renders the line announcing a subtest.
pub fn human_starting_line(t: TestKind) -> (r: String)
    ensures
        r@ == spec_starting_line(t),
{
    let mut s = String::from_str("\rstarting ");
    s.append(kind_label_exec(t));
    s
}

/// The line reporting an established connection.
pub open spec fn spec_connected_line(t: TestKind, fqdn: Seq<char>) -> Seq<char> {
    "\r"@ + kind_label(t) + " in progress with "@ + fqdn + "\n"@
}

/// Renders the line reporting an established connection.
pub fn human_connected_line(t: TestKind, fqdn: &str) -> (r: String)
    ensures
        r@ == spec_connected_line(t, fqdn@),
{
    let mut s = String::from_str("\r");
    s.append(kind_label_exec(t));
    s.append(" in progress with ");
    s.append(fqdn);
    s.append("\n");
    proof {
        assert(s@ =~= spec_connected_line(t, fqdn@));
    }
    s
}

/// The line reporting a failed subtest.
pub open spec fn spec_error_line(t: TestKind, err: Seq<char>) -> Seq<char> {
    "\n"@ + kind_label(t) + " test failed: "@ + err + "\n"@
}

/// Renders the line reporting a failed subtest.
pub fn human_error_line(t: TestKind, err: &str) -> (r: String)
    ensures
        r@ == spec_error_line(t, err@),
{
    let mut s = String::from_str("\n");
    s.append(kind_label_exec(t));
    s.append(" test failed: ");
    s.append(err);
    s.append("\n");
    proof {
        assert(s@ =~= spec_error_line(t, err@));
    }
    s
}

/// The line reporting a completed subtest.
pub open spec fn spec_complete_line(t: TestKind) -> Seq<char> {
    "\n"@ + kind_label(t) + ": complete\n"@
}

/// Renders the line reporting a completed subtest.
pub fn human_complete_line(t: TestKind) -> (r: String)
    ensures
        r@ == spec_complete_line(t),
{
    let mut s = String::from_str("\n");
    s.append(kind_label_exec(t));
    s.append(": complete\n");
    proof {
        assert(s@ =~= spec_complete_line(t));
    }
    s
}

/// The carriage-returned live-speed line: the rate at one decimal,
/// right-aligned to seven characters.
pub open spec fn spec_speed_line(rate: Ratio) -> Seq<char> {
    "\rAvg. speed: "@ + pad_left(spec_ratio_1dp(rate), 7) + " Mbit/s"@
}

/// Renders the live-speed line for a rate.
fn speed_line(rate: Ratio) -> (r: String)
    requires
        ratio_renderable(rate),
    ensures
        r@ == spec_speed_line(rate),
{
    let text = format_ratio_1dp(rate);
    let mut s = String::from_str("\rAvg. speed: ");
    push_padded(&mut s, text.as_str(), 7);
    s.append(" Mbit/s");
    proof {
        assert(s@ =~= spec_speed_line(rate));
    }
    s
}

/// The live rate a download event shows: present exactly for
/// client-origin records with positive elapsed time.
pub open spec fn spec_download_event_rate(m: Measurement) -> Option<Ratio> {
    match m.app_info {
        Option::Some(app) => if m.origin == Some(Origin::Client) && app.elapsed_time > 0 {
            Some(Ratio { num: (8 * app.num_bytes) as i128, den: app.elapsed_time as int as i128 })
        } else {
            None
        },
        Option::None => None,
    }
}

/// Renders the live-speed line for one download event, when the event
/// carries client-origin counters with positive elapsed time.
pub fn human_download_event_line(m: &Measurement) -> (r: Option<String>)
    ensures
        match spec_download_event_rate(*m) {
            Option::Some(rate) => r is Some && r.unwrap()@ == spec_speed_line(rate),
            Option::None => r is None,
        },
{
    let is_client = match &m.origin {
        Option::Some(o) => match o {
            Origin::Client => true,
            Origin::Server => false,
        },
        Option::None => false,
    };
    if !is_client {
        return None;
    }
    match &m.app_info {
        Option::Some(app) => {
            if app.elapsed_time > 0 {
                let rate = Ratio { num: 8 * (app.num_bytes as i128), den: app.elapsed_time as i128 };
                Some(speed_line(rate))
            } else {
                None
            }
        },
        Option::None => None,
    }
}

/// The live rate an upload event shows: present exactly for
/// server-origin records whose kernel counters carry received bytes and
/// a positive elapsed time.
pub open spec fn spec_upload_event_rate(m: Measurement) -> Option<Ratio> {
    match m.tcp_info {
        Option::Some(tcp) => match (tcp.bytes_received, tcp.elapsed_time) {
            (Option::Some(received), Option::Some(elapsed)) => if m.origin == Some(Origin::Server)
                && elapsed > 0 {
                Some(Ratio { num: (8 * received) as i128, den: elapsed as int as i128 })
            } else {
                None
            },
            _ => None,
        },
        Option::None => None,
    }
}

/// Renders the live-speed line for one upload event, when the event
/// carries usable server-origin kernel counters.
pub fn human_upload_event_line(m: &Measurement) -> (r: Option<String>)
    ensures
        match spec_upload_event_rate(*m) {
            Option::Some(rate) => r is Some && r.unwrap()@ == spec_speed_line(rate),
            Option::None => r is None,
        },
{
    let is_server = match &m.origin {
        Option::Some(o) => match o {
            Origin::Server => true,
            Origin::Client => false,
        },
        Option::None => false,
    };
    match &m.tcp_info {
        Option::Some(tcp) => match (tcp.bytes_received, tcp.elapsed_time) {
            (Option::Some(received), Option::Some(elapsed)) => {
                if is_server && elapsed > 0 {
                    let rate = Ratio { num: 8 * (received as i128), den: elapsed as i128 };
                    Some(speed_line(rate))
                } else {
                    None
                }
            },
            _ => None,
        },
        Option::None => None,
    }
}

/// One metric line of the summary block: the name right-aligned to
/// fifteen characters, the value to seven, then the unit.
pub open spec fn spec_metric_line(name: Seq<char>, value: Ratio, unit: Seq<char>) -> Seq<char> {
    pad_left(name, 15) + ": "@ + pad_left(spec_ratio_1dp(value), 7) + " "@ + unit + "\n"@
}

/// Renders one metric line of the summary block.
fn metric_line(out: &mut String, name: &str, value: Ratio, unit: &str)
    requires
        ratio_renderable(value),
    ensures
        final(out)@ == old(out)@ + spec_metric_line(name@, value, unit@),
{
    push_padded(out, name, 15);
    out.append(": ");
    let text = format_ratio_1dp(value);
    push_padded(out, text.as_str(), 7);
    out.append(" ");
    out.append(unit);
    out.append("\n");
    proof {
        assert(final(out)@ =~= old(out)@ + spec_metric_line(name@, value, unit@));
    }
}

/// Whether a summary's metrics are all small enough to render.
pub open spec fn summary_renderable(s: Summary) -> bool {
    &&& match s.download {
        Option::Some(d) => ratio_renderable(d.throughput_mbps) && ratio_renderable(d.latency_ms)
            && ratio_renderable(d.retransmission_pct),
        Option::None => true,
    }
    &&& match s.upload {
        Option::Some(u) => ratio_renderable(u.throughput_mbps) && ratio_renderable(u.latency_ms)
            && ratio_renderable(u.retransmission_pct),
        Option::None => true,
    }
}

/// The whole human-readable results block.
pub open spec fn spec_summary_human(s: Summary) -> Seq<char> {
    "\nTest results\n\n"@ + pad_left("Server"@, 10) + ": "@ + s.server_fqdn@ + "\n"@ + pad_left(
        "Client"@,
        10,
    ) + ": "@ + s.client_ip@ + "\n"@ + (match s.download {
        Option::Some(d) => "\n"@ + pad_left("Download"@, 22) + "\n"@ + spec_metric_line(
            "Throughput"@,
            d.throughput_mbps,
            "Mbit/s"@,
        ) + spec_metric_line("Latency"@, d.latency_ms, "ms"@) + spec_metric_line(
            "Retransmission"@,
            d.retransmission_pct,
            "%"@,
        ),
        Option::None => Seq::empty(),
    }) + (match s.upload {
        Option::Some(u) => "\n"@ + pad_left("Upload"@, 20) + "\n"@ + spec_metric_line(
            "Throughput"@,
            u.throughput_mbps,
            "Mbit/s"@,
        ) + spec_metric_line("Latency"@, u.latency_ms, "ms"@),
        Option::None => Seq::empty(),
    })
}

/// Renders the human-readable results block: server and client
/// identity, then one section per subtest that produced metrics.
#[verifier::rlimit(60)]
pub fn render_summary_human(s: &Summary) -> (r: String)
    requires
        summary_renderable(*s),
    ensures
        r@ == spec_summary_human(*s),
{
    let mut out = String::from_str("\nTest results\n\n");
    push_padded(&mut out, "Server", 10);
    out.append(": ");
    out.append(s.server_fqdn.as_str());
    out.append("\n");
    push_padded(&mut out, "Client", 10);
    out.append(": ");
    out.append(s.client_ip.as_str());
    out.append("\n");
    let ghost head = out@;
    match &s.download {
        Option::Some(d) => {
            out.append("\n");
            push_padded(&mut out, "Download", 22);
            out.append("\n");
            metric_line(&mut out, "Throughput", d.throughput_mbps, "Mbit/s");
            metric_line(&mut out, "Latency", d.latency_ms, "ms");
            metric_line(&mut out, "Retransmission", d.retransmission_pct, "%");
            proof {
                assert(out@ =~= head + ("\n"@ + pad_left("Download"@, 22) + "\n"@
                    + spec_metric_line("Throughput"@, d.throughput_mbps, "Mbit/s"@)
                    + spec_metric_line("Latency"@, d.latency_ms, "ms"@) + spec_metric_line(
                    "Retransmission"@,
                    d.retransmission_pct,
                    "%"@,
                )));
            }
        },
        Option::None => {
            proof {
                assert(out@ =~= head + Seq::<char>::empty());
            }
        },
    }
    let ghost mid = out@;
    proof {
        assert(mid == head + (match s.download {
            Option::Some(d) => "\n"@ + pad_left("Download"@, 22) + "\n"@ + spec_metric_line(
                "Throughput"@,
                d.throughput_mbps,
                "Mbit/s"@,
            ) + spec_metric_line("Latency"@, d.latency_ms, "ms"@) + spec_metric_line(
                "Retransmission"@,
                d.retransmission_pct,
                "%"@,
            ),
            Option::None => Seq::<char>::empty(),
        }));
    }
    match &s.upload {
        Option::Some(u) => {
            out.append("\n");
            push_padded(&mut out, "Upload", 20);
            out.append("\n");
            metric_line(&mut out, "Throughput", u.throughput_mbps, "Mbit/s");
            metric_line(&mut out, "Latency", u.latency_ms, "ms");
            proof {
                assert(out@ =~= mid + ("\n"@ + pad_left("Upload"@, 20) + "\n"@
                    + spec_metric_line("Throughput"@, u.throughput_mbps, "Mbit/s"@)
                    + spec_metric_line("Latency"@, u.latency_ms, "ms"@)));
            }
        },
        Option::None => {
            proof {
                assert(out@ =~= mid + Seq::<char>::empty());
            }
        },
    }
    proof {
        assert(out@ =~= spec_summary_human(*s));
    }
    out
}

/// A machine-readable event with a type tag and a subtest name.
pub open spec fn spec_tagged_event(tag: Seq<char>, t: TestKind) -> Seq<char> {
    obj(seq![entry("type"@, ser_string(tag)), entry("test"@, ser_string(kind_wire_name(t)))])
}

/// Renders the event announcing a subtest.
pub fn json_event_starting(t: TestKind) -> (r: String)
    ensures
        r@ == spec_tagged_event("Starting"@, t),
{
    tagged_event("Starting", t)
}

/// Renders the event reporting a completed subtest.
pub fn json_event_complete(t: TestKind) -> (r: String)
    ensures
        r@ == spec_tagged_event("Complete"@, t),
{
    tagged_event("Complete", t)
}

/// Renders a two-member tagged event.
fn tagged_event(tag: &str, t: TestKind) -> (r: String)
    ensures
        r@ == spec_tagged_event(tag@, t),
{
    let mut entries: Vec<String> = Vec::new();
    entries.push(make_string_entry("type", tag));
    entries.push(make_string_entry("test", kind_wire_name_exec(t)));
    proof {
        assert(entry_views(entries@) =~= seq![
            entry("type"@, ser_string(tag@)),
            entry("test"@, ser_string(kind_wire_name(t))),
        ]);
    }
    let mut out = String::new();
    push_obj(&mut out, entries);
    out
}

/// The machine-readable connection event.
pub open spec fn spec_json_connected(t: TestKind, fqdn: Seq<char>) -> Seq<char> {
    obj(
        seq![
            entry("type"@, ser_string("Connected"@)),
            entry("test"@, ser_string(kind_wire_name(t))),
            entry("fqdn"@, ser_string(fqdn)),
        ],
    )
}

/// Renders the event reporting an established connection.
pub fn json_event_connected(t: TestKind, fqdn: &str) -> (r: String)
    ensures
        r@ == spec_json_connected(t, fqdn@),
{
    let mut entries: Vec<String> = Vec::new();
    entries.push(make_string_entry("type", "Connected"));
    entries.push(make_string_entry("test", kind_wire_name_exec(t)));
    entries.push(make_string_entry("fqdn", fqdn));
    proof {
        assert(entry_views(entries@) =~= seq![
            entry("type"@, ser_string("Connected"@)),
            entry("test"@, ser_string(kind_wire_name(t))),
            entry("fqdn"@, ser_string(fqdn@)),
        ]);
    }
    let mut out = String::new();
    push_obj(&mut out, entries);
    out
}

/// The machine-readable error event.
pub open spec fn spec_json_error(t: TestKind, err: Seq<char>) -> Seq<char> {
    obj(
        seq![
            entry("type"@, ser_string("Error"@)),
            entry("test"@, ser_string(kind_wire_name(t))),
            entry("error"@, ser_string(err)),
        ],
    )
}

/// Renders the event reporting a subtest failure.
pub fn json_event_error(t: TestKind, err: &str) -> (r: String)
    ensures
        r@ == spec_json_error(t, err@),
{
    let mut entries: Vec<String> = Vec::new();
    entries.push(make_string_entry("type", "Error"));
    entries.push(make_string_entry("test", kind_wire_name_exec(t)));
    entries.push(make_string_entry("error", err));
    proof {
        assert(entry_views(entries@) =~= seq![
            entry("type"@, ser_string("Error"@)),
            entry("test"@, ser_string(kind_wire_name(t))),
            entry("error"@, ser_string(err@)),
        ]);
    }
    let mut out = String::new();
    push_obj(&mut out, entries);
    out
}

/// The machine-readable measurement event: the record itself stands as
/// a nested object.
pub open spec fn spec_json_measurement_event(t: TestKind, m: Measurement) -> Seq<char> {
    obj(
        seq![
            entry("type"@, ser_string("Measurement"@)),
            entry("test"@, ser_string(kind_wire_name(t))),
            entry("measurement"@, ser_measurement(abs_measurement(m))),
        ],
    )
}

/// Renders the event carrying one measurement record.
pub fn json_event_measurement(t: TestKind, m: &Measurement) -> (r: String)
    ensures
        r@ == spec_json_measurement_event(t, *m),
{
    let mut entries: Vec<String> = Vec::new();
    entries.push(make_string_entry("type", "Measurement"));
    entries.push(make_string_entry("test", kind_wire_name_exec(t)));
    let body = measurement_to_json(m);
    entries.push(make_entry("measurement", body));
    proof {
        assert(entry_views(entries@) =~= seq![
            entry("type"@, ser_string("Measurement"@)),
            entry("test"@, ser_string(kind_wire_name(t))),
            entry("measurement"@, ser_measurement(abs_measurement(*m))),
        ]);
    }
    let mut out = String::new();
    push_obj(&mut out, entries);
    out
}

/// One subtest's metrics as a JSON value: an object of the three
/// metrics at one decimal place, or `null` when the subtest produced
/// none.
pub open spec fn spec_json_subtest(s: Option<SubtestSummary>) -> Seq<char> {
    match s {
        Option::Some(v) => obj(
            seq![
                entry("throughput_mbps"@, spec_ratio_1dp(v.throughput_mbps)),
                entry("latency_ms"@, spec_ratio_1dp(v.latency_ms)),
                entry("retransmission_pct"@, spec_ratio_1dp(v.retransmission_pct)),
            ],
        ),
        Option::None => "null"@,
    }
}

/// Renders one subtest's metrics as a JSON value.
fn json_subtest(s: &Option<SubtestSummary>) -> (r: String)
    requires
        match *s {
            Option::Some(v) => ratio_renderable(v.throughput_mbps) && ratio_renderable(v.latency_ms)
                && ratio_renderable(v.retransmission_pct),
            Option::None => true,
        },
    ensures
        r@ == spec_json_subtest(*s),
{
    match s {
        Option::Some(v) => {
            let mut entries: Vec<String> = Vec::new();
            entries.push(make_entry("throughput_mbps", format_ratio_1dp(v.throughput_mbps)));
            entries.push(make_entry("latency_ms", format_ratio_1dp(v.latency_ms)));
            entries.push(make_entry("retransmission_pct", format_ratio_1dp(v.retransmission_pct)));
            proof {
                assert(entry_views(entries@) =~= seq![
                    entry("throughput_mbps"@, spec_ratio_1dp(v.throughput_mbps)),
                    entry("latency_ms"@, spec_ratio_1dp(v.latency_ms)),
                    entry("retransmission_pct"@, spec_ratio_1dp(v.retransmission_pct)),
                ]);
            }
            let mut out = String::new();
            push_obj(&mut out, entries);
            out
        },
        Option::None => String::from_str("null"),
    }
}

/// The machine-readable summary event.
pub open spec fn spec_json_summary(s: Summary) -> Seq<char> {
    obj(
        seq![
            entry("type"@, ser_string("Summary"@)),
            entry(
                "summary"@,
                obj(
                    seq![
                        entry("server_fqdn"@, ser_string(s.server_fqdn@)),
                        entry("client_ip"@, ser_string(s.client_ip@)),
                        entry("server_ip"@, ser_string(s.server_ip@)),
                        entry("download"@, spec_json_subtest(s.download)),
                        entry("upload"@, spec_json_subtest(s.upload)),
                    ],
                ),
            ),
        ],
    )
}

/// Renders the event carrying the final summary.
pub fn json_event_summary(s: &Summary) -> (r: String)
    requires
        summary_renderable(*s),
    ensures
        r@ == spec_json_summary(*s),
{
    let mut inner: Vec<String> = Vec::new();
    inner.push(make_string_entry("server_fqdn", s.server_fqdn.as_str()));
    inner.push(make_string_entry("client_ip", s.client_ip.as_str()));
    inner.push(make_string_entry("server_ip", s.server_ip.as_str()));
    inner.push(make_entry("download", json_subtest(&s.download)));
    inner.push(make_entry("upload", json_subtest(&s.upload)));
    proof {
        assert(entry_views(inner@) =~= seq![
            entry("server_fqdn"@, ser_string(s.server_fqdn@)),
            entry("client_ip"@, ser_string(s.client_ip@)),
            entry("server_ip"@, ser_string(s.server_ip@)),
            entry("download"@, spec_json_subtest(s.download)),
            entry("upload"@, spec_json_subtest(s.upload)),
        ]);
    }
    let mut body = String::new();
    push_obj(&mut body, inner);
    let mut entries: Vec<String> = Vec::new();
    entries.push(make_string_entry("type", "Summary"));
    entries.push(make_entry("summary", body));
    proof {
        assert(entry_views(entries@) =~= seq![
            entry("type"@, ser_string("Summary"@)),
            entry(
                "summary"@,
                obj(
                    seq![
                        entry("server_fqdn"@, ser_string(s.server_fqdn@)),
                        entry("client_ip"@, ser_string(s.client_ip@)),
                        entry("server_ip"@, ser_string(s.server_ip@)),
                        entry("download"@, spec_json_subtest(s.download)),
                        entry("upload"@, spec_json_subtest(s.upload)),
                    ],
                ),
            ),
        ]);
    }
    let mut out = String::new();
    push_obj(&mut out, entries);
    out
}

} // verus!
