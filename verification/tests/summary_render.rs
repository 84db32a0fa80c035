//! Tests for the summary calculator and the renderers.

use ndt7_client::messages::AppInfo;
use ndt7_client::messages::ConnectionInfo;
use ndt7_client::messages::Measurement;
use ndt7_client::messages::Origin;
use ndt7_client::messages::TCPInfo;
use ndt7_client::messages::TestKind;
use ndt7_client::render::format_ratio_1dp;
use ndt7_client::render::human_download_event_line;
use ndt7_client::render::human_upload_event_line;
use ndt7_client::render::human_starting_line;
use ndt7_client::render::human_complete_line;
use ndt7_client::render::json_event_starting;
use ndt7_client::render::json_event_measurement;
use ndt7_client::render::json_event_summary;
use ndt7_client::render::render_summary_human;
use ndt7_client::summary::Ratio;
use ndt7_client::summary::SubtestSummary;
use ndt7_client::summary::Summary;
use ndt7_client::summary::strip_port;
use ndt7_client::render::json_event_complete;
use ndt7_client::render::json_event_connected;
use ndt7_client::render::json_event_error;

fn ratio_f64(r: Ratio) -> f64 {
    r.num as f64 / r.den as f64
}

#[test]
fn human_readable_download_event() {
    let m = Measurement {
        app_info: Some(AppInfo {
            num_bytes: 1_000_000,
            elapsed_time: 1_000_000,
        }),
        origin: Some(Origin::Client),
        ..Default::default()
    };

    let out = human_download_event_line(&m).unwrap();

    assert!(out.contains("8.0 Mbit/s"))
}

#[test]
fn json_emitter_valid() {
    let out = json_event_starting(TestKind::Upload);

    let res = serde_json::from_str::<serde_json::Value>(&out).unwrap();

    assert_eq!(res["test"], "upload");
    assert_eq!(res["type"], "Starting");
}

#[test]
fn download_throughput_formula() {
    // 8 × 1_000_000 bytes over 1_000_000 µs is exactly 8 Mbit/s.
    let client = Measurement {
        app_info: Some(AppInfo {
            elapsed_time: 1_000_000,
            num_bytes: 1_000_000,
        }),
        origin: Some(Origin::Client),
        ..Default::default()
    };
    let server = Measurement::default();
    let s = SubtestSummary::from_download(&client, &server).unwrap();
    assert_eq!(s.throughput_mbps.num, 8_000_000);
    assert_eq!(s.throughput_mbps.den, 1_000_000);
    assert_eq!(ratio_f64(s.throughput_mbps), 8.0);
}

#[test]
fn retransmission_percentage_formula() {
    // 50 of 1000 bytes retransmitted is exactly 5 %.
    let server = Measurement {
        tcp_info: Some(TCPInfo {
            bytes_sent: Some(1000),
            bytes_retrans: Some(50),
            ..Default::default()
        }),
        ..Default::default()
    };
    let client = Measurement {
        app_info: Some(AppInfo {
            elapsed_time: 1,
            num_bytes: 0,
        }),
        ..Default::default()
    };
    let s = SubtestSummary::from_download(&client, &server).unwrap();
    assert_eq!(s.retransmission_pct.num, 5000);
    assert_eq!(s.retransmission_pct.den, 1000);
    assert_eq!(ratio_f64(s.retransmission_pct), 5.0);
}

#[test]
fn download_summary_needs_positive_elapsed() {
    let client = Measurement {
        app_info: Some(AppInfo {
            elapsed_time: 0,
            num_bytes: 5,
        }),
        ..Default::default()
    };
    assert!(SubtestSummary::from_download(&client, &Measurement::default()).is_none());
    assert!(SubtestSummary::from_download(&Measurement::default(), &client).is_none());
}

#[test]
fn upload_summary_from_server_counters() {
    let server = Measurement {
        tcp_info: Some(TCPInfo {
            elapsed_time: Some(2_000_000),
            bytes_received: Some(500_000),
            min_rtt: Some(12_000),
            bytes_sent: Some(0),
            ..Default::default()
        }),
        ..Default::default()
    };
    let s = SubtestSummary::from_upload(&server).unwrap();
    assert_eq!(ratio_f64(s.throughput_mbps), 2.0);
    assert_eq!(ratio_f64(s.latency_ms), 12.0);
    assert_eq!(ratio_f64(s.retransmission_pct), 0.0);

    // A missing or non-positive elapsed time suppresses the summary.
    let missing = Measurement {
        tcp_info: Some(TCPInfo::default()),
        ..Default::default()
    };
    assert!(SubtestSummary::from_upload(&missing).is_none());
    let zero = Measurement {
        tcp_info: Some(TCPInfo {
            elapsed_time: Some(0),
            ..Default::default()
        }),
        ..Default::default()
    };
    assert!(SubtestSummary::from_upload(&zero).is_none());
}

#[test]
fn summary_normalizes_addresses() {
    let dl_server = Measurement {
        connection_info: Some(ConnectionInfo {
            client: "10.0.0.1:12345".into(),
            server: "[2001:db8::1]:443".into(),
            uuid: None,
            start_time: None,
        }),
        ..Default::default()
    };
    let s = Summary::from_measurements("host".into(), None, Some(&dl_server), None);
    assert_eq!(s.server_fqdn, "host");
    assert_eq!(s.client_ip, "10.0.0.1");
    assert_eq!(s.server_ip, "2001:db8::1");
    assert!(s.download.is_none());
    assert!(s.upload.is_none());
}

#[test]
fn strip_port_cases() {
    assert_eq!(strip_port("10.0.0.1:12345"), "10.0.0.1");
    assert_eq!(strip_port("[::1]:2345"), "::1");
    // Malformed or portless addresses pass through unchanged.
    assert_eq!(strip_port("example.com:80"), "example.com:80");
    assert_eq!(strip_port("1.2.3.4"), "1.2.3.4");
    assert_eq!(strip_port("1.2.3.4:99999"), "1.2.3.4:99999");
    assert_eq!(strip_port("1.2.3.456:80"), "1.2.3.456:80");
    assert_eq!(strip_port("1.2.3.04:80"), "1.2.3.04:80");
    assert_eq!(strip_port(""), "");
    // Ports tolerate leading zeros, like the platform's own parser.
    assert_eq!(strip_port("1.2.3.4:0080"), "1.2.3.4");
    // A bracket body that itself reads as ip:port is malformed and
    // passes through; stripping is idempotent.
    assert_eq!(strip_port("[1.2.3.4:5]:6"), "[1.2.3.4:5]:6");
    for addr in [
        "10.0.0.1:12345",
        "[::1]:2345",
        "[1.2.3.4:5]:6",
        "example.com:80",
        "[2001:db8::1]:443",
    ] {
        let once = strip_port(addr);
        assert_eq!(strip_port(&once), once);
    }
}

#[test]
fn ratio_rendering_one_decimal() {
    assert_eq!(format_ratio_1dp(Ratio { num: 8, den: 1 }), "8.0");
    assert_eq!(format_ratio_1dp(Ratio { num: 1, den: 2 }), "0.5");
    assert_eq!(format_ratio_1dp(Ratio { num: -1, den: 2 }), "-0.5");
    assert_eq!(format_ratio_1dp(Ratio { num: 1234, den: 100 }), "12.3");
    // Ties round to even.
    assert_eq!(format_ratio_1dp(Ratio { num: 15, den: 100 }), "0.2");
    assert_eq!(format_ratio_1dp(Ratio { num: 25, den: 100 }), "0.2");
    assert_eq!(format_ratio_1dp(Ratio { num: 35, den: 100 }), "0.4");
    // A negative value that rounds to zero keeps no sign.
    assert_eq!(format_ratio_1dp(Ratio { num: -1, den: 100 }), "0.0");
}

#[test]
fn upload_event_line_uses_server_counters() {
    let m = Measurement {
        origin: Some(Origin::Server),
        tcp_info: Some(TCPInfo {
            bytes_received: Some(1_000_000),
            elapsed_time: Some(1_000_000),
            ..Default::default()
        }),
        ..Default::default()
    };
    let out = human_upload_event_line(&m).unwrap();
    assert!(out.contains("8.0 Mbit/s"));
    // Client-origin records carry no live upload rate.
    let client = Measurement {
        origin: Some(Origin::Client),
        ..m.clone()
    };
    assert!(human_upload_event_line(&client).is_none());
}

#[test]
fn human_lines_text() {
    assert_eq!(human_starting_line(TestKind::Download), "\rstarting Download");
    assert_eq!(human_complete_line(TestKind::Upload), "\nUpload: complete\n");
}

#[test]
fn summary_block_layout() {
    let s = Summary {
        server_fqdn: "mlab1".into(),
        client_ip: "1.2.3.4".into(),
        server_ip: "5.6.7.8".into(),
        download: Some(SubtestSummary {
            throughput_mbps: Ratio { num: 941, den: 10 },
            latency_ms: Ratio { num: 3, den: 2 },
            retransmission_pct: Ratio { num: 1, den: 2 },
        }),
        upload: None,
    };
    let out = render_summary_human(&s);
    assert!(out.starts_with("\nTest results\n\n"));
    assert!(out.contains("    Server: mlab1\n"));
    assert!(out.contains("    Client: 1.2.3.4\n"));
    assert!(out.contains("     Throughput:    94.1 Mbit/s\n"));
    assert!(out.contains("        Latency:     1.5 ms\n"));
    assert!(out.contains(" Retransmission:     0.5 %\n"));
    assert!(!out.contains("Upload"));
}

#[test]
fn json_summary_event_shape() {
    let s = Summary {
        server_fqdn: "mlab1".into(),
        client_ip: "1.2.3.4".into(),
        server_ip: "5.6.7.8".into(),
        download: None,
        upload: Some(SubtestSummary {
            throughput_mbps: Ratio { num: 8, den: 1 },
            latency_ms: Ratio { num: 0, den: 1 },
            retransmission_pct: Ratio { num: 0, den: 1 },
        }),
    };
    let out = json_event_summary(&s);
    let v: serde_json::Value = serde_json::from_str(&out).unwrap();
    assert_eq!(v["type"], "Summary");
    assert_eq!(v["summary"]["server_fqdn"], "mlab1");
    assert!(v["summary"]["download"].is_null());
    assert_eq!(v["summary"]["upload"]["throughput_mbps"], 8.0);
}

#[test]
fn json_lifecycle_events_shape() {
    let v: serde_json::Value =
        serde_json::from_str(&json_event_connected(TestKind::Download, "mlab1")).unwrap();
    assert_eq!(v["type"], "Connected");
    assert_eq!(v["test"], "download");
    assert_eq!(v["fqdn"], "mlab1");
    let v: serde_json::Value =
        serde_json::from_str(&json_event_error(TestKind::Upload, "timeout occured")).unwrap();
    assert_eq!(v["type"], "Error");
    assert_eq!(v["error"], "timeout occured");
    let v: serde_json::Value =
        serde_json::from_str(&json_event_complete(TestKind::Upload)).unwrap();
    assert_eq!(v["type"], "Complete");
    assert_eq!(v["test"], "upload");
}

#[test]
fn json_measurement_event_embeds_record() {
    let m = Measurement {
        app_info: Some(AppInfo {
            elapsed_time: 7,
            num_bytes: 9,
        }),
        origin: Some(Origin::Client),
        ..Default::default()
    };
    let out = json_event_measurement(TestKind::Download, &m);
    let v: serde_json::Value = serde_json::from_str(&out).unwrap();
    assert_eq!(v["type"], "Measurement");
    assert_eq!(v["test"], "download");
    assert_eq!(v["measurement"]["AppInfo"]["NumBytes"], 9);
}
