//! Tests for the measurement wire codec.

use ndt7_client::json::measurement_from_json;
use ndt7_client::json::measurement_to_json;
use ndt7_client::messages::AppInfo;
use ndt7_client::messages::ConnectionInfo;
use ndt7_client::messages::Measurement;
use ndt7_client::messages::Origin;
use ndt7_client::messages::TCPInfo;
use ndt7_client::messages::TestKind;

#[test]
fn serialize_measurement() {
    let measurement = Measurement {
        app_info: Some(AppInfo::default()),
        origin: Some(Origin::Client),
        ..Default::default()
    };

    let json_output = measurement_to_json(&measurement);
    assert!(json_output.contains(r#""AppInfo""#));
    assert!(json_output.contains(r#""ElapsedTime""#));
    assert!(json_output.contains(r#""Origin":"client""#));

    // Omitted fields are absent
    assert!(!json_output.contains("TCPInfo"));
    assert!(!json_output.contains("ConnectionInfo"));
}

#[test]
fn non_fields_omitted() {
    let json_output = measurement_to_json(&Measurement::default());
    assert_eq!(json_output, "{}");
}

#[test]
fn deserialize_protocol_spec() {
    let json = r#"{
            "AppInfo": {"ElapsedTime": 1234, "NumBytes": 5678},
            "ConnectionInfo": {"Client": "1.2.3.4:5678", "Server": "[::1]:2345", "UUID": "abc-1234"},
            "Origin": "server",
            "Test": "download",
            "TCPInfo": {"RTT": 6000, "MinRTT": 5000}
        }"#;
    let m: Measurement = measurement_from_json(json).unwrap();

    let app = m.app_info.unwrap();
    assert_eq!(app.elapsed_time, 1234);
    assert_eq!(app.num_bytes, 5678);

    let con_info = m.connection_info.unwrap();
    let uuid = con_info.uuid.unwrap();
    assert_eq!(con_info.client, "1.2.3.4:5678");
    assert_eq!(con_info.server, "[::1]:2345");
    assert_eq!(uuid, "abc-1234");

    let origin = m.origin.unwrap();
    assert_eq!(origin, Origin::Server);

    let test = m.test.unwrap();
    assert_eq!(test, TestKind::Download);

    let tcp_info = m.tcp_info.unwrap();
    let rtt = tcp_info.rtt.unwrap();
    let min_rtt = tcp_info.min_rtt.unwrap();
    assert_eq!(rtt, 6000);
    assert_eq!(min_rtt, 5000);
}

#[test]
fn round_trip() {
    let m = Measurement {
        app_info: Some(AppInfo {
            elapsed_time: 500_000,
            num_bytes: 1_048_576,
        }),
        connection_info: Some(ConnectionInfo {
            client: "10.0.0.1:12345".into(),
            server: "10.0.0.2:443".into(),
            uuid: Some("test-uuid".into()),
            start_time: Some("2026-02-23T13:05:00.000000000Z".into()),
        }),
        origin: Some(Origin::Server),
        test: Some(TestKind::Upload),
        tcp_info: Some(TCPInfo {
            rtt: Some(10_000),
            min_rtt: Some(8_000),
            ..Default::default()
        }),
    };

    let json = measurement_to_json(&m);
    let deserialized: Measurement = measurement_from_json(&json).unwrap();
    assert_eq!(m, deserialized);
}

#[test]
fn round_trip_all_fields() {
    let m = Measurement {
        app_info: Some(AppInfo {
            elapsed_time: i64::MAX,
            num_bytes: i64::MIN,
        }),
        connection_info: Some(ConnectionInfo {
            client: "quoted \" and \\ and\ttab".into(),
            server: String::new(),
            uuid: None,
            start_time: Some("line\nbreak".into()),
        }),
        origin: Some(Origin::Client),
        test: Some(TestKind::Download),
        tcp_info: Some(TCPInfo {
            busy_time: Some(1),
            bytes_acked: Some(2),
            bytes_received: Some(3),
            bytes_sent: Some(4),
            bytes_retrans: Some(-5),
            elapsed_time: Some(6),
            min_rtt: Some(7),
            rtt: Some(8),
            rtt_var: Some(9),
            rwnd_limited: Some(10),
            snd_buf_limited: Some(11),
        }),
    };
    let json = measurement_to_json(&m);
    let back = measurement_from_json(&json).unwrap();
    assert_eq!(m, back);
}

#[test]
fn serializer_output_is_standard_json() {
    let m = Measurement {
        app_info: Some(AppInfo {
            elapsed_time: 42,
            num_bytes: -7,
        }),
        connection_info: Some(ConnectionInfo {
            client: "1.2.3.4:1".into(),
            server: "[::1]:2".into(),
            uuid: Some("u\"x".into()),
            start_time: None,
        }),
        origin: Some(Origin::Server),
        test: Some(TestKind::Upload),
        tcp_info: Some(TCPInfo {
            min_rtt: Some(77),
            ..Default::default()
        }),
    };
    let json = measurement_to_json(&m);
    let v: serde_json::Value = serde_json::from_str(&json).unwrap();
    assert_eq!(v["AppInfo"]["ElapsedTime"], 42);
    assert_eq!(v["AppInfo"]["NumBytes"], -7);
    assert_eq!(v["ConnectionInfo"]["UUID"], "u\"x");
    assert_eq!(v["Origin"], "server");
    assert_eq!(v["Test"], "upload");
    assert_eq!(v["TCPInfo"]["MinRTT"], 77);
}

#[test]
fn parser_skips_unknown_fields() {
    let json = r#"{"BBRInfo": {"BW": 1000, "MinRTT": 9}, "Origin": "server",
                   "TCPInfo": {"RTT": 5, "SegsOut": 12, "CAState": 0}}"#;
    let m = measurement_from_json(json).unwrap();
    assert_eq!(m.origin, Some(Origin::Server));
    let tcp = m.tcp_info.unwrap();
    assert_eq!(tcp.rtt, Some(5));
    assert_eq!(tcp.min_rtt, None);
}

#[test]
fn parser_rejects_malformed_frames() {
    // no closing brace
    assert!(measurement_from_json("{\"Origin\":\"server\"").is_none());
    // trailing garbage
    assert!(measurement_from_json("{} x").is_none());
    // unknown enum value
    assert!(measurement_from_json("{\"Origin\":\"peer\"}").is_none());
    // counter overflowing a 64-bit integer
    assert!(
        measurement_from_json("{\"TCPInfo\":{\"RTT\":9223372036854775808}}").is_none()
    );
    // fraction where an integer is required
    assert!(measurement_from_json("{\"TCPInfo\":{\"RTT\":1.5}}").is_none());
    // redundant leading zero
    assert!(measurement_from_json("{\"TCPInfo\":{\"RTT\":007}}").is_none());
    // application counters are required together
    assert!(measurement_from_json("{\"AppInfo\":{\"ElapsedTime\":1}}").is_none());
}

#[test]
fn parser_accepts_integer_extremes() {
    let m = measurement_from_json(
        "{\"TCPInfo\":{\"RTT\":9223372036854775807,\"RTTVar\":-9223372036854775808}}",
    )
    .unwrap();
    let tcp = m.tcp_info.unwrap();
    assert_eq!(tcp.rtt, Some(i64::MAX));
    assert_eq!(tcp.rtt_var, Some(i64::MIN));
}

#[test]
fn parser_decodes_string_escapes() {
    let m = measurement_from_json(
        "{\"ConnectionInfo\":{\"Client\":\"a\\\"b\\\\c\\n\\u0007\",\"Server\":\"s\"}}",
    )
    .unwrap();
    let conn = m.connection_info.unwrap();
    assert_eq!(conn.client, "a\"b\\c\n\u{7}");
    assert_eq!(conn.server, "s");
}

#[test]
fn parser_decodes_unicode_escapes() {
    // Any basic-plane escape, as an encoder like Go's emits for HTML
    // characters, and surrogate pairs for supplementary characters.
    let m = measurement_from_json(
        "{\"ConnectionInfo\":{\"Client\":\"\\u0041\\u003c\\ud83d\\ude00\",\"Server\":\"\\u00e9\"}}",
    )
    .unwrap();
    let conn = m.connection_info.unwrap();
    assert_eq!(conn.client, "A<\u{1f600}");
    assert_eq!(conn.server, "\u{e9}");
    // A lone surrogate, high or low, is malformed.
    assert!(measurement_from_json(
        "{\"ConnectionInfo\":{\"Client\":\"\\ud83d\",\"Server\":\"s\"}}"
    )
    .is_none());
    assert!(measurement_from_json(
        "{\"ConnectionInfo\":{\"Client\":\"\\ude00\",\"Server\":\"s\"}}"
    )
    .is_none());
}

#[test]
fn parser_skips_nested_unknown_values() {
    let json = r#"{"Blob": {"a": [1, {"b": [[], {"c": null}]}, "x"], "d": {"e": {"f": true}}},
                   "Origin": "client"}"#;
    let m = measurement_from_json(json).unwrap();
    assert_eq!(m.origin, Some(Origin::Client));
    assert_eq!(m.tcp_info, None);
}

#[test]
fn empty_object_parses_to_default() {
    let m = measurement_from_json("{}").unwrap();
    assert_eq!(m, Measurement::default());
    let m2 = measurement_from_json("  { }  ").unwrap();
    assert_eq!(m2, Measurement::default());
}
