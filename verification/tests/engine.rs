//! Tests for the two subtest engines and the payload-scaling policy.

use ndt7_client::download::DownloadReceiver;
use ndt7_client::download::DownloadStep;
use ndt7_client::download::download_deadline_exceeded;
use ndt7_client::error::Ndt7Error;
use ndt7_client::messages::Origin;
use ndt7_client::messages::TestKind;
use ndt7_client::messages::WireMessage;
use ndt7_client::params::INITIAL_MESSAGE_SIZE;
use ndt7_client::params::MAX_MESSAGE_SIZE;
use ndt7_client::upload::CounterflowStep;
use ndt7_client::upload::UploadSender;
use ndt7_client::upload::counterflow_frame;
use ndt7_client::upload::scale_message_size;
use ndt7_client::upload::upload_deadline_exceeded;

#[test]
fn payload_scaling_law() {
    // Sizes stay power-of-two multiples of the initial size, never
    // shrink, never exceed the maximum, and double exactly when the
    // size is at most a sixteenth of the total.
    let mut sender = UploadSender::new().unwrap();
    assert_eq!(sender.payload.len(), INITIAL_MESSAGE_SIZE);
    let mut last = sender.payload.len();
    for _ in 0..4000 {
        let before = sender.payload.len();
        let before_bytes = sender.payload.clone();
        let total_after = sender.total_bytes.saturating_add(before as i64);
        let should_double =
            before < MAX_MESSAGE_SIZE && before as i64 <= total_after / 16;
        sender.after_send();
        let after = sender.payload.len();
        assert_eq!(sender.total_bytes, total_after);
        if should_double {
            assert_eq!(after, 2 * before);
        } else {
            assert_eq!(after, before);
            // the identical buffer is re-sent until the next doubling
            assert_eq!(sender.payload, before_bytes);
        }
        assert!(after >= last);
        assert!(after <= MAX_MESSAGE_SIZE);
        assert_eq!(after % INITIAL_MESSAGE_SIZE, 0);
        assert!((after / INITIAL_MESSAGE_SIZE).is_power_of_two());
        last = after;
    }
    // With this schedule the cap is reachable and sticky.
    assert_eq!(sender.payload.len(), MAX_MESSAGE_SIZE);
}

#[test]
fn scaling_rule_cases() {
    // Too little sent so far: size stays.
    assert_eq!(scale_message_size(8192, 8192), 8192);
    // Exactly one sixteenth of the total: doubles.
    assert_eq!(scale_message_size(8192, 16 * 8192), 16384);
    // At the cap: never grows.
    assert_eq!(
        scale_message_size(MAX_MESSAGE_SIZE, i64::MAX),
        MAX_MESSAGE_SIZE
    );
    // Just below the cap with plenty sent: doubles to the cap exactly.
    assert_eq!(
        scale_message_size(MAX_MESSAGE_SIZE / 2, i64::MAX),
        MAX_MESSAGE_SIZE
    );
}

#[test]
fn upload_snapshot_cadence() {
    let mut sender = UploadSender::new().unwrap();
    assert!(sender.maybe_snapshot(100_000).is_none());
    let m = sender.maybe_snapshot(250_000).unwrap();
    assert_eq!(m.origin, Some(Origin::Client));
    assert_eq!(m.test, Some(TestKind::Upload));
    let app = m.app_info.unwrap();
    assert_eq!(app.elapsed_time, 250_000);
    assert_eq!(app.num_bytes, 0);
    // The cadence restarts from the last snapshot.
    assert!(sender.maybe_snapshot(400_000).is_none());
    assert!(sender.maybe_snapshot(500_000).is_some());
}

#[test]
fn counterflow_text_is_stamped_and_forwarded() {
    let msg = WireMessage::Text("{\"TCPInfo\":{\"ElapsedTime\":100}}".to_string());
    match counterflow_frame(msg) {
        CounterflowStep::Forward(m) => {
            assert_eq!(m.origin, Some(Origin::Server));
            assert_eq!(m.test, Some(TestKind::Upload));
            assert_eq!(m.tcp_info.unwrap().elapsed_time, Some(100));
        }
        other => panic!("unexpected step: {:?}", other),
    }
}

#[test]
fn counterflow_binary_is_protocol_violation() {
    // A binary frame during the upload counter-flow read is a hard
    // error that terminates the subtest; no record accompanies it.
    match counterflow_frame(WireMessage::Binary(vec![0u8; 16])) {
        CounterflowStep::Failed(Ndt7Error::ProtocolViolation(_)) => {}
        other => panic!("unexpected step: {:?}", other),
    }
    match counterflow_frame(WireMessage::Close) {
        CounterflowStep::Finished => {}
        other => panic!("unexpected step: {:?}", other),
    }
    match counterflow_frame(WireMessage::Other) {
        CounterflowStep::Continue => {}
        other => panic!("unexpected step: {:?}", other),
    }
}

#[test]
fn counterflow_malformed_text_fails() {
    match counterflow_frame(WireMessage::Text("not json".to_string())) {
        CounterflowStep::Failed(Ndt7Error::JsonError(_)) => {}
        other => panic!("unexpected step: {:?}", other),
    }
}

#[test]
fn download_counts_binary_and_text_bytes() {
    let mut rx = DownloadReceiver::new();
    match rx.process_frame(WireMessage::Binary(vec![0u8; 1000])) {
        DownloadStep::Continue => {}
        other => panic!("unexpected step: {:?}", other),
    }
    assert_eq!(rx.total_bytes, 1000);
    let text = "{\"TCPInfo\":{\"RTT\":5}}".to_string();
    let text_len = text.len() as i64;
    match rx.process_frame(WireMessage::Text(text)) {
        DownloadStep::Forward(m) => {
            assert_eq!(m.origin, Some(Origin::Server));
            assert_eq!(m.test, Some(TestKind::Download));
            assert_eq!(m.tcp_info.unwrap().rtt, Some(5));
        }
        other => panic!("unexpected step: {:?}", other),
    }
    assert_eq!(rx.total_bytes, 1000 + text_len);
    match rx.process_frame(WireMessage::Close) {
        DownloadStep::Finished => {}
        other => panic!("unexpected step: {:?}", other),
    }
}

#[test]
fn download_malformed_text_fails() {
    let mut rx = DownloadReceiver::new();
    match rx.process_frame(WireMessage::Text("{broken".to_string())) {
        DownloadStep::Failed(Ndt7Error::JsonError(_)) => {}
        other => panic!("unexpected step: {:?}", other),
    }
}

#[test]
fn download_snapshot_cadence() {
    let mut rx = DownloadReceiver::new();
    let _ = rx.process_frame(WireMessage::Binary(vec![0u8; 2048]));
    assert!(rx.maybe_snapshot(249_999).is_none());
    let m = rx.maybe_snapshot(251_000).unwrap();
    assert_eq!(m.origin, Some(Origin::Client));
    assert_eq!(m.test, Some(TestKind::Download));
    let app = m.app_info.unwrap();
    assert_eq!(app.elapsed_time, 251_000);
    assert_eq!(app.num_bytes, 2048);
}

#[test]
fn deadlines_match_protocol_constants() {
    assert!(!download_deadline_exceeded(14_999_999));
    assert!(download_deadline_exceeded(15_000_000));
    assert!(!upload_deadline_exceeded(9_999_999));
    assert!(upload_deadline_exceeded(10_000_000));
}
