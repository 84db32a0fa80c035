//! Tests for target resolution, discovery classification and errors.

use ndt7_client::client::Client;
use ndt7_client::client::ClientBuilder;
use ndt7_client::client::select_target;
use ndt7_client::client::targets_from_server;
use ndt7_client::client::targets_from_service_url;
use ndt7_client::error::Ndt7Error;
use ndt7_client::locate::Target;
use ndt7_client::locate::locate_outcome;
use ndt7_client::locate::locate_response_from_json;

#[test]
fn deserialize_locate_response() {
    let json = r#"{
           "results": [
               {
                   "machine": "mlab1-lga06.mlab-oss.measurement-lab.org",
                   "urls": {
                       "wss:///ndt/v7/download": "wss://mlab1-lga06:4443/ndt/v7/download?access_token=abc",
                       "wss:///ndt/v7/upload": "wss://mlab1-lga06:4443/ndt/v7/upload?access_token=def"
                   }
               }
           ]
        }"#;

    let l_resp = locate_response_from_json(json).unwrap();

    let results = l_resp.results;
    assert_eq!(results.len(), 1);
    assert_eq!(
        results[0].machine,
        "mlab1-lga06.mlab-oss.measurement-lab.org"
    );
    assert_eq!(results[0].urls.len(), 2);
}

#[test]
fn deserialize_locate_response_with_extra_fields() {
    // A real discovery response carries fields the client does not
    // model, such as the server location; they are skipped.
    let json = r#"{
           "results": [
               {
                   "machine": "mlab2",
                   "location": {"city": "New York", "country": "US"},
                   "urls": {"wss:///ndt/v7/upload": "wss://mlab2/ndt/v7/upload?access_token=z"}
               }
           ]
        }"#;
    let resp = ndt7_client::locate::locate_response_from_json(json).unwrap();
    assert_eq!(resp.results.len(), 1);
    assert_eq!(resp.results[0].machine, "mlab2");
    assert_eq!(resp.results[0].urls.len(), 1);
}

#[test]
fn no_content_status_means_no_capacity() {
    // A "no content" discovery response is capacity exhaustion, never
    // an empty target list.
    match locate_outcome(204, "") {
        Err(Ndt7Error::NoCapacity) => {}
        other => panic!("unexpected outcome: {:?}", other),
    }
}

#[test]
fn discovery_failures_are_distinguished() {
    match locate_outcome(503, "") {
        Err(Ndt7Error::LocateFailed(_)) => {}
        other => panic!("unexpected outcome: {:?}", other),
    }
    match locate_outcome(200, "not json") {
        Err(Ndt7Error::JsonError(_)) => {}
        other => panic!("unexpected outcome: {:?}", other),
    }
    let ts = locate_outcome(200, "{\"results\": []}").unwrap();
    assert!(ts.is_empty());
    match select_target(ts) {
        Err(Ndt7Error::NoTargets) => {}
        other => panic!("unexpected outcome: {:?}", other),
    }
}

#[test]
fn select_target_extracts_urls() {
    let target = Target {
        machine: "mlab1".to_string(),
        urls: vec![
            (
                "wss:///ndt/v7/download".to_string(),
                "wss://mlab1/ndt/v7/download?access_token=abc".to_string(),
            ),
            (
                "wss:///ndt/v7/upload".to_string(),
                "wss://mlab1/ndt/v7/upload?access_token=def".to_string(),
            ),
            ("ws:///other".to_string(), "ws://mlab1/other".to_string()),
        ],
    };
    let r = select_target(vec![target]).unwrap();
    assert_eq!(r.server_fqdn, "mlab1");
    assert_eq!(
        r.download_url.as_deref(),
        Some("wss://mlab1/ndt/v7/download?access_token=abc")
    );
    assert_eq!(
        r.upload_url.as_deref(),
        Some("wss://mlab1/ndt/v7/upload?access_token=def")
    );
}

#[test]
fn unrecognized_service_path_is_unsupported() {
    // A URL whose path carries neither subtest marker resolves to an
    // error before any connection is attempted.
    match targets_from_service_url("wss://mlab1:4443/ndt/v5/other") {
        Err(Ndt7Error::ServiceUnsupported(_)) => {}
        other => panic!("unexpected outcome: {:?}", other),
    }
}

#[test]
fn service_url_classification() {
    let r = targets_from_service_url("wss://mlab1:4443/ndt/v7/download?access_token=x").unwrap();
    assert_eq!(r.server_fqdn, "mlab1");
    assert_eq!(
        r.download_url.as_deref(),
        Some("wss://mlab1:4443/ndt/v7/download?access_token=x")
    );
    assert!(r.upload_url.is_none());

    let r = targets_from_service_url("ws://mlab1/ndt/v7/upload").unwrap();
    assert!(r.download_url.is_none());
    assert_eq!(r.upload_url.as_deref(), Some("ws://mlab1/ndt/v7/upload"));

    match targets_from_service_url("not a url") {
        Err(Ndt7Error::UrlParse(_)) => {}
        other => panic!("unexpected outcome: {:?}", other),
    }
}

#[test]
fn server_targets_synthesize_urls() {
    let r = targets_from_server("localhost:8080", false, false, false);
    assert_eq!(r.server_fqdn, "localhost:8080");
    assert_eq!(
        r.download_url.as_deref(),
        Some("wss://localhost:8080/ndt/v7/download")
    );
    assert_eq!(
        r.upload_url.as_deref(),
        Some("wss://localhost:8080/ndt/v7/upload")
    );

    let r = targets_from_server("localhost:8080", true, true, false);
    assert!(r.download_url.is_none());
    assert_eq!(
        r.upload_url.as_deref(),
        Some("ws://localhost:8080/ndt/v7/upload")
    );
}

#[test]
fn builder_and_user_agent() {
    let client: Client = ClientBuilder::new("my-app".to_string(), "1.0.0".to_string()).build();
    assert!(!client.no_verify_tls);
    assert_eq!(client.user_agent(), "my-app/1.0.0 ndt7_client/0.1.0");

    let insecure = ClientBuilder::new("x".to_string(), "y".to_string())
        .danger_no_verify_tls()
        .build();
    assert!(insecure.no_verify_tls);
}

#[test]
fn connect_url_keeps_access_token() {
    let client = ClientBuilder::new("my-app".to_string(), "1.0.0".to_string()).build();
    let url = client
        .connect_request_url(
            "wss://mlab1:4443/ndt/v7/download?access_token=abc",
            "linux",
            "x86_64",
        )
        .unwrap();
    assert!(url.contains("access_token=abc"));
    assert!(url.contains("client_name=my-app"));
    assert!(url.contains("client_version=1.0.0"));
    assert!(url.contains("client_os=linux"));
    assert!(url.contains("client_arch=x86_64"));

    match client.connect_request_url("::", "linux", "x86_64") {
        Err(Ndt7Error::UrlParse(_)) => {}
        other => panic!("unexpected outcome: {:?}", other),
    }
}

#[test]
fn error_messages() {
    assert_eq!(Ndt7Error::NoCapacity.message(), "no capacity available");
    assert_eq!(Ndt7Error::NoTargets.message(), "no targets available");
    assert_eq!(Ndt7Error::Timeout.message(), "timeout occured");
    assert_eq!(
        Ndt7Error::ServiceUnsupported("p".to_string()).message(),
        "bad service URL: p"
    );
    assert_eq!(
        Ndt7Error::ProtocolViolation("b".to_string()).message(),
        "protocol violation: b"
    );
    assert_eq!(
        Ndt7Error::WebSocket(Box::new("w".to_string())).message(),
        "websocket error: w"
    );
    assert_eq!(
        Ndt7Error::LocateFailed("l".to_string()).message(),
        "locate failed: l"
    );
    assert_eq!(
        Ndt7Error::JsonError("j".to_string()).message(),
        "serialize/deserialize error: j"
    );
    assert_eq!(
        Ndt7Error::UrlParse("u".to_string()).message(),
        "URL parse error: u"
    );
    assert_eq!(Ndt7Error::IoError("i".to_string()).message(), "I/O error: i");
}
