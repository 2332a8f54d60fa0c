use omakindle::amazon::Error;
use omakindle::fetch::{read_secret, FetchReport};
use omakindle::models::{Book, Highlights, Progress};
use omakindle::probe::run_probe;
use serde_json::Value;

const COOKIES: &str = "ubid-main=a; at-main=b; x-main=c; session-id=d";

fn book(asin: &str) -> Book {
    Book {
        asin: asin.to_string(),
        title: String::new(),
        authors: vec![],
        cover_url: String::new(),
        web_reader_url: String::new(),
        resource_type: String::new(),
        origin_type: String::new(),
    }
}

fn progress() -> Progress {
    Progress {
        position: Some(3),
        device_name: None,
        sync_time: None,
    }
}

fn highlights() -> Highlights {
    Highlights {
        asin: "b1".to_string(),
        count: 0,
        limited: false,
        items: vec![],
    }
}

#[test]
fn secrets_are_trimmed() {
    assert_eq!(read_secret("/s", Ok(" x y\n".to_string())), Ok("x y".to_string()));
    assert_eq!(
        read_secret("/s", Err("denied".to_string())),
        Err("cannot read /s: denied".to_string())
    );
}

#[test]
fn a_fetch_reports_a_book_in_full() {
    let mut report = FetchReport::new();
    let client = report.start(Ok(COOKIES.to_string()), Ok("T".to_string()), "uk").unwrap();
    assert!(client.has_device_token());
    let target = report.library(Ok(vec![book("b1"), book("b2")]), None);
    assert_eq!(target.as_deref(), Some("b1"));
    assert!(report.progress(Ok(progress())));
    assert!(report.percentage(Ok(425)));
    assert!(!report.ok);
    report.highlights(Ok(highlights()));
    assert!(report.ok);
    assert_eq!(report.error, None);
    assert_eq!(report.library_count, 2);
    assert_eq!(report.first_book.unwrap().asin, "b1");
    assert_eq!(report.progress.unwrap().position, Some(3));
    assert_eq!(report.percentage_read, Some(425));
    assert_eq!(report.highlights.unwrap().asin, "b1");
}

#[test]
fn a_fetch_of_an_empty_library_is_over_at_once() {
    let mut report = FetchReport::new();
    assert_eq!(report.library(Ok(vec![]), None), None);
    assert!(report.ok);
    assert_eq!(report.library_count, 0);
    let mut report = FetchReport::new();
    assert_eq!(report.library(Ok(vec![]), Some("b9".to_string())).as_deref(), Some("b9"));
    assert!(!report.ok);
}

#[test]
fn a_fetch_that_fails_says_where() {
    let failed = || Error::Http("down".to_string());
    let mut report = FetchReport::new();
    assert!(report.start(Err("no file".to_string()), Ok(String::new()), "us").is_none());
    assert_eq!(report.error.as_deref(), Some("no file"));
    let mut report = FetchReport::new();
    assert!(report.start(Ok(COOKIES.to_string()), Err("no token".to_string()), "us").is_none());
    assert_eq!(report.error.as_deref(), Some("no token"));
    let mut report = FetchReport::new();
    assert!(report.start(Ok(String::new()), Ok(String::new()), "us").is_none());
    assert_eq!(
        report.error.as_deref(),
        Some("could not parse Amazon response: missing cookies: ubid-main, at-main, x-main, session-id")
    );
    let mut report = FetchReport::new();
    assert_eq!(report.library(Err(failed()), None), None);
    assert_eq!(report.error.as_deref(), Some("network error: down"));
    let mut report = FetchReport::new();
    assert!(!report.progress(Err(failed())));
    assert_eq!(report.error.as_deref(), Some("progress: network error: down"));
    let mut report = FetchReport::new();
    assert!(!report.percentage(Err(failed())));
    assert_eq!(report.error.as_deref(), Some("percentage: network error: down"));
    let mut report = FetchReport::new();
    report.highlights(Err(failed()));
    assert_eq!(report.error.as_deref(), Some("highlights: network error: down"));
    assert!(!report.ok);
}

const REPORT: &str = r#"{
  "user_agent": "Agent/1",
  "tls": {"ja3_hash": "j3", "ja4": "j4", "other": 1},
  "http2": {
    "akamai_fingerprint_hash": "ak",
    "sent_frames": [
      {"frame_type": "SETTINGS"},
      {"headers": "none"},
      {"headers": [[":method", "GET"], ["::x", "y"], ["lonely"], "text", [1, "z"], ["accept", "*/*", "more"]]},
      {"headers": [["later", "frame"]]}
    ]
  }
}"#;

#[test]
fn a_probe_is_summed_up() {
    let shown = run_probe("https://tls.peet.ws/api/all", REPORT).unwrap();
    assert!(shown.starts_with("{\n  \""));
    let summary: Value = serde_json::from_str(&shown).unwrap();
    assert_eq!(summary["userAgent"], "Agent/1");
    assert_eq!(summary["ja3"], "j3");
    assert_eq!(summary["ja4"], "j4");
    assert_eq!(summary["akamai"], "ak");
    let expected: Value =
        serde_json::from_str(r#"[["method", "GET"], ["x", "y"], ["accept", "*/*"]]"#).unwrap();
    assert_eq!(summary["headers"], expected);
    assert_eq!(summary.as_object().unwrap().len(), 5);
}

#[test]
fn a_probe_without_frames_has_no_headers() {
    let shown = run_probe("peet.ws", "{\"http2\": {\"sent_frames\": 3}}").unwrap();
    let summary: Value = serde_json::from_str(&shown).unwrap();
    assert_eq!(summary["headers"], Value::Array(vec![]));
    assert_eq!(summary["userAgent"], Value::Null);
    assert!(run_probe("https://tls.peet.ws", "<html>").is_err());
    assert_eq!(run_probe("https://example.org", "<html>").unwrap(), "<html>");
}
