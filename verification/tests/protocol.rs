use omakindle::keyed::Keyed;
use omakindle::lines::{
    incoming, outgoing, Incoming, LineRead, LineReader, MAX_REQUEST_LINE, MAX_RESPONSE_LINE,
};
use omakindle::passages::HighlightsCache;
use omakindle::reading::Cache;
use omakindle::requests::{default_version, dispatch, Change, Plan, Request, Show, Step};
use omakindle::state::App;
use omakindle::wire::{
    enrich_highlight, error_response, highlights_event, respond, snapshot_line, state_event,
    success, Outcome,
};
use serde_json::Value;

fn app() -> App {
    App::new(
        Cache {
            region: "us".to_string(),
            books: vec![],
            points: Keyed::new(),
            updated_at: None,
        },
        HighlightsCache { books: Keyed::new() },
    )
}

fn request(command: &str) -> Request {
    Request {
        v: 1,
        id: 7,
        command: command.to_string(),
        cookies: None,
        device_token: None,
        region: None,
        asin: None,
        minutes: None,
        force: None,
        enrich: None,
        start: None,
        end: None,
        limit: None,
        per_book: None,
    }
}

fn json(line: &str) -> Value {
    assert!(!line.contains('\n'));
    serde_json::from_str(line).unwrap()
}

fn reply(step: Step) -> Value {
    match step {
        Step::Reply(line) => json(&line),
        Step::Work(_) => panic!("expected an answer"),
    }
}

fn plan(step: Step) -> Plan {
    match step {
        Step::Work(plan) => plan,
        Step::Reply(line) => panic!("unexpected answer: {line}"),
    }
}

fn code(value: &Value) -> &str {
    value["errorCode"].as_str().unwrap()
}

#[test]
fn a_version_is_one_unless_it_is_given() {
    assert_eq!(default_version(), 1);
    let mut asked = request("ping");
    asked.v = 2;
    let answer = reply(dispatch(&mut app(), Ok(asked), "0.1.0"));
    assert_eq!(code(&answer), "unsupported_version");
    assert_eq!(answer["error"], "protocol version must be 1");
    assert_eq!(answer["id"], 7);
}

#[test]
fn simple_commands_are_answered_at_once() {
    let answer = reply(dispatch(&mut app(), Ok(request("hello")), "9.9"));
    assert_eq!(answer["type"], "response");
    assert_eq!(answer["v"], 1);
    assert_eq!(answer["ok"], true);
    assert_eq!(answer["id"], 7);
    assert_eq!(answer["result"]["protocolVersion"], 1);
    assert_eq!(answer["result"]["backendVersion"], "9.9");
    let answer = reply(dispatch(&mut app(), Ok(request("ping")), "9.9"));
    assert_eq!(answer["result"].as_object().unwrap().len(), 0);
}

#[test]
fn minutes_are_set_and_reported_within_their_bounds() {
    let mut app = app();
    let mut asked = request("set_refresh_minutes");
    asked.minutes = Some(2);
    let answer = reply(dispatch(&mut app, Ok(asked), "1"));
    assert_eq!(answer["result"]["refreshMinutes"], 5);
    assert_eq!(app.refresh_minutes(), 5);
    reply(dispatch(&mut app, Ok(request("set_refresh_minutes")), "1"));
    assert_eq!(app.refresh_minutes(), 15);
}

#[test]
fn unreadable_and_unknown_requests_are_refused() {
    let answer = reply(dispatch(&mut app(), Err("eof\n".to_string()), "1"));
    assert_eq!(answer["id"], -1);
    assert_eq!(code(&answer), "bad_request");
    assert_eq!(answer["error"], "invalid request: eof\n");
    let answer = reply(dispatch(&mut app(), Ok(request("dance")), "1"));
    assert_eq!(code(&answer), "unknown_command");
    assert_eq!(answer["error"], "unknown command: dance");
}

#[test]
fn sessions_are_changed_then_refreshed_then_shown() {
    let mut asked = request("set_credentials");
    asked.cookies = Some("c".to_string());
    asked.device_token = Some("t".to_string());
    let work = plan(dispatch(&mut app(), Ok(asked), "1"));
    assert_eq!(work.id, 7);
    assert!(work.refresh);
    assert!(matches!(work.show, Show::State));
    match work.change {
        Change::SignIn { cookies, device_token, region } => {
            assert_eq!(cookies, "c");
            assert_eq!(device_token, "t");
            assert_eq!(region, "us");
        }
        _ => panic!("expected a sign-in"),
    }
    let mut asked = request("store_cookies");
    asked.cookies = Some("c".to_string());
    asked.device_token = Some("ignored".to_string());
    asked.region = Some("de".to_string());
    match plan(dispatch(&mut app(), Ok(asked), "1")).change {
        Change::SignIn { device_token, region, .. } => {
            assert_eq!(device_token, "");
            assert_eq!(region, "de");
        }
        _ => panic!("expected a sign-in"),
    }
    let mut asked = request("set_device_token");
    asked.device_token = Some("t".to_string());
    let work = plan(dispatch(&mut app(), Ok(asked), "1"));
    assert!(work.refresh);
    assert!(matches!(work.change, Change::DeviceToken(token) if token == "t"));
    let work = plan(dispatch(&mut app(), Ok(request("clear_credentials")), "1"));
    assert!(!work.refresh);
    assert!(matches!(work.change, Change::Clear));
}

#[test]
fn states_are_shown_with_or_without_a_refresh() {
    let work = plan(dispatch(&mut app(), Ok(request("get_state")), "1"));
    assert!(!work.refresh && matches!(work.change, Change::Nothing));
    let work = plan(dispatch(&mut app(), Ok(request("refresh")), "1"));
    assert!(work.refresh && matches!(work.change, Change::Nothing));
}

#[test]
fn commands_need_their_arguments() {
    let refused = |asked: Request| {
        let answer = reply(dispatch(&mut app(), Ok(asked), "1"));
        assert_eq!(code(&answer), "bad_request");
        answer["error"].as_str().unwrap().to_string()
    };
    assert_eq!(refused(request("store_cookies")), "cookies are required");
    assert_eq!(refused(request("set_device_token")), "deviceToken is required");
    assert_eq!(refused(request("get_highlights")), "asin is required");
    assert_eq!(refused(request("get_highlight_text")), "asin is required");
    let mut asked = request("get_highlight_text");
    asked.asin = Some("B1".to_string());
    asked.start = Some(1);
    assert_eq!(refused(asked), "start and end are required");
}

#[test]
fn highlights_are_asked_for_with_defaults() {
    let mut asked = request("get_highlights");
    asked.asin = Some("B1".to_string());
    asked.enrich = Some(true);
    match plan(dispatch(&mut app(), Ok(asked), "1")).show {
        Show::Highlights { asin, force, enrich } => {
            assert_eq!(asin, "B1");
            assert!(!force && enrich);
        }
        _ => panic!("expected highlights"),
    }
    match plan(dispatch(&mut app(), Ok(request("get_recent_highlights")), "1")).show {
        Show::Recent { limit, per_book, force } => {
            assert_eq!((limit, per_book, force), (8, 4, false));
        }
        _ => panic!("expected recent highlights"),
    }
    let mut asked = request("get_highlight_text");
    asked.asin = Some("B1".to_string());
    asked.start = Some(1);
    asked.end = Some(2);
    match plan(dispatch(&mut app(), Ok(asked), "1")).show {
        Show::Text { asin, start, end } => assert_eq!((asin.as_str(), start, end), ("B1", 1, 2)),
        _ => panic!("expected a passage"),
    }
}

#[test]
fn responses_keep_the_id_and_read_back() {
    let answer = json(&error_response(-5, "network", "a \"quoted\"\nline"));
    assert_eq!(answer["id"], -5);
    assert_eq!(answer["ok"], false);
    assert_eq!(answer["error"], "a \"quoted\"\nline");
    assert_eq!(answer.as_object().unwrap().len(), 6);
    let answer = json(&success(8, Value::from("x")));
    assert_eq!(answer["id"], 8);
    assert_eq!(answer["result"], "x");
    assert_eq!(answer.as_object().unwrap().len(), 5);
}

fn nested(depth: usize) -> Value {
    let mut value = Value::from(-7);
    for level in 0..depth {
        value = if level % 2 == 0 {
            Value::Array(vec![value, Value::Null])
        } else {
            let mut object: Value = serde_json::from_str("{\"b\":\"\"}").unwrap();
            object["a"] = value;
            object
        };
    }
    value
}

#[test]
fn results_without_fractions_read_back_as_deep_as_the_reader_goes() {
    for depth in [0, 1, 2, 50, 126] {
        let answer = json(&success(3, nested(depth)));
        assert_eq!(answer["result"], nested(depth));
        let line = json(&highlights_event("B1", nested(depth)));
        assert_eq!(line["highlights"], nested(depth));
    }
    let deeper = success(3, nested(127));
    assert!(serde_json::from_str::<Value>(&deeper).is_err());
}

#[test]
fn news_are_framed_as_events() {
    let state = || serde_json::from_str::<Value>("{\"a\":1}").unwrap();
    let line = json(&snapshot_line(state()));
    assert_eq!(line["type"], "snapshot");
    assert_eq!(line["state"]["a"], 1);
    let line = json(&state_event(state()));
    assert_eq!(line["type"], "event");
    assert_eq!(line["event"], "state_changed");
    assert_eq!(line["state"]["a"], 1);
    let line = json(&highlights_event("B1", state()));
    assert_eq!(line["event"], "highlights_changed");
    assert_eq!(line["asin"], "B1");
    assert_eq!(line["highlights"]["a"], 1);
    assert_eq!(line["v"], 1);
}

#[test]
fn outcomes_become_results() {
    let value = || Value::from(3);
    let answer = json(&respond(1, Ok(Outcome::State(value()))));
    assert_eq!(answer["result"]["state"], 3);
    let answer = json(&respond(
        1,
        Ok(Outcome::Highlights {
            highlights: value(),
            cached: true,
            stale: false,
            fetched_at: u64::MAX,
        }),
    ));
    assert_eq!(answer["result"]["highlights"], 3);
    assert_eq!(answer["result"]["cached"], true);
    assert_eq!(answer["result"]["stale"], false);
    assert_eq!(answer["result"]["fetchedAt"], u64::MAX);
    let answer = json(&respond(
        1,
        Ok(Outcome::Recent {
            items: vec![value(), value()],
            scanned: 2,
        }),
    ));
    assert_eq!(answer["result"]["items"].as_array().unwrap().len(), 2);
    assert_eq!(answer["result"]["scanned"], 2);
    let answer = json(&respond(1, Ok(Outcome::Text("words".to_string()))));
    assert_eq!(answer["result"]["text"], "words");
    let answer = json(&respond(1, Err(("busy".to_string(), "later".to_string()))));
    assert_eq!(code(&answer), "busy");
}

#[test]
fn highlights_are_decorated_with_their_book() {
    let item: Value = serde_json::from_str("{\"text\":\"t\",\"bookTitle\":\"old\"}").unwrap();
    let decorated = enrich_highlight(item, "B1", "Title", "A, B");
    assert_eq!(decorated["text"], "t");
    assert_eq!(decorated["bookAsin"], "B1");
    assert_eq!(decorated["bookTitle"], "Title");
    assert_eq!(decorated["bookAuthors"], "A, B");
    assert_eq!(enrich_highlight(Value::Null, "B1", "T", "A"), Value::Null);
}

fn read_all(stream: &[u8], piece: usize, max: usize) -> Vec<String> {
    let mut reader = LineReader::new(max);
    let mut at = 0;
    let mut lines = Vec::new();
    loop {
        let upto = (at + piece).min(stream.len());
        let fed = reader.feed(&stream[at..upto]);
        at += fed.consumed;
        match fed.read {
            None => {}
            Some(LineRead::Line(line)) => lines.push(line),
            Some(LineRead::Eof) => return lines,
            Some(LineRead::TooLong) => {
                lines.push("<too long>".to_string());
                return lines;
            }
            Some(LineRead::NotText) => {
                lines.push("<not text>".to_string());
                return lines;
            }
        }
    }
}

#[test]
fn lines_do_not_depend_on_how_the_stream_is_cut() {
    let stream = "first\n\nsec\u{f6}nd\nlast".as_bytes();
    for piece in 1..=stream.len() {
        assert_eq!(read_all(stream, piece, 100), vec!["first", "", "sec\u{f6}nd", "last"]);
    }
}

#[test]
fn the_last_line_is_handed_out_once() {
    let mut reader = LineReader::new(10);
    assert!(reader.feed(b"last").read.is_none());
    assert!(matches!(reader.feed(b"").read, Some(LineRead::Line(line)) if line == "last"));
    assert!(matches!(reader.feed(b"").read, Some(LineRead::Eof)));
    assert!(reader.feed(b"\xff").read.is_none());
    assert!(matches!(reader.feed(b"").read, Some(LineRead::NotText)));
    assert!(matches!(reader.feed(b"").read, Some(LineRead::Eof)));
}

#[test]
fn lines_over_the_bound_are_refused() {
    for piece in 1..12 {
        assert_eq!(read_all(b"12345\n12345\n", piece, 5), vec!["12345", "12345"]);
        assert_eq!(read_all(b"123456\n1\n", piece, 5), vec!["<too long>"]);
        assert_eq!(read_all(b"123456", piece, 5), vec!["<too long>"]);
        assert_eq!(read_all(b"a\n\xff\n", piece, 5), vec!["a", "<not text>"]);
    }
}

#[test]
fn blank_lines_are_nothing_and_long_ones_end_the_connection() {
    assert!(matches!(incoming(LineRead::Line(" \t".to_string())), Incoming::Nothing));
    assert!(matches!(incoming(LineRead::Eof), Incoming::End));
    assert!(matches!(incoming(LineRead::NotText), Incoming::End));
    match incoming(LineRead::Line(" {} ".to_string())) {
        Incoming::Request(line) => assert_eq!(line, "{}"),
        _ => panic!("expected a request"),
    }
    match incoming(LineRead::TooLong) {
        Incoming::Refuse(line) => {
            let answer = json(&line);
            assert_eq!(code(&answer), "line_too_long");
            assert_eq!(
                answer["error"],
                format!("request lines are limited to {MAX_REQUEST_LINE} bytes")
            );
            assert_eq!(answer["id"], -1);
        }
        _ => panic!("expected a refusal"),
    }
}

#[test]
fn responses_over_the_bound_cut_the_client_off() {
    let sent = outgoing("x".repeat(MAX_RESPONSE_LINE));
    assert!(!sent.last);
    assert_eq!(sent.line.len(), MAX_RESPONSE_LINE);
    let sent = outgoing("\u{e9}".repeat(MAX_RESPONSE_LINE / 2 + 1));
    assert!(sent.last);
    let answer = json(&sent.line);
    assert_eq!(code(&answer), "response_too_large");
    assert_eq!(
        answer["error"],
        format!("responses are limited to {MAX_RESPONSE_LINE} bytes")
    );
}
