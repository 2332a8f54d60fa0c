use omakindle::amazon::{
    copied, opened_book, Amazon, AnnotationsStep, CopyTextResponse, Error, LibraryStep,
    ReaderRequest, Reply,
};
use omakindle::credentials::Credentials;
use omakindle::models::{
    BookMetadata, DeviceInfo, Highlights, LastPageRead, LibraryItem, LibraryPage, StartReading,
};
use omakindle::reading::ratio_for;
use serde_json::Value;

fn session(device_token: &str) -> Amazon {
    let credentials =
        Credentials::new("ubid-main=a; at-main=b; x-main=c; session-id=d", device_token).unwrap();
    Amazon::new("us", credentials)
}

fn device(token: &str) -> DeviceInfo {
    DeviceInfo {
        client_hash_id: String::new(),
        device_name: String::new(),
        device_session_token: token.to_string(),
        eid: String::new(),
    }
}

fn registered() -> Amazon {
    let mut amazon = session("T");
    amazon.register_device(Ok(device("adp"))).unwrap();
    amazon
}

fn reply(status: u16, url: &str, body: &str) -> Reply {
    Reply {
        status,
        final_url: url.to_string(),
        cookies: vec![],
        body: Ok(body.to_string()),
    }
}

fn parse_message<T>(result: Result<T, Error>) -> String {
    match result {
        Err(Error::Parse(message)) => message,
        _ => panic!("expected a parse error"),
    }
}

#[test]
fn answers_are_handed_on_or_turned_into_errors() {
    let mut amazon = session("");
    assert_eq!(amazon.receive(reply(200, "https://read.amazon.com/x", "hi")).unwrap(), "hi");
    assert!(matches!(
        amazon.receive(reply(200, "https://www.amazon.com/ap/signin?x", "hi")),
        Err(Error::AuthExpired)
    ));
    let long = "y".repeat(300);
    match amazon.receive(reply(503, "https://read.amazon.com/x", &long)) {
        Err(Error::Amazon { status, message }) => {
            assert_eq!(status, 503);
            assert_eq!(message.len(), 200);
        }
        _ => panic!("expected an Amazon error"),
    }
    let lost = Reply {
        status: 200,
        final_url: String::new(),
        cookies: vec![],
        body: Err("cut".to_string()),
    };
    match amazon.receive(lost) {
        Err(Error::Http(message)) => assert_eq!(message, "cut"),
        _ => panic!("expected a network error"),
    }
}

#[test]
fn answers_rotate_the_cookies_of_the_session() {
    let mut amazon = session("");
    let mut answer = reply(500, "https://read.amazon.com/x", "");
    answer.cookies = vec![
        ("at-main".to_string(), "B".to_string()),
        ("session-id".to_string(), "D1".to_string()),
        ("session-id".to_string(), "D2".to_string()),
        ("fresh".to_string(), "f".to_string()),
    ];
    assert!(amazon.receive(answer).is_err());
    assert_eq!(
        amazon.cookies(),
        "ubid-main=a; at-main=B; x-main=c; session-id=D2; fresh=f"
    );
    let headers = amazon.headers(false).unwrap();
    assert_eq!(headers[3], ("x-amzn-sessionid".to_string(), "D2".to_string()));
}

#[test]
fn device_headers_come_only_with_a_registered_device() {
    let mut amazon = session("T");
    assert_eq!(amazon.headers(true).unwrap().len(), 4);
    amazon.register_device(Ok(device("adp"))).unwrap();
    assert_eq!(amazon.headers(false).unwrap().len(), 4);
    let headers = amazon.headers(true).unwrap();
    assert_eq!(headers[0].0, "cookie");
    assert_eq!(headers[1], ("accept-language".to_string(), "en-US,en;q=0.9".to_string()));
    assert_eq!(headers[4], ("x-adp-session-token".to_string(), "adp".to_string()));
}

#[test]
fn headers_hold_no_control_characters() {
    let mut amazon = session("T");
    let mut answer = reply(200, "", "");
    answer.cookies = vec![("x-main".to_string(), "a\tb".to_string())];
    amazon.receive(answer).unwrap();
    assert!(amazon.headers(false).is_ok());
    let mut answer = reply(200, "", "");
    answer.cookies = vec![("x-main".to_string(), "a\u{7f}".to_string())];
    amazon.receive(answer).unwrap();
    assert_eq!(parse_message(amazon.headers(false)), "failed to parse header value");
}

fn page(asins: Vec<&str>, token: Option<&str>) -> LibraryPage {
    LibraryPage {
        items_list: asins
            .into_iter()
            .map(|asin| LibraryItem {
                title: String::new(),
                asin: asin.to_string(),
                authors: vec![],
                product_url: String::new(),
                web_reader_url: String::new(),
                resource_type: String::new(),
                origin_type: String::new(),
            })
            .collect(),
        pagination_token: token.map(str::to_string),
    }
}

#[test]
fn the_library_is_listed_page_by_page() {
    let amazon = session("");
    let (run, call) = amazon.library(true);
    let first = "https://read.amazon.com/kindle-library/search?query=&libraryType=BOOKS&sortType=recency&querySize=50";
    assert_eq!(call.url, first);
    assert!(!call.adp && call.body.is_none());
    let (run, call) = match run.page(&amazon, Ok(page(vec!["a", "b"], Some("n/1")))).unwrap() {
        LibraryStep::Fetch { run, call } => (run, call),
        LibraryStep::Done(_) => panic!("expected another page"),
    };
    assert_eq!(call.url, format!("{first}&paginationToken=n%2F1"));
    assert!(!call.adp);
    match run.page(&amazon, Ok(page(vec!["c"], Some("")))).unwrap() {
        LibraryStep::Done(books) => {
            let asins: Vec<&str> = books.iter().map(|book| book.asin.as_str()).collect();
            assert_eq!(asins, vec!["a", "b", "c"]);
        }
        LibraryStep::Fetch { .. } => panic!("expected the end"),
    }
}

#[test]
fn the_library_stops_after_one_page_unless_all_are_wanted() {
    let amazon = session("");
    let (run, _) = amazon.library(false);
    assert!(matches!(
        run.page(&amazon, Ok(page(vec!["a"], Some("n")))).unwrap(),
        LibraryStep::Done(_)
    ));
    let (run, _) = amazon.library(true);
    assert!(matches!(
        run.page(&amazon, Ok(page(vec![], Some("n")))).unwrap(),
        LibraryStep::Done(_)
    ));
    let (run, _) = amazon.library(true);
    assert_eq!(
        parse_message(run.page(&amazon, Err("eof".to_string()))),
        "library response was not JSON: eof"
    );
}

#[test]
fn a_device_is_registered_with_its_token() {
    assert_eq!(parse_message(session("").register_request()), "device token not set");
    let mut amazon = session("A/B");
    assert!(!amazon.register_request().unwrap().adp);
    assert_eq!(
        amazon.register_request().unwrap().url,
        "https://read.amazon.com/service/web/register/getDeviceToken?serialNumber=A%2FB&deviceType=A%2FB"
    );
    assert_eq!(
        parse_message(amazon.register_device(Err("eof".to_string()))),
        "device token response: eof"
    );
    assert_eq!(
        parse_message(amazon.register_device(Ok(device("")))),
        "device token response had no session token"
    );
    assert!(matches!(amazon.start_reading("B1").unwrap(), ReaderRequest::Register(_)));
    amazon.register_device(Ok(device("adp"))).unwrap();
    match amazon.start_reading("B 1").unwrap() {
        ReaderRequest::Ask(call) => {
            assert_eq!(
                call.url,
                "https://read.amazon.com/service/mobile/reader/startReading?asin=B%201&clientVersion=20000100"
            );
            assert!(call.adp && call.body.is_none());
        }
        ReaderRequest::Register(_) => panic!("expected to open the book"),
    }
    assert_eq!(parse_message(session("").start_reading("B1")), "device token not set");
    assert_eq!(
        parse_message(opened_book(Err("eof".to_string()))),
        "startReading response: eof"
    );
}

#[test]
fn metadata_is_unwrapped() {
    assert_eq!(Amazon::metadata("loadMetadata({\"a\":(1)});").unwrap(), "{\"a\":(1)}");
    assert_eq!(parse_message(Amazon::metadata("{}")), "metadata JSONP wrapper missing");
    assert_eq!(parse_message(Amazon::metadata("f(")), "metadata JSONP wrapper missing");
    assert_eq!(parse_message(Amazon::metadata(")(")), "metadata JSONP wrapper malformed");
    assert_eq!(
        parse_message(Amazon::read_metadata(Err("eof".to_string()))),
        "metadata JSONP body: eof"
    );
}

fn opened(position: i64, metadata_url: &str) -> StartReading {
    StartReading {
        metadata_url: metadata_url.to_string(),
        format_version: " CR!1 ".to_string(),
        content_version: " rev ".to_string(),
        last_page_read_data: LastPageRead {
            device_name: "Phone".to_string(),
            position,
            sync_time: 5,
        },
        ..StartReading::default()
    }
}

fn extent(start: i64, end: i64) -> BookMetadata {
    BookMetadata {
        start_position: start,
        end_position: end,
        ..BookMetadata::default()
    }
}

#[test]
fn progress_is_a_part_of_the_whole() {
    let start = opened(40, "https://m");
    let call = Amazon::metadata_request(&start).unwrap();
    assert_eq!(call.url, "https://m");
    assert!(call.adp);
    assert!(Amazon::metadata_request(&opened(40, "")).is_none());
    assert_eq!(Amazon::percentage_read(&start, &extent(2, 100)), Some((42, 100)));
    assert_eq!(Amazon::percentage_read(&opened(-7, ""), &extent(2, 100)), Some((2, 100)));
    assert_eq!(Amazon::percentage_read(&start, &extent(2, 0)), None);
    assert_eq!(
        Amazon::percentage_read(&opened(i64::MAX, ""), &extent(i64::MAX, 1)),
        Some((2 * (i64::MAX as i128), 1))
    );
    assert_eq!(ratio_for(&start, Ok(extent(2, 100))), Some((42, 100)));
    assert_eq!(ratio_for(&start, Err(Error::AuthExpired)), None);
    let progress = Amazon::progress(&start);
    assert_eq!(progress.position, Some(40));
    assert_eq!(progress.device_name.as_deref(), Some("Phone"));
}

fn none_found() -> Highlights {
    Highlights {
        asin: "B1".to_string(),
        count: 0,
        limited: false,
        items: vec![],
    }
}

#[test]
fn annotations_are_asked_for_by_edition() {
    let amazon = registered();
    let (run, call) = match amazon.annotations("B1", &opened(0, "")) {
        AnnotationsStep::Fetch { run, call } => (run, call),
        AnnotationsStep::Done(_) => panic!("expected a request"),
    };
    assert!(call.adp && call.body.is_none());
    assert_eq!(
        call.url,
        "https://read.amazon.com/service/mobile/reader/getAnnotations?asin=B1&guid=CR%211&clientVersion=20000100"
    );
    let failed = Error::Amazon { status: 500, message: String::new() };
    let (run, call) = match run.answer(&amazon, Err(failed)).unwrap() {
        AnnotationsStep::Fetch { run, call } => (run, call),
        AnnotationsStep::Done(_) => panic!("expected a second request"),
    };
    assert!(call.url.contains("guid=CR%211%2CCR%211&"));
    match run.answer(&amazon, Ok(none_found())).unwrap() {
        AnnotationsStep::Done(annotations) => {
            assert_eq!(annotations.guid, "CR!1");
            assert_eq!(annotations.revision, "rev");
            assert_eq!(Amazon::highlights(annotations).asin, "B1");
        }
        AnnotationsStep::Fetch { .. } => panic!("expected the end"),
    }
}

#[test]
fn a_server_error_is_met_once() {
    let amazon = registered();
    let failed = || Error::Amazon { status: 500, message: String::new() };
    let run = match amazon.annotations("B1", &opened(0, "")) {
        AnnotationsStep::Fetch { run, .. } => run,
        AnnotationsStep::Done(_) => panic!("expected a request"),
    };
    let run = match run.answer(&amazon, Err(failed())).unwrap() {
        AnnotationsStep::Fetch { run, .. } => run,
        AnnotationsStep::Done(_) => panic!("expected a second request"),
    };
    assert!(run.answer(&amazon, Err(failed())).is_err());
    let run = match amazon.annotations("B1", &opened(0, "")) {
        AnnotationsStep::Fetch { run, .. } => run,
        AnnotationsStep::Done(_) => panic!("expected a request"),
    };
    assert!(run.answer(&amazon, Err(Error::AuthExpired)).is_err());
}

#[test]
fn the_newer_edition_comes_first_and_none_means_no_annotations() {
    let amazon = registered();
    let mut start = opened(0, "");
    start.yj_format_version = " YJ ".to_string();
    match amazon.annotations("B1", &start) {
        AnnotationsStep::Fetch { run, .. } => assert_eq!(run.guid, "YJ"),
        AnnotationsStep::Done(_) => panic!("expected a request"),
    }
    start.yj_format_version = " ".to_string();
    start.format_version = String::new();
    match amazon.annotations("B1", &start) {
        AnnotationsStep::Done(annotations) => {
            assert_eq!(annotations.guid, "");
            assert_eq!(annotations.highlights.count, 0);
            assert_eq!(annotations.highlights.asin, "B1");
        }
        AnnotationsStep::Fetch { .. } => panic!("expected nothing to ask for"),
    }
}

#[test]
fn a_passage_is_copied_by_its_positions() {
    let amazon = registered();
    let call = match amazon.copy_text("B1", "G\"", "r", -3, 9).unwrap() {
        ReaderRequest::Ask(call) => call,
        ReaderRequest::Register(_) => panic!("expected a copy"),
    };
    assert_eq!(call.url, "https://read.amazon.com/service/mobile/reader/copyText");
    assert!(call.adp);
    let sent: Value = serde_json::from_str(&call.body.unwrap()).unwrap();
    assert_eq!(sent["asin"], "B1");
    assert_eq!(sent["guid"], "G\"");
    assert_eq!(sent["revision"], "r");
    assert_eq!(sent["startPosition"], -3);
    assert_eq!(sent["endPosition"], 9);
    assert_eq!(sent["clientVersion"], "20000100");
    assert_eq!(sent.as_object().unwrap().len(), 6);
    assert!(matches!(
        session("T").copy_text("B1", "G", "r", 1, 2).unwrap(),
        ReaderRequest::Register(_)
    ));
    assert_eq!(
        parse_message(session("").copy_text("B1", "G", "r", 1, 2)),
        "device token not set"
    );
}

#[test]
fn a_copied_passage_is_ok_and_not_blank() {
    let response = |status: Option<&str>, text: &str| CopyTextResponse {
        status: status.map(str::to_string),
        text: text.to_string(),
    };
    assert_eq!(copied(Ok(response(Some("Ok"), " words "))).unwrap(), " words ");
    assert_eq!(
        parse_message(copied(Ok(response(Some("Denied"), "words")))),
        "copyText status: Denied"
    );
    assert_eq!(
        parse_message(copied(Ok(response(Some("Ok"), "  ")))),
        "copyText status: Ok"
    );
    assert_eq!(
        parse_message(copied(Ok(response(None, "words")))),
        "copyText status: missing"
    );
    assert_eq!(parse_message(copied(Err("eof".to_string()))), "copyText response: eof");
}
