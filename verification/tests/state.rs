use omakindle::amazon::{Amazon, Annotations, Error, LibraryStep, ReaderRequest, Reply};
use omakindle::enrich::{enrich_time, EnrichPlan, EnrichRun, EnrichTime};
use omakindle::keyed::Keyed;
use omakindle::models::{
    Book, DeviceInfo, Highlight, Highlights, LastPageRead, LibraryItem, LibraryPage, Progress,
    StartReading,
};
use omakindle::passages::{merge_full_texts, CachedHighlights, HighlightsCache};
use omakindle::reading::{progress_for, reading_from_cache, Cache, CachedPoint};
use omakindle::refresh::RefreshRun;
use omakindle::secrets::{load, session_to_store};
use omakindle::state::{
    map_error, App, Event, HighlightsPlan, HighlightsResult, SignIn, TextPlan,
};

const COOKIES: &str = "ubid-main=a; at-main=b; x-main=c; session-id=d";

fn item(start: i64, end: i64, text: &str, truncated: bool, verified: bool) -> Highlight {
    Highlight {
        id: None,
        text: text.to_string(),
        note: None,
        color: None,
        location: Some(start.to_string()),
        page: None,
        position_type: None,
        start: Some(start),
        end: Some(end),
        truncated,
        verified,
        modified_at: None,
    }
}

fn entry(items: Vec<Highlight>) -> CachedHighlights {
    CachedHighlights {
        fetched_at: 0,
        guid: "CR!TEST".into(),
        revision: "abc123".into(),
        items,
    }
}

#[test]
fn keeps_verified_text_when_refresh_returns_a_preview() {
    let previous = entry(vec![item(10, 120, "the full passage fetched earlier", false, true)]);
    let merged = merge_full_texts(Some(&previous), vec![item(10, 120, "the preview", true, false)]);
    assert_eq!(merged[0].text, "the full passage fetched earlier");
    assert!(!merged[0].truncated);
    assert!(merged[0].verified);
}

#[test]
fn prefers_the_longer_verified_text() {
    let previous = entry(vec![item(10, 120, "short", false, true)]);
    let merged = merge_full_texts(
        Some(&previous),
        vec![item(10, 120, "a much longer fresh preview", true, false)],
    );
    assert_eq!(merged[0].text, "a much longer fresh preview");
    assert!(merged[0].truncated);
    assert!(!merged[0].verified);
}

#[test]
fn ignores_unverified_entries_from_the_previous_cache() {
    let previous = entry(vec![item(10, 120, "old preview text", true, false)]);
    let merged = merge_full_texts(Some(&previous), vec![item(10, 120, "new preview", true, false)]);
    assert_eq!(merged[0].text, "new preview");
    assert!(!merged[0].verified);
}

#[test]
fn keeps_verified_text_even_when_the_refresh_preview_is_as_long() {
    let previous = entry(vec![item(10, 120, "same length text that was verified", false, true)]);
    let merged = merge_full_texts(
        Some(&previous),
        vec![item(10, 120, "same length text that was verified", true, false)],
    );
    assert!(!merged[0].truncated);
    assert!(merged[0].verified);
}

#[test]
fn merging_uses_the_first_verified_passage_and_counts_characters() {
    let previous = entry(vec![
        item(1, 2, "first", false, false),
        item(1, 2, "\u{e9}\u{e9}\u{e9}\u{e9}", false, true),
        item(1, 2, "a longer one", false, true),
    ]);
    let merged = merge_full_texts(
        Some(&previous),
        vec![item(1, 2, "12345", true, false), item(1, 2, "1234", true, false)],
    );
    assert_eq!(merged[0].text, "12345");
    assert_eq!(merged[1].text, "\u{e9}\u{e9}\u{e9}\u{e9}");
    assert_eq!(merge_full_texts(None, vec![item(1, 2, "x", true, false)])[0].text, "x");
}

#[test]
fn merging_the_same_refresh_again_changes_nothing() {
    let previous = entry(vec![item(1, 2, "the whole", false, true), item(3, 4, "x", false, true)]);
    let listed = vec![
        item(1, 2, "the", true, false),
        item(3, 4, "longer", true, false),
        item(1, 2, "the whole and more", true, false),
        item(5, 6, "new", true, false),
    ];
    let once = entry(merge_full_texts(Some(&previous), listed.clone()));
    let twice = merge_full_texts(Some(&once), listed);
    let texts = |items: &Vec<Highlight>| -> Vec<(String, bool, bool)> {
        items
            .iter()
            .map(|item| (item.text.clone(), item.truncated, item.verified))
            .collect()
    };
    assert_eq!(texts(&once.items), texts(&twice));
    assert_eq!(twice[0].text, "the whole");
    assert_eq!(twice[1].text, "longer");
}

fn book(asin: &str) -> Book {
    Book {
        asin: asin.to_string(),
        title: format!("Title {asin}"),
        authors: vec!["A".to_string(), "B".to_string()],
        cover_url: String::new(),
        web_reader_url: String::new(),
        resource_type: "EBOOK".to_string(),
        origin_type: "PURCHASE".to_string(),
    }
}

fn point(position: i64, tenths: i64, sync_time: i64) -> CachedPoint {
    CachedPoint {
        progress: Some(Progress {
            position: Some(position),
            device_name: Some("Kindle".to_string()),
            sync_time: Some(sync_time),
        }),
        percentage: Some(tenths),
    }
}

fn cache(books: Vec<Book>, points: Vec<(&str, CachedPoint)>) -> Cache {
    let mut keyed = Keyed::new();
    for (asin, point) in points {
        keyed.insert(asin, point);
    }
    Cache {
        region: "us".to_string(),
        books,
        points: keyed,
        updated_at: Some(7),
    }
}

fn no_highlights() -> HighlightsCache {
    HighlightsCache { books: Keyed::new() }
}

fn app_with(highlights: Vec<(&str, CachedHighlights)>) -> App {
    let mut books = Keyed::new();
    for (asin, entry) in highlights {
        books.insert(asin, entry);
    }
    App::new(cache(vec![], vec![]), HighlightsCache { books })
}

fn fresh_app() -> App {
    App::new(cache(vec![], vec![]), no_highlights())
}

fn client(device_token: &str) -> Amazon {
    SignIn::start(COOKIES, device_token, "us").unwrap()
}

#[test]
fn reading_is_sorted_by_sync_and_keeps_ties_in_order() {
    let reading = reading_from_cache(&cache(
        vec![book("a"), book("b"), book("c"), book("d"), book("e")],
        vec![
            ("a", point(5, 0, 100)),
            ("b", point(0, 425, 300)),
            ("c", point(0, 0, 900)),
            ("d", point(1, 1, 100)),
            ("e", point(9, 0, 300)),
        ],
    ));
    let order: Vec<&str> = reading.iter().map(|book| book.asin.as_str()).collect();
    assert_eq!(order, vec!["b", "e", "a", "d"]);
    assert_eq!(reading[0].percentage_read, 425);
    assert_eq!(reading[0].device_name, "Kindle");
    assert_eq!(reading[0].resource_type, "EBOOK");
    assert_eq!(reading[0].origin_type, "PURCHASE");
}

#[test]
fn reading_defaults_what_a_point_does_not_know() {
    let reading = reading_from_cache(&cache(
        vec![book("a"), book("b")],
        vec![
            ("a", CachedPoint { progress: None, percentage: Some(10) }),
            ("b", CachedPoint { progress: None, percentage: None }),
        ],
    ));
    assert_eq!(reading.len(), 1);
    assert_eq!(reading[0].device_name, "");
    assert_eq!(reading[0].sync_time, 0);
}

#[test]
fn an_app_starts_with_what_was_kept() {
    let app = App::new(cache(vec![book("a")], vec![("a", point(3, 0, 1))]), no_highlights());
    let snapshot = app.snapshot();
    assert_eq!(snapshot.lifecycle, "unconfigured");
    assert_eq!(snapshot.region, "us");
    assert_eq!(snapshot.books.len(), 1);
    assert_eq!(snapshot.reading.len(), 1);
    assert_eq!(snapshot.updated_at, Some(7));
    assert_eq!(app.refresh_minutes(), 15);
}

#[test]
fn refresh_minutes_stay_between_five_and_a_day() {
    let mut app = fresh_app();
    app.set_refresh_minutes(1);
    assert_eq!(app.refresh_minutes(), 5);
    app.set_refresh_minutes(100_000);
    assert_eq!(app.refresh_minutes(), 1440);
    app.set_refresh_minutes(60);
    assert_eq!(app.refresh_minutes(), 60);
}

fn states(events: Vec<Event>) -> Vec<(String, bool, Option<String>)> {
    events
        .into_iter()
        .map(|event| match event {
            Event::StateChanged(state) => (state.lifecycle, state.refreshing, state.error_code),
            Event::HighlightsChanged(_) => panic!("unexpected event"),
        })
        .collect()
}

#[test]
fn sign_in_needs_a_library_before_it_is_stored() {
    match SignIn::start("at-main=b", "", "us") {
        Err(failure) => {
            assert_eq!(failure.0, "invalid_credentials");
            assert_eq!(
                failure.1,
                "could not parse Amazon response: missing cookies: ubid-main, x-main, session-id"
            );
        }
        Ok(_) => panic!("expected missing cookies to fail"),
    }
    match SignIn::validate(COOKIES, "", "us", Ok(vec![]), None) {
        Err(failure) => {
            assert_eq!(failure.0, "invalid_credentials");
            assert_eq!(failure.1, "Amazon returned an empty library for these credentials");
        }
        Ok(_) => panic!("expected an empty library to fail"),
    }
    match SignIn::validate(COOKIES, "", "us", Err(Error::AuthExpired), None) {
        Err(failure) => assert_eq!(failure.0, "auth_expired"),
        Ok(_) => panic!("expected an expired session to fail"),
    }
}

fn device(token: &str) -> DeviceInfo {
    DeviceInfo {
        client_hash_id: String::new(),
        device_name: String::new(),
        device_session_token: token.to_string(),
        eid: String::new(),
    }
}

#[test]
fn sign_in_needs_a_device_token_that_amazon_accepts() {
    let validate = |registration| {
        SignIn::validate(COOKIES, "T", "us", Ok(vec![book("a")]), registration)
    };
    match validate(Some(Err(refused()))) {
        Err(failure) => assert_eq!(
            failure,
            ("invalid_credentials".to_string(), "Amazon returned 403: no".to_string())
        ),
        Ok(_) => panic!("expected a refused token to fail"),
    }
    match validate(Some(Err(Error::Parse("device token response: x".to_string())))) {
        Err(failure) => assert_eq!(failure.0, "invalid_credentials"),
        Ok(_) => panic!("expected an unreadable registration to fail"),
    }
    match validate(Some(Err(Error::Http("down".to_string())))) {
        Err(failure) => assert_eq!(failure, ("network".to_string(), "down".to_string())),
        Ok(_) => panic!("expected a lost registration to fail"),
    }
    for status in [429, 500, 503] {
        let failed = Error::Amazon { status, message: "later".to_string() };
        match validate(Some(Err(failed))) {
            Err(failure) => {
                assert_eq!(failure, (format!("amazon_{status}"), "later".to_string()))
            }
            Ok(_) => panic!("expected a failed registration to fail"),
        }
    }
    match validate(Some(Err(Error::Amazon { status: 401, message: String::new() }))) {
        Err(failure) => assert_eq!(failure.0, "invalid_credentials"),
        Ok(_) => panic!("expected a refused token to fail"),
    }
    match validate(None) {
        Err(failure) => assert_eq!(
            failure,
            (
                "invalid_credentials".to_string(),
                "the device token was not validated".to_string()
            )
        ),
        Ok(_) => panic!("expected an unchecked token to fail"),
    }
    let sign_in = match validate(Some(Ok(device("adp")))) {
        Ok(sign_in) => sign_in,
        Err(failure) => panic!("unexpected failure: {}", failure.1),
    };
    assert_eq!(
        load(Ok(sign_in.session())),
        Ok(Some((COOKIES.to_string(), "T".to_string(), "us".to_string())))
    );
    let mut app = fresh_app();
    app.set_credentials(sign_in, Ok(())).unwrap();
    assert!(!app.state().needs_device_token);
}

#[test]
fn sign_in_asks_for_the_whole_library_and_then_for_the_device() {
    let with_token = client("T");
    let (run, call) = SignIn::library(&with_token);
    assert!(run.fetch_all);
    assert!(call.url.ends_with("querySize=50"));
    let books = Ok(vec![book("a")]);
    let call = SignIn::registration(&with_token, &books).unwrap();
    assert!(call.url.contains("getDeviceToken?serialNumber=T&deviceType=T"));
    assert!(SignIn::registration(&client(""), &books).is_none());
    assert!(SignIn::registration(&with_token, &Ok(vec![])).is_none());
    assert!(SignIn::registration(&with_token, &Err(Error::AuthExpired)).is_none());
}

#[test]
fn a_refresh_lists_every_page() {
    let amazon = client("T");
    let (run, call) = RefreshRun::start(&amazon);
    assert!(run.fetch_all);
    assert!(!call.adp);
    assert!(call.url.ends_with("querySize=50"));
    let page = |asins: Vec<&str>, token: Option<&str>| LibraryPage {
        items_list: asins
            .into_iter()
            .map(|asin| LibraryItem {
                title: String::new(),
                asin: asin.to_string(),
                authors: vec![],
                product_url: String::new(),
                web_reader_url: String::new(),
                resource_type: String::new(),
                origin_type: String::new(),
            })
            .collect(),
        pagination_token: token.map(str::to_string),
    };
    let run = match run.page(&amazon, Ok(page(vec!["a", "b"], Some("2")))).unwrap() {
        LibraryStep::Fetch { run, .. } => run,
        LibraryStep::Done(_) => panic!("expected another page"),
    };
    let books = match run.page(&amazon, Ok(page(vec!["c"], None))).unwrap() {
        LibraryStep::Done(books) => books,
        LibraryStep::Fetch { .. } => panic!("expected the end"),
    };
    let mut app = fresh_app();
    app.refresh().unwrap();
    app.finish_refresh(RefreshRun::new(false, Ok(books)), 1).unwrap();
    let asins: Vec<&str> = app.state().books.iter().map(|book| book.asin.as_str()).collect();
    assert_eq!(asins, vec!["a", "b", "c"]);
}

#[test]
fn the_session_is_written_back_after_a_refresh() {
    let mut app = fresh_app();
    assert!(!app.take_session_due());
    app.refresh().unwrap();
    app.finish_refresh(RefreshRun::new(false, Ok(vec![book("a")])), 1).unwrap();
    assert!(app.take_session_due());
    assert!(!app.take_session_due());
    app.refresh().unwrap();
    assert!(app.finish_refresh(RefreshRun::new(false, Ok(vec![])), 2).is_err());
    assert!(!app.take_session_due());
    assert!(app.fetch_highlights("B1", Ok(fetched("G", vec![])), 3).is_ok());
    assert!(app.take_session_due());
    assert!(app.highlight_text("B1", 1, 2, Ok("text".to_string())).is_ok());
    assert!(app.take_session_due());
}

#[test]
fn sign_in_moves_to_loading_once_it_is_written() {
    let mut app = fresh_app();
    let sign_in = SignIn::validate(COOKIES, "  ", "de", Ok(vec![book("a")]), None).unwrap();
    assert!(sign_in.session().contains("\"region\":\"de\""));
    match app.set_credentials(sign_in, Err("disk full".to_string())) {
        Err(failure) => {
            assert_eq!(failure.0, "session_error");
            assert_eq!(failure.1, "could not write the session file: disk full");
        }
        Ok(()) => panic!("expected the write to fail"),
    }
    assert!(app.take_events().is_empty());
    let sign_in = SignIn::validate(COOKIES, "  ", "de", Ok(vec![book("a")]), None).unwrap();
    app.set_credentials(sign_in, Ok(())).unwrap();
    let state = app.state();
    assert_eq!(state.lifecycle, "loading");
    assert_eq!(state.region, "de");
    assert_eq!(state.books.len(), 1);
    assert!(state.needs_device_token);
    assert_eq!(states(app.take_events()), vec![("loading".to_string(), false, None)]);
}

#[test]
fn a_device_token_is_added_to_the_session_that_is_stored() {
    let session = |cookies: &str| (cookies.to_string(), "old".to_string(), "uk".to_string());
    let kept = App::set_device_token(Ok(Some(session("c1"))), Some(session("c2"))).unwrap();
    assert_eq!(kept, ("c1".to_string(), "uk".to_string()));
    let kept = App::set_device_token(Ok(None), Some(session("c2"))).unwrap();
    assert_eq!(kept.0, "c2");
    let failure = App::set_device_token(Ok(None), None).unwrap_err();
    assert_eq!(failure.0, "unconfigured");
    assert_eq!(failure.1, "no stored session; sign in first");
    let failure = App::set_device_token(Err("bad".to_string()), None).unwrap_err();
    assert_eq!(failure, ("session_error".to_string(), "bad".to_string()));
}

#[test]
fn clearing_forgets_the_state() {
    let mut app = App::new(cache(vec![book("a")], vec![("a", point(3, 0, 1))]), no_highlights());
    let failure = app.clear_credentials(Err("denied".to_string())).unwrap_err();
    assert_eq!(failure, ("session_error".to_string(), "denied".to_string()));
    assert_eq!(app.state().books.len(), 1);
    app.clear_credentials(Ok(())).unwrap();
    assert_eq!(app.state().books.len(), 0);
    assert_eq!(app.state().reading.len(), 0);
    assert_eq!(app.state().updated_at, None);
    assert!(app.points().get("a").is_none());
    assert_eq!(app.take_events().len(), 1);
}

#[test]
fn a_client_needs_a_session() {
    let mut app = fresh_app();
    match app.ensure_client(Ok(None), None) {
        Err(failure) => assert_eq!(failure, ("unconfigured".to_string(), "no credentials".to_string())),
        Ok(_) => panic!("expected no client"),
    }
    assert_eq!(app.state().error.as_deref(), Some("No Amazon session configured yet"));
    assert_eq!(app.state().lifecycle, "unconfigured");
    match app.ensure_client(Err("broken".to_string()), None) {
        Err(failure) => assert_eq!(failure.0, "session_error"),
        Ok(_) => panic!("expected no client"),
    }
    let bad = ("x=1".to_string(), String::new(), "us".to_string());
    match app.ensure_client(Ok(Some(bad)), None) {
        Err(failure) => assert_eq!(failure.0, "parse"),
        Ok(_) => panic!("expected no client"),
    }
    let dev = (COOKIES.to_string(), "T".to_string(), "fr".to_string());
    let client = app.ensure_client(Ok(None), Some(dev)).unwrap();
    assert_eq!(client.device_token(), "T");
    assert_eq!(app.state().region, "fr");
    assert!(!app.state().needs_device_token);
}

#[test]
fn a_session_without_a_device_token_says_so_when_it_is_opened() {
    let mut app = fresh_app();
    let session = |token: &str| Ok(Some((COOKIES.to_string(), token.to_string(), "us".to_string())));
    assert!(app.ensure_client(session("T"), None).is_ok());
    assert!(app.take_events().is_empty());
    assert!(app.ensure_client(session(""), None).is_ok());
    assert!(app.state().needs_device_token);
    assert_eq!(app.take_events().len(), 1);
}

#[test]
fn a_restart_keeps_the_cookies_that_amazon_changed() {
    let mut client = client("T");
    client
        .receive(Reply {
            status: 200,
            final_url: "https://read.amazon.com/".to_string(),
            cookies: vec![
                ("session-token".to_string(), "rot=ated".to_string()),
                ("session-id".to_string(), "e".to_string()),
            ],
            body: Ok(String::new()),
        })
        .unwrap();
    let written = session_to_store(&client.cookies(), client.device_token(), "us", &Ok(None));
    let stored = load(Ok(written.unwrap()));
    let again = fresh_app().ensure_client(stored, None).unwrap();
    assert_eq!(
        again.cookies(),
        "ubid-main=a; at-main=b; x-main=c; session-id=e; session-token=rot=ated"
    );
    assert_eq!(again.device_token(), "T");
}

#[test]
fn errors_map_to_stable_codes() {
    let amazon = Error::Amazon { status: 429, message: "slow down".to_string() };
    assert_eq!(amazon.to_string(), "Amazon returned 429: slow down");
    assert_eq!(map_error(amazon), ("amazon_429".to_string(), "slow down".to_string()));
    let http = Error::Http("reset".to_string());
    assert_eq!(http.to_string(), "network error: reset");
    assert_eq!(map_error(http), ("network".to_string(), "reset".to_string()));
    let parse = Error::Parse("odd".to_string());
    assert_eq!(parse.to_string(), "could not parse Amazon response: odd");
    assert_eq!(map_error(parse), ("parse".to_string(), "odd".to_string()));
    assert_eq!(
        Error::AuthExpired.to_string(),
        "Amazon session expired or cookies incomplete"
    );
    assert_eq!(
        map_error(Error::AuthExpired).1,
        "Amazon signed this session out; paste fresh cookies"
    );
}

#[test]
fn only_one_refresh_runs_at_a_time() {
    let mut app = fresh_app();
    app.refresh().unwrap();
    let failure = app.refresh().unwrap_err();
    assert_eq!(failure, ("busy".to_string(), "a refresh is already running".to_string()));
    app.abandon_refresh();
    assert!(!app.state().refreshing);
    app.refresh().unwrap();
    assert!(app.state().refreshing);
    assert_eq!(app.take_events().len(), 3);
}

fn refused() -> Error {
    Error::Amazon { status: 403, message: "no".to_string() }
}

#[test]
fn a_refresh_asks_for_the_newest_books_and_finishes() {
    let mut app = fresh_app();
    app.refresh().unwrap();
    let books: Vec<Book> = (0..14).map(|i| book(&format!("b{i}"))).collect();
    let mut run = match RefreshRun::new(true, Ok(books)) {
        Ok(run) => run,
        Err(_) => panic!("expected a run"),
    };
    let mut asked = Vec::new();
    while let Some(asin) = run.next() {
        asked.push(asin.to_string());
        let outcome = if asked.len() % 2 == 0 {
            Err(Error::Http("x".to_string()))
        } else {
            Ok(point(asked.len() as i64, 0, asked.len() as i64))
        };
        run.record(outcome).unwrap();
    }
    assert_eq!(asked.len(), 12);
    app.finish_refresh(Ok(run), 99).unwrap();
    let state = app.state();
    assert_eq!(state.lifecycle, "ready");
    assert_eq!(state.updated_at, Some(99));
    assert_eq!(state.books.len(), 14);
    assert_eq!(state.reading.len(), 6);
    assert_eq!(state.reading[0].asin, "b10");
    assert_eq!(state.progress_error, None);
    assert!(!state.needs_device_token);
    assert!(!state.refreshing);
    app.refresh().unwrap();
}

#[test]
fn a_refresh_without_a_device_token_asks_for_no_progress() {
    let mut app = App::new(cache(vec![book("a")], vec![("a", point(3, 0, 1))]), no_highlights());
    app.refresh().unwrap();
    let run = match RefreshRun::new(false, Ok(vec![book("a")])) {
        Ok(run) => run,
        Err(_) => panic!("expected a run"),
    };
    assert!(run.next().is_none());
    app.finish_refresh(Ok(run), 5).unwrap();
    assert!(app.state().needs_device_token);
    assert!(app.state().reading.is_empty());
}

#[test]
fn lost_progress_keeps_what_was_known() {
    let mut app = App::new(
        cache(vec![book("a"), book("b")], vec![("a", point(3, 120, 1))]),
        no_highlights(),
    );
    app.refresh().unwrap();
    let mut run = match RefreshRun::new(true, Ok(vec![book("a"), book("b")])) {
        Ok(run) => run,
        Err(_) => panic!("expected a run"),
    };
    run.record(Err(Error::Http("first".to_string()))).unwrap();
    run.record(Err(refused())).unwrap();
    assert!(run.next().is_none());
    app.finish_refresh(Ok(run), 50).unwrap();
    let state = app.state();
    assert_eq!(state.lifecycle, "ready");
    assert_eq!(state.reading.len(), 1);
    assert_eq!(state.reading[0].percentage_read, 120);
    assert_eq!(state.progress_error_code.as_deref(), Some("progress_unavailable"));
    assert_eq!(state.progress_error.as_deref(), Some("Amazon returned 403: no"));

    app.refresh().unwrap();
    let mut run = match RefreshRun::new(true, Ok(vec![book("a")])) {
        Ok(run) => run,
        Err(_) => panic!("expected a run"),
    };
    run.record(Err(Error::Parse("odd".to_string()))).unwrap();
    app.finish_refresh(Ok(run), 60).unwrap();
    assert_eq!(app.state().progress_error_code.as_deref(), Some("progress_error"));
    assert_eq!(app.state().reading.len(), 1);
}

#[test]
fn an_expired_session_ends_a_refresh_and_keeps_the_state() {
    let mut app = App::new(cache(vec![book("a")], vec![("a", point(3, 0, 1))]), no_highlights());
    app.refresh().unwrap();
    let mut run = match RefreshRun::new(true, Ok(vec![book("z")])) {
        Ok(run) => run,
        Err(_) => panic!("expected a run"),
    };
    let failure = run.record(Err(Error::AuthExpired)).unwrap_err();
    assert_eq!(failure, ("auth_expired".to_string(), "cookies have expired".to_string()));
    app.take_events();
    let failure = app.finish_refresh(Err(failure), 50).unwrap_err();
    assert_eq!(failure.0, "auth_expired");
    assert_eq!(app.state().lifecycle, "error");
    assert_eq!(app.state().books[0].asin, "a");
    assert_eq!(app.state().updated_at, Some(7));
    assert_eq!(
        states(app.take_events()),
        vec![("error".to_string(), false, Some("auth_expired".to_string()))]
    );
}

#[test]
fn an_empty_or_failed_library_ends_a_refresh() {
    match RefreshRun::new(true, Ok(vec![])) {
        Err(failure) => assert_eq!(
            failure,
            (
                "auth_expired".to_string(),
                "library came back empty; cookies may have expired".to_string()
            )
        ),
        Ok(_) => panic!("expected no run"),
    }
    match RefreshRun::new(true, Err(Error::Http("down".to_string()))) {
        Err(failure) => assert_eq!(failure, ("network".to_string(), "down".to_string())),
        Ok(_) => panic!("expected no run"),
    }
}

#[test]
fn progress_of_an_opened_book() {
    let start = StartReading {
        last_page_read_data: LastPageRead {
            device_name: "Phone".to_string(),
            position: 12,
            sync_time: 34,
        },
        ..StartReading::default()
    };
    let point = progress_for(&start, 425);
    let progress = point.progress.unwrap();
    assert_eq!(progress.position, Some(12));
    assert_eq!(progress.device_name.as_deref(), Some("Phone"));
    assert_eq!(progress.sync_time, Some(34));
    assert_eq!(point.percentage, Some(425));
}

fn served(plan: HighlightsPlan) -> (HighlightsResult, bool) {
    match plan {
        HighlightsPlan::Serve { result, refresh } => (result, refresh),
        HighlightsPlan::Fetch => panic!("expected kept highlights"),
    }
}

#[test]
fn kept_highlights_are_fresh_for_half_an_hour() {
    let mut kept = entry(vec![item(1, 2, "a", true, false)]);
    kept.fetched_at = 1000;
    let app = app_with(vec![("B1", kept)]);
    let (result, refresh) = served(app.highlights("B1", false, 2799));
    assert!(result.cached && !result.stale && !refresh);
    assert_eq!(result.fetched_at, 1000);
    assert_eq!(result.highlights.count, 1);
    assert!(result.highlights.limited);
    let (result, refresh) = served(app.highlights("B1", false, 2800));
    assert!(result.cached && result.stale && refresh);
    let (result, _) = served(app.highlights("B1", false, 10));
    assert!(!result.stale);
    assert!(matches!(app.highlights("B1", true, 1000), HighlightsPlan::Fetch));
    assert!(matches!(app.highlights("B2", false, 1000), HighlightsPlan::Fetch));
    assert!(app.fresh_entry("B1", false, 2799).is_some());
    assert!(app.fresh_entry("B1", true, 2799).is_none());
    assert!(app.fresh_entry("B1", false, 2800).is_none());
    assert!(app.fresh_entry("B2", false, 2799).is_none());
}

fn fetched(guid: &str, items: Vec<Highlight>) -> Annotations {
    Annotations {
        highlights: Highlights {
            asin: "B1".to_string(),
            count: items.len(),
            limited: false,
            items,
        },
        guid: guid.to_string(),
        revision: "r".to_string(),
    }
}

#[test]
fn fetched_highlights_are_merged_kept_and_announced() {
    let mut app = app_with(vec![("B1", entry(vec![item(1, 9, "the whole passage", false, true)]))]);
    let stored = app
        .fetch_highlights("B1", Ok(fetched("G", vec![item(1, 9, "the whole", true, false)])), 77)
        .unwrap();
    assert_eq!(stored.fetched_at, 77);
    assert_eq!(stored.guid, "G");
    assert_eq!(stored.items[0].text, "the whole passage");
    match app.take_events().pop() {
        Some(Event::HighlightsChanged(highlights)) => {
            assert_eq!(highlights.asin, "B1");
            assert_eq!(highlights.count, 1);
            assert!(!highlights.limited);
        }
        _ => panic!("expected news of the highlights"),
    }
    let result = HighlightsResult::fetched("B1", stored);
    assert!(!result.cached && !result.stale);
    assert_eq!(result.fetched_at, 77);
}

#[test]
fn refused_reading_data_keeps_what_was_kept() {
    let mut app = app_with(vec![("B1", entry(vec![item(1, 9, "kept", false, true)]))]);
    let stored = app.fetch_highlights("B1", Ok(fetched("", vec![])), 77).unwrap();
    assert_eq!(stored.items.len(), 1);
    assert_eq!(stored.fetched_at, 0);
    assert!(app.take_events().is_empty());
    let stored = app.fetch_highlights("B2", Ok(fetched("", vec![])), 77).unwrap();
    assert_eq!(stored.items.len(), 0);
    assert_eq!(app.take_events().len(), 1);
    match app.fetch_highlights("B1", Err(Error::AuthExpired), 77) {
        Err(failure) => assert_eq!(failure.0, "auth_expired"),
        Ok(_) => panic!("expected a failure"),
    }
}

#[test]
fn reading_data_needs_a_client_with_a_device_token() {
    assert_eq!(App::reader_ready(None).unwrap_err().0, "unconfigured");
    let failure = App::reader_ready(Some(&client(""))).unwrap_err();
    assert_eq!(failure.0, "needs_device_token");
    assert_eq!(failure.1, "Paste the device token in Settings to load highlights");
    assert!(App::reader_ready(Some(&client("T"))).is_ok());
}

#[test]
fn a_fetched_passage_is_served_from_then_on() {
    let mut app = app_with(vec![(
        "B1",
        entry(vec![item(1, 9, "pre", true, false), item(10, 19, "other", true, false)]),
    )]);
    match app.text_plan("B1", 1, 9) {
        TextPlan::Copy { guid, revision } => {
            assert_eq!(guid, "CR!TEST");
            assert_eq!(revision, "abc123");
        }
        _ => panic!("expected a copy"),
    }
    let text = app.highlight_text("B1", 1, 9, Ok("preface".to_string())).unwrap();
    assert_eq!(text, "preface");
    match app.text_plan("B1", 1, 9) {
        TextPlan::Known(text) => assert_eq!(text, "preface"),
        _ => panic!("expected the passage to be known"),
    }
    assert_eq!(app.cached_full_text("B1", 1, 9).as_deref(), Some("preface"));
    assert_eq!(app.cached_full_text("B1", 10, 19), None);
    assert_eq!(app.take_events().len(), 1);
    let kept = app.kept_highlights().get("B1").unwrap();
    assert!(!kept.items[0].truncated && kept.items[0].verified);
    assert_eq!(kept.items[1].text, "other");
    assert!(kept.items[1].truncated);
    assert!(app.highlight_text("B1", 10, 19, Err(Error::AuthExpired)).is_err());
}

#[test]
fn a_shorter_copy_verifies_the_text_that_is_kept() {
    let mut app = app_with(vec![("B1", entry(vec![item(1, 9, "longer text", true, false)]))]);
    app.store_full_text("B1", 1, 9, "short");
    assert_eq!(app.cached_full_text("B1", 1, 9).as_deref(), Some("longer text"));
    app.store_full_text("B1", 2, 9, "elsewhere");
    app.store_full_text("B2", 1, 9, "elsewhere");
    assert_eq!(app.take_events().len(), 1);
}

#[test]
fn passages_come_only_from_a_known_edition() {
    let mut unknown = entry(vec![item(1, 9, "pre", true, false)]);
    unknown.revision = String::new();
    let app = app_with(vec![("B1", unknown)]);
    assert!(matches!(app.text_plan("B1", 1, 9), TextPlan::Fetch));
    assert!(matches!(app.text_plan("B2", 1, 9), TextPlan::Fetch));
    let mut entry = entry(vec![]);
    assert_eq!(
        App::copy_source(&entry).unwrap(),
        ("CR!TEST".to_string(), "abc123".to_string())
    );
    entry.guid = String::new();
    assert_eq!(App::copy_source(&entry).unwrap_err().0, "unavailable");
}

#[test]
fn a_passage_is_copied_only_with_a_device_token() {
    let ask = |client: Option<&Amazon>| App::copy_request(client, "B1", "G", "r", 1, 2);
    match ask(None) {
        Err(failure) => assert_eq!(failure.0, "unconfigured"),
        Ok(_) => panic!("expected no request"),
    }
    match ask(Some(&client(""))) {
        Err(failure) => assert_eq!(failure.0, "needs_device_token"),
        Ok(_) => panic!("expected no request"),
    }
    let mut amazon = client("T");
    assert!(matches!(ask(Some(&amazon)), Ok(ReaderRequest::Register(_))));
    amazon.register_device(Ok(device("adp"))).unwrap();
    match ask(Some(&amazon)) {
        Ok(ReaderRequest::Ask(call)) => assert!(call.url.ends_with("/copyText")),
        _ => panic!("expected a copy"),
    }
}

#[test]
fn enriching_waits_for_highlights_that_are_not_kept() {
    let mut app = app_with(vec![("B1", entry(vec![item(1, 9, "pre", true, false)]))]);
    assert!(matches!(enrich_time(&app, "B1", false), EnrichTime::Never));
    assert!(matches!(enrich_time(&app, "B1", true), EnrichTime::Now));
    assert!(matches!(enrich_time(&app, "B2", false), EnrichTime::Never));
    assert!(matches!(enrich_time(&app, "B2", true), EnrichTime::AfterFetch));
    assert!(matches!(app.highlights("B2", false, 0), HighlightsPlan::Fetch));
    let listed = vec![item(1, 9, "pre", true, false)];
    let entry = app.fetch_highlights("B2", Ok(fetched("G", listed)), 5).unwrap();
    app.take_events();
    let mut run = EnrichRun::new(entry).unwrap();
    assert_eq!(run.next(&app, "B2"), Some((1, 9)));
    run.record(&mut app, "B2", Ok("preface".to_string()));
    assert_eq!(app.take_events().len(), 1);
    assert_eq!(app.cached_full_text("B2", 1, 9).as_deref(), Some("preface"));
}

#[test]
fn a_forced_fetch_that_fails_still_completes_what_is_kept() {
    let mut app = app_with(vec![("B1", entry(vec![item(1, 9, "pre", true, false)]))]);
    assert!(matches!(app.highlights("B1", true, 0), HighlightsPlan::Fetch));
    assert!(matches!(enrich_time(&app, "B1", true), EnrichTime::Now));
    let mut run = match EnrichRun::plan(&app, "B1") {
        EnrichPlan::Complete(run) => run,
        _ => panic!("expected passages to complete"),
    };
    assert!(app.fetch_highlights("B1", Err(refused()), 5).is_err());
    assert_eq!(run.next(&app, "B1"), Some((1, 9)));
    run.record(&mut app, "B1", Ok("preface".to_string()));
    assert_eq!(app.cached_full_text("B1", 1, 9).as_deref(), Some("preface"));
}

#[test]
fn enriching_fetches_what_may_be_a_preview() {
    let long = "x".repeat(80);
    let mut app = app_with(vec![(
        "B1",
        entry(vec![
            item(1, 9, "pre", true, false),
            item(10, 19, "whole", false, false),
            item(20, 29, &long, false, false),
            item(30, 39, "done", true, true),
            item(49, 40, "backwards", true, false),
            item(50, 59, "", true, false),
        ]),
    )]);
    let mut run = match EnrichRun::plan(&app, "B1") {
        EnrichPlan::Complete(run) => run,
        _ => panic!("expected passages to complete"),
    };
    assert_eq!(run.guid, "CR!TEST");
    assert_eq!(run.next(&app, "B1"), Some((1, 9)));
    run.record(&mut app, "B1", Err(Error::Http("x".to_string())));
    assert!(!run.has_fetched());
    assert_eq!(run.next(&app, "B1"), Some((20, 29)));
    run.record(&mut app, "B1", Ok(format!("{long} and more")));
    assert!(run.has_fetched());
    assert_eq!(run.next(&app, "B1"), None);
    assert_eq!(app.cached_full_text("B1", 20, 29).unwrap().len(), 89);
    assert_eq!(app.cached_full_text("B1", 1, 9), None);
}

#[test]
fn enriching_skips_passages_that_became_known() {
    let mut app = app_with(vec![(
        "B1",
        entry(vec![item(1, 9, "pre", true, false), item(10, 19, "post", true, false)]),
    )]);
    let mut run = match EnrichRun::plan(&app, "B1") {
        EnrichPlan::Complete(run) => run,
        _ => panic!("expected passages to complete"),
    };
    app.store_full_text("B1", 1, 9, "prefix");
    assert_eq!(run.next(&app, "B1"), Some((10, 19)));
}

#[test]
fn enriching_needs_kept_highlights_and_an_edition() {
    let mut unknown = entry(vec![item(1, 9, "pre", true, false)]);
    unknown.guid = String::new();
    let app = app_with(vec![("B1", unknown), ("B2", entry(vec![]))]);
    assert!(matches!(EnrichRun::plan(&app, "B1"), EnrichPlan::Fetch));
    assert!(matches!(EnrichRun::plan(&app, "B2"), EnrichPlan::Nothing));
    assert!(matches!(EnrichRun::plan(&app, "B3"), EnrichPlan::Nothing));
}

#[test]
fn recent_highlights_stay_within_their_bounds() {
    let books: Vec<Book> = (0..20).map(|i| book(&format!("b{i}"))).collect();
    let app = App::new(cache(books, vec![("b3", point(1, 0, 9))]), no_highlights());
    let mut run = app.recent_highlights(5, 2);
    let mut order = Vec::new();
    while let Some(asin) = run.next() {
        order.push(asin.to_string());
        let highlights = if order.len() == 1 {
            None
        } else {
            Some(Highlights {
                asin: String::new(),
                count: 3,
                limited: false,
                items: vec![
                    item(1, 2, "one", false, false),
                    item(3, 4, "two", false, false),
                    item(5, 6, "three", false, false),
                ],
            })
        };
        run.record(highlights);
    }
    assert_eq!(order, vec!["b3", "b0", "b1", "b2"]);
    assert_eq!(run.scanned(), 4);
    let items = run.into_items();
    assert_eq!(items.len(), 5);
    assert_eq!(items[0].book.asin, "b0");
    assert_eq!(items[0].book.authors, "A, B");
    assert_eq!(items[4].highlight.text, "one");
    assert_eq!(items[4].book.title, "Title b2");
}

#[test]
fn recent_highlights_scan_twelve_books_at_most() {
    let books: Vec<Book> = (0..20).map(|i| book(&format!("b{i}"))).collect();
    let app = App::new(cache(books, vec![]), no_highlights());
    let mut run = app.recent_highlights(0, 0);
    while run.next().is_some() {
        run.record(None);
    }
    assert_eq!(run.scanned(), 12);
    let mut run = app.recent_highlights(1000, 1000);
    let many: Vec<Highlight> = (0..30).map(|i| item(i, i + 1, "t", false, false)).collect();
    while run.next().is_some() {
        run.record(Some(Highlights {
            asin: String::new(),
            count: 30,
            limited: false,
            items: many.clone(),
        }));
    }
    assert_eq!(run.scanned(), 3);
    assert_eq!(run.into_items().len(), 50);
}

#[test]
fn keyed_values_are_replaced_in_place() {
    let mut keyed = Keyed::new();
    keyed.insert("a", point(1, 0, 0));
    keyed.insert("b", point(2, 0, 0));
    keyed.insert("a", point(3, 0, 0));
    assert_eq!(keyed.entries().len(), 2);
    assert_eq!(keyed.entries()[0].0, "a");
    assert_eq!(keyed.get("a").unwrap().progress.as_ref().unwrap().position, Some(3));
    assert!(keyed.get("c").is_none());
}
