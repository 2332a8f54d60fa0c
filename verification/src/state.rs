//! What the backend knows and shows: the library, the progress in it, the
//! highlights, and how the last refresh went.

use vstd::prelude::*;

use crate::amazon;
use crate::amazon::{
    Amazon, AmazonView, Annotations, Call, Error, ErrorView, LibraryRun, ReaderRequest,
};
use crate::credentials;
use crate::credentials::{Credentials, CredentialsView};
use crate::encoding;
use crate::keyed::Keyed;
use crate::models;
use crate::models::{Book, BookView, DeviceInfo, Highlights, HighlightsView};
use crate::passages;
use crate::passages::{CachedHighlights, EntryView, HighlightsCache};
use crate::reading;
use crate::reading::{Cache, CachedPoint, Points, ReadingBook, ReadingView};
use crate::recent::{RecentRun, RecentView};
use crate::refresh;
use crate::refresh::{RefreshRun, RefreshView};
use crate::secrets;
use crate::text;

verus! {

/// How many books, from the newest on, the progress is asked for.
pub const PROGRESS_BOOKS: usize = 12;

/// A failure: a stable code, and a message for a person.
pub type Failure = (String, String);

pub type FailureView = (Seq<char>, Seq<char>);

pub open spec fn failure_view(failure: Failure) -> FailureView {
    (failure.0@, failure.1@)
}

fn failure(code: &str, message: &str) -> (r: Failure)
    ensures
        failure_view(r) == (code@, message@),
{
    (code.to_owned(), message.to_owned())
}

/// The failure that an error from Amazon is reported as.
pub open spec fn failure_of(error: ErrorView) -> FailureView {
    match error {
        ErrorView::AuthExpired => (
            "auth_expired"@,
            "Amazon signed this session out; paste fresh cookies"@,
        ),
        ErrorView::Amazon { status, message } => (
            "amazon_"@ + text::int_text(status as int),
            message,
        ),
        ErrorView::Http(message) => ("network"@, message),
        ErrorView::Parse(message) => ("parse"@, message),
    }
}

pub fn map_error(error: Error) -> (r: Failure)
    ensures
        failure_view(r) == failure_of(error@),
{
    match error {
        Error::AuthExpired => failure(
            "auth_expired",
            "Amazon signed this session out; paste fresh cookies",
        ),
        Error::Amazon { status, message } => (
            "amazon_".to_owned().concat(text::unsigned_text(status as u64).as_str()),
            message,
        ),
        Error::Http(message) => ("network".to_owned(), message),
        Error::Parse(message) => ("parse".to_owned(), message),
    }
}

pub open spec fn text_view(text: Option<String>) -> Option<Seq<char>> {
    match text {
        Some(text) => Some(text@),
        None => None,
    }
}

/// What a client is shown.
pub struct Snapshot {
    pub lifecycle: String,
    pub error_code: Option<String>,
    pub error: Option<String>,
    pub region: String,
    pub books: Vec<Book>,
    pub reading: Vec<ReadingBook>,
    pub updated_at: Option<u64>,
    pub refreshing: bool,
    pub needs_device_token: bool,
    pub progress_error: Option<String>,
    pub progress_error_code: Option<String>,
}

pub struct SnapshotView {
    pub lifecycle: Seq<char>,
    pub error_code: Option<Seq<char>>,
    pub error: Option<Seq<char>>,
    pub region: Seq<char>,
    pub books: Seq<BookView>,
    pub reading: Seq<ReadingView>,
    pub updated_at: Option<u64>,
    pub refreshing: bool,
    pub needs_device_token: bool,
    pub progress_error: Option<Seq<char>>,
    pub progress_error_code: Option<Seq<char>>,
}

impl View for Snapshot {
    type V = SnapshotView;

    open spec fn view(&self) -> SnapshotView {
        SnapshotView {
            lifecycle: self.lifecycle@,
            error_code: text_view(self.error_code),
            error: text_view(self.error),
            region: self.region@,
            books: models::book_views(self.books@),
            reading: reading::reading_views(self.reading@),
            updated_at: self.updated_at,
            refreshing: self.refreshing,
            needs_device_token: self.needs_device_token,
            progress_error: text_view(self.progress_error),
            progress_error_code: text_view(self.progress_error_code),
        }
    }
}

impl SnapshotView {
    /// Before anyone has signed in.
    pub open spec fn initial() -> SnapshotView {
        SnapshotView {
            lifecycle: "unconfigured"@,
            error_code: None,
            error: None,
            region: "us"@,
            books: Seq::empty(),
            reading: Seq::empty(),
            updated_at: None,
            refreshing: false,
            needs_device_token: false,
            progress_error: None,
            progress_error_code: None,
        }
    }

    /// After a failure: what was known before stays.
    pub open spec fn failed(self, failure: FailureView) -> SnapshotView {
        SnapshotView {
            lifecycle: if failure.0 == "unconfigured"@ {
                "unconfigured"@
            } else {
                "error"@
            },
            error_code: Some(failure.0),
            error: Some(failure.1),
            refreshing: false,
            ..self
        }
    }

    /// After someone has signed in, with the library as it was validated.
    pub open spec fn signed_in(
        self,
        region: Seq<char>,
        books: Seq<BookView>,
        device_token: Seq<char>,
    ) -> SnapshotView {
        SnapshotView {
            region,
            books,
            lifecycle: "loading"@,
            error: None,
            error_code: None,
            needs_device_token: text::trimmed(device_token).len() == 0,
            progress_error: None,
            progress_error_code: None,
            ..self
        }
    }

    /// Once a session has been opened.
    pub open spec fn opened(self, session: secrets::SessionView) -> SnapshotView {
        SnapshotView {
            region: session.2,
            needs_device_token: encoding::token_in(session.1).len() == 0,
            ..self
        }
    }

    /// The lifecycle is one of the four that a client knows.
    pub open spec fn valid(self) -> bool {
        ||| self.lifecycle == "unconfigured"@
        ||| self.lifecycle == "loading"@
        ||| self.lifecycle == "ready"@
        ||| self.lifecycle == "error"@
    }
}

impl Default for Snapshot {
    fn default() -> (r: Self)
        ensures
            r@ == SnapshotView::initial(),
    {
        let r = Snapshot {
            lifecycle: "unconfigured".to_owned(),
            error_code: None,
            error: None,
            region: "us".to_owned(),
            books: Vec::new(),
            reading: Vec::new(),
            updated_at: None,
            refreshing: false,
            needs_device_token: false,
            progress_error: None,
            progress_error_code: None,
        };
        assert(r@.books == Seq::<BookView>::empty());
        assert(r@.reading == Seq::<ReadingView>::empty());
        r
    }
}

impl Clone for Snapshot {
    fn clone(&self) -> (r: Self)
        ensures
            r@ == self@,
    {
        Snapshot {
            lifecycle: self.lifecycle.clone(),
            error_code: self.error_code.clone(),
            error: self.error.clone(),
            region: self.region.clone(),
            books: models::copy_books(&self.books),
            reading: reading::copy_reading(&self.reading),
            updated_at: self.updated_at,
            refreshing: self.refreshing,
            needs_device_token: self.needs_device_token,
            progress_error: self.progress_error.clone(),
            progress_error_code: self.progress_error_code.clone(),
        }
    }
}

/// What clients are told of.
pub enum Event {
    StateChanged(Snapshot),
    HighlightsChanged(Highlights),
}

pub enum EventView {
    StateChanged(SnapshotView),
    HighlightsChanged(HighlightsView),
}

impl View for Event {
    type V = EventView;

    open spec fn view(&self) -> EventView {
        match self {
            Event::StateChanged(snapshot) => EventView::StateChanged(snapshot@),
            Event::HighlightsChanged(highlights) => EventView::HighlightsChanged(highlights@),
        }
    }
}

pub open spec fn event_views(events: Seq<Event>) -> Seq<EventView> {
    Seq::new(events.len(), |i: int| events[i]@)
}

/// The highlights of a book, with where they came from: the cache, and if so
/// whether they are out of date.
pub struct HighlightsResult {
    pub highlights: Highlights,
    pub cached: bool,
    pub stale: bool,
    pub fetched_at: u64,
}

pub struct AppView {
    pub state: SnapshotView,
    pub points: Points,
    pub highlights: Map<Seq<char>, EntryView>,
    pub refresh_minutes: u64,
    pub running: bool,
    pub session_due: bool,
    pub events: Seq<EventView>,
}

impl AppView {
    /// After clients have been told of the state.
    pub open spec fn emitted(self) -> AppView {
        AppView { events: self.events.push(EventView::StateChanged(self.state)), ..self }
    }

    /// With another state, of which clients have been told if it differs.
    pub open spec fn with_state(self, state: SnapshotView) -> AppView {
        if state == self.state {
            self
        } else {
            AppView { state, ..self }.emitted()
        }
    }

    /// After a failure that clients have been told of.
    pub open spec fn failed(self, failure: FailureView) -> AppView {
        AppView { state: self.state.failed(failure), ..self }.emitted()
    }
}

/// Everything that the backend keeps while it runs. Events wait to be sent in
/// the order in which they came up, and `session_due` says that Amazon may have
/// changed cookies that are to be written back.
pub struct App {
    state: Snapshot,
    points: Keyed<CachedPoint>,
    highlights: Keyed<CachedHighlights>,
    refresh_minutes: u64,
    running: bool,
    session_due: bool,
    events: Vec<Event>,
}

/// Minutes between refreshes: no fewer than 5, and no more than a day.
pub open spec fn clamped_minutes(minutes: u64) -> u64 {
    if minutes < 5 {
        5
    } else if minutes > 1440 {
        1440
    } else {
        minutes
    }
}

fn clamp_minutes(minutes: u64) -> (r: u64)
    ensures
        r == clamped_minutes(minutes),
{
    if minutes < 5 {
        5
    } else if minutes > 1440 {
        1440
    } else {
        minutes
    }
}

impl View for App {
    type V = AppView;

    closed spec fn view(&self) -> AppView {
        AppView {
            state: self.state@,
            points: self.points@,
            highlights: self.highlights@,
            refresh_minutes: clamped_minutes(self.refresh_minutes),
            running: self.running,
            session_due: self.session_due,
            events: event_views(self.events@),
        }
    }
}

/// The session that cookies, a device token and a region open, or what is
/// wrong with them.
pub open spec fn opened_session(
    cookies: Seq<char>,
    device_token: Seq<char>,
    region: Seq<char>,
) -> Result<AmazonView, ErrorView> {
    let parsed = credentials::cookies_in(cookies);
    let missing = credentials::missing_cookies(parsed);
    if missing.len() > 0 {
        Err(ErrorView::Parse("missing cookies: "@ + text::joined(missing, ", "@)))
    } else {
        Ok(
            AmazonView::opened(
                region,
                CredentialsView {
                    cookies: parsed,
                    device_token: encoding::token_in(device_token),
                },
            ),
        )
    }
}

pub fn open_session(cookies: &str, device_token: &str, region: &str) -> (r: Result<Amazon, Error>)
    ensures
        match (r, opened_session(cookies@, device_token@, region@)) {
            (Ok(client), Ok(view)) => client@ == view && view.credentials.complete(),
            (Err(error), Err(view)) => error@ == view,
            _ => false,
        },
{
    match Credentials::new(cookies, device_token) {
        Ok(credentials) => Ok(Amazon::new(region, credentials)),
        Err(error) => Err(error),
    }
}

/// The error says nothing of what was sent: the answer was lost on the way, or
/// Amazon failed, or would not be asked so often.
pub open spec fn no_verdict(error: ErrorView) -> bool {
    match error {
        ErrorView::Http(_) => true,
        ErrorView::Amazon { status, .. } => status >= 500 || status == 429,
        _ => false,
    }
}

fn is_no_verdict(error: &Error) -> (r: bool)
    ensures
        r == no_verdict(error@),
{
    match error {
        Error::Http(_) => true,
        Error::Amazon { status, .. } => *status >= 500 || *status == 429,
        _ => false,
    }
}

/// Why a sign-in fails on account of its device token, if it does: Amazon has
/// refused to register the device with it, or has given no verdict.
pub open spec fn token_failure(
    device_token: Seq<char>,
    registration: Option<Result<DeviceInfo, Error>>,
) -> Option<FailureView> {
    if encoding::token_in(device_token).len() == 0 {
        None
    } else {
        match registration {
            Some(Ok(_)) => None,
            Some(Err(error)) => if no_verdict(error@) {
                Some(failure_of(error@))
            } else {
                Some(("invalid_credentials"@, error@.text()))
            },
            None => Some(("invalid_credentials"@, "the device token was not validated"@)),
        }
    }
}

/// A sign-in that Amazon has accepted: the library came back, and not empty,
/// and a device token, if there is one, was good for registering the device.
pub struct SignIn {
    cookies: String,
    device_token: String,
    region: String,
    books: Vec<Book>,
}

pub struct SignInView {
    pub session: secrets::SessionView,
    pub books: Seq<BookView>,
}

impl View for SignIn {
    type V = SignInView;

    closed spec fn view(&self) -> SignInView {
        SignInView {
            session: (self.cookies@, self.device_token@, self.region@),
            books: models::book_views(self.books@),
        }
    }
}

impl SignIn {
    /// The session to ask Amazon for the library with, before anything is
    /// stored.
    pub fn start(cookies: &str, device_token: &str, region: &str) -> (r: Result<Amazon, Failure>)
        ensures
            match (r, opened_session(cookies@, device_token@, region@)) {
                (Ok(client), Ok(view)) => client@ == view,
                (Err(failure), Err(view)) => failure_view(failure) == (
                    "invalid_credentials"@,
                    view.text(),
                ),
                _ => false,
            },
    {
        match open_session(cookies, device_token, region) {
            Ok(client) => Ok(client),
            Err(error) => Err(("invalid_credentials".to_owned(), error.to_string())),
        }
    }

    /// Starts to list the library that a sign-in is validated with, all of it.
    pub fn library(client: &Amazon) -> (r: (LibraryRun, Call))
        ensures
            r.0.fetch_all,
            models::book_views(r.0.books@) == Seq::<BookView>::empty(),
            r.1@ == client@.library_call(None),
    {
        client.library(true)
    }

    /// The request that validates the device token, if there is one to validate
    /// and the library has come.
    pub fn registration(client: &Amazon, library: &Result<Vec<Book>, Error>) -> (r: Option<Call>)
        ensures
            match r {
                Some(call) => {
                    &&& library matches Ok(books)
                    &&& books@.len() > 0
                    &&& client@.credentials.device_token.len() > 0
                    &&& call@ == client@.register_call()
                },
                None => client@.credentials.device_token.len() == 0 || !(library matches Ok(books)
                    && books@.len() > 0),
            },
    {
        match library {
            Ok(books) => {
                if books.len() == 0 {
                    return None;
                }
                match client.register_request() {
                    Ok(call) => Some(call),
                    Err(_) => None,
                }
            },
            Err(_) => None,
        }
    }

    /// The sign-in, if Amazon answered with a library and accepted the device
    /// token, where there is one. `registration` is how registering the device
    /// with the token went; an error that says nothing of the token is reported
    /// as it is.
    pub fn validate(
        cookies: &str,
        device_token: &str,
        region: &str,
        library: Result<Vec<Book>, Error>,
        registration: Option<Result<DeviceInfo, Error>>,
    ) -> (r: Result<SignIn, Failure>)
        ensures
            match library {
                Ok(books) => if books@.len() == 0 {
                    &&& r matches Err(failure)
                    &&& failure_view(failure) == (
                        "invalid_credentials"@,
                        "Amazon returned an empty library for these credentials"@,
                    )
                } else {
                    match token_failure(device_token@, registration) {
                        Some(expected) => r matches Err(failure) && failure_view(failure)
                            == expected,
                        None => {
                            &&& r matches Ok(sign_in)
                            &&& sign_in@.session == (cookies@, device_token@, region@)
                            &&& sign_in@.books == models::book_views(books@)
                        },
                    }
                },
                Err(error) => r matches Err(failure) && failure_view(failure) == failure_of(error@),
            },
    {
        let books = match library {
            Ok(books) => books,
            Err(error) => {
                return Err(map_error(error));
            },
        };
        if books.len() == 0 {
            return Err(
                failure(
                    "invalid_credentials",
                    "Amazon returned an empty library for these credentials",
                ),
            );
        }
        if !encoding::extract_device_token(device_token).as_str().is_empty() {
            match registration {
                Some(Ok(_)) => {},
                Some(Err(error)) => {
                    if is_no_verdict(&error) {
                        return Err(map_error(error));
                    }
                    return Err(("invalid_credentials".to_owned(), error.to_string()));
                },
                None => {
                    return Err(
                        failure("invalid_credentials", "the device token was not validated"),
                    );
                },
            }
        }
        Ok(
            SignIn {
                cookies: cookies.to_owned(),
                device_token: device_token.to_owned(),
                region: region.to_owned(),
                books,
            },
        )
    }

    /// What the session is stored as.
    pub fn session(&self) -> (r: String)
        ensures
            r@ == crate::json::json_text(secrets::session_json(self@.session)),
            secrets::session_in(r@) == secrets::kept_session(self@.session),
    {
        secrets::store(self.cookies.as_str(), self.device_token.as_str(), self.region.as_str())
    }
}

impl App {
    /// Starts with what the last run has kept.
    pub fn new(cache: Cache, highlights: HighlightsCache) -> (r: Self)
        ensures
            r@ == (AppView {
                state: SnapshotView {
                    region: cache.region@,
                    books: models::book_views(cache.books@),
                    updated_at: cache.updated_at,
                    reading: reading::reading_of(models::book_views(cache.books@), cache.points@),
                    ..SnapshotView::initial()
                },
                points: cache.points@,
                highlights: highlights.books@,
                refresh_minutes: 15,
                running: false,
                session_due: false,
                events: Seq::empty(),
            }),
            r@.state.valid(),
    {
        let reading = reading::reading_from_cache(&cache);
        let mut state = Snapshot::default();
        state.region = cache.region;
        state.books = cache.books;
        state.updated_at = cache.updated_at;
        state.reading = reading;
        let r = App {
            state,
            points: cache.points,
            highlights: highlights.books,
            refresh_minutes: 15,
            running: false,
            session_due: false,
            events: Vec::new(),
        };
        assert(r@.events == Seq::<EventView>::empty());
        r
    }

    pub fn refresh_minutes(&self) -> (r: u64)
        ensures
            r == self@.refresh_minutes,
            5 <= r <= 1440,
    {
        clamp_minutes(self.refresh_minutes)
    }

    pub fn set_refresh_minutes(&mut self, minutes: u64)
        ensures
            final(self)@ == (AppView { refresh_minutes: clamped_minutes(minutes), ..old(self)@ }),
    {
        self.refresh_minutes = clamp_minutes(minutes);
    }

    /// A copy of what clients are shown.
    pub fn snapshot(&self) -> (r: Snapshot)
        ensures
            r@ == self@.state,
    {
        self.state.clone()
    }

    /// What clients are shown.
    pub fn state(&self) -> (r: &Snapshot)
        ensures
            r@ == self@.state,
    {
        &self.state
    }

    /// What is known of the progress, by book.
    pub fn points(&self) -> (r: &Keyed<CachedPoint>)
        ensures
            r@ == self@.points,
    {
        &self.points
    }

    /// The highlights that are kept, by book.
    pub fn kept_highlights(&self) -> (r: &Keyed<CachedHighlights>)
        ensures
            r@ == self@.highlights,
    {
        &self.highlights
    }

    fn notify(&mut self, event: Event)
        ensures
            final(self)@ == (AppView { events: old(self)@.events.push(event@), ..old(self)@ }),
    {
        let ghost before = event_views(self.events@);
        let ghost view = event@;
        self.events.push(event);
        assert(event_views(self.events@) == before.push(view));
    }

    /// Tells clients of the state.
    pub fn emit(&mut self)
        ensures
            final(self)@ == old(self)@.emitted(),
    {
        let snapshot = self.state.clone();
        self.notify(Event::StateChanged(snapshot));
    }

    /// Hands out the events that wait to be sent.
    pub fn take_events(&mut self) -> (r: Vec<Event>)
        ensures
            event_views(r@) == old(self)@.events,
            final(self)@ == (AppView { events: Seq::empty(), ..old(self)@ }),
    {
        let mut events: Vec<Event> = Vec::new();
        std::mem::swap(&mut self.events, &mut events);
        assert(event_views(self.events@) == Seq::<EventView>::empty());
        events
    }

    /// Says, once, that the session is to be written back.
    pub fn take_session_due(&mut self) -> (r: bool)
        ensures
            r == old(self)@.session_due,
            final(self)@ == (AppView { session_due: false, ..old(self)@ }),
    {
        let due = self.session_due;
        self.session_due = false;
        due
    }

    fn set_error(&mut self, code: &str, message: &str)
        ensures
            final(self)@ == old(self)@.failed((code@, message@)),
            final(self)@.state.valid(),
    {
        self.state.lifecycle = if text::same(code, "unconfigured") {
            "unconfigured".to_owned()
        } else {
            "error".to_owned()
        };
        self.state.error_code = Some(code.to_owned());
        self.state.error = Some(message.to_owned());
        self.state.refreshing = false;
        self.emit();
    }

    /// Takes a validated sign-in over, once its session has been written.
    pub fn set_credentials(&mut self, sign_in: SignIn, written: Result<(), String>) -> (r: Result<
        (),
        Failure,
    >)
        ensures
            match written {
                Ok(_) => {
                    &&& r is Ok
                    &&& final(self)@ == (AppView {
                        state: old(self)@.state.signed_in(
                            sign_in@.session.2,
                            sign_in@.books,
                            sign_in@.session.1,
                        ),
                        ..old(self)@
                    }).emitted()
                    &&& final(self)@.state.valid()
                },
                Err(message) => {
                    &&& r matches Err(failure)
                    &&& failure_view(failure) == (
                        "session_error"@,
                        "could not write the session file: "@ + message@,
                    )
                    &&& final(self)@ == old(self)@
                },
            },
    {
        if let Err(message) = written {
            return Err(
                (
                    "session_error".to_owned(),
                    "could not write the session file: ".to_owned().concat(message.as_str()),
                ),
            );
        }
        let has_token = !text::trim(sign_in.device_token.as_str()).as_str().is_empty();
        self.state.region = sign_in.region;
        self.state.books = sign_in.books;
        self.state.lifecycle = "loading".to_owned();
        self.state.error = None;
        self.state.error_code = None;
        self.state.needs_device_token = !has_token;
        self.state.progress_error = None;
        self.state.progress_error_code = None;
        self.emit();
        Ok(())
    }

    /// The cookies and the region to sign in with again, with a new device
    /// token: those of the stored session, or of the environment.
    pub fn set_device_token(
        stored: Result<Option<(String, String, String)>, String>,
        dev: Option<(String, String, String)>,
    ) -> (r: Result<(String, String), Failure>)
        ensures
            match usable_session(stored, dev) {
                Ok(Some(session)) => r matches Ok(kept) && kept.0@ == session.0 && kept.1@
                    == session.2,
                Ok(None) => r matches Err(failure) && failure_view(failure) == (
                    "unconfigured"@,
                    "no stored session; sign in first"@,
                ),
                Err(message) => r matches Err(failure) && failure_view(failure) == (
                    "session_error"@,
                    message,
                ),
            },
    {
        let session = match stored {
            Ok(Some(session)) => Some(session),
            Ok(None) => dev,
            Err(message) => {
                return Err(("session_error".to_owned(), message));
            },
        };
        match session {
            Some(session) => Ok((session.0, session.2)),
            None => Err(failure("unconfigured", "no stored session; sign in first")),
        }
    }

    /// Forgets the session, once its file has been removed.
    pub fn clear_credentials(&mut self, cleared: Result<(), String>) -> (r: Result<(), Failure>)
        ensures
            match cleared {
                Ok(_) => {
                    &&& r is Ok
                    &&& final(self)@ == (AppView {
                        state: SnapshotView::initial(),
                        points: Map::empty(),
                        ..old(self)@
                    }).emitted()
                    &&& final(self)@.state.valid()
                },
                Err(message) => {
                    &&& r matches Err(failure)
                    &&& failure_view(failure) == ("session_error"@, message@)
                    &&& final(self)@ == old(self)@
                },
            },
    {
        if let Err(message) = cleared {
            return Err(("session_error".to_owned(), message));
        }
        self.state = Snapshot::default();
        self.points = Keyed::new();
        self.emit();
        Ok(())
    }

    /// The session with Amazon, when there is none yet: from the stored
    /// session, or from the environment.
    pub fn ensure_client(
        &mut self,
        stored: Result<Option<(String, String, String)>, String>,
        dev: Option<(String, String, String)>,
    ) -> (r: Result<Amazon, Failure>)
        ensures
            match usable_session(stored, dev) {
                Ok(Some(session)) => match (r, opened_session(session.0, session.1, session.2)) {
                    (Ok(client), Ok(view)) => {
                        &&& client@ == view
                        &&& final(self)@ == old(self)@.with_state(
                            old(self)@.state.opened(session),
                        )
                    },
                    (Err(failure), Err(view)) => {
                        &&& failure_view(failure) == failure_of(view)
                        &&& final(self)@ == old(self)@
                    },
                    _ => false,
                },
                Ok(None) => {
                    &&& r matches Err(failure)
                    &&& failure_view(failure) == ("unconfigured"@, "no credentials"@)
                    &&& final(self)@ == old(self)@.failed(
                        ("unconfigured"@, "No Amazon session configured yet"@),
                    )
                },
                Err(message) => {
                    &&& r matches Err(failure)
                    &&& failure_view(failure) == ("session_error"@, message)
                    &&& final(self)@ == old(self)@
                },
            },
            old(self)@.state.valid() ==> final(self)@.state.valid(),
    {
        let session = match stored {
            Ok(Some(session)) => Some(session),
            Ok(None) => dev,
            Err(message) => {
                return Err(("session_error".to_owned(), message));
            },
        };
        let session = match session {
            Some(session) => session,
            None => {
                self.set_error("unconfigured", "No Amazon session configured yet");
                return Err(failure("unconfigured", "no credentials"));
            },
        };
        match open_session(session.0.as_str(), session.1.as_str(), session.2.as_str()) {
            Ok(client) => {
                let needs_device_token = !client.has_device_token();
                let changed = !text::same(self.state.region.as_str(), session.2.as_str())
                    || self.state.needs_device_token != needs_device_token;
                self.state.region = session.2;
                self.state.needs_device_token = needs_device_token;
                if changed {
                    self.emit();
                }
                Ok(client)
            },
            Err(error) => Err(map_error(error)),
        }
    }
}

/// What is known of the progress after a refresh: when no progress came,
/// what was known before stays.
pub open spec fn points_after(before: Points, run: RefreshView) -> Points {
    if refresh::all_failed(run.outcomes) {
        before
    } else {
        refresh::points_of(run.books, run.outcomes)
    }
}

impl SnapshotView {
    /// After a refresh has brought the library.
    pub open spec fn refreshed(self, run: RefreshView, points: Points, now: u64) -> SnapshotView {
        let failure = refresh::progress_failure(run.outcomes);
        SnapshotView {
            lifecycle: "ready"@,
            error: None,
            error_code: None,
            books: run.books,
            reading: reading::reading_of(run.books, points),
            updated_at: Some(now),
            refreshing: false,
            needs_device_token: !run.has_token,
            progress_error: match failure {
                Some(failure) => Some(failure.1),
                None => None,
            },
            progress_error_code: match failure {
                Some(failure) => Some(failure.0),
                None => None,
            },
            ..self
        }
    }
}

impl App {
    /// Begins a refresh, unless one is running.
    pub fn refresh(&mut self) -> (r: Result<(), Failure>)
        ensures
            if old(self)@.running {
                &&& r matches Err(failure)
                &&& failure_view(failure) == ("busy"@, "a refresh is already running"@)
                &&& final(self)@ == old(self)@
            } else {
                &&& r is Ok
                &&& final(self)@ == (AppView {
                    state: SnapshotView { refreshing: true, ..old(self)@.state },
                    running: true,
                    ..old(self)@
                }).emitted()
            },
    {
        if self.running {
            return Err(failure("busy", "a refresh is already running"));
        }
        self.running = true;
        self.state.refreshing = true;
        self.emit();
        Ok(())
    }

    /// Ends a refresh for which there was no session.
    pub fn abandon_refresh(&mut self)
        ensures
            final(self)@ == (AppView {
                state: SnapshotView { refreshing: false, ..old(self)@.state },
                running: false,
                ..old(self)@
            }).emitted(),
    {
        self.running = false;
        self.state.refreshing = false;
        self.emit();
    }

    /// Ends a refresh with what it brought, or with why it failed. After one
    /// that went well the session is written back.
    pub fn finish_refresh(&mut self, result: Result<RefreshRun, Failure>, now: u64) -> (r: Result<
        (),
        Failure,
    >)
        requires
            result matches Ok(run) ==> run@.valid(),
        ensures
            match result {
                Ok(run) => {
                    let points = points_after(old(self)@.points, run@);
                    &&& r is Ok
                    &&& final(self)@ == (AppView {
                        state: old(self)@.state.refreshed(run@, points, now),
                        points,
                        running: false,
                        session_due: true,
                        ..old(self)@
                    }).emitted()
                },
                Err(failure) => {
                    &&& r == Err::<(), Failure>(failure)
                    &&& final(self)@ == (AppView { running: false, ..old(self)@ }).failed(
                        failure_view(failure),
                    )
                },
            },
            final(self)@.state.valid(),
    {
        self.running = false;
        let run = match result {
            Ok(run) => run,
            Err(failure) => {
                self.set_error(failure.0.as_str(), failure.1.as_str());
                return Err(failure);
            },
        };
        let has_token = run.has_token();
        let progress_failure = run.progress_failure();
        let (books, points) = run.into_points();
        let kept = match &progress_failure {
            Some(_) => {
                let mut kept: Keyed<CachedPoint> = Keyed::new();
                std::mem::swap(&mut self.points, &mut kept);
                kept
            },
            None => points,
        };
        let cache = Cache {
            region: self.state.region.clone(),
            books,
            points: kept,
            updated_at: Some(now),
        };
        self.state.reading = reading::reading_from_cache(&cache);
        self.state.lifecycle = "ready".to_owned();
        self.state.error = None;
        self.state.error_code = None;
        self.state.books = cache.books;
        self.state.updated_at = cache.updated_at;
        self.state.refreshing = false;
        self.state.needs_device_token = !has_token;
        match progress_failure {
            Some(failure) => {
                self.state.progress_error_code = Some(failure.0);
                self.state.progress_error = Some(failure.1);
            },
            None => {
                self.state.progress_error_code = None;
                self.state.progress_error = None;
            },
        }
        self.points = cache.points;
        self.session_due = true;
        self.emit();
        Ok(())
    }
}

/// A refresh that fails takes nothing away: the library, what is being read
/// and when that was learnt stay.
pub proof fn lemma_failed_refresh_keeps_state(before: SnapshotView, failure: FailureView)
    ensures
        before.failed(failure).books == before.books,
        before.failed(failure).reading == before.reading,
        before.failed(failure).updated_at == before.updated_at,
        before.failed(failure).region == before.region,
        before.failed(failure).valid(),
        !before.failed(failure).refreshing,
{
}

/// When the library comes but no progress does, what was known of the progress
/// stays, so that a book which was being read and is still in the library is
/// still shown, and the state says what went wrong.
pub proof fn lemma_lost_progress_keeps_points(
    before: SnapshotView,
    points: Points,
    run: RefreshView,
    now: u64,
)
    requires
        refresh::all_failed(run.outcomes),
    ensures
        points_after(points, run) == points,
        before.refreshed(run, points_after(points, run), now).reading == reading::reading_of(
            run.books,
            points,
        ),
        before.refreshed(run, points_after(points, run), now).progress_error is Some,
        before.refreshed(run, points_after(points, run), now).progress_error_code is Some,
{
}

/// The state speaks of lost progress only if progress was asked for and never
/// came, and it tells a refusal from any other failure.
pub proof fn lemma_progress_error_codes(before: SnapshotView, points: Points, run: RefreshView, now: u64)
    ensures
        ({
            let after = before.refreshed(run, points, now);
            &&& after.progress_error_code is Some <==> refresh::all_failed(run.outcomes)
            &&& after.progress_error is Some <==> after.progress_error_code is Some
            &&& after.progress_error_code matches Some(code) ==> {
                ||| code == "progress_unavailable"@ && exists|i: int|
                    0 <= i < run.outcomes.len() && refresh::refusal(#[trigger] run.outcomes[i])
                ||| code == "progress_error"@ && forall|i: int|
                    0 <= i < run.outcomes.len() ==> !refresh::refusal(#[trigger] run.outcomes[i])
            }
        }),
{
    refresh::lemma_refused(run.outcomes, 0);
}

/// What is kept for a book.
pub open spec fn kept_entry(
    highlights: Map<Seq<char>, EntryView>,
    asin: Seq<char>,
) -> Option<EntryView> {
    if highlights.contains_key(asin) {
        Some(highlights[asin])
    } else {
        None
    }
}

impl AppView {
    /// After the highlights of a book have changed, and clients have been told.
    pub open spec fn with_entry(self, asin: Seq<char>, entry: EntryView) -> AppView {
        AppView {
            highlights: self.highlights.insert(asin, entry),
            events: self.events.push(
                EventView::HighlightsChanged(models::book_highlights(asin, entry.items)),
            ),
            ..self
        }
    }

    /// After a full passage of a book has been fetched.
    pub open spec fn with_full_text(
        self,
        asin: Seq<char>,
        start: i64,
        end: i64,
        text: Seq<char>,
    ) -> AppView {
        match kept_entry(self.highlights, asin) {
            Some(entry) if passages::marked_from(entry.items, start, end, false, 0) is Some =>
            self.with_entry(asin, passages::with_full_text(entry, start, end, text)),
            _ => self,
        }
    }

    /// The full passage between two positions of a book, if it is known.
    pub open spec fn full_text(self, asin: Seq<char>, start: i64, end: i64) -> Option<Seq<char>> {
        match kept_entry(self.highlights, asin) {
            Some(entry) => passages::full_text(entry, start, end),
            None => None,
        }
    }
}

/// How a request for the highlights of a book is met: from what is kept, which
/// may be out of date and want a refresh, or by fetching them.
pub enum HighlightsPlan {
    Serve { result: HighlightsResult, refresh: bool },
    Fetch,
}

/// How a request for a passage is met: it is known, it can be copied from the
/// edition that is known, or the highlights have to be fetched first.
pub enum TextPlan {
    Known(String),
    Copy { guid: String, revision: String },
    Fetch,
}

impl HighlightsResult {
    /// Highlights that have just been fetched.
    pub fn fetched(asin: &str, entry: CachedHighlights) -> (r: Self)
        ensures
            r.highlights@ == models::book_highlights(asin@, entry@.items),
            r.fetched_at == entry@.fetched_at,
            !r.cached,
            !r.stale,
    {
        HighlightsResult {
            fetched_at: entry.fetched_at,
            highlights: entry.into_highlights(asin),
            cached: false,
            stale: false,
        }
    }
}

impl App {
    /// Serves the highlights that are kept for a book, unless they are to be
    /// fetched whatever is kept.
    pub fn highlights(&self, asin: &str, force: bool, now: u64) -> (r: HighlightsPlan)
        ensures
            match (kept_entry(self@.highlights, asin@), r) {
                (Some(entry), HighlightsPlan::Serve { result, refresh }) => {
                    &&& !force
                    &&& result.highlights@ == models::book_highlights(asin@, entry.items)
                    &&& result.fetched_at == entry.fetched_at
                    &&& result.cached
                    &&& result.stale == !entry.fresh(now)
                    &&& refresh == !entry.fresh(now)
                },
                (Some(_), HighlightsPlan::Fetch) => force,
                (None, HighlightsPlan::Fetch) => true,
                (None, HighlightsPlan::Serve { .. }) => false,
            },
    {
        if force {
            return HighlightsPlan::Fetch;
        }
        match self.highlights.get(asin) {
            Some(entry) => {
                let stale = !entry.is_fresh(now);
                let entry = entry.clone();
                HighlightsPlan::Serve {
                    result: HighlightsResult {
                        fetched_at: entry.fetched_at,
                        highlights: entry.into_highlights(asin),
                        cached: true,
                        stale,
                    },
                    refresh: stale,
                }
            },
            None => HighlightsPlan::Fetch,
        }
    }

    /// What is kept for a book, if it is fresh enough to stand in for a fetch.
    pub fn fresh_entry(&self, asin: &str, force: bool, now: u64) -> (r: Option<CachedHighlights>)
        ensures
            match (r, kept_entry(self@.highlights, asin@)) {
                (Some(entry), Some(kept)) => entry@ == kept && !force && kept.fresh(now)
                    && kept.guid.len() > 0,
                (None, Some(kept)) => force || !kept.fresh(now) || kept.guid.len() == 0,
                (None, None) => true,
                (Some(_), None) => false,
            },
    {
        if force {
            return None;
        }
        match self.highlights.get(asin) {
            Some(entry) => {
                if entry.is_fresh(now) && !entry.guid.as_str().is_empty() {
                    Some(entry.clone())
                } else {
                    None
                }
            },
            None => None,
        }
    }

    /// Reading data can be asked for: there is a session, and it has a device
    /// token.
    pub fn reader_ready(client: Option<&Amazon>) -> (r: Result<(), Failure>)
        ensures
            match client {
                Some(client) => if client@.credentials.device_token.len() > 0 {
                    r is Ok
                } else {
                    r matches Err(failure) && failure_view(failure) == (
                        "needs_device_token"@,
                        "Paste the device token in Settings to load highlights"@,
                    )
                },
                None => r matches Err(failure) && failure_view(failure) == (
                    "unconfigured"@,
                    "no credentials"@,
                ),
            },
    {
        match client {
            Some(client) => {
                if client.has_device_token() {
                    Ok(())
                } else {
                    Err(
                        failure(
                            "needs_device_token",
                            "Paste the device token in Settings to load highlights",
                        ),
                    )
                }
            },
            None => Err(failure("unconfigured", "no credentials")),
        }
    }

    /// Takes in the highlights of a book. Full passages that were fetched
    /// earlier stay, and so does everything that is kept where Amazon serves
    /// no reading data for the book.
    pub fn fetch_highlights(
        &mut self,
        asin: &str,
        annotations: Result<Annotations, Error>,
        now: u64,
    ) -> (r: Result<CachedHighlights, Failure>)
        ensures
            match annotations {
                Ok(fetched) => {
                    let previous = kept_entry(old(self)@.highlights, asin@);
                    &&& r matches Ok(entry)
                    &&& if fetched.guid@.len() == 0 && fetched.highlights@.items.len() == 0
                        && previous is Some {
                        &&& entry@ == previous->0
                        &&& final(self)@ == (AppView { session_due: true, ..old(self)@ })
                    } else {
                        &&& entry@ == (EntryView {
                            fetched_at: now,
                            guid: fetched.guid@,
                            revision: fetched.revision@,
                            items: passages::merged(previous, fetched.highlights@.items),
                        })
                        &&& final(self)@ == (AppView {
                            session_due: true,
                            ..old(self)@
                        }).with_entry(asin@, entry@)
                    }
                },
                Err(error) => {
                    &&& r matches Err(failure)
                    &&& failure_view(failure) == failure_of(error@)
                    &&& final(self)@ == old(self)@
                },
            },
    {
        let fetched = match annotations {
            Ok(fetched) => fetched,
            Err(error) => {
                return Err(map_error(error));
            },
        };
        self.session_due = true;
        let previous = match self.highlights.get(asin) {
            Some(entry) => Some(entry.clone()),
            None => None,
        };
        if fetched.guid.as_str().is_empty() && fetched.highlights.items.len() == 0 {
            if let Some(previous) = previous {
                return Ok(previous);
            }
        }
        let items = match &previous {
            Some(previous) => passages::merge_full_texts(Some(previous), fetched.highlights.items),
            None => passages::merge_full_texts(None, fetched.highlights.items),
        };
        let entry = CachedHighlights {
            fetched_at: now,
            guid: fetched.guid,
            revision: fetched.revision,
            items,
        };
        self.keep_entry(asin, entry.clone());
        Ok(entry)
    }

    fn keep_entry(&mut self, asin: &str, entry: CachedHighlights)
        ensures
            final(self)@ == old(self)@.with_entry(asin@, entry@),
    {
        let shown = entry.clone().into_highlights(asin);
        self.highlights.insert(asin, entry);
        self.notify(Event::HighlightsChanged(shown));
    }

    /// The full passage between two positions of a book, if it is known.
    pub fn cached_full_text(&self, asin: &str, start: i64, end: i64) -> (r: Option<String>)
        ensures
            match (r, self@.full_text(asin@, start, end)) {
                (Some(text), Some(view)) => text@ == view,
                (None, None) => true,
                _ => false,
            },
    {
        match self.highlights.get(asin) {
            Some(entry) => entry.full_text(start, end),
            None => None,
        }
    }

    /// Takes in the full passage between two positions of a book.
    pub fn store_full_text(&mut self, asin: &str, start: i64, end: i64, text: &str)
        ensures
            final(self)@ == old(self)@.with_full_text(asin@, start, end, text@),
    {
        let mut entry = match self.highlights.get(asin) {
            Some(entry) => entry.clone(),
            None => {
                return ;
            },
        };
        if entry.store_full_text(start, end, text) {
            self.keep_entry(asin, entry);
        }
    }

    /// How a request for a passage is met.
    pub fn text_plan(&self, asin: &str, start: i64, end: i64) -> (r: TextPlan)
        ensures
            match r {
                TextPlan::Known(text) => self@.full_text(asin@, start, end) == Some(text@),
                TextPlan::Copy { guid, revision } => {
                    &&& self@.full_text(asin@, start, end) is None
                    &&& kept_entry(self@.highlights, asin@) matches Some(entry)
                    &&& entry.copyable()
                    &&& guid@ == entry.guid
                    &&& revision@ == entry.revision
                },
                TextPlan::Fetch => {
                    &&& self@.full_text(asin@, start, end) is None
                    &&& kept_entry(self@.highlights, asin@) matches Some(entry)
                        ==> !entry.copyable()
                },
            },
    {
        match self.highlights.get(asin) {
            Some(entry) => {
                if let Some(text) = entry.full_text(start, end) {
                    return TextPlan::Known(text);
                }
                if entry.is_copyable() {
                    TextPlan::Copy { guid: entry.guid.clone(), revision: entry.revision.clone() }
                } else {
                    TextPlan::Fetch
                }
            },
            None => TextPlan::Fetch,
        }
    }

    /// The edition to copy a passage from, once the highlights have been
    /// fetched. Amazon serves reading data for a book only with one.
    pub fn copy_source(entry: &CachedHighlights) -> (r: Result<(String, String), Failure>)
        ensures
            match r {
                Ok(source) => entry@.copyable() && source.0@ == entry@.guid && source.1@
                    == entry@.revision,
                Err(failure) => !entry@.copyable() && failure_view(failure) == (
                    "unavailable"@,
                    "Amazon does not provide reading data for this book"@,
                ),
            },
    {
        if entry.is_copyable() {
            Ok((entry.guid.clone(), entry.revision.clone()))
        } else {
            Err(failure("unavailable", "Amazon does not provide reading data for this book"))
        }
    }

    /// The first request that copying a passage needs. There has to be a session
    /// with a device token before Amazon is asked for anything.
    pub fn copy_request(
        client: Option<&Amazon>,
        asin: &str,
        guid: &str,
        revision: &str,
        start: i64,
        end: i64,
    ) -> (r: Result<ReaderRequest, Failure>)
        ensures
            match client {
                Some(client) => if client@.credentials.device_token.len() == 0 {
                    &&& r matches Err(failure)
                    &&& failure_view(failure) == (
                        "needs_device_token"@,
                        "Paste the device token in Settings to load highlights"@,
                    )
                } else if client@.registered() {
                    &&& r matches Ok(ReaderRequest::Ask(call))
                    &&& call@ == client@.copy_call(
                        amazon::copy_body(asin@, guid@, revision@, start, end),
                    )
                } else {
                    &&& r matches Ok(ReaderRequest::Register(call))
                    &&& call@ == client@.register_call()
                },
                None => r matches Err(failure) && failure_view(failure) == (
                    "unconfigured"@,
                    "no credentials"@,
                ),
            },
    {
        match Self::reader_ready(client) {
            Ok(()) => {},
            Err(failure) => {
                return Err(failure);
            },
        }
        match client {
            Some(client) => match client.copy_text(asin, guid, revision, start, end) {
                Ok(request) => Ok(request),
                Err(error) => Err(map_error(error)),
            },
            None => Err(failure("unconfigured", "no credentials")),
        }
    }

    /// Takes in the copy of a passage, and hands it on.
    pub fn highlight_text(
        &mut self,
        asin: &str,
        start: i64,
        end: i64,
        copied: Result<String, Error>,
    ) -> (r: Result<String, Failure>)
        ensures
            match copied {
                Ok(text) => {
                    &&& r == Ok::<String, Failure>(text)
                    &&& final(self)@ == (AppView {
                        session_due: true,
                        ..old(self)@
                    }).with_full_text(asin@, start, end, text@)
                },
                Err(error) => {
                    &&& r matches Err(failure)
                    &&& failure_view(failure) == failure_of(error@)
                    &&& final(self)@ == old(self)@
                },
            },
    {
        match copied {
            Ok(text) => {
                self.session_due = true;
                self.store_full_text(asin, start, end, text.as_str());
                Ok(text)
            },
            Err(error) => Err(map_error(error)),
        }
    }
}

impl App {
    /// Starts a search for the newest highlights, over the books that are shown.
    pub fn recent_highlights(&self, limit: usize, per_book: usize) -> (r: RecentRun)
        ensures
            r@ == RecentView::started(self@.state, limit, per_book),
            r@.valid(),
            1 <= limit <= 50 ==> r@.limit == limit,
            1 <= per_book <= 20 ==> r@.per_book == per_book,
            r@.items.len() == 0,
    {
        RecentRun::new(&self.state, limit, per_book)
    }
}

/// A session whose cookies Amazon has changed is the same after a restart: the
/// cookies that are written back read as they were.
pub proof fn lemma_restart_keeps_cookies(
    session: CredentialsView,
    device_token: Seq<char>,
    region: Seq<char>,
)
    requires
        session.complete(),
        credentials::clean_cookies(session.cookies),
    ensures
        opened_session(
            credentials::header_of(session.cookies),
            device_token,
            region,
        ) matches Ok(reopened) && reopened.credentials.cookies == session.cookies,
{
    credentials::lemma_header_reads_back(session.cookies);
    credentials::lemma_none_missing(credentials::required_cookies(), session.cookies);
}

/// A passage that has been fetched for one of the highlights of a book is
/// known from then on.
pub proof fn lemma_fetched_text_is_known(
    app: AppView,
    asin: Seq<char>,
    start: i64,
    end: i64,
    text: Seq<char>,
)
    requires
        text.len() > 0,
        kept_entry(app.highlights, asin) matches Some(entry) && passages::marked_from(
            entry.items,
            start,
            end,
            false,
            0,
        ) is Some,
    ensures
        app.with_full_text(asin, start, end, text).full_text(asin, start, end) is Some,
{
    passages::lemma_stored_text_is_served(app.highlights[asin], start, end, text);
}

/// The session to use: the stored one, and without it that of the environment.
pub open spec fn usable_session(
    stored: Result<Option<(String, String, String)>, String>,
    dev: Option<(String, String, String)>,
) -> Result<Option<secrets::SessionView>, Seq<char>> {
    match stored {
        Ok(Some(session)) => Ok(Some(secrets::session_view(session))),
        Ok(None) => match dev {
            Some(session) => Ok(Some(secrets::session_view(session))),
            None => Ok(None),
        },
        Err(message) => Err(message@),
    }
}

/// Each kind of error has its own code, and an error's message is handed on as
/// it is.
pub proof fn lemma_errors_are_reported(status: u16, message: Seq<char>)
    ensures
        failure_of(ErrorView::AuthExpired) == (
            "auth_expired"@,
            "Amazon signed this session out; paste fresh cookies"@,
        ),
        failure_of((ErrorView::Amazon { status, message })) == (
            "amazon_"@ + text::int_text(status as int),
            message,
        ),
        failure_of(ErrorView::Http(message)) == ("network"@, message),
        failure_of(ErrorView::Parse(message)) == ("parse"@, message),
{
}

/// Before anyone has signed in nothing is known and nothing is wrong.
pub proof fn lemma_nothing_known_at_first()
    ensures
        ({
            let state = SnapshotView::initial();
            &&& state.lifecycle == "unconfigured"@
            &&& state.region == "us"@
            &&& state.books.len() == 0
            &&& state.reading.len() == 0
            &&& state.updated_at is None
            &&& !state.refreshing
            &&& !state.needs_device_token
            &&& state.error is None
            &&& state.error_code is None
            &&& state.progress_error is None
            &&& state.progress_error_code is None
        }),
{
}

/// A client knows four lifecycles.
pub proof fn lemma_four_lifecycles(state: SnapshotView)
    ensures
        state.valid() <==> seq!["unconfigured"@, "loading"@, "ready"@, "error"@].contains(
            state.lifecycle,
        ),
{
    let four = seq!["unconfigured"@, "loading"@, "ready"@, "error"@];
    assert(four[0] == "unconfigured"@ && four[1] == "loading"@ && four[2] == "ready"@ && four[3]
        == "error"@);
}

/// A failure is shown with its code and its message, and ends a refresh. All
/// that was known before is still shown.
pub proof fn lemma_what_a_failure_shows(before: SnapshotView, code: Seq<char>, message: Seq<char>)
    ensures
        ({
            let after = before.failed((code, message));
            &&& after.error_code == Some(code)
            &&& after.error == Some(message)
            &&& !after.refreshing
            &&& code == "unconfigured"@ ==> after.lifecycle == "unconfigured"@
            &&& code != "unconfigured"@ ==> after.lifecycle == "error"@
            &&& after.region == before.region
            &&& after.books == before.books
            &&& after.reading == before.reading
            &&& after.updated_at == before.updated_at
            &&& after.needs_device_token == before.needs_device_token
            &&& after.progress_error == before.progress_error
            &&& after.progress_error_code == before.progress_error_code
        }),
{
}

/// A sign-in shows the library that it was validated with, clears every error,
/// and asks for a device token where none was given.
pub proof fn lemma_what_a_sign_in_shows(
    before: SnapshotView,
    region: Seq<char>,
    books: Seq<BookView>,
    device_token: Seq<char>,
)
    ensures
        ({
            let after = before.signed_in(region, books, device_token);
            &&& after.lifecycle == "loading"@
            &&& after.region == region
            &&& after.books == books
            &&& after.needs_device_token <==> text::trimmed(device_token).len() == 0
            &&& after.error is None
            &&& after.error_code is None
            &&& after.progress_error is None
            &&& after.progress_error_code is None
            &&& after.reading == before.reading
            &&& after.updated_at == before.updated_at
            &&& after.refreshing == before.refreshing
        }),
{
}

/// A session that is opened shows its region and whether its device token is
/// missing, and changes nothing else.
pub proof fn lemma_what_an_opened_session_shows(
    before: SnapshotView,
    cookies: Seq<char>,
    device_token: Seq<char>,
    region: Seq<char>,
)
    ensures
        ({
            let after = before.opened((cookies, device_token, region));
            &&& after.region == region
            &&& after.needs_device_token <==> encoding::token_in(device_token).len() == 0
            &&& after.lifecycle == before.lifecycle
            &&& after.error == before.error
            &&& after.error_code == before.error_code
            &&& after.books == before.books
            &&& after.reading == before.reading
            &&& after.updated_at == before.updated_at
            &&& after.refreshing == before.refreshing
            &&& after.progress_error == before.progress_error
            &&& after.progress_error_code == before.progress_error_code
        }),
{
}

/// A refresh shows the library that came, and when, and clears the error. What
/// is being read are the books of that library with the progress that is known.
pub proof fn lemma_what_a_refresh_shows(
    before: SnapshotView,
    run: RefreshView,
    points: Points,
    now: u64,
)
    ensures
        ({
            let after = before.refreshed(run, points, now);
            &&& after.lifecycle == "ready"@
            &&& after.error is None
            &&& after.error_code is None
            &&& after.books == run.books
            &&& after.reading == reading::reading_of(run.books, points)
            &&& after.updated_at == Some(now)
            &&& !after.refreshing
            &&& after.needs_device_token <==> !run.has_token
            &&& after.region == before.region
            &&& refresh::progress_failure(run.outcomes) is None ==> after.progress_error is None
                && after.progress_error_code is None
            &&& refresh::progress_failure(run.outcomes) matches Some(failure)
                ==> after.progress_error_code == Some(failure.0) && after.progress_error == Some(
                failure.1,
            )
        }),
{
}

/// What was known of the progress is given up as soon as any has come, or none
/// was asked for; it stays only where all that was asked for failed.
pub proof fn lemma_when_progress_is_replaced(before: Points, run: RefreshView, i: int)
    ensures
        run.outcomes.len() == 0 || (0 <= i < run.outcomes.len() && run.outcomes[i] is Ok)
            ==> points_after(before, run) == refresh::points_of(run.books, run.outcomes),
        run.outcomes.len() > 0 && (forall|k: int|
            0 <= k < run.outcomes.len() ==> (#[trigger] run.outcomes[k]) is Err) ==> points_after(
            before,
            run,
        ) == before,
{
}

/// Refreshes are no fewer than 5 minutes apart, and no more than a day; between
/// these, as many as are asked for.
pub proof fn lemma_minutes_between_refreshes(minutes: u64)
    ensures
        minutes <= 5 ==> clamped_minutes(minutes) == 5,
        5 <= minutes <= 24 * 60 ==> clamped_minutes(minutes) == minutes,
        minutes >= 24 * 60 ==> clamped_minutes(minutes) == 24 * 60,
{
}

/// Cookies open a session if none of the required ones is missing: with all of
/// them, with the token that was pasted, and in the region that was asked for.
/// Otherwise the error names what is missing.
pub proof fn lemma_what_opens_a_session(
    cookies: Seq<char>,
    device_token: Seq<char>,
    region: Seq<char>,
)
    ensures
        ({
            let parsed = credentials::cookies_in(cookies);
            let all = credentials::has_name(parsed, "ubid-main"@) && credentials::has_name(
                parsed,
                "at-main"@,
            ) && credentials::has_name(parsed, "x-main"@) && credentials::has_name(
                parsed,
                "session-id"@,
            );
            &&& all ==> opened_session(cookies, device_token, region) is Ok
            &&& all ==> {
                let session = opened_session(cookies, device_token, region)->Ok_0;
                &&& session.credentials.cookies == parsed
                &&& session.credentials.device_token == encoding::token_in(device_token)
                &&& session.base == "https://read.amazon."@ + amazon::suffix_of(region)
                &&& session.adp_session_token.len() == 0
                &&& credentials::value_of(parsed, "session-id"@) == Some(session.session_id)
            }
            &&& !all ==> opened_session(cookies, device_token, region) == Err::<
                AmazonView,
                ErrorView,
            >(
                ErrorView::Parse(
                    "missing cookies: "@ + text::joined(
                        credentials::missing_cookies(parsed),
                        ", "@,
                    ),
                ),
            )
        }),
{
    let parsed = credentials::cookies_in(cookies);
    let required = credentials::required_cookies();
    assert(required[0] == "ubid-main"@ && required[1] == "at-main"@ && required[2] == "x-main"@
        && required[3] == "session-id"@);
    credentials::lemma_none_missing(required, parsed);
}

/// Without a device token a sign-in does not fail on its account. With one,
/// Amazon must have accepted it; where Amazon has given no verdict, the failure
/// is the error itself.
pub proof fn lemma_when_a_token_fails(
    device_token: Seq<char>,
    registration: Option<Result<DeviceInfo, Error>>,
)
    ensures
        encoding::token_in(device_token).len() == 0 ==> token_failure(device_token, registration)
            is None,
        encoding::token_in(device_token).len() > 0 ==> {
            let failure = token_failure(device_token, registration);
            &&& registration matches Some(Ok(_)) ==> failure is None
            &&& registration is None ==> failure == Some(
                ("invalid_credentials"@, "the device token was not validated"@),
            )
            &&& registration matches Some(Err(error)) ==> match error@ {
                ErrorView::Http(message) => failure == Some(("network"@, message)),
                ErrorView::Amazon { status, message } => if status >= 500 || status == 429 {
                    failure == Some(("amazon_"@ + text::int_text(status as int), message))
                } else {
                    failure == Some(("invalid_credentials"@, error@.text()))
                },
                ErrorView::AuthExpired => failure == Some(
                    ("invalid_credentials"@, error@.text()),
                ),
                ErrorView::Parse(_) => failure == Some(("invalid_credentials"@, error@.text())),
            }
        },
{
}

/// A stored session is used before that of the environment; one that cannot be
/// read is an error whatever the environment holds.
pub proof fn lemma_stored_session_first(
    stored: (String, String, String),
    dev: Option<(String, String, String)>,
    other: (String, String, String),
    message: String,
)
    ensures
        usable_session(Ok(Some(stored)), dev) == Ok::<Option<secrets::SessionView>, Seq<char>>(
            Some((stored.0@, stored.1@, stored.2@)),
        ),
        usable_session(Ok(None), Some(other)) == Ok::<Option<secrets::SessionView>, Seq<char>>(
            Some((other.0@, other.1@, other.2@)),
        ),
        usable_session(Ok(None), None) == Ok::<Option<secrets::SessionView>, Seq<char>>(None),
        usable_session(Err(message), dev) == Err::<Option<secrets::SessionView>, Seq<char>>(
            message@,
        ),
{
}

/// Clients are told of a state once, when it changes, and of nothing else; what
/// waits to be sent stays in its order.
pub proof fn lemma_clients_are_told_of_changes(app: AppView, state: SnapshotView)
    ensures
        app.with_state(app.state) == app,
        ({
            let after = app.with_state(state);
            &&& after.state == state
            &&& after.points == app.points
            &&& after.highlights == app.highlights
            &&& after.refresh_minutes == app.refresh_minutes
            &&& after.running == app.running
            &&& after.session_due == app.session_due
            &&& state != app.state ==> after.events == app.events + seq![
                EventView::StateChanged(state),
            ]
        }),
        ({
            let after = app.emitted();
            &&& after.events == app.events + seq![EventView::StateChanged(app.state)]
            &&& after.state == app.state
            &&& after.points == app.points
            &&& after.highlights == app.highlights
            &&& after.refresh_minutes == app.refresh_minutes
            &&& after.running == app.running
            &&& after.session_due == app.session_due
        }),
{
    assert(app.events + seq![EventView::StateChanged(state)] == app.events.push(
        EventView::StateChanged(state),
    ));
    assert(app.events + seq![EventView::StateChanged(app.state)] == app.events.push(
        EventView::StateChanged(app.state),
    ));
}

/// A failure reaches the clients as a change of the state, and nothing but the
/// state changes.
pub proof fn lemma_clients_are_told_of_failures(app: AppView, failure: FailureView)
    ensures
        ({
            let after = app.failed(failure);
            &&& after.state == app.state.failed(failure)
            &&& after.events == app.events + seq![EventView::StateChanged(after.state)]
            &&& after.points == app.points
            &&& after.highlights == app.highlights
            &&& after.refresh_minutes == app.refresh_minutes
            &&& after.running == app.running
            &&& after.session_due == app.session_due
        }),
{
    let state = app.state.failed(failure);
    assert(app.events + seq![EventView::StateChanged(state)] == app.events.push(
        EventView::StateChanged(state),
    ));
}

/// The highlights of a book replace what was kept for it, and clients are told
/// of them. What is kept for any other book stays.
pub proof fn lemma_highlights_are_kept(
    app: AppView,
    asin: Seq<char>,
    entry: EntryView,
    other: Seq<char>,
)
    ensures
        ({
            let after = app.with_entry(asin, entry);
            &&& kept_entry(after.highlights, asin) == Some(entry)
            &&& other != asin ==> kept_entry(after.highlights, other) == kept_entry(
                app.highlights,
                other,
            )
            &&& after.events == app.events + seq![
                EventView::HighlightsChanged(models::book_highlights(asin, entry.items)),
            ]
            &&& after.state == app.state
            &&& after.points == app.points
            &&& after.refresh_minutes == app.refresh_minutes
            &&& after.running == app.running
            &&& after.session_due == app.session_due
        }),
        app.highlights.contains_key(asin) ==> kept_entry(app.highlights, asin) == Some(
            app.highlights[asin],
        ),
        !app.highlights.contains_key(asin) ==> kept_entry(app.highlights, asin) is None,
{
    let event = EventView::HighlightsChanged(models::book_highlights(asin, entry.items));
    assert(app.events + seq![event] == app.events.push(event));
}

/// A passage that was fetched changes the highlights of its book alone, and
/// only where one of them has its positions; then clients are told.
pub proof fn lemma_fetched_text_changes_one_book(
    app: AppView,
    asin: Seq<char>,
    start: i64,
    end: i64,
    text: Seq<char>,
    at: int,
)
    ensures
        !app.highlights.contains_key(asin) ==> app.with_full_text(asin, start, end, text) == app,
        app.highlights.contains_key(asin) && (forall|k: int|
            0 <= k < app.highlights[asin].items.len() ==> !((
            #[trigger] app.highlights[asin].items[k]).start == Some(start)
                && app.highlights[asin].items[k].end == Some(end))) ==> app.with_full_text(
            asin,
            start,
            end,
            text,
        ) == app,
        app.highlights.contains_key(asin) && 0 <= at < app.highlights[asin].items.len()
            && app.highlights[asin].items[at].start == Some(start)
            && app.highlights[asin].items[at].end == Some(end) ==> app.with_full_text(
            asin,
            start,
            end,
            text,
        ) == app.with_entry(
            asin,
            passages::with_full_text(app.highlights[asin], start, end, text),
        ),
        app.highlights.contains_key(asin) ==> app.full_text(asin, start, end)
            == passages::full_text(app.highlights[asin], start, end),
        !app.highlights.contains_key(asin) ==> app.full_text(asin, start, end) is None,
{
    if app.highlights.contains_key(asin) {
        passages::lemma_when_an_item_is_marked(app.highlights[asin].items, start, end);
    }
}

/// What contracts say of a state is all that a client is shown.
pub proof fn lemma_states_seen_whole(state: Snapshot)
    ensures
        state@.lifecycle == state.lifecycle@,
        state.error_code matches Some(code) ==> state@.error_code == Some(code@),
        state.error_code is None ==> state@.error_code is None,
        state.error matches Some(message) ==> state@.error == Some(message@),
        state.error is None ==> state@.error is None,
        state@.region == state.region@,
        state@.books == models::book_views(state.books@),
        state@.reading == reading::reading_views(state.reading@),
        state@.updated_at == state.updated_at,
        state@.refreshing == state.refreshing,
        state@.needs_device_token == state.needs_device_token,
        state.progress_error matches Some(message) ==> state@.progress_error == Some(message@),
        state.progress_error is None ==> state@.progress_error is None,
        state.progress_error_code matches Some(code) ==> state@.progress_error_code == Some(code@),
        state.progress_error_code is None ==> state@.progress_error_code is None,
{
}

/// What contracts say of failures and events is all that they hold, in order.
pub proof fn lemma_events_seen_whole(
    failure: Failure,
    state: Snapshot,
    highlights: Highlights,
    events: Seq<Event>,
    i: int,
)
    ensures
        failure_view(failure) == (failure.0@, failure.1@),
        Event::StateChanged(state)@ == EventView::StateChanged(state@),
        Event::HighlightsChanged(highlights)@ == EventView::HighlightsChanged(highlights@),
        event_views(events).len() == events.len(),
        0 <= i < events.len() ==> event_views(events)[i] == events[i]@,
{
}

} // verus!
