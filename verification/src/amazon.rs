//! The session with read.amazon.com: what is asked, and what the answers mean.

use vstd::prelude::*;

use crate::credentials;
use crate::credentials::{Credentials, CredentialsView, PairsView};
use crate::encoding;
use crate::highlights;
use crate::highlights::Annotation;
use crate::json;
use crate::json::JsonView;
use crate::models;
use crate::models::{
    Book, BookMetadata, BookView, DeviceInfo, Highlights, LibraryItem, LibraryPage, Progress, StartReading,
};
use crate::text;

verus! {

pub const REGION_SUFFIXES: [(&'static str, &'static str); 13] = [
    ("us", "com"),
    ("uk", "co.uk"),
    ("de", "de"),
    ("fr", "fr"),
    ("it", "it"),
    ("es", "es"),
    ("jp", "co.jp"),
    ("ca", "ca"),
    ("au", "com.au"),
    ("in", "in"),
    ("br", "com.br"),
    ("mx", "com.mx"),
    ("nl", "nl"),
];

/// The store regions and the endings of their addresses.
pub open spec fn region_table() -> PairsView {
    seq![
        ("us"@, "com"@),
        ("uk"@, "co.uk"@),
        ("de"@, "de"@),
        ("fr"@, "fr"@),
        ("it"@, "it"@),
        ("es"@, "es"@),
        ("jp"@, "co.jp"@),
        ("ca"@, "ca"@),
        ("au"@, "com.au"@),
        ("in"@, "in"@),
        ("br"@, "com.br"@),
        ("mx"@, "com.mx"@),
        ("nl"@, "nl"@),
    ]
}

/// The ending of a region's address. A region that is not in the table is
/// taken to be an ending itself.
pub open spec fn suffix_of(region: Seq<char>) -> Seq<char> {
    match credentials::value_of(region_table(), text::lowered(region)) {
        Some(suffix) => suffix,
        None => text::lowered(region),
    }
}

pub fn region_suffix(region: &str) -> (r: String)
    ensures
        r@ == suffix_of(region@),
{
    let lowered = text::lowercase(region);
    let ghost table = region_table();
    let mut i: usize = 0;
    while i < 13
        invariant
            i <= 13,
            table == region_table(),
            lowered@ == text::lowered(region@),
            table.len() == 13,
            credentials::named_from(table, lowered@, 0) == credentials::named_from(
                table,
                lowered@,
                i as int,
            ),
        decreases 13 - i,
    {
        let (key, suffix): (&str, &str) = REGION_SUFFIXES[i];
        assert((key@, suffix@) == table[i as int]);
        if text::same(key, lowered.as_str()) {
            assert(credentials::named_from(table, lowered@, i as int) == Some(i as int));
            return suffix.to_owned();
        }
        i = i + 1;
    }
    lowered
}

/// Capital letters make no difference to a region.
pub proof fn lemma_region_case(region: Seq<char>)
    ensures
        suffix_of(text::lowered(region)) == suffix_of(region),
{
    assert(text::lowered(text::lowered(region)) == text::lowered(region));
}

/// Why a request to Amazon failed.
#[derive(Debug)]
pub enum Error {
    AuthExpired,
    Http(String),
    Amazon { status: u16, message: String },
    Parse(String),
}

pub enum ErrorView {
    AuthExpired,
    Http(Seq<char>),
    Amazon { status: u16, message: Seq<char> },
    Parse(Seq<char>),
}

impl View for Error {
    type V = ErrorView;

    open spec fn view(&self) -> ErrorView {
        match self {
            Error::AuthExpired => ErrorView::AuthExpired,
            Error::Http(message) => ErrorView::Http(message@),
            Error::Amazon { status, message } => ErrorView::Amazon {
                status: *status,
                message: message@,
            },
            Error::Parse(message) => ErrorView::Parse(message@),
        }
    }
}

impl ErrorView {
    pub open spec fn text(self) -> Seq<char> {
        match self {
            ErrorView::AuthExpired => "Amazon session expired or cookies incomplete"@,
            ErrorView::Http(message) => "network error: "@ + message,
            ErrorView::Amazon { status, message } => "Amazon returned "@ + text::int_text(
                status as int,
            ) + ": "@ + message,
            ErrorView::Parse(message) => "could not parse Amazon response: "@ + message,
        }
    }
}

impl Error {
    /// What a person is told of the error.
    pub fn to_string(&self) -> (r: String)
        ensures
            r@ == self@.text(),
    {
        match self {
            Error::AuthExpired => "Amazon session expired or cookies incomplete".to_owned(),
            Error::Http(message) => "network error: ".to_owned().concat(message.as_str()),
            Error::Amazon { status, message } => "Amazon returned ".to_owned().concat(
                text::unsigned_text(*status as u64).as_str(),
            ).concat(": ").concat(message.as_str()),
            Error::Parse(message) => "could not parse Amazon response: ".to_owned().concat(
                message.as_str(),
            ),
        }
    }
}

/// A parse error: what was read, and what was wrong with it.
fn unreadable(what: &str, detail: &str) -> (r: Error)
    ensures
        r@ == ErrorView::Parse(what@ + detail@),
{
    Error::Parse(what.to_owned().concat(detail))
}

/// The highlights of a book, with the guid and the revision of the edition
/// that they were made in.
pub struct Annotations {
    pub highlights: Highlights,
    pub guid: String,
    pub revision: String,
}

/// Amazon's answer to a request: the status, the address it came from in the
/// end, the cookies it sets, and the body or the reason why that was lost.
pub struct Reply {
    pub status: u16,
    pub final_url: String,
    pub cookies: Vec<(String, String)>,
    pub body: Result<String, String>,
}

/// A request header may hold this text: no control character but the tab.
pub open spec fn header_allowed(value: Seq<char>) -> bool {
    forall|i: int| 0 <= i < value.len() ==> header_char(#[trigger] value[i])
}

pub open spec fn header_char(c: char) -> bool {
    (c >= ' ' && c != '\u{7f}') || c == '\t'
}

fn may_be_header(value: &str) -> (r: bool)
    ensures
        r == header_allowed(value@),
{
    let chars = text::chars_of(value);
    for i in 0..chars.len()
        invariant
            chars@ == value@,
            forall|j: int| 0 <= j < i ==> header_char(#[trigger] value@[j]),
    {
        let c = chars[i];
        if !((c >= ' ' && c != '\u{7f}') || c == '\t') {
            assert(!header_char(value@[i as int]));
            return false;
        }
    }
    true
}

pub struct AmazonView {
    pub base: Seq<char>,
    pub credentials: CredentialsView,
    pub session_id: Seq<char>,
    pub adp_session_token: Seq<char>,
}

impl AmazonView {
    /// A session as it begins: its identity is that of its cookie, and no
    /// device is registered.
    pub open spec fn opened(region: Seq<char>, credentials: CredentialsView) -> AmazonView {
        AmazonView {
            base: "https://read.amazon."@ + suffix_of(region),
            credentials,
            session_id: match credentials::value_of(credentials.cookies, "session-id"@) {
                Some(id) => id,
                None => Seq::empty(),
            },
            adp_session_token: Seq::empty(),
        }
    }

    /// The headers that every request carries: the cookies, the language and
    /// the referring page.
    pub open spec fn common_headers(self) -> PairsView {
        seq![
            ("cookie"@, credentials::header_of(self.credentials.cookies)),
            ("accept-language"@, "en-US,en;q=0.9"@),
            ("referer"@, self.base + "/kindle-library"@),
        ]
    }

    /// The session's identity, while there is one.
    pub open spec fn session_headers(self) -> PairsView {
        if self.session_id.len() > 0 {
            seq![("x-amzn-sessionid"@, self.session_id)]
        } else {
            Seq::empty()
        }
    }

    /// The token of the registered device, for requests that want it.
    pub open spec fn device_headers(self, adp: bool) -> PairsView {
        if adp && self.adp_session_token.len() > 0 {
            seq![("x-adp-session-token"@, self.adp_session_token)]
        } else {
            Seq::empty()
        }
    }

    pub open spec fn headers(self, adp: bool) -> PairsView {
        self.common_headers() + self.session_headers() + self.device_headers(adp)
    }

    /// The session after an answer that sets one cookie.
    pub open spec fn with_cookie(self, name: Seq<char>, value: Seq<char>) -> AmazonView {
        AmazonView {
            credentials: self.credentials.set(name, value),
            session_id: if name == "session-id"@ {
                value
            } else {
                self.session_id
            },
            ..self
        }
    }

    /// The session after an answer that sets these cookies, in this order.
    pub open spec fn with_cookies(self, cookies: PairsView) -> AmazonView
        decreases cookies.len(),
    {
        if cookies.len() == 0 {
            self
        } else {
            let last = cookies.last();
            self.with_cookies(cookies.drop_last()).with_cookie(last.0, last.1)
        }
    }

    pub open spec fn library_url(self, token: Option<Seq<char>>) -> Seq<char> {
        let page = self.base
            + "/kindle-library/search?query=&libraryType=BOOKS&sortType=recency&querySize=50"@;
        match token {
            Some(token) => page + "&paginationToken="@ + encoding::url_encoded(token),
            None => page,
        }
    }

    pub open spec fn register_url(self) -> Seq<char> {
        let token = encoding::url_encoded(self.credentials.device_token);
        self.base + "/service/web/register/getDeviceToken?serialNumber="@ + token + "&deviceType="@
            + token
    }

    pub open spec fn open_url(self, asin: Seq<char>) -> Seq<char> {
        self.base + "/service/mobile/reader/startReading?asin="@ + encoding::url_encoded(asin)
            + "&clientVersion=20000100"@
    }

    pub open spec fn annotations_url(self, asin: Seq<char>, guid: Seq<char>) -> Seq<char> {
        self.base + "/service/mobile/reader/getAnnotations?asin="@ + encoding::url_encoded(asin)
            + "&guid="@ + encoding::url_encoded(guid) + "&clientVersion=20000100"@
    }

    pub open spec fn copy_url(self) -> Seq<char> {
        self.base + "/service/mobile/reader/copyText"@
    }

    pub open spec fn library_call(self, token: Option<Seq<char>>) -> CallView {
        CallView::get(self.library_url(token), false)
    }

    pub open spec fn register_call(self) -> CallView {
        CallView::get(self.register_url(), false)
    }

    pub open spec fn open_call(self, asin: Seq<char>) -> CallView {
        CallView::get(self.open_url(asin), true)
    }

    pub open spec fn annotations_call(self, asin: Seq<char>, guid: Seq<char>) -> CallView {
        CallView::get(self.annotations_url(asin, guid), true)
    }

    pub open spec fn copy_call(self, body: JsonView) -> CallView {
        CallView { url: self.copy_url(), adp: true, body: Some(json::json_text(body)) }
    }

    pub open spec fn registered(self) -> bool {
        self.adp_session_token.len() > 0
    }
}

/// What an answer comes to, once its body has been read: a sign-in page means
/// that the session is over, and a status from 400 on is an error.
pub open spec fn accepted(
    status: u16,
    final_url: Seq<char>,
    body: Result<String, String>,
) -> Result<Seq<char>, ErrorView> {
    match body {
        Err(message) => Err(ErrorView::Http(message@)),
        Ok(body) => if text::contains(final_url, "signin"@) {
            Err(ErrorView::AuthExpired)
        } else if status >= 400 {
            Err(ErrorView::Amazon { status, message: text::first_chars(body@, 200) })
        } else {
            Ok(body@)
        },
    }
}

/// The body of a request for the full text of a passage.
pub open spec fn copy_body(
    asin: Seq<char>,
    guid: Seq<char>,
    revision: Seq<char>,
    start: i64,
    end: i64,
) -> JsonView {
    JsonView::Object(
        Map::<Seq<char>, JsonView>::empty().insert("asin"@, JsonView::Text(asin)).insert(
            "startPosition"@,
            JsonView::Int(start as int),
        ).insert("endPosition"@, JsonView::Int(end as int)).insert("guid"@, JsonView::Text(guid)).insert(
            "revision"@,
            JsonView::Text(revision),
        ).insert("clientVersion"@, JsonView::Text("20000100"@)),
    )
}

/// A request: its address, whether it carries the token of the registered
/// device, and the JSON that it posts, if it posts any.
pub struct Call {
    pub url: String,
    pub adp: bool,
    pub body: Option<String>,
}

pub struct CallView {
    pub url: Seq<char>,
    pub adp: bool,
    pub body: Option<Seq<char>>,
}

impl View for Call {
    type V = CallView;

    open spec fn view(&self) -> CallView {
        CallView {
            url: self.url@,
            adp: self.adp,
            body: match self.body {
                Some(body) => Some(body@),
                None => None,
            },
        }
    }
}

impl CallView {
    pub open spec fn get(url: Seq<char>, adp: bool) -> CallView {
        CallView { url, adp, body: None }
    }
}

impl Call {
    fn get(url: String, adp: bool) -> (r: Self)
        ensures
            r@ == CallView::get(url@, adp),
    {
        Call { url, adp, body: None }
    }
}

/// The next request that a reading call needs: to register the device, or the
/// one that the call is about.
pub enum ReaderRequest {
    Register(Call),
    Ask(Call),
}

/// The session with the store of one region.
pub struct Amazon {
    base: String,
    credentials: Credentials,
    session_id: String,
    adp_session_token: String,
}

impl View for Amazon {
    type V = AmazonView;

    closed spec fn view(&self) -> AmazonView {
        AmazonView {
            base: self.base@,
            credentials: self.credentials@,
            session_id: self.session_id@,
            adp_session_token: self.adp_session_token@,
        }
    }
}

impl Amazon {
    pub fn new(region: &str, credentials: Credentials) -> (r: Self)
        ensures
            r@ == AmazonView::opened(region@, credentials@),
    {
        let session_id = match credentials.get("session-id") {
            Some(id) => id.to_owned(),
            None => String::new(),
        };
        Amazon {
            base: "https://read.amazon.".to_owned().concat(region_suffix(region).as_str()),
            credentials,
            session_id,
            adp_session_token: String::new(),
        }
    }

    pub fn has_device_token(&self) -> (r: bool)
        ensures
            r == (self@.credentials.device_token.len() > 0),
    {
        self.credentials.has_device_token()
    }

    pub fn cookies(&self) -> (r: String)
        ensures
            r@ == credentials::header_of(self@.credentials.cookies),
    {
        self.credentials.cookie_header()
    }

    pub fn device_token(&self) -> (r: &str)
        ensures
            r@ == self@.credentials.device_token,
    {
        self.credentials.device_token()
    }

    /// The headers of a request, in order. `adp` asks for the device's token.
    pub fn headers(&self, adp: bool) -> (r: Result<Vec<(String, String)>, Error>)
        ensures
            match r {
                Ok(headers) => {
                    &&& credentials::pair_views(headers@) == self@.headers(adp)
                    &&& forall|i: int|
                        0 <= i < headers@.len() ==> header_allowed(#[trigger] self@.headers(adp)[i].1)
                },
                Err(error) => {
                    &&& error@ == ErrorView::Parse("failed to parse header value"@)
                    &&& exists|i: int|
                        0 <= i < self@.headers(adp).len() && !header_allowed(
                            #[trigger] self@.headers(adp)[i].1,
                        )
                },
            },
    {
        let mut headers: Vec<(String, String)> = Vec::new();
        headers.push(("cookie".to_owned(), self.credentials.cookie_header()));
        headers.push(("accept-language".to_owned(), "en-US,en;q=0.9".to_owned()));
        headers.push(("referer".to_owned(), self.base.clone().concat("/kindle-library")));
        assert(credentials::pair_views(headers@) == self@.common_headers());
        if !self.session_id.as_str().is_empty() {
            headers.push(("x-amzn-sessionid".to_owned(), self.session_id.clone()));
        }
        assert(credentials::pair_views(headers@) == self@.common_headers()
            + self@.session_headers());
        if adp && !self.adp_session_token.as_str().is_empty() {
            headers.push(("x-adp-session-token".to_owned(), self.adp_session_token.clone()));
        }
        assert(credentials::pair_views(headers@) == self@.headers(adp));
        let ghost wanted = self@.headers(adp);
        for i in 0..headers.len()
            invariant
                credentials::pair_views(headers@) == wanted,
                wanted == self@.headers(adp),
                forall|j: int| 0 <= j < i ==> header_allowed(#[trigger] wanted[j].1),
        {
            if !may_be_header(headers[i].1.as_str()) {
                assert(!header_allowed(wanted[i as int].1));
                return Err(Error::Parse("failed to parse header value".to_owned()));
            }
            assert(header_allowed(wanted[i as int].1));
        }
        Ok(headers)
    }

    /// Takes an answer in: its cookies become the session's, and its body is
    /// handed on unless the answer is an error.
    pub fn receive(&mut self, reply: Reply) -> (r: Result<String, Error>)
        ensures
            final(self)@ == old(self)@.with_cookies(credentials::pair_views(reply.cookies@)),
            match (r, accepted(reply.status, reply.final_url@, reply.body)) {
                (Ok(body), Ok(view)) => body@ == view,
                (Err(error), Err(view)) => error@ == view,
                _ => false,
            },
    {
        let ghost start = self@;
        let ghost all = credentials::pair_views(reply.cookies@);
        for i in 0..reply.cookies.len()
            invariant
                all == credentials::pair_views(reply.cookies@),
                self@ == start.with_cookies(all.take(i as int)),
        {
            let name = reply.cookies[i].0.as_str();
            proof {
                assert(all.take(i + 1).drop_last() == all.take(i as int));
            }
            self.credentials.set(name, reply.cookies[i].1.clone());
            if text::same(name, "session-id") {
                self.session_id = reply.cookies[i].1.clone();
            }
        }
        assert(all.take(reply.cookies@.len() as int) == all);
        let body = match reply.body {
            Ok(body) => body,
            Err(message) => {
                return Err(Error::Http(message));
            },
        };
        if text::text_contains(reply.final_url.as_str(), "signin") {
            return Err(Error::AuthExpired);
        }
        if reply.status >= 400 {
            return Err(
                Error::Amazon {
                    status: reply.status,
                    message: text::take_chars(body.as_str(), 200),
                },
            );
        }
        Ok(body)
    }

    /// The request for a page of the library: the first, or the one that a
    /// pagination token names.
    pub fn library_page(&self, token: Option<&str>) -> (r: Call)
        ensures
            r@ == self@.library_call(
                match token {
                    Some(token) => Some(token@),
                    None => None,
                },
            ),
    {
        let url = self.base.clone().concat(
            "/kindle-library/search?query=&libraryType=BOOKS&sortType=recency&querySize=50",
        );
        match token {
            Some(token) => Call::get(
                url.concat("&paginationToken=").concat(encoding::urlencode(token).as_str()),
                false,
            ),
            None => Call::get(url, false),
        }
    }

    /// Starts to list the library: the first page, and with `fetch_all` every
    /// page that follows.
    pub fn library(&self, fetch_all: bool) -> (r: (LibraryRun, Call))
        ensures
            r.0.fetch_all == fetch_all,
            models::book_views(r.0.books@) == Seq::<BookView>::empty(),
            r.1@ == self@.library_call(None),
    {
        let run = LibraryRun { fetch_all, books: Vec::new() };
        assert(models::book_views(run.books@) == Seq::<BookView>::empty());
        (run, self.library_page(None))
    }

    /// The request that registers the device, if there is a token to register
    /// it with.
    pub fn register_request(&self) -> (r: Result<Call, Error>)
        ensures
            match r {
                Ok(call) => self@.credentials.device_token.len() > 0 && call@ == self@.register_call(),
                Err(error) => self@.credentials.device_token.len() == 0 && error@
                    == ErrorView::Parse("device token not set"@),
            },
    {
        if !self.credentials.has_device_token() {
            return Err(Error::Parse("device token not set".to_owned()));
        }
        let token = encoding::urlencode(self.credentials.device_token());
        Ok(
            Call::get(
                self.base.clone().concat(
                    "/service/web/register/getDeviceToken?serialNumber=",
                ).concat(token.as_str()).concat("&deviceType=").concat(token.as_str()),
                false,
            ),
        )
    }

    /// Takes in the answer to a registration; `info` is what it says, or why
    /// it could not be read.
    pub fn register_device(&mut self, info: Result<DeviceInfo, String>) -> (r: Result<DeviceInfo, Error>)
        ensures
            match info {
                Ok(device) => if device.device_session_token@.len() > 0 {
                    &&& r == Ok::<DeviceInfo, Error>(device)
                    &&& final(self)@ == (AmazonView {
                        adp_session_token: device.device_session_token@,
                        ..old(self)@
                    })
                } else {
                    &&& final(self)@ == old(self)@
                    &&& r matches Err(error)
                    &&& error@ == ErrorView::Parse("device token response had no session token"@)
                },
                Err(detail) => {
                    &&& final(self)@ == old(self)@
                    &&& r matches Err(error)
                    &&& error@ == ErrorView::Parse("device token response: "@ + detail@)
                },
            },
    {
        match info {
            Ok(device) => {
                if device.device_session_token.as_str().is_empty() {
                    return Err(
                        Error::Parse("device token response had no session token".to_owned()),
                    );
                }
                self.adp_session_token = device.device_session_token.clone();
                Ok(device)
            },
            Err(detail) => Err(unreadable("device token response: ", detail.as_str())),
        }
    }

    /// The next request that opening a book needs. An unregistered device is
    /// registered first.
    pub fn start_reading(&self, asin: &str) -> (r: Result<ReaderRequest, Error>)
        ensures
            match r {
                Ok(ReaderRequest::Ask(call)) => self@.registered() && call@ == self@.open_call(asin@),
                Ok(ReaderRequest::Register(call)) => {
                    &&& !self@.registered()
                    &&& self@.credentials.device_token.len() > 0
                    &&& call@ == self@.register_call()
                },
                Err(error) => {
                    &&& !self@.registered()
                    &&& self@.credentials.device_token.len() == 0
                    &&& error@ == ErrorView::Parse("device token not set"@)
                },
            },
    {
        if self.adp_session_token.as_str().is_empty() {
            return match self.register_request() {
                Ok(call) => Ok(ReaderRequest::Register(call)),
                Err(error) => Err(error),
            };
        }
        Ok(
            ReaderRequest::Ask(
                Call::get(
                    self.base.clone().concat("/service/mobile/reader/startReading?asin=").concat(
                        encoding::urlencode(asin).as_str(),
                    ).concat("&clientVersion=20000100"),
                    true,
                ),
            ),
        )
    }

    /// The next request that copying a passage needs. An unregistered device
    /// is registered first.
    pub fn copy_text(&self, asin: &str, guid: &str, revision: &str, start: i64, end: i64) -> (r: Result<
        ReaderRequest,
        Error,
    >)
        ensures
            match r {
                Ok(ReaderRequest::Ask(call)) => {
                    &&& self@.registered()
                    &&& call@ == self@.copy_call(copy_body(asin@, guid@, revision@, start, end))
                    &&& json::reads_as(
                        call@.body->0,
                        copy_body(asin@, guid@, revision@, start, end),
                    )
                },
                Ok(ReaderRequest::Register(call)) => {
                    &&& !self@.registered()
                    &&& self@.credentials.device_token.len() > 0
                    &&& call@ == self@.register_call()
                },
                Err(error) => {
                    &&& !self@.registered()
                    &&& self@.credentials.device_token.len() == 0
                    &&& error@ == ErrorView::Parse("device token not set"@)
                },
            },
    {
        if self.adp_session_token.as_str().is_empty() {
            return match self.register_request() {
                Ok(call) => Ok(ReaderRequest::Register(call)),
                Err(error) => Err(error),
            };
        }
        let mut body = json::json_object();
        json::json_insert(&mut body, "asin", json::json_string(asin));
        json::json_insert(&mut body, "startPosition", json::json_int(start));
        json::json_insert(&mut body, "endPosition", json::json_int(end));
        json::json_insert(&mut body, "guid", json::json_string(guid));
        json::json_insert(&mut body, "revision", json::json_string(revision));
        json::json_insert(&mut body, "clientVersion", json::json_string("20000100"));
        proof {
            reveal_with_fuel(JsonView::plain, 3);
        }
        Ok(
            ReaderRequest::Ask(
                Call {
                    url: self.base.clone().concat("/service/mobile/reader/copyText"),
                    adp: true,
                    body: Some(json::json_line(&body)),
                },
            ),
        )
    }

    /// The request for a book's annotations in one edition.
    pub fn fetch_annotations(&self, asin: &str, guid: &str) -> (r: Call)
        ensures
            r@ == self@.annotations_call(asin@, guid@),
    {
        let url = self.base.clone().concat("/service/mobile/reader/getAnnotations?asin=").concat(
            encoding::urlencode(asin).as_str(),
        ).concat("&guid=").concat(encoding::urlencode(guid).as_str()).concat(
            "&clientVersion=20000100",
        );
        Call::get(url, true)
    }

    /// Starts to list the annotations of a book that has been opened.
    pub fn annotations(&self, asin: &str, start: &StartReading) -> (r: AnnotationsStep)
        ensures
            match r {
                AnnotationsStep::Done(annotations) => {
                    &&& edition_of(*start).len() == 0
                    &&& annotations.highlights@ == models::book_highlights(asin@, Seq::empty())
                    &&& annotations.guid@ == edition_of(*start)
                    &&& annotations.revision@ == revision_of(*start)
                },
                AnnotationsStep::Fetch { run, call } => {
                    &&& edition_of(*start).len() > 0
                    &&& run.asin@ == asin@
                    &&& run.guid@ == edition_of(*start)
                    &&& run.revision@ == revision_of(*start)
                    &&& !run.repeated
                    &&& call@ == self@.annotations_call(asin@, edition_of(*start))
                },
            },
    {
        let yj = text::trim(start.yj_format_version.as_str());
        let guid = if !yj.as_str().is_empty() {
            yj
        } else {
            text::trim(start.format_version.as_str())
        };
        let revision = text::trim(start.content_version.as_str());
        if guid.as_str().is_empty() {
            let items: Vec<models::Highlight> = Vec::new();
            assert(models::highlight_views(items@) == Seq::<models::HighlightView>::empty());
            return AnnotationsStep::Done(
                Annotations {
                    highlights: Highlights {
                        asin: asin.to_owned(),
                        count: 0,
                        limited: false,
                        items,
                    },
                    guid,
                    revision,
                },
            );
        }
        let call = self.fetch_annotations(asin, guid.as_str());
        AnnotationsStep::Fetch {
            run: AnnotationsRun { asin: asin.to_owned(), guid, revision, repeated: false },
            call,
        }
    }

    /// The request for an opened book's metadata, if it has any.
    pub fn metadata_request(start: &StartReading) -> (r: Option<Call>)
        ensures
            match r {
                Some(call) => start.metadata_url@.len() > 0 && call@ == CallView::get(
                    start.metadata_url@,
                    true,
                ),
                None => start.metadata_url@.len() == 0,
            },
    {
        if start.metadata_url.as_str().is_empty() {
            None
        } else {
            Some(Call::get(start.metadata_url.clone(), true))
        }
    }

    /// The JSON inside a metadata answer, which comes wrapped as a function call.
    pub fn metadata(body: &str) -> (r: Result<String, Error>)
        ensures
            match (r, unwrapped(body@)) {
                (Ok(inner), Ok(view)) => inner@ == view,
                (Err(error), Err(view)) => error@ == view,
                _ => false,
            },
    {
        let chars = text::chars_of(body);
        let open = vec!['('];
        assert(open@ == seq!['(']);
        match (text::find_from(&chars, &open, 0), find_last(&chars, ')')) {
            (Some(start), Some(end)) => {
                if end <= start {
                    Err(Error::Parse("metadata JSONP wrapper malformed".to_owned()))
                } else {
                    Ok(text::text_of(&chars, start + 1, end))
                }
            },
            _ => Err(Error::Parse("metadata JSONP wrapper missing".to_owned())),
        }
    }

    /// A book's metadata, or why it could not be read.
    pub fn read_metadata(meta: Result<BookMetadata, String>) -> (r: Result<BookMetadata, Error>)
        ensures
            match meta {
                Ok(meta) => r == Ok::<BookMetadata, Error>(meta),
                Err(detail) => r matches Err(error) && error@ == ErrorView::Parse(
                    "metadata JSONP body: "@ + detail@,
                ),
            },
    {
        match meta {
            Ok(meta) => Ok(meta),
            Err(detail) => Err(unreadable("metadata JSONP body: ", detail.as_str())),
        }
    }

    /// Where an opened book was last left.
    pub fn progress(start: &StartReading) -> (r: Progress)
        ensures
            r.position == Some(start.last_page_read_data.position),
            r.device_name == Some(start.last_page_read_data.device_name),
            r.sync_time == Some(start.last_page_read_data.sync_time),
    {
        Progress {
            position: Some(start.last_page_read_data.position),
            device_name: Some(start.last_page_read_data.device_name.clone()),
            sync_time: Some(start.last_page_read_data.sync_time),
        }
    }

    /// How far an opened book has been read, as `ratio_read` has it.
    pub fn percentage_read(start: &StartReading, meta: &BookMetadata) -> (r: Option<(i128, i128)>)
        ensures
            match (r, ratio_read(start.last_page_read_data.position, *meta)) {
                (Some(ratio), Some((part, whole))) => ratio.0 == part && ratio.1 == whole,
                (None, None) => true,
                _ => false,
            },
    {
        let position: i64 = start.last_page_read_data.position;
        if meta.end_position > 0 {
            let from_start: i128 = if position > 0 {
                position as i128
            } else {
                0
            };
            Some((meta.start_position as i128 + from_start, meta.end_position as i128))
        } else {
            None
        }
    }

    /// The highlights alone.
    pub fn highlights(annotations: Annotations) -> (r: Highlights)
        ensures
            r == annotations.highlights,
    {
        annotations.highlights
    }
}

/// Every request carries the cookies, and the session's identity if it has
/// one. With a registered device, the requests for books carry its token too.
pub proof fn lemma_what_requests_carry(session: AmazonView, call: CallView)
    ensures
        session.headers(call.adp).contains(
            ("cookie"@, credentials::header_of(session.credentials.cookies)),
        ),
        session.session_id.len() > 0 ==> session.headers(call.adp).contains(
            ("x-amzn-sessionid"@, session.session_id),
        ),
        call.adp && session.registered() ==> session.headers(call.adp).contains(
            ("x-adp-session-token"@, session.adp_session_token),
        ),
        forall|asin: Seq<char>| #[trigger] session.open_call(asin).adp,
        forall|asin: Seq<char>, guid: Seq<char>| #[trigger] session.annotations_call(asin, guid).adp,
        forall|body: JsonView| #[trigger] session.copy_call(body).adp,
{
    let headers = session.headers(call.adp);
    assert(headers[0] == session.common_headers()[0]);
    if session.session_id.len() > 0 {
        assert(headers[3] == session.session_headers()[0]);
    }
    if call.adp && session.registered() {
        assert(headers[headers.len() - 1] == session.device_headers(call.adp)[0]);
    }
}

/// Answers keep a session complete and its device registered, whatever cookies
/// they set: no later request registers it again.
pub proof fn lemma_answers_keep_complete(session: AmazonView, cookies: PairsView)
    requires
        session.credentials.complete(),
    ensures
        session.with_cookies(cookies).credentials.complete(),
        session.with_cookies(cookies).credentials.device_token == session.credentials.device_token,
        session.with_cookies(cookies).adp_session_token == session.adp_session_token,
        session.with_cookies(cookies).registered() == session.registered(),
        session.with_cookies(cookies).base == session.base,
    decreases cookies.len(),
{
    if cookies.len() > 0 {
        lemma_answers_keep_complete(session, cookies.drop_last());
        credentials::lemma_set_keeps_complete(
            session.with_cookies(cookies.drop_last()).credentials,
            cookies.last().0,
            cookies.last().1,
        );
    }
}

/// The session's identity is that of its `session-id` cookie, and stays so
/// through every answer.
pub proof fn lemma_session_id_follows_cookie(session: AmazonView, cookies: PairsView)
    requires
        credentials::value_of(session.credentials.cookies, "session-id"@) == Some(session.session_id),
    ensures
        credentials::value_of(
            session.with_cookies(cookies).credentials.cookies,
            "session-id"@,
        ) == Some(session.with_cookies(cookies).session_id),
    decreases cookies.len(),
{
    if cookies.len() > 0 {
        lemma_session_id_follows_cookie(session, cookies.drop_last());
        credentials::lemma_set_then_get(
            session.with_cookies(cookies.drop_last()).credentials,
            cookies.last().0,
            cookies.last().1,
            "session-id"@,
        );
    }
}

/// The books listed so far.
pub struct LibraryRun {
    pub fetch_all: bool,
    pub books: Vec<Book>,
}

/// What is next in listing the library.
pub enum LibraryStep {
    Fetch { run: LibraryRun, call: Call },
    Done(Vec<Book>),
}

/// The books that the items of a page list.
pub open spec fn books_of(items: Seq<LibraryItem>) -> Seq<BookView> {
    Seq::new(items.len(), |i: int| models::book_of(items[i]))
}

/// A page is followed by another: all are wanted, and this one was not empty
/// and names a next.
pub open spec fn has_next_page(fetch_all: bool, page: LibraryPage) -> bool {
    &&& fetch_all
    &&& page.pagination_token matches Some(token)
    &&& token@.len() > 0
    &&& page.items_list@.len() > 0
}

/// The books that pages list, one page after the other.
pub open spec fn listed_books(pages: Seq<LibraryPage>) -> Seq<BookView>
    decreases pages.len(),
{
    if pages.len() == 0 {
        Seq::empty()
    } else {
        listed_books(pages.drop_last()) + books_of(pages.last().items_list@)
    }
}

/// How many books the first `count` pages list.
pub open spec fn listed_before(pages: Seq<LibraryPage>, count: int) -> int {
    listed_books(pages.take(count)).len() as int
}

/// Taking in the pages of a library one after the other, as `LibraryRun::page`
/// does, lists every book of every page, in the order in which Amazon gives
/// them.
pub proof fn lemma_every_page_is_listed(pages: Seq<LibraryPage>, page: int, item: int)
    requires
        0 <= page < pages.len(),
        0 <= item < pages[page].items_list@.len(),
    ensures
        0 <= listed_before(pages, page) + item < listed_books(pages).len(),
        listed_books(pages)[listed_before(pages, page) + item] == models::book_of(
            pages[page].items_list@[item],
        ),
    decreases pages.len(),
{
    let less = pages.drop_last();
    if page < less.len() {
        lemma_every_page_is_listed(less, page, item);
        assert(less.take(page) == pages.take(page));
    } else {
        assert(pages.take(page) == less);
        assert(books_of(pages.last().items_list@)[item] == models::book_of(
            pages[page].items_list@[item],
        ));
    }
}

/// A run that has listed some pages, and takes in the next, has listed them
/// all.
pub proof fn lemma_listing_goes_on(pages: Seq<LibraryPage>, next: LibraryPage)
    ensures
        listed_books(pages.push(next)) == listed_books(pages) + books_of(next.items_list@),
{
    assert(pages.push(next).drop_last() == pages);
}

impl LibraryRun {
    /// Takes a page in; `page` is what the answer says, or why it could not be
    /// read.
    pub fn page(self, amazon: &Amazon, page: Result<LibraryPage, String>) -> (r: Result<
        LibraryStep,
        Error,
    >)
        ensures
            match page {
                Ok(page) => {
                    let all = models::book_views(self.books@) + books_of(page.items_list@);
                    match r {
                        Ok(LibraryStep::Fetch { run, call }) => {
                            &&& has_next_page(self.fetch_all, page)
                            &&& run.fetch_all == self.fetch_all
                            &&& models::book_views(run.books@) == all
                            &&& call@ == amazon@.library_call(Some(page.pagination_token->0@))
                        },
                        Ok(LibraryStep::Done(books)) => {
                            &&& !has_next_page(self.fetch_all, page)
                            &&& models::book_views(books@) == all
                        },
                        Err(_) => false,
                    }
                },
                Err(detail) => r matches Err(error) && error@ == ErrorView::Parse(
                    "library response was not JSON: "@ + detail@,
                ),
            },
    {
        let page = match page {
            Ok(page) => page,
            Err(detail) => {
                return Err(unreadable("library response was not JSON: ", detail.as_str()));
            },
        };
        let ghost whole = page;
        let fetch_all = self.fetch_all;
        let mut books = self.books;
        let ghost before = models::book_views(books@);
        let LibraryPage { items_list, pagination_token } = page;
        let ghost items = items_list@;
        let listed = items_list.len();
        assert(before + books_of(items.take(0)) == before);
        for item in it: items_list
            invariant
                it.seq() == items,
                models::book_views(books@) == before + books_of(items.take(it.index() as int)),
        {
            let ghost i = it.index() as int;
            let ghost so_far = models::book_views(books@);
            assert(item == items[i]);
            let book = item.into_book();
            let ghost view = book.deep_view();
            books.push(book);
            assert(models::book_views(books@) == so_far.push(view));
            assert(models::book_views(books@) == before + books_of(items.take(i + 1)));
        }
        assert(items.take(items.len() as int) == items);
        match pagination_token {
            Some(token) => {
                if fetch_all && !token.as_str().is_empty() && listed > 0 {
                    let call = amazon.library_page(Some(token.as_str()));
                    return Ok(LibraryStep::Fetch { run: LibraryRun { fetch_all, books }, call });
                }
                Ok(LibraryStep::Done(books))
            },
            None => Ok(LibraryStep::Done(books)),
        }
    }
}

/// The edition of an opened book: its newer format if it has one.
pub open spec fn edition_of(start: StartReading) -> Seq<char> {
    let yj = text::trimmed(start.yj_format_version@);
    if yj.len() > 0 {
        yj
    } else {
        text::trimmed(start.format_version@)
    }
}

pub open spec fn revision_of(start: StartReading) -> Seq<char> {
    text::trimmed(start.content_version@)
}

/// A book whose annotations are being listed.
pub struct AnnotationsRun {
    pub asin: String,
    pub guid: String,
    pub revision: String,
    pub repeated: bool,
}

/// What is next in listing a book's annotations.
pub enum AnnotationsStep {
    Fetch { run: AnnotationsRun, call: Call },
    Done(Annotations),
}

/// Amazon failed in the way that asking with the guid repeated gets around.
pub open spec fn wants_repeat(error: ErrorView) -> bool {
    error matches ErrorView::Amazon { status, .. } && status == 500
}

impl AnnotationsRun {
    /// Takes the answer in: the highlights, or the error. A server error is
    /// met once, by asking again with the guid given twice.
    pub fn answer(self, amazon: &Amazon, answer: Result<Highlights, Error>) -> (r: Result<
        AnnotationsStep,
        Error,
    >)
        ensures
            match answer {
                Ok(highlights) => {
                    &&& r matches Ok(AnnotationsStep::Done(annotations))
                    &&& annotations.highlights == highlights
                    &&& annotations.guid == self.guid
                    &&& annotations.revision == self.revision
                },
                Err(error) => if wants_repeat(error@) && !self.repeated {
                    &&& r matches Ok(AnnotationsStep::Fetch { run, call })
                    &&& run == (AnnotationsRun { repeated: true, ..self })
                    &&& call@ == amazon@.annotations_call(
                        self.asin@,
                        self.guid@ + ","@ + self.guid@,
                    )
                } else {
                    r == Err::<AnnotationsStep, Error>(error)
                },
            },
    {
        match answer {
            Ok(highlights) => Ok(
                AnnotationsStep::Done(
                    Annotations { highlights, guid: self.guid, revision: self.revision },
                ),
            ),
            Err(error) => {
                let server_error = match &error {
                    Error::Amazon { status, .. } => *status == 500,
                    _ => false,
                };
                if server_error && !self.repeated {
                    let guids = self.guid.clone().concat(",").concat(self.guid.as_str());
                    let call = amazon.fetch_annotations(self.asin.as_str(), guids.as_str());
                    return Ok(
                        AnnotationsStep::Fetch {
                            run: AnnotationsRun {
                                asin: self.asin,
                                guid: self.guid,
                                revision: self.revision,
                                repeated: true,
                            },
                            call,
                        },
                    );
                }
                Err(error)
            },
        }
    }
}

/// The highlights in a list of annotations, or why it could not be read.
pub fn listed_annotations(asin: &str, annotations: Result<Vec<Annotation>, String>) -> (r: Result<
    Highlights,
    Error,
>)
    ensures
        match annotations {
            Ok(annotations) => {
                &&& r matches Ok(listed)
                &&& listed@ == models::book_highlights(
                    asin@,
                    highlights::highlights_of(annotations@),
                )
            },
            Err(detail) => r matches Err(error) && error@ == ErrorView::Parse(
                "annotations response: "@ + detail@,
            ),
        },
{
    match annotations {
        Ok(annotations) => Ok(highlights::parse(asin, &annotations)),
        Err(detail) => Err(unreadable("annotations response: ", detail.as_str())),
    }
}

/// What an opened book says, or why that could not be read.
pub fn opened_book(start: Result<StartReading, String>) -> (r: Result<StartReading, Error>)
    ensures
        match start {
            Ok(start) => r == Ok::<StartReading, Error>(start),
            Err(detail) => r matches Err(error) && error@ == ErrorView::Parse(
                "startReading response: "@ + detail@,
            ),
        },
{
    match start {
        Ok(start) => Ok(start),
        Err(detail) => Err(unreadable("startReading response: ", detail.as_str())),
    }
}

/// Where `c` last stands in `s`.
pub open spec fn last_at(s: Seq<char>, c: char) -> Option<int>
    decreases s.len(),
{
    if s.len() == 0 {
        None
    } else if s.last() == c {
        Some(s.len() - 1)
    } else {
        last_at(s.drop_last(), c)
    }
}

/// What stands between the first opening and the last closing parenthesis.
pub open spec fn unwrapped(body: Seq<char>) -> Result<Seq<char>, ErrorView> {
    match (text::found_from(body, seq!['('], 0), last_at(body, ')')) {
        (Some(start), Some(end)) => if end <= start {
            Err(ErrorView::Parse("metadata JSONP wrapper malformed"@))
        } else {
            Ok(body.subrange(start + 1, end))
        },
        _ => Err(ErrorView::Parse("metadata JSONP wrapper missing"@)),
    }
}

fn find_last(chars: &Vec<char>, c: char) -> (r: Option<usize>)
    ensures
        match (r, last_at(chars@, c)) {
            (Some(i), Some(at)) => i == at && i < chars@.len(),
            (None, None) => true,
            _ => false,
        },
{
    let mut left: usize = chars.len();
    assert(chars@.take(left as int) == chars@);
    while left > 0
        invariant
            left <= chars@.len(),
            last_at(chars@, c) == last_at(chars@.take(left as int), c),
        decreases left,
    {
        assert(chars@.take(left as int).drop_last() == chars@.take(left - 1));
        if chars[left - 1] == c {
            return Some(left - 1);
        }
        left = left - 1;
    }
    None
}

/// How far a book has been read, as a part and a whole: the position counted
/// from where the book starts, out of where it ends. Nothing can be said of a
/// book without an end.
pub open spec fn ratio_read(position: i64, meta: BookMetadata) -> Option<(int, int)> {
    if meta.end_position > 0 {
        let from_start = if position > 0 {
            position as int
        } else {
            0
        };
        Some((meta.start_position + from_start, meta.end_position as int))
    } else {
        None
    }
}

/// The answer to a request for the full text of a passage.
pub struct CopyTextResponse {
    pub status: Option<String>,
    pub text: String,
}

/// The passage that was copied. The service says so with the status "Ok", and
/// a blank passage counts as none.
pub open spec fn copied_text(response: CopyTextResponse) -> Result<Seq<char>, ErrorView> {
    if (response.status matches Some(status) && status@ == "Ok"@) && text::trimmed(
        response.text@,
    ).len() > 0 {
        Ok(response.text@)
    } else {
        Err(
            ErrorView::Parse(
                "copyText status: "@ + match response.status {
                    Some(status) => status@,
                    None => "missing"@,
                },
            ),
        )
    }
}

pub fn copied(response: Result<CopyTextResponse, String>) -> (r: Result<String, Error>)
    ensures
        match response {
            Ok(response) => match (r, copied_text(response)) {
                (Ok(passage), Ok(view)) => passage@ == view,
                (Err(error), Err(view)) => error@ == view,
                _ => false,
            },
            Err(detail) => r matches Err(error) && error@ == ErrorView::Parse(
                "copyText response: "@ + detail@,
            ),
        },
        response matches Ok(answer) ==> if answer.status is Some && answer.status->0@ == "Ok"@
            && text::trimmed(answer.text@).len() > 0 {
            r is Ok && r->Ok_0@ == answer.text@
        } else {
            r is Err && r->Err_0@ == ErrorView::Parse(
                "copyText status: "@ + match answer.status {
                    Some(status) => status@,
                    None => "missing"@,
                },
            )
        },
{
    let response = match response {
        Ok(response) => response,
        Err(detail) => {
            return Err(unreadable("copyText response: ", detail.as_str()));
        },
    };
    let ok = match &response.status {
        Some(status) => text::same(status.as_str(), "Ok"),
        None => false,
    };
    if ok && !text::trim(response.text.as_str()).as_str().is_empty() {
        return Ok(response.text);
    }
    let status = match response.status {
        Some(status) => status,
        None => "missing".to_owned(),
    };
    Err(unreadable("copyText status: ", status.as_str()))
}

/// Each region has the ending of its store's address; what is no region is an
/// ending itself.
pub proof fn lemma_region_endings(region: Seq<char>)
    ensures
        text::lowered(region) == "us"@ ==> suffix_of(region) == "com"@,
        text::lowered(region) == "uk"@ ==> suffix_of(region) == "co.uk"@,
        text::lowered(region) == "de"@ ==> suffix_of(region) == "de"@,
        text::lowered(region) == "fr"@ ==> suffix_of(region) == "fr"@,
        text::lowered(region) == "it"@ ==> suffix_of(region) == "it"@,
        text::lowered(region) == "es"@ ==> suffix_of(region) == "es"@,
        text::lowered(region) == "jp"@ ==> suffix_of(region) == "co.jp"@,
        text::lowered(region) == "ca"@ ==> suffix_of(region) == "ca"@,
        text::lowered(region) == "au"@ ==> suffix_of(region) == "com.au"@,
        text::lowered(region) == "in"@ ==> suffix_of(region) == "in"@,
        text::lowered(region) == "br"@ ==> suffix_of(region) == "com.br"@,
        text::lowered(region) == "mx"@ ==> suffix_of(region) == "com.mx"@,
        text::lowered(region) == "nl"@ ==> suffix_of(region) == "nl"@,
        ({
            let region = text::lowered(region);
            &&& region != "us"@
            &&& region != "uk"@
            &&& region != "de"@
            &&& region != "fr"@
            &&& region != "it"@
            &&& region != "es"@
            &&& region != "jp"@
            &&& region != "ca"@
            &&& region != "au"@
            &&& region != "in"@
            &&& region != "br"@
            &&& region != "mx"@
            &&& region != "nl"@
        }) ==> suffix_of(region) == text::lowered(region),
{
    reveal_strlit("us");
    reveal_strlit("uk");
    reveal_strlit("de");
    reveal_strlit("fr");
    reveal_strlit("it");
    reveal_strlit("es");
    reveal_strlit("jp");
    reveal_strlit("ca");
    reveal_strlit("au");
    reveal_strlit("in");
    reveal_strlit("br");
    reveal_strlit("mx");
    reveal_strlit("nl");
    assert("us"@[0] == 'u' && "us"@[1] == 's');
    assert("uk"@[0] == 'u' && "uk"@[1] == 'k');
    assert("de"@[0] == 'd' && "de"@[1] == 'e');
    assert("fr"@[0] == 'f' && "fr"@[1] == 'r');
    assert("it"@[0] == 'i' && "it"@[1] == 't');
    assert("es"@[0] == 'e' && "es"@[1] == 's');
    assert("jp"@[0] == 'j' && "jp"@[1] == 'p');
    assert("ca"@[0] == 'c' && "ca"@[1] == 'a');
    assert("au"@[0] == 'a' && "au"@[1] == 'u');
    assert("in"@[0] == 'i' && "in"@[1] == 'n');
    assert("br"@[0] == 'b' && "br"@[1] == 'r');
    assert("mx"@[0] == 'm' && "mx"@[1] == 'x');
    assert("nl"@[0] == 'n' && "nl"@[1] == 'l');
    reveal_with_fuel(credentials::named_from, 14);
}

/// A passage that the service copied is handed on in full, as it came; any
/// other answer is an error that names the status.
pub proof fn lemma_passage_is_copied_in_full(response: CopyTextResponse)
    ensures
        response.status is Some && response.status->0@ == "Ok"@ && text::trimmed(
            response.text@,
        ).len() > 0 ==> copied_text(response) == Ok::<Seq<char>, ErrorView>(response.text@),
        response.status is None ==> copied_text(response) == Err::<Seq<char>, ErrorView>(
            ErrorView::Parse("copyText status: "@ + "missing"@),
        ),
        response.status is Some && (response.status->0@ != "Ok"@ || text::trimmed(
            response.text@,
        ).len() == 0) ==> copied_text(response) == Err::<Seq<char>, ErrorView>(
            ErrorView::Parse("copyText status: "@ + response.status->0@),
        ),
{
}

/// What a person is told of an error holds all that is known of it.
pub proof fn lemma_errors_are_told(status: u16, message: Seq<char>)
    ensures
        ErrorView::AuthExpired.text() == "Amazon session expired or cookies incomplete"@,
        ErrorView::Http(message).text() == "network error: "@ + message,
        (ErrorView::Amazon { status, message }).text() == "Amazon returned "@ + text::int_text(
            status as int,
        ) + ": "@ + message,
        ErrorView::Parse(message).text() == "could not parse Amazon response: "@ + message,
{
}

/// An answer whose body was read comes to that body, whole, unless it came from
/// a sign-in page or has an error's status. Of an error's body the first 200
/// characters are kept.
pub proof fn lemma_what_answers_come_to(status: u16, url: Seq<char>, body: String, lost: String)
    ensures
        accepted(status, url, Err(lost)) == Err::<Seq<char>, ErrorView>(ErrorView::Http(lost@)),
        (exists|i: int|
            0 <= i && i + "signin"@.len() <= url.len() && #[trigger] url.subrange(
                i,
                i + "signin"@.len(),
            ) == "signin"@) ==> accepted(status, url, Ok(body)) == Err::<Seq<char>, ErrorView>(
            ErrorView::AuthExpired,
        ),
        (forall|i: int|
            0 <= i && i + "signin"@.len() <= url.len() ==> #[trigger] url.subrange(
                i,
                i + "signin"@.len(),
            ) != "signin"@) ==> {
            &&& status < 400 ==> accepted(status, url, Ok(body)) == Ok::<Seq<char>, ErrorView>(
                body@,
            )
            &&& status >= 400 && body@.len() <= 200 ==> accepted(status, url, Ok(body)) == Err::<
                Seq<char>,
                ErrorView,
            >(ErrorView::Amazon { status, message: body@ })
            &&& status >= 400 && body@.len() > 200 ==> accepted(status, url, Ok(body)) == Err::<
                Seq<char>,
                ErrorView,
            >(ErrorView::Amazon { status, message: body@.take(200) })
        },
{
    text::lemma_found_is_first(url, "signin"@, 0);
    text::lemma_first_chars(body@, 200);
    assert(body@.take(body@.len() as int) == body@);
}

/// A text may stand in a header if it has no control character but the tab.
pub proof fn lemma_header_texts(value: Seq<char>)
    ensures
        header_allowed(value) <==> forall|i: int|
            0 <= i < value.len() ==> (#[trigger] value[i]) == '\t' || (value[i] >= ' ' && value[i]
                != '\u{7f}'),
{
    if header_allowed(value) {
        assert forall|i: int| 0 <= i < value.len() implies (#[trigger] value[i]) == '\t' || (
        value[i] >= ' ' && value[i] != '\u{7f}') by {
            assert(header_char(value[i]));
        }
    }
}

/// The headers of a request, one by one: three that are always there, then the
/// session's identity and the device's token, each only where there is one.
pub proof fn lemma_headers_in_order(session: AmazonView, adp: bool)
    ensures
        ({
            let headers = session.headers(adp);
            let identity: int = if session.session_id.len() > 0 {
                1
            } else {
                0
            };
            let device: int = if adp && session.adp_session_token.len() > 0 {
                1
            } else {
                0
            };
            &&& headers.len() == 3 + identity + device
            &&& headers[0] == ("cookie"@, credentials::header_of(session.credentials.cookies))
            &&& headers[1] == ("accept-language"@, "en-US,en;q=0.9"@)
            &&& headers[2] == ("referer"@, session.base + "/kindle-library"@)
            &&& identity == 1 ==> headers[3] == ("x-amzn-sessionid"@, session.session_id)
            &&& device == 1 ==> headers[3 + identity] == (
                "x-adp-session-token"@,
                session.adp_session_token,
            )
            &&& session.registered() <==> session.adp_session_token.len() != 0
        }),
{
}

/// A session begins at its region's address, with its own cookies and no
/// registered device.
pub proof fn lemma_session_begins(region: Seq<char>, credentials: CredentialsView, i: int)
    ensures
        ({
            let session = AmazonView::opened(region, credentials);
            &&& session.base == "https://read.amazon."@ + suffix_of(region)
            &&& session.credentials == credentials
            &&& session.adp_session_token.len() == 0
            &&& 0 <= i < credentials.cookies.len() && credentials.cookies[i].0 == "session-id"@ && (
            forall|j: int|
                0 <= j < i ==> (#[trigger] credentials.cookies[j]).0 != "session-id"@)
                ==> session.session_id == credentials.cookies[i].1
            &&& (forall|j: int|
                0 <= j < credentials.cookies.len() ==> (#[trigger] credentials.cookies[j]).0
                    != "session-id"@) ==> session.session_id.len() == 0
        }),
{
    credentials::lemma_first_of_a_name(credentials.cookies, "session-id"@, i);
}

/// An answer's cookies are taken in one after the other. Each changes the
/// cookie of its name, and `session-id` the session's identity too; nothing
/// else of the session changes.
pub proof fn lemma_one_more_cookie(
    session: AmazonView,
    cookies: PairsView,
    name: Seq<char>,
    value: Seq<char>,
)
    ensures
        ({
            let before = session.with_cookies(cookies);
            let after = session.with_cookies(cookies.push((name, value)));
            &&& session.with_cookies(Seq::empty()) == session
            &&& after.credentials == before.credentials.set(name, value)
            &&& name == "session-id"@ ==> after.session_id == value
            &&& name != "session-id"@ ==> after.session_id == before.session_id
            &&& after.adp_session_token == before.adp_session_token
            &&& after.base == before.base
        }),
{
    assert(cookies.push((name, value)).drop_last() == cookies);
}

/// The requests of a session: where they go, whether they carry the device's
/// token, and that all but the one for a passage only ask.
pub proof fn lemma_where_requests_go(
    session: AmazonView,
    token: Seq<char>,
    asin: Seq<char>,
    guid: Seq<char>,
    body: JsonView,
)
    ensures
        session.library_call(None) == (CallView {
            url: session.base
                + "/kindle-library/search?query=&libraryType=BOOKS&sortType=recency&querySize=50"@,
            adp: false,
            body: None,
        }),
        session.library_call(Some(token)) == (CallView {
            url: session.library_call(None).url + "&paginationToken="@ + encoding::url_encoded(
                token,
            ),
            adp: false,
            body: None,
        }),
        session.register_call() == (CallView {
            url: session.base + "/service/web/register/getDeviceToken?serialNumber="@
                + encoding::url_encoded(session.credentials.device_token) + "&deviceType="@
                + encoding::url_encoded(session.credentials.device_token),
            adp: false,
            body: None,
        }),
        session.open_call(asin) == (CallView {
            url: session.base + "/service/mobile/reader/startReading?asin="@
                + encoding::url_encoded(asin) + "&clientVersion=20000100"@,
            adp: true,
            body: None,
        }),
        session.annotations_call(asin, guid) == (CallView {
            url: session.base + "/service/mobile/reader/getAnnotations?asin="@
                + encoding::url_encoded(asin) + "&guid="@ + encoding::url_encoded(guid)
                + "&clientVersion=20000100"@,
            adp: true,
            body: None,
        }),
        session.copy_call(body) == (CallView {
            url: session.base + "/service/mobile/reader/copyText"@,
            adp: true,
            body: Some(json::json_text(body)),
        }),
{
}

/// A request for a passage names the book, the edition and the two positions,
/// each under its own name, and the client's version; nothing else.
pub proof fn lemma_what_a_copy_asks(
    asin: Seq<char>,
    guid: Seq<char>,
    revision: Seq<char>,
    start: i64,
    end: i64,
)
    ensures
        copy_body(asin, guid, revision, start, end) matches JsonView::Object(members) && {
            &&& members.dom() == set![
                "asin"@,
                "startPosition"@,
                "endPosition"@,
                "guid"@,
                "revision"@,
                "clientVersion"@,
            ]
            &&& members["asin"@] == JsonView::Text(asin)
            &&& members["startPosition"@] == JsonView::Int(start as int)
            &&& members["endPosition"@] == JsonView::Int(end as int)
            &&& members["guid"@] == JsonView::Text(guid)
            &&& members["revision"@] == JsonView::Text(revision)
            &&& members["clientVersion"@] == JsonView::Text("20000100"@)
        },
{
    reveal_strlit("asin");
    reveal_strlit("startPosition");
    reveal_strlit("endPosition");
    reveal_strlit("guid");
    reveal_strlit("revision");
    reveal_strlit("clientVersion");
    assert("startPosition"@.len() == "clientVersion"@.len());
    assert("startPosition"@[0] == 's' && "clientVersion"@[0] == 'c');
    assert("asin"@[0] == 'a' && "guid"@[0] == 'g');
    assert("endPosition"@.len() == 11 && "guid"@.len() == 4 && "revision"@.len() == 8
        && "clientVersion"@.len() == 13);
    let members = copy_body(asin, guid, revision, start, end)->Object_0;
    assert(members["asin"@] == JsonView::Text(asin));
    assert(members["startPosition"@] == JsonView::Int(start as int));
    assert(members["endPosition"@] == JsonView::Int(end as int));
    assert(members["guid"@] == JsonView::Text(guid));
    assert(members["revision"@] == JsonView::Text(revision));
    assert(members.dom() =~= set![
        "asin"@,
        "startPosition"@,
        "endPosition"@,
        "guid"@,
        "revision"@,
        "clientVersion"@,
    ]);
}

/// The next page is asked for only where all are wanted, this one lists
/// something, and it names a next; and a page lists one book for each item.
pub proof fn lemma_when_a_page_follows(fetch_all: bool, page: LibraryPage, i: int)
    ensures
        has_next_page(fetch_all, page) <==> fetch_all && page.items_list@.len() != 0
            && page.pagination_token is Some && page.pagination_token->0@.len() != 0,
        books_of(page.items_list@).len() == page.items_list@.len(),
        0 <= i < page.items_list@.len() ==> books_of(page.items_list@)[i] == models::book_of(
            page.items_list@[i],
        ),
        listed_books(Seq::empty()) == Seq::<BookView>::empty(),
        listed_books(seq![page]) == books_of(page.items_list@),
{
    assert(seq![page].drop_last() == Seq::<LibraryPage>::empty());
    assert(listed_books(seq![page].drop_last()) == Seq::<BookView>::empty());
    assert(Seq::<BookView>::empty() + books_of(page.items_list@) == books_of(page.items_list@));
}

/// An opened book's edition is its newer format where that is given, and else
/// its older one; only a failure inside Amazon is met by asking again.
pub proof fn lemma_edition_of_a_book(start: StartReading, error: ErrorView)
    ensures
        text::trimmed(start.yj_format_version@).len() > 0 ==> edition_of(start) == text::trimmed(
            start.yj_format_version@,
        ),
        text::trimmed(start.yj_format_version@).len() == 0 ==> edition_of(start) == text::trimmed(
            start.format_version@,
        ),
        revision_of(start) == text::trimmed(start.content_version@),
        wants_repeat(error) <==> (exists|message: Seq<char>|
            error == (ErrorView::Amazon { status: 500, message })),
{
    if wants_repeat(error) {
        assert(error == (ErrorView::Amazon { status: 500, message: error->message }));
    }
}

proof fn lemma_last_at(s: Seq<char>, c: char)
    ensures
        match last_at(s, c) {
            Some(at) => {
                &&& 0 <= at < s.len()
                &&& s[at] == c
                &&& forall|i: int| at < i < s.len() ==> s[i] != c
            },
            None => forall|i: int| 0 <= i < s.len() ==> s[i] != c,
        },
    decreases s.len(),
{
    if s.len() > 0 && s.last() != c {
        lemma_last_at(s.drop_last(), c);
        assert forall|i: int| 0 <= i < s.len() - 1 implies s[i] == s.drop_last()[i] by {}
    }
}

/// A call's argument is all that stands between its first opening and its last
/// closing parenthesis.
pub proof fn lemma_wrapping_is_undone(name: Seq<char>, inner: Seq<char>, rest: Seq<char>)
    requires
        !name.contains('('),
        !rest.contains(')'),
    ensures
        unwrapped(name + seq!['('] + inner + seq![')'] + rest) == Ok::<Seq<char>, ErrorView>(inner),
{
    let body = name + seq!['('] + inner + seq![')'] + rest;
    let open = name.len() as int;
    let close = open + 1 + inner.len();
    text::lemma_found_char(name, '(', inner + seq![')'] + rest);
    assert(body == name + seq!['('] + (inner + seq![')'] + rest));
    lemma_last_at(body, ')');
    assert(body[close] == ')');
    let last = last_at(body, ')');
    assert(last == Some(close)) by {
        if last->0 > close {
            assert(rest[last->0 - close - 1] == ')');
        }
    }
    assert(body.subrange(open + 1, close) == inner);
}

/// Without an opening or a closing parenthesis there is no call; where none
/// closes behind the first that opens, it is malformed.
pub proof fn lemma_no_wrapping(name: Seq<char>, rest: Seq<char>)
    ensures
        !name.contains('(') || !name.contains(')') ==> unwrapped(name) == Err::<
            Seq<char>,
            ErrorView,
        >(ErrorView::Parse("metadata JSONP wrapper missing"@)),
        !name.contains('(') && name.contains(')') && !rest.contains(')') ==> unwrapped(
            name + seq!['('] + rest,
        ) == Err::<Seq<char>, ErrorView>(ErrorView::Parse("metadata JSONP wrapper malformed"@)),
{
    lemma_last_at(name, ')');
    if !name.contains('(') {
        text::lemma_found_char(name, '(', rest);
    }
    if !name.contains('(') && name.contains(')') && !rest.contains(')') {
        let body = name + seq!['('] + rest;
        let open = name.len() as int;
        lemma_last_at(body, ')');
        let k = choose|k: int| 0 <= k < name.len() && name[k] == ')';
        assert(body[k] == ')');
        let last = last_at(body, ')');
        assert(last is Some);
        if last->0 > open {
            assert(rest[last->0 - open - 1] == ')');
        }
    }
}

/// How far a book has been read is counted from its start to its end; a
/// position before the start counts as the start.
pub proof fn lemma_how_far_read(position: i64, meta: BookMetadata)
    ensures
        meta.end_position <= 0 ==> ratio_read(position, meta) is None,
        meta.end_position > 0 && position >= 0 ==> ratio_read(position, meta) == Some(
            (meta.start_position + position, meta.end_position as int),
        ),
        meta.end_position > 0 && position < 0 ==> ratio_read(position, meta) == Some(
            (meta.start_position as int, meta.end_position as int),
        ),
{
}

/// What contracts say of an error or a request is all that it holds.
pub proof fn lemma_errors_and_calls_seen_whole(message: String, status: u16, call: Call)
    ensures
        Error::AuthExpired@ == ErrorView::AuthExpired,
        Error::Http(message)@ == ErrorView::Http(message@),
        (Error::Amazon { status, message })@ == (ErrorView::Amazon { status, message: message@ }),
        Error::Parse(message)@ == ErrorView::Parse(message@),
        call@.url == call.url@,
        call@.adp == call.adp,
        call.body is None ==> call@.body is None,
        call.body matches Some(body) ==> call@.body == Some(body@),
{
}

} // verus!
