//! What clients ask for, and how each request is met.

use vstd::prelude::*;

use crate::json;
use crate::json::JsonView;
use crate::state;
use crate::state::{App, AppView};
use crate::text;
use crate::wire;

verus! {

/// A request, with whatever its command takes.
pub struct Request {
    pub v: u8,
    pub id: i64,
    pub command: String,
    pub cookies: Option<String>,
    pub device_token: Option<String>,
    pub region: Option<String>,
    pub asin: Option<String>,
    pub minutes: Option<u64>,
    pub force: Option<bool>,
    pub enrich: Option<bool>,
    pub start: Option<i64>,
    pub end: Option<i64>,
    pub limit: Option<usize>,
    pub per_book: Option<usize>,
}

/// The version that a request without one is taken to have.
pub fn default_version() -> (r: u8)
    ensures
        r == 1,
{
    1
}

/// What is done to the session before anything else.
pub enum Change {
    Nothing,
    SignIn { cookies: String, device_token: String, region: String },
    DeviceToken(String),
    Clear,
}

pub enum ChangeView {
    Nothing,
    SignIn { cookies: Seq<char>, device_token: Seq<char>, region: Seq<char> },
    DeviceToken(Seq<char>),
    Clear,
}

impl View for Change {
    type V = ChangeView;

    open spec fn view(&self) -> ChangeView {
        match self {
            Change::Nothing => ChangeView::Nothing,
            Change::SignIn { cookies, device_token, region } => ChangeView::SignIn {
                cookies: cookies@,
                device_token: device_token@,
                region: region@,
            },
            Change::DeviceToken(token) => ChangeView::DeviceToken(token@),
            Change::Clear => ChangeView::Clear,
        }
    }
}

/// What the request is answered with.
pub enum Show {
    State,
    Highlights { asin: String, force: bool, enrich: bool },
    Recent { limit: usize, per_book: usize, force: bool },
    Text { asin: String, start: i64, end: i64 },
}

pub enum ShowView {
    State,
    Highlights { asin: Seq<char>, force: bool, enrich: bool },
    Recent { limit: usize, per_book: usize, force: bool },
    Text { asin: Seq<char>, start: i64, end: i64 },
}

impl View for Show {
    type V = ShowView;

    open spec fn view(&self) -> ShowView {
        match self {
            Show::State => ShowView::State,
            Show::Highlights { asin, force, enrich } => ShowView::Highlights {
                asin: asin@,
                force: *force,
                enrich: *enrich,
            },
            Show::Recent { limit, per_book, force } => ShowView::Recent {
                limit: *limit,
                per_book: *per_book,
                force: *force,
            },
            Show::Text { asin, start, end } => ShowView::Text {
                asin: asin@,
                start: *start,
                end: *end,
            },
        }
    }
}

/// The work that a request asks for, in order: the change, then the refresh,
/// then what is shown. The first that fails is what the request is answered
/// with.
pub struct Plan {
    pub id: i64,
    pub change: Change,
    pub refresh: bool,
    pub show: Show,
}

/// A request is answered at once, or takes work.
pub enum Step {
    Reply(String),
    Work(Plan),
}

/// What a request asks for.
pub enum Asked {
    Refused(Seq<char>, Seq<char>),
    Hello,
    Ping,
    Minutes(u64),
    Work { change: ChangeView, refresh: bool, show: ShowView },
}

pub open spec fn text_or(text: Option<String>, absent: Seq<char>) -> Seq<char> {
    match text {
        Some(text) => text@,
        None => absent,
    }
}

pub open spec fn flag(flag: Option<bool>) -> bool {
    flag == Some(true)
}

pub open spec fn show_state() -> Asked {
    Asked::Work { change: ChangeView::Nothing, refresh: false, show: ShowView::State }
}

pub open spec fn sign_in_with(cookies: Seq<char>, device_token: Seq<char>, region: Seq<char>) -> Asked {
    Asked::Work {
        change: ChangeView::SignIn { cookies, device_token, region },
        refresh: true,
        show: ShowView::State,
    }
}

pub open spec fn bad_request(message: Seq<char>) -> Asked {
    Asked::Refused("bad_request"@, message)
}

/// What a request asks for, by its command.
pub open spec fn asked(request: Request) -> Asked {
    let none = Seq::<char>::empty();
    let command = request.command@;
    let cookies = text_or(request.cookies, none);
    let device_token = text_or(request.device_token, none);
    let region = text_or(request.region, "us"@);
    let asin = text_or(request.asin, none);
    if request.v != 1 {
        Asked::Refused("unsupported_version"@, "protocol version must be 1"@)
    } else if command == "hello"@ {
        Asked::Hello
    } else if command == "ping"@ {
        Asked::Ping
    } else if command == "get_state"@ {
        show_state()
    } else if command == "refresh"@ {
        Asked::Work { change: ChangeView::Nothing, refresh: true, show: ShowView::State }
    } else if command == "set_credentials"@ {
        sign_in_with(cookies, device_token, region)
    } else if command == "store_cookies"@ {
        if cookies.len() == 0 {
            bad_request("cookies are required"@)
        } else {
            sign_in_with(cookies, none, region)
        }
    } else if command == "set_device_token"@ {
        if device_token.len() == 0 {
            bad_request("deviceToken is required"@)
        } else {
            Asked::Work {
                change: ChangeView::DeviceToken(device_token),
                refresh: true,
                show: ShowView::State,
            }
        }
    } else if command == "set_refresh_minutes"@ {
        Asked::Minutes(
            match request.minutes {
                Some(minutes) => minutes,
                None => 15,
            },
        )
    } else if command == "clear_credentials"@ {
        Asked::Work { change: ChangeView::Clear, refresh: false, show: ShowView::State }
    } else if command == "get_highlights"@ {
        if asin.len() == 0 {
            bad_request("asin is required"@)
        } else {
            Asked::Work {
                change: ChangeView::Nothing,
                refresh: false,
                show: ShowView::Highlights {
                    asin,
                    force: flag(request.force),
                    enrich: flag(request.enrich),
                },
            }
        }
    } else if command == "get_recent_highlights"@ {
        Asked::Work {
            change: ChangeView::Nothing,
            refresh: false,
            show: ShowView::Recent {
                limit: match request.limit {
                    Some(limit) => limit,
                    None => 8,
                },
                per_book: match request.per_book {
                    Some(per_book) => per_book,
                    None => 4,
                },
                force: flag(request.force),
            },
        }
    } else if command == "get_highlight_text"@ {
        if asin.len() == 0 {
            bad_request("asin is required"@)
        } else {
            match (request.start, request.end) {
                (Some(start), Some(end)) => Asked::Work {
                    change: ChangeView::Nothing,
                    refresh: false,
                    show: ShowView::Text { asin, start, end },
                },
                _ => bad_request("start and end are required"@),
            }
        }
    } else {
        Asked::Refused("unknown_command"@, "unknown command: "@ + command)
    }
}

/// The greeting that answers `hello`.
pub open spec fn hello_json(version: Seq<char>) -> JsonView {
    JsonView::Object(
        Map::<Seq<char>, JsonView>::empty().insert("protocolVersion"@, JsonView::Int(1)).insert(
            "backendVersion"@,
            JsonView::Text(version),
        ),
    )
}

pub open spec fn minutes_json(minutes: u64) -> JsonView {
    JsonView::Object(
        Map::<Seq<char>, JsonView>::empty().insert(
            "refreshMinutes"@,
            JsonView::Int(minutes as int),
        ),
    )
}

fn text_or_empty(text: Option<String>) -> (r: String)
    ensures
        r@ == text_or(text, Seq::empty()),
{
    match text {
        Some(text) => text,
        None => String::new(),
    }
}

fn region_or_us(region: Option<String>) -> (r: String)
    ensures
        r@ == text_or(region, "us"@),
{
    match region {
        Some(region) => region,
        None => "us".to_owned(),
    }
}

fn is_set(flag: Option<bool>) -> (r: bool)
    ensures
        r == self::flag(flag),
{
    match flag {
        Some(flag) => flag,
        None => false,
    }
}

fn refused(id: i64, code: &str, message: &str) -> (r: Step)
    ensures
        replies(r, wire::error_json(id as int, code@, message@)),
{
    Step::Reply(wire::error_response(id, code, message))
}

fn work(id: i64, change: Change, refresh: bool, show: Show) -> (r: Step)
    ensures
        r matches Step::Work(plan) && plan.id == id && plan.change@ == change@ && plan.refresh
            == refresh && plan.show@ == show@,
{
    Step::Work(Plan { id, change, refresh, show })
}

/// The step is an answer at once: one line, which reads as the object.
pub open spec fn replies(step: Step, answer: JsonView) -> bool {
    &&& step matches Step::Reply(line)
    &&& line@ == json::json_text(answer)
    &&& wire::one_line(line@)
    &&& json::reads_as(line@, answer)
}

/// The step that meets a request, under the request's own id.
pub open spec fn meets(step: Step, id: i64, asked: Asked, version: Seq<char>) -> bool {
    match asked {
        Asked::Refused(code, message) => replies(
            step,
            wire::error_json(id as int, code, message),
        ),
        Asked::Hello => replies(step, wire::success_json(id as int, hello_json(version))),
        Asked::Ping => replies(
            step,
            wire::success_json(id as int, JsonView::Object(Map::empty())),
        ),
        Asked::Minutes(minutes) => replies(
            step,
            wire::success_json(id as int, minutes_json(state::clamped_minutes(minutes))),
        ),
        Asked::Work { change, refresh, show } => step matches Step::Work(plan) && plan.id == id
            && plan.change@ == change && plan.refresh == refresh && plan.show@ == show,
    }
}

/// Meets a request, given as it was read or with why it could not be read.
/// Nothing changes here but the minutes between refreshes.
pub fn dispatch(app: &mut App, request: Result<Request, String>, version: &str) -> (r: Step)
    ensures
        match request {
            Ok(request) => {
                &&& meets(r, request.id, asked(request), version@)
                &&& final(app)@ == match asked(request) {
                    Asked::Minutes(minutes) => AppView {
                        refresh_minutes: state::clamped_minutes(minutes),
                        ..old(app)@
                    },
                    _ => old(app)@,
                }
            },
            Err(message) => {
                &&& final(app)@ == old(app)@
                &&& replies(
                    r,
                    wire::error_json(-1, "bad_request"@, "invalid request: "@ + message@),
                )
            },
        },
{
    let request = match request {
        Ok(request) => request,
        Err(message) => {
            return refused(
                -1,
                "bad_request",
                "invalid request: ".to_owned().concat(message.as_str()).as_str(),
            );
        },
    };
    let id: i64 = request.id;
    if request.v != 1 {
        return refused(id, "unsupported_version", "protocol version must be 1");
    }
    let command = request.command.as_str();
    if text::same(command, "hello") {
        let mut result = json::json_object();
        json::json_insert(&mut result, "protocolVersion", json::json_int(1));
        json::json_insert(&mut result, "backendVersion", json::json_string(version));
        proof {
            reveal_with_fuel(JsonView::plain, 3);
        }
        return Step::Reply(wire::success(id, result));
    }
    if text::same(command, "ping") {
        return Step::Reply(wire::success(id, json::json_object()));
    }
    if text::same(command, "get_state") {
        return work(id, Change::Nothing, false, Show::State);
    }
    if text::same(command, "refresh") {
        return work(id, Change::Nothing, true, Show::State);
    }
    if text::same(command, "set_credentials") {
        let change = Change::SignIn {
            cookies: text_or_empty(request.cookies),
            device_token: text_or_empty(request.device_token),
            region: region_or_us(request.region),
        };
        return work(id, change, true, Show::State);
    }
    if text::same(command, "store_cookies") {
        let cookies = text_or_empty(request.cookies);
        if cookies.as_str().is_empty() {
            return refused(id, "bad_request", "cookies are required");
        }
        let change = Change::SignIn {
            cookies,
            device_token: String::new(),
            region: region_or_us(request.region),
        };
        return work(id, change, true, Show::State);
    }
    if text::same(command, "set_device_token") {
        let device_token = text_or_empty(request.device_token);
        if device_token.as_str().is_empty() {
            return refused(id, "bad_request", "deviceToken is required");
        }
        return work(id, Change::DeviceToken(device_token), true, Show::State);
    }
    if text::same(command, "set_refresh_minutes") {
        let minutes: u64 = match request.minutes {
            Some(minutes) => minutes,
            None => 15,
        };
        app.set_refresh_minutes(minutes);
        let mut result = json::json_object();
        json::json_insert(&mut result, "refreshMinutes", json::json_uint(app.refresh_minutes()));
        proof {
            reveal_with_fuel(JsonView::plain, 3);
        }
        return Step::Reply(wire::success(id, result));
    }
    if text::same(command, "clear_credentials") {
        return work(id, Change::Clear, false, Show::State);
    }
    if text::same(command, "get_highlights") {
        let asin = text_or_empty(request.asin);
        if asin.as_str().is_empty() {
            return refused(id, "bad_request", "asin is required");
        }
        let show = Show::Highlights {
            asin,
            force: is_set(request.force),
            enrich: is_set(request.enrich),
        };
        return work(id, Change::Nothing, false, show);
    }
    if text::same(command, "get_recent_highlights") {
        let limit: usize = match request.limit {
            Some(limit) => limit,
            None => 8,
        };
        let per_book: usize = match request.per_book {
            Some(per_book) => per_book,
            None => 4,
        };
        let show = Show::Recent { limit, per_book, force: is_set(request.force) };
        return work(id, Change::Nothing, false, show);
    }
    if text::same(command, "get_highlight_text") {
        let asin = text_or_empty(request.asin);
        if asin.as_str().is_empty() {
            return refused(id, "bad_request", "asin is required");
        }
        return match (request.start, request.end) {
            (Some(start), Some(end)) => work(
                id,
                Change::Nothing,
                false,
                Show::Text { asin, start, end },
            ),
            _ => refused(id, "bad_request", "start and end are required"),
        };
    }
    refused(
        id,
        "unknown_command",
        "unknown command: ".to_owned().concat(command).as_str(),
    )
}

/// A request of another version is refused before its command is looked at, and
/// so is a command that is not known.
pub proof fn lemma_refused_requests(request: Request)
    ensures
        request.v != 1 ==> asked(request) == Asked::Refused(
            "unsupported_version"@,
            "protocol version must be 1"@,
        ),
        request.v == 1 && !seq![
            "hello"@,
            "ping"@,
            "get_state"@,
            "refresh"@,
            "set_credentials"@,
            "store_cookies"@,
            "set_device_token"@,
            "set_refresh_minutes"@,
            "clear_credentials"@,
            "get_highlights"@,
            "get_recent_highlights"@,
            "get_highlight_text"@,
        ].contains(request.command@) ==> asked(request) == Asked::Refused(
            "unknown_command"@,
            "unknown command: "@ + request.command@,
        ),
{
    let known = seq![
        "hello"@,
        "ping"@,
        "get_state"@,
        "refresh"@,
        "set_credentials"@,
        "store_cookies"@,
        "set_device_token"@,
        "set_refresh_minutes"@,
        "clear_credentials"@,
        "get_highlights"@,
        "get_recent_highlights"@,
        "get_highlight_text"@,
    ];
    assert(known[0] == "hello"@ && known[1] == "ping"@ && known[2] == "get_state"@ && known[3]
        == "refresh"@ && known[4] == "set_credentials"@ && known[5] == "store_cookies"@ && known[6]
        == "set_device_token"@ && known[7] == "set_refresh_minutes"@ && known[8]
        == "clear_credentials"@ && known[9] == "get_highlights"@ && known[10]
        == "get_recent_highlights"@ && known[11] == "get_highlight_text"@);
}

proof fn lemma_commands_differ()
    ensures
        "hello"@.len() == 5,
        "ping"@.len() == 4,
        "get_state"@.len() == 9,
        "refresh"@.len() == 7,
        "set_credentials"@.len() == 15,
        "store_cookies"@.len() == 13,
        "set_device_token"@.len() == 16,
        "set_refresh_minutes"@.len() == 19,
        "clear_credentials"@.len() == 17,
        "get_highlights"@.len() == 14,
        "get_recent_highlights"@.len() == 21,
        "get_highlight_text"@.len() == 18,
{
    reveal_strlit("hello");
    reveal_strlit("ping");
    reveal_strlit("get_state");
    reveal_strlit("refresh");
    reveal_strlit("set_credentials");
    reveal_strlit("store_cookies");
    reveal_strlit("set_device_token");
    reveal_strlit("set_refresh_minutes");
    reveal_strlit("clear_credentials");
    reveal_strlit("get_highlights");
    reveal_strlit("get_recent_highlights");
    reveal_strlit("get_highlight_text");
}

/// The commands that take nothing: two greetings, the state as it is, the state
/// after a refresh, and the end of the session.
pub proof fn lemma_plain_commands(request: Request)
    requires
        request.v == 1,
    ensures
        request.command@ == "hello"@ ==> asked(request) == Asked::Hello,
        request.command@ == "ping"@ ==> asked(request) == Asked::Ping,
        request.command@ == "get_state"@ ==> asked(request) == (Asked::Work {
            change: ChangeView::Nothing,
            refresh: false,
            show: ShowView::State,
        }),
        request.command@ == "refresh"@ ==> asked(request) == (Asked::Work {
            change: ChangeView::Nothing,
            refresh: true,
            show: ShowView::State,
        }),
        request.command@ == "clear_credentials"@ ==> asked(request) == (Asked::Work {
            change: ChangeView::Clear,
            refresh: false,
            show: ShowView::State,
        }),
        request.command@ == "set_refresh_minutes"@ && request.minutes is Some ==> asked(request)
            == Asked::Minutes(request.minutes->0),
        request.command@ == "set_refresh_minutes"@ && request.minutes is None ==> asked(request)
            == Asked::Minutes(15),
{
    lemma_commands_differ();
}

/// The commands that sign in: what was given is used as it is, the region is
/// the usual one where none was given, and a refresh follows. What the command
/// cannot do without must have been given.
pub proof fn lemma_sign_in_commands(request: Request)
    requires
        request.v == 1,
    ensures
        request.command@ == "set_credentials"@ ==> {
            &&& asked(request) matches Asked::Work { change, refresh, show }
            &&& refresh
            &&& show == ShowView::State
            &&& change matches ChangeView::SignIn { cookies, device_token, region }
            &&& request.cookies is Some ==> cookies == request.cookies->0@
            &&& request.cookies is None ==> cookies.len() == 0
            &&& request.device_token is Some ==> device_token == request.device_token->0@
            &&& request.device_token is None ==> device_token.len() == 0
            &&& request.region is Some ==> region == request.region->0@
            &&& request.region is None ==> region == "us"@
        },
        request.command@ == "store_cookies"@ && (request.cookies is None
            || request.cookies->0@.len() == 0) ==> asked(request) == Asked::Refused(
            "bad_request"@,
            "cookies are required"@,
        ),
        request.command@ == "store_cookies"@ && request.cookies is Some
            && request.cookies->0@.len() > 0 ==> {
            &&& asked(request) matches Asked::Work { change, refresh, show }
            &&& refresh
            &&& show == ShowView::State
            &&& change matches ChangeView::SignIn { cookies, device_token, region }
            &&& cookies == request.cookies->0@
            &&& device_token.len() == 0
            &&& request.region is Some ==> region == request.region->0@
            &&& request.region is None ==> region == "us"@
        },
        request.command@ == "set_device_token"@ && (request.device_token is None
            || request.device_token->0@.len() == 0) ==> asked(request) == Asked::Refused(
            "bad_request"@,
            "deviceToken is required"@,
        ),
        request.command@ == "set_device_token"@ && request.device_token is Some
            && request.device_token->0@.len() > 0 ==> asked(request) == (Asked::Work {
            change: ChangeView::DeviceToken(request.device_token->0@),
            refresh: true,
            show: ShowView::State,
        }),
{
    lemma_commands_differ();
}

/// The commands that show highlights: of a book that must be named, over the
/// books, or one passage between two positions that must be given. What was not
/// asked for otherwise is 8 highlights, 4 of each book, and nothing forced.
pub proof fn lemma_highlight_commands(request: Request)
    requires
        request.v == 1,
    ensures
        request.command@ == "get_highlights"@ || request.command@ == "get_highlight_text"@ ==> (
        request.asin is None || request.asin->0@.len() == 0 ==> asked(request) == Asked::Refused(
            "bad_request"@,
            "asin is required"@,
        )),
        request.command@ == "get_highlights"@ && request.asin is Some && request.asin->0@.len() > 0
            ==> asked(request) == (Asked::Work {
            change: ChangeView::Nothing,
            refresh: false,
            show: ShowView::Highlights {
                asin: request.asin->0@,
                force: request.force is Some && request.force->0,
                enrich: request.enrich is Some && request.enrich->0,
            },
        }),
        request.command@ == "get_recent_highlights"@ ==> {
            &&& asked(request) matches Asked::Work { change, refresh, show }
            &&& change == ChangeView::Nothing
            &&& !refresh
            &&& show matches ShowView::Recent { limit, per_book, force }
            &&& request.limit is Some ==> limit == request.limit->0
            &&& request.limit is None ==> limit == 8
            &&& request.per_book is Some ==> per_book == request.per_book->0
            &&& request.per_book is None ==> per_book == 4
            &&& force <==> request.force is Some && request.force->0
        },
        request.command@ == "get_highlight_text"@ && request.asin is Some && request.asin->0@.len()
            > 0 && request.start is Some && request.end is Some ==> asked(request)
            == (Asked::Work {
            change: ChangeView::Nothing,
            refresh: false,
            show: ShowView::Text {
                asin: request.asin->0@,
                start: request.start->0,
                end: request.end->0,
            },
        }),
        request.command@ == "get_highlight_text"@ && request.asin is Some && request.asin->0@.len()
            > 0 && (request.start is None || request.end is None) ==> asked(request)
            == Asked::Refused("bad_request"@, "start and end are required"@),
{
    lemma_commands_differ();
}

/// A step that meets a request carries the request's id: in the one line that
/// answers it, or in the work that it takes, which is all that was asked for.
pub proof fn lemma_steps_keep_the_id(step: Step, id: i64, asked: Asked, version: Seq<char>)
    requires
        meets(step, id, asked, version),
    ensures
        asked matches Asked::Work { change, refresh, show } ==> {
            &&& step is Work
            &&& step->Work_0.id == id
            &&& step->Work_0.change@ == change
            &&& step->Work_0.refresh == refresh
            &&& step->Work_0.show@ == show
        },
        !(asked is Work) ==> {
            let line = step->Reply_0@;
            &&& step is Reply
            &&& line.len() >= 2 && line[0] == '{' && line[line.len() - 1] == '}'
            &&& !line.contains('\n')
            &&& json::json_read(line) is Ok
            &&& json::json_read(line)->Ok_0.member("id"@) == JsonView::Int(id as int)
        },
        asked matches Asked::Refused(code, message) ==> {
            let answer = json::json_read(step->Reply_0@)->Ok_0;
            &&& answer == wire::error_json(id as int, code, message)
            &&& answer.member("ok"@) == JsonView::Bool(false)
            &&& answer.member("errorCode"@) == JsonView::Text(code)
            &&& answer.member("error"@) == JsonView::Text(message)
        },
        asked is Hello ==> {
            let answer = json::json_read(step->Reply_0@)->Ok_0;
            let result = answer.member("result"@);
            &&& answer.member("ok"@) == JsonView::Bool(true)
            &&& result is Object
            &&& result->Object_0.dom() == set!["protocolVersion"@, "backendVersion"@]
            &&& result.member("protocolVersion"@) == JsonView::Int(1)
            &&& result.member("backendVersion"@) == JsonView::Text(version)
        },
        asked is Ping ==> {
            let answer = json::json_read(step->Reply_0@)->Ok_0;
            &&& answer.member("ok"@) == JsonView::Bool(true)
            &&& answer.member("result"@) == JsonView::Object(Map::empty())
        },
        asked matches Asked::Minutes(minutes) ==> {
            let answer = json::json_read(step->Reply_0@)->Ok_0;
            let result = answer.member("result"@);
            &&& answer.member("ok"@) == JsonView::Bool(true)
            &&& result is Object
            &&& result->Object_0.dom() == set!["refreshMinutes"@]
            &&& 5 <= minutes <= 1440 ==> result.member("refreshMinutes"@) == JsonView::Int(
                minutes as int,
            )
            &&& minutes < 5 ==> result.member("refreshMinutes"@) == JsonView::Int(5)
            &&& minutes > 1440 ==> result.member("refreshMinutes"@) == JsonView::Int(1440)
        },
{
    match asked {
        Asked::Refused(code, message) => {
            wire::lemma_answers_keep_the_id(id as int, JsonView::Null, code, message);
        },
        Asked::Hello => {
            let greeting = hello_json(version);
            wire::lemma_answers_keep_the_id(id as int, greeting, version, version);
            reveal_strlit("protocolVersion");
            reveal_strlit("backendVersion");
            assert("protocolVersion"@.len() == 15 && "backendVersion"@.len() == 14);
            assert(greeting->Object_0.dom() =~= set!["protocolVersion"@, "backendVersion"@]);
        },
        Asked::Ping => {
            wire::lemma_answers_keep_the_id(
                id as int,
                JsonView::Object(Map::empty()),
                version,
                version,
            );
        },
        Asked::Minutes(minutes) => {
            let result = minutes_json(state::clamped_minutes(minutes));
            wire::lemma_answers_keep_the_id(id as int, result, version, version);
            assert(result->Object_0.dom() =~= set!["refreshMinutes"@]);
        },
        Asked::Work { .. } => {},
    }
}

/// What contracts say of the work that a request takes is all of it.
pub proof fn lemma_work_seen_whole(change: Change, show: Show)
    ensures
        match change {
            Change::Nothing => change@ == ChangeView::Nothing,
            Change::SignIn { cookies, device_token, region } => change@ == (ChangeView::SignIn {
                cookies: cookies@,
                device_token: device_token@,
                region: region@,
            }),
            Change::DeviceToken(token) => change@ == ChangeView::DeviceToken(token@),
            Change::Clear => change@ == ChangeView::Clear,
        },
        match show {
            Show::State => show@ == ShowView::State,
            Show::Highlights { asin, force, enrich } => show@ == (ShowView::Highlights {
                asin: asin@,
                force,
                enrich,
            }),
            Show::Recent { limit, per_book, force } => show@ == (ShowView::Recent {
                limit,
                per_book,
                force,
            }),
            Show::Text { asin, start, end } => show@ == (ShowView::Text {
                asin: asin@,
                start,
                end,
            }),
        },
{
}

} // verus!
