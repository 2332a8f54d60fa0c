//! The lines that clients are sent: one JSON object each.

use serde_json::Value;
use vstd::prelude::*;

use crate::json;
use crate::json::JsonView;

verus! {

/// A response that carries a result.
pub open spec fn success_json(id: int, result: JsonView) -> JsonView {
    JsonView::Object(
        Map::<Seq<char>, JsonView>::empty().insert("type"@, JsonView::Text("response"@)).insert(
            "v"@,
            JsonView::Int(1),
        ).insert("id"@, JsonView::Int(id)).insert("ok"@, JsonView::Bool(true)).insert(
            "result"@,
            result,
        ),
    )
}

/// A response that carries a failure.
pub open spec fn error_json(id: int, code: Seq<char>, message: Seq<char>) -> JsonView {
    JsonView::Object(
        Map::<Seq<char>, JsonView>::empty().insert("type"@, JsonView::Text("response"@)).insert(
            "v"@,
            JsonView::Int(1),
        ).insert("id"@, JsonView::Int(id)).insert("ok"@, JsonView::Bool(false)).insert(
            "errorCode"@,
            JsonView::Text(code),
        ).insert("error"@, JsonView::Text(message)),
    )
}

/// An answer carries the id of its request, and says whether it went well:
/// with the result if it did, and with the code and the message if not.
pub proof fn lemma_answers_keep_the_id(
    id: int,
    result: JsonView,
    code: Seq<char>,
    message: Seq<char>,
)
    ensures
        success_json(id, result).member("id"@) == JsonView::Int(id),
        success_json(id, result).member("ok"@) == JsonView::Bool(true),
        success_json(id, result).member("result"@) == result,
        error_json(id, code, message).member("id"@) == JsonView::Int(id),
        error_json(id, code, message).member("ok"@) == JsonView::Bool(false),
        error_json(id, code, message).member("errorCode"@) == JsonView::Text(code),
        error_json(id, code, message).member("error"@) == JsonView::Text(message),
{
    reveal_strlit("id");
    reveal_strlit("ok");
    reveal_strlit("result");
    reveal_strlit("errorCode");
    reveal_strlit("error");
    assert("id"@[0] != "ok"@[0]);
    assert("id"@.len() == 2 && "ok"@.len() == 2);
    assert("result"@.len() == 6);
    assert("errorCode"@.len() == 9);
    assert("error"@.len() == 5);
}

/// The state as a client first gets it.
pub open spec fn snapshot_json(state: JsonView) -> JsonView {
    JsonView::Object(
        Map::<Seq<char>, JsonView>::empty().insert("type"@, JsonView::Text("snapshot"@)).insert(
            "v"@,
            JsonView::Int(1),
        ).insert("state"@, state),
    )
}

/// News of the state.
pub open spec fn state_event_json(state: JsonView) -> JsonView {
    JsonView::Object(
        Map::<Seq<char>, JsonView>::empty().insert("type"@, JsonView::Text("event"@)).insert(
            "v"@,
            JsonView::Int(1),
        ).insert("event"@, JsonView::Text("state_changed"@)).insert("state"@, state),
    )
}

/// News of the highlights of a book.
pub open spec fn highlights_event_json(asin: Seq<char>, highlights: JsonView) -> JsonView {
    JsonView::Object(
        Map::<Seq<char>, JsonView>::empty().insert("type"@, JsonView::Text("event"@)).insert(
            "v"@,
            JsonView::Int(1),
        ).insert("event"@, JsonView::Text("highlights_changed"@)).insert(
            "asin"@,
            JsonView::Text(asin),
        ).insert("highlights"@, highlights),
    )
}

/// The value can stand inside a message and be read back from it.
pub open spec fn readable(value: JsonView) -> bool {
    value.plain((json::READ_DEPTH - 1) as nat)
}

/// The text can be sent as one line that holds one object.
pub open spec fn one_line(text: Seq<char>) -> bool {
    json::in_braces(text) && !text.contains('\n')
}

fn message(kind: &str) -> (r: Value)
    ensures
        json::json_view(r) == JsonView::Object(
            Map::<Seq<char>, JsonView>::empty().insert("type"@, JsonView::Text(kind@)).insert(
                "v"@,
                JsonView::Int(1),
            ),
        ),
{
    let mut message = json::json_object();
    json::json_insert(&mut message, "type", json::json_string(kind));
    json::json_insert(&mut message, "v", json::json_int(1));
    message
}

/// Answers a request with a result, under the request's own id. A result
/// that can be read back is, with the answer around it.
pub fn success(id: i64, result: Value) -> (r: String)
    ensures
        r@ == json::json_text(success_json(id as int, json::json_view(result))),
        one_line(r@),
        readable(json::json_view(result)) ==> json::reads_as(
            r@,
            success_json(id as int, json::json_view(result)),
        ),
{
    let mut response = message("response");
    json::json_insert(&mut response, "id", json::json_int(id));
    json::json_insert(&mut response, "ok", json::json_bool(true));
    json::json_insert(&mut response, "result", result);
    proof {
        reveal_with_fuel(JsonView::plain, 3);
    }
    json::json_line(&response)
}

/// Answers a request with a failure, under the request's own id. The line reads
/// back as that answer.
pub fn error_response(id: i64, code: &str, message: &str) -> (r: String)
    ensures
        r@ == json::json_text(error_json(id as int, code@, message@)),
        one_line(r@),
        json::reads_as(r@, error_json(id as int, code@, message@)),
{
    let mut response = self::message("response");
    json::json_insert(&mut response, "id", json::json_int(id));
    json::json_insert(&mut response, "ok", json::json_bool(false));
    json::json_insert(&mut response, "errorCode", json::json_string(code));
    json::json_insert(&mut response, "error", json::json_string(message));
    proof {
        reveal_with_fuel(JsonView::plain, 3);
    }
    json::json_line(&response)
}

/// Greets a client with the state.
pub fn snapshot_line(state: Value) -> (r: String)
    ensures
        r@ == json::json_text(snapshot_json(json::json_view(state))),
        one_line(r@),
        readable(json::json_view(state)) ==> json::reads_as(
            r@,
            snapshot_json(json::json_view(state)),
        ),
{
    let mut line = message("snapshot");
    json::json_insert(&mut line, "state", state);
    proof {
        reveal_with_fuel(JsonView::plain, 3);
    }
    json::json_line(&line)
}

/// Tells clients that the state has changed.
pub fn state_event(state: Value) -> (r: String)
    ensures
        r@ == json::json_text(state_event_json(json::json_view(state))),
        one_line(r@),
        readable(json::json_view(state)) ==> json::reads_as(
            r@,
            state_event_json(json::json_view(state)),
        ),
{
    let mut line = message("event");
    json::json_insert(&mut line, "event", json::json_string("state_changed"));
    json::json_insert(&mut line, "state", state);
    proof {
        reveal_with_fuel(JsonView::plain, 3);
    }
    json::json_line(&line)
}

/// Tells clients that the highlights of a book have changed.
pub fn highlights_event(asin: &str, highlights: Value) -> (r: String)
    ensures
        r@ == json::json_text(highlights_event_json(asin@, json::json_view(highlights))),
        one_line(r@),
        readable(json::json_view(highlights)) ==> json::reads_as(
            r@,
            highlights_event_json(asin@, json::json_view(highlights)),
        ),
{
    let mut line = message("event");
    json::json_insert(&mut line, "event", json::json_string("highlights_changed"));
    json::json_insert(&mut line, "asin", json::json_string(asin));
    json::json_insert(&mut line, "highlights", highlights);
    proof {
        reveal_with_fuel(JsonView::plain, 3);
    }
    json::json_line(&line)
}

/// What a highlight is decorated to: an object gets the book that it is from,
/// and nothing else changes.
pub open spec fn decorated(
    highlight: JsonView,
    asin: Seq<char>,
    title: Seq<char>,
    authors: Seq<char>,
) -> JsonView {
    match highlight {
        JsonView::Object(members) => JsonView::Object(
            members.insert("bookAsin"@, JsonView::Text(asin)).insert(
                "bookTitle"@,
                JsonView::Text(title),
            ).insert("bookAuthors"@, JsonView::Text(authors)),
        ),
        other => other,
    }
}

/// Adds to a highlight the book that it is from.
pub fn enrich_highlight(item: Value, asin: &str, title: &str, authors: &str) -> (r: Value)
    ensures
        json::json_view(r) == decorated(json::json_view(item), asin@, title@, authors@),
{
    let mut value = item;
    json::json_insert(&mut value, "bookAsin", json::json_string(asin));
    json::json_insert(&mut value, "bookTitle", json::json_string(title));
    json::json_insert(&mut value, "bookAuthors", json::json_string(authors));
    value
}

/// What a request came to, ready to be sent. States, highlights and items are
/// in their JSON form.
pub enum Outcome {
    State(Value),
    Highlights { highlights: Value, cached: bool, stale: bool, fetched_at: u64 },
    Recent { items: Vec<Value>, scanned: usize },
    Text(String),
}

/// The result that a request is answered with.
pub open spec fn outcome_json(outcome: Outcome) -> JsonView {
    let none = Map::<Seq<char>, JsonView>::empty();
    match outcome {
        Outcome::State(state) => JsonView::Object(none.insert("state"@, json::json_view(state))),
        Outcome::Highlights { highlights, cached, stale, fetched_at } => JsonView::Object(
            none.insert("highlights"@, json::json_view(highlights)).insert(
                "cached"@,
                JsonView::Bool(cached),
            ).insert("stale"@, JsonView::Bool(stale)).insert(
                "fetchedAt"@,
                JsonView::Int(fetched_at as int),
            ),
        ),
        Outcome::Recent { items, scanned } => JsonView::Object(
            none.insert("items"@, JsonView::List(json::json_views(items@))).insert(
                "scanned"@,
                JsonView::Int(scanned as int),
            ),
        ),
        Outcome::Text(text) => JsonView::Object(none.insert("text"@, JsonView::Text(text@))),
    }
}

fn outcome_value(outcome: Outcome) -> (r: Value)
    ensures
        json::json_view(r) == outcome_json(outcome),
{
    let mut result = json::json_object();
    match outcome {
        Outcome::State(state) => {
            json::json_insert(&mut result, "state", state);
        },
        Outcome::Highlights { highlights, cached, stale, fetched_at } => {
            json::json_insert(&mut result, "highlights", highlights);
            json::json_insert(&mut result, "cached", json::json_bool(cached));
            json::json_insert(&mut result, "stale", json::json_bool(stale));
            json::json_insert(&mut result, "fetchedAt", json::json_uint(fetched_at));
        },
        Outcome::Recent { items, scanned } => {
            json::json_insert(&mut result, "items", json::json_list(items));
            json::json_insert(&mut result, "scanned", json::json_uint(scanned as u64));
        },
        Outcome::Text(text) => {
            json::json_insert(&mut result, "text", json::json_string(text.as_str()));
        },
    }
    result
}

/// Answers a request with what it came to.
pub fn respond(id: i64, outcome: Result<Outcome, (String, String)>) -> (r: String)
    ensures
        r@ == json::json_text(
            match outcome {
                Ok(outcome) => success_json(id as int, outcome_json(outcome)),
                Err(failure) => error_json(id as int, failure.0@, failure.1@),
            },
        ),
        one_line(r@),
        match outcome {
            Ok(outcome) => outcome is Text || readable(outcome_json(outcome)) ==> json::reads_as(
                r@,
                success_json(id as int, outcome_json(outcome)),
            ),
            Err(failure) => json::reads_as(r@, error_json(id as int, failure.0@, failure.1@)),
        },
{
    match outcome {
        Ok(outcome) => {
            proof {
                reveal_with_fuel(JsonView::plain, 3);
            }
            success(id, outcome_value(outcome))
        },
        Err(failure) => error_response(id, failure.0.as_str(), failure.1.as_str()),
    }
}

/// Every message says what it is and that it is of the first version, and holds
/// what it is about and nothing else.
pub proof fn lemma_what_messages_hold(
    id: int,
    result: JsonView,
    code: Seq<char>,
    message: Seq<char>,
)
    ensures
        success_json(id, result) matches JsonView::Object(members) && {
            &&& members.dom() == set!["type"@, "v"@, "id"@, "ok"@, "result"@]
            &&& members["type"@] == JsonView::Text("response"@)
            &&& members["v"@] == JsonView::Int(1)
            &&& members["id"@] == JsonView::Int(id)
            &&& members["ok"@] == JsonView::Bool(true)
            &&& members["result"@] == result
        },
        error_json(id, code, message) matches JsonView::Object(members) && {
            &&& members.dom() == set!["type"@, "v"@, "id"@, "ok"@, "errorCode"@, "error"@]
            &&& members["type"@] == JsonView::Text("response"@)
            &&& members["v"@] == JsonView::Int(1)
            &&& members["id"@] == JsonView::Int(id)
            &&& members["ok"@] == JsonView::Bool(false)
            &&& members["errorCode"@] == JsonView::Text(code)
            &&& members["error"@] == JsonView::Text(message)
        },
{
    lemma_names_differ();
    let good = success_json(id, result)->Object_0;
    let bad = error_json(id, code, message)->Object_0;
    assert(good.dom() =~= set!["type"@, "v"@, "id"@, "ok"@, "result"@]);
    assert(bad.dom() =~= set!["type"@, "v"@, "id"@, "ok"@, "errorCode"@, "error"@]);
    assert(good["type"@] == JsonView::Text("response"@));
    assert(good["v"@] == JsonView::Int(1));
    assert(good["id"@] == JsonView::Int(id));
    assert(good["ok"@] == JsonView::Bool(true));
    assert(bad["type"@] == JsonView::Text("response"@));
    assert(bad["v"@] == JsonView::Int(1));
    assert(bad["id"@] == JsonView::Int(id));
    assert(bad["ok"@] == JsonView::Bool(false));
    assert(bad["errorCode"@] == JsonView::Text(code));
}

/// The lengths of the names of a message's members, and the first letters of
/// those that are as long as another.
proof fn lemma_names_differ()
    ensures
        "v"@.len() == 1,
        "id"@.len() == 2 && "id"@[0] == 'i',
        "ok"@.len() == 2 && "ok"@[0] == 'o',
        "type"@.len() == 4 && "type"@[0] == 't',
        "asin"@.len() == 4 && "asin"@[0] == 'a',
        "event"@.len() == 5 && "event"@[0] == 'e' && "event"@[1] == 'v',
        "error"@.len() == 5 && "error"@[0] == 'e' && "error"@[1] == 'r',
        "state"@.len() == 5 && "state"@[0] == 's',
        "result"@.len() == 6,
        "errorCode"@.len() == 9,
        "highlights"@.len() == 10,
{
    reveal_strlit("v");
    reveal_strlit("id");
    reveal_strlit("ok");
    reveal_strlit("type");
    reveal_strlit("asin");
    reveal_strlit("event");
    reveal_strlit("error");
    reveal_strlit("state");
    reveal_strlit("result");
    reveal_strlit("errorCode");
    reveal_strlit("highlights");
}

/// News say what they are news of, and hold it.
pub proof fn lemma_what_news_hold(state: JsonView, asin: Seq<char>, highlights: JsonView)
    ensures
        snapshot_json(state) matches JsonView::Object(members) && {
            &&& members.dom() == set!["type"@, "v"@, "state"@]
            &&& members["type"@] == JsonView::Text("snapshot"@)
            &&& members["v"@] == JsonView::Int(1)
            &&& members["state"@] == state
        },
        state_event_json(state) matches JsonView::Object(members) && {
            &&& members.dom() == set!["type"@, "v"@, "event"@, "state"@]
            &&& members["type"@] == JsonView::Text("event"@)
            &&& members["v"@] == JsonView::Int(1)
            &&& members["event"@] == JsonView::Text("state_changed"@)
            &&& members["state"@] == state
        },
        highlights_event_json(asin, highlights) matches JsonView::Object(members) && {
            &&& members.dom() == set!["type"@, "v"@, "event"@, "asin"@, "highlights"@]
            &&& members["type"@] == JsonView::Text("event"@)
            &&& members["v"@] == JsonView::Int(1)
            &&& members["event"@] == JsonView::Text("highlights_changed"@)
            &&& members["asin"@] == JsonView::Text(asin)
            &&& members["highlights"@] == highlights
        },
{
    lemma_names_differ();
    let first = snapshot_json(state)->Object_0;
    let news = state_event_json(state)->Object_0;
    let book = highlights_event_json(asin, highlights)->Object_0;
    assert(first.dom() =~= set!["type"@, "v"@, "state"@]);
    assert(news.dom() =~= set!["type"@, "v"@, "event"@, "state"@]);
    assert(book.dom() =~= set!["type"@, "v"@, "event"@, "asin"@, "highlights"@]);
    assert(first["type"@] == JsonView::Text("snapshot"@));
    assert(first["v"@] == JsonView::Int(1));
    assert(news["type"@] == JsonView::Text("event"@));
    assert(news["v"@] == JsonView::Int(1));
    assert(news["event"@] == JsonView::Text("state_changed"@));
    assert(book["type"@] == JsonView::Text("event"@));
    assert(book["v"@] == JsonView::Int(1));
    assert(book["event"@] == JsonView::Text("highlights_changed"@));
    assert(book["asin"@] == JsonView::Text(asin));
}

/// What can be sent as one line is an object's text without a line feed, and
/// what can be read back is nested less deep than the reader goes.
pub proof fn lemma_one_line(text: Seq<char>, value: JsonView)
    ensures
        one_line(text) <==> {
            &&& text.len() >= 2
            &&& text[0] == '{'
            &&& text[text.len() - 1] == '}'
            &&& forall|i: int| 0 <= i < text.len() ==> text[i] != '\n'
        },
        readable(value) <==> value.plain(126),
{
}

/// A decorated highlight names the book that it is from, and keeps all that it
/// says otherwise.
pub proof fn lemma_decorated_highlight(
    members: Map<Seq<char>, JsonView>,
    asin: Seq<char>,
    title: Seq<char>,
    authors: Seq<char>,
    key: Seq<char>,
    value: JsonView,
)
    ensures
        decorated(JsonView::Object(members), asin, title, authors) matches JsonView::Object(after)
            && {
            &&& after.contains_pair("bookAsin"@, JsonView::Text(asin))
            &&& after.contains_pair("bookTitle"@, JsonView::Text(title))
            &&& after.contains_pair("bookAuthors"@, JsonView::Text(authors))
            &&& key != "bookAsin"@ && key != "bookTitle"@ && key != "bookAuthors"@ ==> {
                &&& after.contains_key(key) <==> members.contains_key(key)
                &&& members.contains_key(key) ==> after[key] == members[key]
            }
        },
        !(value is Object) ==> decorated(value, asin, title, authors) == value,
{
    reveal_strlit("bookAsin");
    reveal_strlit("bookTitle");
    reveal_strlit("bookAuthors");
    assert("bookAsin"@.len() == 8 && "bookTitle"@.len() == 9 && "bookAuthors"@.len() == 11);
}

/// The result of a request holds what the request came to, each thing under its
/// name, and nothing else.
pub proof fn lemma_what_results_hold(outcome: Outcome)
    ensures
        outcome_json(outcome) is Object,
        ({
            let members = outcome_json(outcome)->Object_0;
            match outcome {
                Outcome::State(state) => {
                    &&& members.dom() == set!["state"@]
                    &&& members["state"@] == json::json_view(state)
                },
                Outcome::Highlights { highlights, cached, stale, fetched_at } => {
                    &&& members.dom() == set!["highlights"@, "cached"@, "stale"@, "fetchedAt"@]
                    &&& members["highlights"@] == json::json_view(highlights)
                    &&& members["cached"@] == JsonView::Bool(cached)
                    &&& members["stale"@] == JsonView::Bool(stale)
                    &&& members["fetchedAt"@] == JsonView::Int(fetched_at as int)
                },
                Outcome::Recent { items, scanned } => {
                    &&& members.dom() == set!["items"@, "scanned"@]
                    &&& members["scanned"@] == JsonView::Int(scanned as int)
                    &&& members["items"@] matches JsonView::List(shown)
                    &&& shown.len() == items@.len()
                    &&& forall|i: int|
                        0 <= i < items@.len() ==> #[trigger] shown[i] == json::json_view(items@[i])
                },
                Outcome::Text(text) => {
                    &&& members.dom() == set!["text"@]
                    &&& members["text"@] == JsonView::Text(text@)
                },
            }
        }),
{
    reveal_strlit("highlights");
    reveal_strlit("cached");
    reveal_strlit("stale");
    reveal_strlit("fetchedAt");
    reveal_strlit("items");
    reveal_strlit("scanned");
    assert("highlights"@.len() == 10 && "cached"@.len() == 6 && "stale"@.len() == 5
        && "fetchedAt"@.len() == 9 && "items"@.len() == 5 && "scanned"@.len() == 7);
    let members = outcome_json(outcome)->Object_0;
    match outcome {
        Outcome::State(_) => {
            assert(members.dom() =~= set!["state"@]);
        },
        Outcome::Highlights { .. } => {
            assert(members.dom() =~= set!["highlights"@, "cached"@, "stale"@, "fetchedAt"@]);
        },
        Outcome::Recent { .. } => {
            assert(members.dom() =~= set!["items"@, "scanned"@]);
        },
        Outcome::Text(_) => {
            assert(members.dom() =~= set!["text"@]);
        },
    }
}

} // verus!
