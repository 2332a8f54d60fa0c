//! What a fingerprint probe reports of the requests that are sent.

use serde_json::Value;
use vstd::prelude::*;

use crate::json;
use crate::json::JsonView;
use crate::text;

verus! {

/// The text without the colons that it begins with.
pub open spec fn without_colons(s: Seq<char>) -> Seq<char>
    decreases s.len(),
{
    if s.len() > 0 && s[0] == ':' {
        without_colons(s.drop_first())
    } else {
        s
    }
}

/// The name and the value of a header, of an entry that holds both as texts.
pub open spec fn header_in(entry: JsonView) -> Option<(Seq<char>, Seq<char>)> {
    match entry {
        JsonView::List(parts) => if parts.len() < 2 {
            None
        } else {
            match (parts[0].text(), parts[1].text()) {
                (Some(name), Some(value)) => Some((without_colons(name), value)),
                _ => None,
            }
        },
        _ => None,
    }
}

/// The headers that the entries hold; an entry without one is left out.
pub open spec fn headers_in(entries: Seq<JsonView>) -> Seq<(Seq<char>, Seq<char>)>
    decreases entries.len(),
{
    if entries.len() == 0 {
        Seq::empty()
    } else {
        let front = headers_in(entries.drop_last());
        match header_in(entries.last()) {
            Some(header) => front.push(header),
            None => front,
        }
    }
}

/// The headers of the first frame, at or after `from`, that lists any.
pub open spec fn frame_headers(frames: Seq<JsonView>, from: int) -> Seq<(Seq<char>, Seq<char>)>
    decreases frames.len() - from,
{
    if from < 0 || from >= frames.len() {
        Seq::empty()
    } else {
        match frames[from].member("headers"@) {
            JsonView::List(entries) => headers_in(entries),
            _ => frame_headers(frames, from + 1),
        }
    }
}

/// The headers that were sent.
pub open spec fn sent_headers(report: JsonView) -> Seq<(Seq<char>, Seq<char>)> {
    match report.member("http2"@).member("sent_frames"@) {
        JsonView::List(frames) => frame_headers(frames, 0),
        _ => Seq::empty(),
    }
}

pub open spec fn header_json(header: (Seq<char>, Seq<char>)) -> JsonView {
    JsonView::List(seq![JsonView::Text(header.0), JsonView::Text(header.1)])
}

pub open spec fn headers_json(headers: Seq<(Seq<char>, Seq<char>)>) -> Seq<JsonView> {
    Seq::new(headers.len(), |i: int| header_json(headers[i]))
}

/// What is shown of a report: the user agent, the fingerprints and the headers.
pub open spec fn summary_json(report: JsonView) -> JsonView {
    JsonView::Object(
        Map::<Seq<char>, JsonView>::empty().insert(
            "userAgent"@,
            report.member("user_agent"@),
        ).insert("ja3"@, report.member("tls"@).member("ja3_hash"@)).insert(
            "ja4"@,
            report.member("tls"@).member("ja4"@),
        ).insert("akamai"@, report.member("http2"@).member("akamai_fingerprint_hash"@)).insert(
            "headers"@,
            JsonView::List(headers_json(sent_headers(report))),
        ),
    )
}

fn strip_colons(s: &str) -> (r: String)
    ensures
        r@ == without_colons(s@),
{
    let chars = text::chars_of(s);
    let mut from: usize = 0;
    assert(s@.skip(0) == s@);
    while from < chars.len() && chars[from] == ':'
        invariant
            chars@ == s@,
            from <= chars@.len(),
            without_colons(s@) == without_colons(s@.skip(from as int)),
        decreases chars@.len() - from,
    {
        assert(s@.skip(from as int).drop_first() == s@.skip(from + 1));
        from = from + 1;
    }
    assert(from < s@.len() ==> s@.skip(from as int)[0] == s@[from as int]);
    assert(s@.subrange(from as int, s@.len() as int) == s@.skip(from as int));
    text::text_of(&chars, from, chars.len())
}

fn header_value(entry: &Value) -> (r: Option<Value>)
    ensures
        match (r, header_in(json::json_view(*entry))) {
            (Some(value), Some(header)) => json::json_view(value) == header_json(header),
            (None, None) => true,
            _ => false,
        },
{
    let name = match json::json_item(entry, 0) {
        Some(name) => match json::json_as_str(name) {
            Some(name) => strip_colons(name),
            None => {
                return None;
            },
        },
        None => {
            return None;
        },
    };
    let value = match json::json_item(entry, 1) {
        Some(value) => match json::json_as_str(value) {
            Some(value) => value,
            None => {
                return None;
            },
        },
        None => {
            return None;
        },
    };
    let mut pair: Vec<Value> = Vec::new();
    pair.push(json::json_string(name.as_str()));
    pair.push(json::json_string(value));
    assert(json::json_views(pair@) == seq![JsonView::Text(name@), JsonView::Text(value@)]);
    Some(json::json_list(pair))
}

fn header_values(entries: &Vec<Value>) -> (r: Vec<Value>)
    ensures
        json::json_views(r@) == headers_json(headers_in(json::json_views(entries@))),
{
    let ghost views = json::json_views(entries@);
    let mut out: Vec<Value> = Vec::new();
    assert(json::json_views(out@) == headers_json(headers_in(views.take(0))));
    for i in 0..entries.len()
        invariant
            views == json::json_views(entries@),
            json::json_views(out@) == headers_json(headers_in(views.take(i as int))),
    {
        let ghost before = json::json_views(out@);
        let ghost front = headers_in(views.take(i as int));
        proof {
            assert(views.take(i + 1).drop_last() == views.take(i as int));
            assert(views.take(i + 1).last() == json::json_view(entries@[i as int]));
        }
        if let Some(header) = header_value(&entries[i]) {
            let ghost view = json::json_view(header);
            out.push(header);
            proof {
                assert(json::json_views(out@) == before.push(view));
                let added = header_in(json::json_view(entries@[i as int]))->0;
                assert(headers_json(front.push(added)) == headers_json(front).push(
                    header_json(added),
                ));
            }
        }
    }
    assert(views.take(views.len() as int) == views);
    out
}

fn sent_header_values(report: &Value) -> (r: Vec<Value>)
    ensures
        json::json_views(r@) == headers_json(sent_headers(json::json_view(*report))),
{
    let none: Vec<Value> = Vec::new();
    assert(json::json_views(none@) == headers_json(Seq::empty()));
    let http2 = json::json_member(report, "http2");
    let frames = match json::json_as_list(json::json_member(http2, "sent_frames")) {
        Some(frames) => frames,
        None => {
            return none;
        },
    };
    let ghost views = json::json_views(frames@);
    let mut i: usize = 0;
    while i < frames.len()
        invariant
            i <= frames@.len(),
            views == json::json_views(frames@),
            json::json_view(*report).member("http2"@).member("sent_frames"@) == JsonView::List(
                views,
            ),
            frame_headers(views, 0) == frame_headers(views, i as int),
        decreases frames@.len() - i,
    {
        assert(views[i as int] == json::json_view(frames@[i as int]));
        if let Some(entries) = json::json_as_list(json::json_member(&frames[i], "headers")) {
            return header_values(entries);
        }
        i = i + 1;
    }
    none
}

fn summary(report: &Value) -> (r: Value)
    ensures
        json::json_view(r) == summary_json(json::json_view(*report)),
{
    let tls = json::json_member(report, "tls");
    let http2 = json::json_member(report, "http2");
    let mut summary = json::json_object();
    json::json_insert(
        &mut summary,
        "userAgent",
        json::json_copy(json::json_member(report, "user_agent")),
    );
    json::json_insert(&mut summary, "ja3", json::json_copy(json::json_member(tls, "ja3_hash")));
    json::json_insert(&mut summary, "ja4", json::json_copy(json::json_member(tls, "ja4")));
    json::json_insert(
        &mut summary,
        "akamai",
        json::json_copy(json::json_member(http2, "akamai_fingerprint_hash")),
    );
    json::json_insert(&mut summary, "headers", json::json_list(sent_header_values(report)));
    summary
}

/// What a probe prints: a summary of the report, where the service is the one
/// whose reports are known, and else the answer as it came.
pub fn run_probe(url: &str, body: &str) -> (r: Result<String, String>)
    ensures
        if text::contains(url@, "peet.ws"@) {
            match (r, json::json_read(body@)) {
                (Ok(shown), Ok(report)) => shown@ == json::json_pretty_text(summary_json(report)),
                (Err(message), Err(expected)) => message@ == expected,
                _ => false,
            }
        } else {
            r matches Ok(shown) && shown@ == body@
        },
{
    if !text::text_contains(url, "peet.ws") {
        return Ok(body.to_owned());
    }
    match json::read_json(body) {
        Ok(report) => Ok(json::json_pretty(&summary(&report))),
        Err(message) => Err(message),
    }
}

/// The colons that a text begins with go, all of them, and nothing else does.
pub proof fn lemma_colons_go(s: Seq<char>)
    ensures
        without_colons(seq![':'] + s) == without_colons(s),
        s.len() == 0 || s[0] != ':' ==> without_colons(s) == s,
{
    assert((seq![':'] + s).drop_first() == s);
}

/// An entry is a header if it is a list that begins with two texts: the first
/// is the name, without the colons before it, and the second the value.
pub proof fn lemma_header_of_an_entry(
    parts: Seq<JsonView>,
    name: Seq<char>,
    value: Seq<char>,
    other: JsonView,
)
    ensures
        parts.len() >= 2 && parts[0] == JsonView::Text(name) && parts[1] == JsonView::Text(value)
            ==> header_in(JsonView::List(parts)) == Some((without_colons(name), value)),
        parts.len() < 2 || !(parts[0] is Text) || !(parts[1] is Text) ==> header_in(
            JsonView::List(parts),
        ) is None,
        !(other is List) ==> header_in(other) is None,
{
}

/// The headers of several entries are those of each, in order.
pub proof fn lemma_headers_in_turn(entries: Seq<JsonView>, entry: JsonView)
    ensures
        headers_in(Seq::empty()) == Seq::<(Seq<char>, Seq<char>)>::empty(),
        header_in(entry) is Some ==> headers_in(entries + seq![entry]) == headers_in(entries)
            + seq![header_in(entry)->0],
        header_in(entry) is None ==> headers_in(entries + seq![entry]) == headers_in(entries),
{
    assert((entries + seq![entry]).drop_last() == entries);
    if let Some(header) = header_in(entry) {
        assert(headers_in(entries).push(header) == headers_in(entries) + seq![header]);
    }
}

/// The headers that were sent are those of the first frame that lists any.
pub proof fn lemma_headers_of_the_first_frame(report: JsonView, frames: Seq<JsonView>, at: int)
    requires
        report.member("http2"@).member("sent_frames"@) == JsonView::List(frames),
    ensures
        0 <= at < frames.len() && frames[at].member("headers"@) is List && (forall|i: int|
            0 <= i < at ==> !((#[trigger] frames[i]).member("headers"@) is List)) ==> sent_headers(
            report,
        ) == headers_in(frames[at].member("headers"@)->List_0),
        (forall|i: int|
            0 <= i < frames.len() ==> !((#[trigger] frames[i]).member("headers"@) is List))
            ==> sent_headers(report).len() == 0,
{
    if 0 <= at < frames.len() && frames[at].member("headers"@) is List && (forall|i: int|
        0 <= i < at ==> !((#[trigger] frames[i]).member("headers"@) is List)) {
        lemma_first_frame(frames, 0, at);
    }
    if forall|i: int|
        0 <= i < frames.len() ==> !((#[trigger] frames[i]).member("headers"@) is List) {
        lemma_no_frame(frames, 0);
    }
}

proof fn lemma_first_frame(frames: Seq<JsonView>, from: int, at: int)
    requires
        0 <= from <= at < frames.len(),
        frames[at].member("headers"@) is List,
        forall|i: int| from <= i < at ==> !((#[trigger] frames[i]).member("headers"@) is List),
    ensures
        frame_headers(frames, from) == headers_in(frames[at].member("headers"@)->List_0),
    decreases at - from,
{
    if from < at {
        assert(!(frames[from].member("headers"@) is List));
        lemma_first_frame(frames, from + 1, at);
    }
}

proof fn lemma_no_frame(frames: Seq<JsonView>, from: int)
    requires
        0 <= from,
        forall|i: int|
            from <= i < frames.len() ==> !((#[trigger] frames[i]).member("headers"@) is List),
    ensures
        frame_headers(frames, from).len() == 0,
    decreases frames.len() - from,
{
    if from < frames.len() {
        assert(!(frames[from].member("headers"@) is List));
        lemma_no_frame(frames, from + 1);
    }
}

/// A report without a list of frames has no headers.
pub proof fn lemma_report_without_frames(report: JsonView)
    requires
        !(report.member("http2"@).member("sent_frames"@) is List),
    ensures
        sent_headers(report).len() == 0,
{
}

/// What is shown of a report are five things, each as the report has it.
pub proof fn lemma_what_a_summary_shows(report: JsonView, i: int)
    ensures
        summary_json(report) is Object,
        ({
            let members = summary_json(report)->Object_0;
            &&& members.dom() == set!["userAgent"@, "ja3"@, "ja4"@, "akamai"@, "headers"@]
            &&& members["userAgent"@] == report.member("user_agent"@)
            &&& members["ja3"@] == report.member("tls"@).member("ja3_hash"@)
            &&& members["ja4"@] == report.member("tls"@).member("ja4"@)
            &&& members["akamai"@] == report.member("http2"@).member("akamai_fingerprint_hash"@)
            &&& members["headers"@] is List
            &&& members["headers"@]->List_0.len() == sent_headers(report).len()
            &&& 0 <= i < sent_headers(report).len() ==> members["headers"@]->List_0[i]
                == JsonView::List(
                seq![
                    JsonView::Text(sent_headers(report)[i].0),
                    JsonView::Text(sent_headers(report)[i].1),
                ],
            )
        }),
{
    reveal_strlit("userAgent");
    reveal_strlit("ja3");
    reveal_strlit("ja4");
    reveal_strlit("akamai");
    reveal_strlit("headers");
    assert("userAgent"@.len() == 9 && "ja3"@.len() == 3 && "ja4"@.len() == 3 && "akamai"@.len()
        == 6 && "headers"@.len() == 7);
    assert("ja3"@[2] == '3' && "ja4"@[2] == '4');
    let members = summary_json(report)->Object_0;
    assert(members.dom() =~= set!["userAgent"@, "ja3"@, "ja4"@, "akamai"@, "headers"@]);
}

} // verus!
