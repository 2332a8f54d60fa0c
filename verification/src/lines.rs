//! Reading lines from a stream, within a bound, and the bound on what is sent.

use vstd::prelude::*;
use vstd::utf8::*;

use crate::text;
use crate::wire;

verus! {

/// The longest line that a client may send, in bytes.
pub const MAX_REQUEST_LINE: usize = 262144;

/// The longest line that a client is sent, in bytes.
pub const MAX_RESPONSE_LINE: usize = 8388608;

pub const NEWLINE: u8 = 10;

/// `String::from_utf8`: the text that the bytes encode, if they are valid
/// UTF-8.
#[verifier::external_body]
fn text_from_utf8(bytes: Vec<u8>) -> (r: Option<String>)
    ensures
        match r {
            Some(text) => valid_utf8(bytes@) && text@ == decode_utf8(bytes@),
            None => !valid_utf8(bytes@),
        },
{
    String::from_utf8(bytes).ok()
}

/// Where the first line of the bytes ends, at or after `from`.
pub open spec fn newline_from(bytes: Seq<u8>, from: int) -> Option<int>
    decreases bytes.len() - from,
{
    if from < 0 || from >= bytes.len() {
        None
    } else if bytes[from] == NEWLINE {
        Some(from)
    } else {
        newline_from(bytes, from + 1)
    }
}

/// What reading a line comes to.
pub enum LineRead {
    Line(String),
    Eof,
    TooLong,
    NotText,
}

pub enum LineView {
    Line(Seq<char>),
    Eof,
    TooLong,
    NotText,
}

impl View for LineRead {
    type V = LineView;

    open spec fn view(&self) -> LineView {
        match self {
            LineRead::Line(line) => LineView::Line(line@),
            LineRead::Eof => LineView::Eof,
            LineRead::TooLong => LineView::TooLong,
            LineRead::NotText => LineView::NotText,
        }
    }
}

/// A line of these bytes.
pub open spec fn decoded_line(bytes: Seq<u8>) -> LineView {
    if valid_utf8(bytes) {
        LineView::Line(decode_utf8(bytes))
    } else {
        LineView::NotText
    }
}

/// The first line of a stream that consists of these bytes and no more, if it
/// is no longer than `max`. The last line need not end in a newline.
pub open spec fn first_line(stream: Seq<u8>, max: nat) -> LineView {
    match newline_from(stream, 0) {
        Some(at) => if at > max {
            LineView::TooLong
        } else {
            decoded_line(stream.take(at))
        },
        None => if stream.len() == 0 {
            LineView::Eof
        } else if stream.len() > max {
            LineView::TooLong
        } else {
            decoded_line(stream)
        },
    }
}

/// What a stream still holds after its first line.
pub open spec fn after_first_line(stream: Seq<u8>) -> Seq<u8> {
    match newline_from(stream, 0) {
        Some(at) => stream.skip(at + 1),
        None => Seq::empty(),
    }
}

/// How much of what came was used, and what the line came to, unless more of
/// it has to come.
pub struct Fed {
    pub consumed: usize,
    pub read: Option<LineRead>,
}

/// The part of a line that has come, which never is longer than the bound.
pub struct LineReader {
    buffer: Vec<u8>,
    max: usize,
}

pub struct LineReaderView {
    pub buffer: Seq<u8>,
    pub max: nat,
}

impl View for LineReader {
    type V = LineReaderView;

    closed spec fn view(&self) -> LineReaderView {
        LineReaderView { buffer: self.buffer@, max: self.max as nat }
    }
}

impl LineReaderView {
    /// What is kept is within the bound, and part of one line.
    pub open spec fn valid(self) -> bool {
        self.buffer.len() <= self.max && newline_from(self.buffer, 0) is None
    }
}

proof fn lemma_newline(bytes: Seq<u8>, from: int)
    requires
        0 <= from <= bytes.len(),
    ensures
        match newline_from(bytes, from) {
            Some(at) => {
                &&& from <= at < bytes.len()
                &&& bytes[at] == NEWLINE
                &&& forall|i: int| from <= i < at ==> bytes[i] != NEWLINE
            },
            None => forall|i: int| from <= i < bytes.len() ==> bytes[i] != NEWLINE,
        },
    decreases bytes.len() - from,
{
    if from < bytes.len() && bytes[from] != NEWLINE {
        lemma_newline(bytes, from + 1);
    }
}

proof fn lemma_newline_at(bytes: Seq<u8>, from: int, at: int)
    requires
        0 <= from <= at < bytes.len(),
        bytes[at] == NEWLINE,
        forall|i: int| from <= i < at ==> bytes[i] != NEWLINE,
    ensures
        newline_from(bytes, from) == Some(at),
    decreases at - from,
{
    if from < at {
        lemma_newline_at(bytes, from + 1, at);
    }
}

/// A line that has begun ends where the first newline of what follows stands.
proof fn lemma_newline_in_rest(begun: Seq<u8>, rest: Seq<u8>)
    requires
        newline_from(begun, 0) is None,
    ensures
        newline_from(begun + rest, 0) == match newline_from(rest, 0) {
            Some(at) => Some(begun.len() + at),
            None => None,
        },
{
    let all = begun + rest;
    lemma_newline(begun, 0);
    lemma_newline(rest, 0);
    lemma_newline(all, 0);
    match newline_from(rest, 0) {
        Some(at) => {
            assert(all[begun.len() + at] == rest[at]);
            assert forall|i: int| 0 <= i < begun.len() + at implies all[i] != NEWLINE by {
                if i >= begun.len() {
                    assert(all[i] == rest[i - begun.len()]);
                } else {
                    assert(all[i] == begun[i]);
                }
            }
            lemma_newline_at(all, 0, begun.len() + at);
        },
        None => {
            if let Some(at) = newline_from(all, 0) {
                if at >= begun.len() {
                    assert(all[at] == rest[at - begun.len()]);
                } else {
                    assert(all[at] == begun[at]);
                }
            }
        },
    }
}

impl LineReader {
    pub fn new(max: usize) -> (r: Self)
        ensures
            r@ == (LineReaderView { buffer: Seq::empty(), max: max as nat }),
            r@.valid(),
    {
        LineReader { buffer: Vec::new(), max }
    }

    /// Takes in what has come of the stream; nothing means that it is over.
    /// However the stream is cut into pieces, the line that comes out is its
    /// first one, and what is left of the piece is what follows that line. At
    /// the end of the stream nothing is kept.
    pub fn feed(&mut self, available: &[u8]) -> (r: Fed)
        requires
            old(self)@.valid(),
        ensures
            final(self)@.valid(),
            final(self)@.max == old(self)@.max,
            r.consumed <= available@.len(),
            match r.read {
                None => {
                    &&& available@.len() > 0
                    &&& r.consumed == available@.len()
                    &&& newline_from(available@, 0) is None
                    &&& final(self)@.buffer == old(self)@.buffer + available@
                },
                Some(read) => {
                    &&& available@.len() > 0 ==> forall|rest: Seq<u8>|
                        #[trigger] first_line(
                            old(self)@.buffer + available@ + rest,
                            old(self)@.max,
                        ) == read@
                    &&& available@.len() == 0 ==> first_line(
                        old(self)@.buffer,
                        old(self)@.max,
                    ) == read@
                    &&& (read@ is Line || read@ is NotText) && available@.len() > 0 ==> {
                        &&& final(self)@.buffer.len() == 0
                        &&& forall|rest: Seq<u8>|
                            #[trigger] after_first_line(old(self)@.buffer + available@ + rest)
                                == available@.skip(r.consumed as int) + rest
                    }
                    &&& available@.len() == 0 ==> final(self)@.buffer.len() == 0
                    &&& read@ is TooLong ==> r.consumed == 0 && final(self)@ == old(self)@
                },
            },
    {
        let ghost begun = self.buffer@;
        let ghost max = self.max as nat;
        if available.len() == 0 {
            if self.buffer.len() == 0 {
                return Fed { consumed: 0, read: Some(LineRead::Eof) };
            }
            return Fed { consumed: 0, read: Some(self.take_line()) };
        }
        let length: usize = available.len();
        let kept: usize = self.buffer.len();
        let mut position: usize = 0;
        while position < length && available[position] != NEWLINE
            invariant
                length == available@.len(),
                position <= length,
                newline_from(available@, 0) == newline_from(available@, position as int),
            decreases length - position,
        {
            position = position + 1;
        }
        proof {
            lemma_newline(available@, 0);
            assert forall|rest: Seq<u8>|
                position < length implies #[trigger] newline_from(begun + available@ + rest, 0)
                == Some(begun.len() + position) by {
                lemma_newline_in_rest(begun, available@ + rest);
                assert(begun + available@ + rest == begun + (available@ + rest));
                let tail = available@ + rest;
                assert(tail[position as int] == NEWLINE);
                assert forall|i: int| 0 <= i < position implies tail[i] != NEWLINE by {
                    assert(tail[i] == available@[i]);
                }
                lemma_newline_at(tail, 0, position as int);
            }
            if position == length {
                lemma_newline_in_rest(begun, available@);
                assert(newline_from(begun + available@, 0) is None);
            }
        }
        if position < length {
            if kept > self.max || position > self.max - kept {
                return Fed { consumed: 0, read: Some(LineRead::TooLong) };
            }
            let ghost line = begun + available@.take(position as int);
            self.extend(available, position);
            proof {
                assert forall|rest: Seq<u8>|
                    #[trigger] first_line(begun + available@ + rest, max) == decoded_line(line) by {
                    let stream = begun + available@ + rest;
                    assert(newline_from(stream, 0) == Some(begun.len() + position));
                    assert(stream.take(begun.len() + position) == line);
                }
                assert forall|rest: Seq<u8>|
                    #[trigger] after_first_line(begun + available@ + rest) == available@.skip(
                        position + 1,
                    ) + rest by {
                    let stream = begun + available@ + rest;
                    assert(newline_from(stream, 0) == Some(begun.len() + position));
                    assert(stream.skip(begun.len() + position + 1) == available@.skip(position + 1)
                        + rest);
                }
            }
            return Fed { consumed: position + 1, read: Some(self.take_line()) };
        }
        if kept > self.max || length > self.max - kept {
            proof {
                assert forall|rest: Seq<u8>|
                    #[trigger] first_line(begun + available@ + rest, max) == LineView::TooLong by {
                    let stream = begun + available@ + rest;
                    lemma_newline_in_rest(begun + available@, rest);
                    lemma_newline(rest, 0);
                }
            }
            return Fed { consumed: 0, read: Some(LineRead::TooLong) };
        }
        self.extend(available, length);
        assert(available@.take(length as int) == available@);
        Fed { consumed: length, read: None }
    }

    fn extend(&mut self, available: &[u8], count: usize)
        requires
            count <= available@.len(),
        ensures
            final(self)@ == (LineReaderView {
                buffer: old(self)@.buffer + available@.take(count as int),
                ..old(self)@
            }),
    {
        let ghost begun = self.buffer@;
        for i in 0..count
            invariant
                count <= available@.len(),
                self@.max == old(self)@.max,
                self.buffer@ == begun + available@.take(i as int),
        {
            self.buffer.push(available[i]);
            assert(available@.take(i + 1) == available@.take(i as int).push(available@[i as int]));
        }
    }

    fn take_line(&mut self) -> (r: LineRead)
        ensures
            r@ == decoded_line(old(self)@.buffer),
            final(self)@ == (LineReaderView { buffer: Seq::empty(), ..old(self)@ }),
    {
        let mut line: Vec<u8> = Vec::new();
        std::mem::swap(&mut self.buffer, &mut line);
        match text_from_utf8(line) {
            Some(line) => LineRead::Line(line),
            None => LineRead::NotText,
        }
    }
}

/// What is done about a line: it is a request, it is nothing, it ends the
/// connection, or it ends the connection after an answer.
pub enum Incoming {
    Request(String),
    Nothing,
    End,
    Refuse(String),
}

/// A blank line is nothing, and a line over the bound is answered before the
/// client is cut off.
pub fn incoming(read: LineRead) -> (r: Incoming)
    ensures
        match read {
            LineRead::Line(line) => if text::trimmed(line@).len() > 0 {
                r matches Incoming::Request(request) && request@ == text::trimmed(line@)
            } else {
                r is Nothing
            },
            LineRead::Eof => r is End,
            LineRead::NotText => r is End,
            LineRead::TooLong => {
                &&& r matches Incoming::Refuse(answer)
                &&& answer@ == crate::json::json_text(
                    wire::error_json(
                        -1,
                        "line_too_long"@,
                        "request lines are limited to 262144 bytes"@,
                    ),
                )
                &&& wire::one_line(answer@)
                &&& crate::json::reads_as(
                    answer@,
                    wire::error_json(
                        -1,
                        "line_too_long"@,
                        "request lines are limited to 262144 bytes"@,
                    ),
                )
            },
        },
{
    match read {
        LineRead::Line(line) => {
            let request = text::trim(line.as_str());
            if request.as_str().is_empty() {
                Incoming::Nothing
            } else {
                Incoming::Request(request)
            }
        },
        LineRead::Eof => Incoming::End,
        LineRead::NotText => Incoming::End,
        LineRead::TooLong => Incoming::Refuse(
            wire::error_response(
                -1,
                "line_too_long",
                "request lines are limited to 262144 bytes",
            ),
        ),
    }
}

/// A line to send, and whether the client is cut off after it.
pub struct Outgoing {
    pub line: String,
    pub last: bool,
}

/// What is sent in place of a message: the message, if it is within the bound,
/// and otherwise an error that is the last thing the client gets.
pub fn outgoing(message: String) -> (r: Outgoing)
    ensures
        if encode_utf8(message@).len() > MAX_RESPONSE_LINE {
            &&& r.last
            &&& r.line@ == crate::json::json_text(
                wire::error_json(
                    -1,
                    "response_too_large"@,
                    "responses are limited to 8388608 bytes"@,
                ),
            )
            &&& wire::one_line(r.line@)
            &&& crate::json::reads_as(
                r.line@,
                wire::error_json(
                    -1,
                    "response_too_large"@,
                    "responses are limited to 8388608 bytes"@,
                ),
            )
        } else {
            !r.last && r.line == message
        },
        r.last <==> encode_utf8(message@).len() > 8 * 1024 * 1024,
{
    let length: usize = message.as_str().as_bytes().len();
    if length > MAX_RESPONSE_LINE {
        Outgoing {
            line: wire::error_response(
                -1,
                "response_too_large",
                "responses are limited to 8388608 bytes",
            ),
            last: true,
        }
    } else {
        Outgoing { line: message, last: false }
    }
}

/// A line that ends in a newline is all that stands before it, if that is
/// within the bound and is text, and what follows it is left.
pub proof fn lemma_line_is_read_whole(line: Seq<u8>, rest: Seq<u8>, max: nat)
    requires
        !line.contains(10u8),
    ensures
        ({
            let stream = line + seq![10u8] + rest;
            &&& line.len() > max ==> first_line(stream, max) == LineView::TooLong
            &&& line.len() <= max && valid_utf8(line) ==> first_line(stream, max) == LineView::Line(
                decode_utf8(line),
            )
            &&& line.len() <= max && !valid_utf8(line) ==> first_line(stream, max)
                == LineView::NotText
            &&& after_first_line(stream) == rest
        }),
{
    let stream = line + seq![10u8] + rest;
    let at = line.len() as int;
    assert(stream[at] == 10u8);
    assert forall|i: int| 0 <= i < at implies stream[i] != NEWLINE by {
        assert(stream[i] == line[i]);
    }
    lemma_newline_at(stream, 0, at);
    assert(stream.take(at) == line);
    assert(stream.skip(at + 1) == rest);
}

/// The last line need not end in a newline, and nothing is left after it.
pub proof fn lemma_last_line_is_read_whole(line: Seq<u8>, max: nat)
    requires
        !line.contains(10u8),
    ensures
        line.len() == 0 ==> first_line(line, max) == LineView::Eof,
        line.len() > max ==> first_line(line, max) == LineView::TooLong,
        0 < line.len() <= max && valid_utf8(line) ==> first_line(line, max) == LineView::Line(
            decode_utf8(line),
        ),
        0 < line.len() <= max && !valid_utf8(line) ==> first_line(line, max) == LineView::NotText,
        after_first_line(line).len() == 0,
{
    lemma_newline(line, 0);
    if let Some(at) = newline_from(line, 0) {
        assert(line[at] == 10u8);
    }
}

/// What a reader keeps is part of one line and within its bound. Requests are
/// bounded to 256 KiB, and answers to 8 MiB.
pub proof fn lemma_bounds_on_lines(reader: LineReaderView)
    ensures
        reader.valid() <==> reader.buffer.len() <= reader.max && !reader.buffer.contains(10u8),
        MAX_REQUEST_LINE == 256 * 1024,
        MAX_RESPONSE_LINE == 8 * 1024 * 1024,
{
    lemma_newline(reader.buffer, 0);
    if let Some(at) = newline_from(reader.buffer, 0) {
        assert(reader.buffer[at] == 10u8);
    }
}

/// What contracts say of reading a line is all that it came to.
pub proof fn lemma_lines_seen_whole(line: String)
    ensures
        LineRead::Line(line)@ == LineView::Line(line@),
        LineRead::Eof@ == LineView::Eof,
        LineRead::TooLong@ == LineView::TooLong,
        LineRead::NotText@ == LineView::NotText,
{
}

} // verus!
