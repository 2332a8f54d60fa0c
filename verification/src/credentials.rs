//! The cookies and the device token of an Amazon session.

use vstd::prelude::*;
use vstd::utf8::*;

use crate::amazon::Error;
use crate::encoding;
use crate::text;

verus! {

pub const REQUIRED_COOKIES: [&'static str; 4] = ["ubid-main", "at-main", "x-main", "session-id"];

/// The cookies without which there is no session.
pub open spec fn required_cookies() -> Seq<Seq<char>> {
    seq!["ubid-main"@, "at-main"@, "x-main"@, "session-id"@]
}

/// Pairs of a name and a value.
pub type PairsView = Seq<(Seq<char>, Seq<char>)>;

pub open spec fn pair_views(pairs: Seq<(String, String)>) -> PairsView {
    Seq::new(pairs.len(), |i: int| (pairs[i].0@, pairs[i].1@))
}

/// Where a pair with this name first stands, at or after `from`.
pub open spec fn named_from(pairs: PairsView, name: Seq<char>, from: int) -> Option<int>
    decreases pairs.len() - from,
{
    if from < 0 || from >= pairs.len() {
        None
    } else if pairs[from].0 == name {
        Some(from)
    } else {
        named_from(pairs, name, from + 1)
    }
}

/// The value of the first pair with this name.
pub open spec fn value_of(pairs: PairsView, name: Seq<char>) -> Option<Seq<char>> {
    match named_from(pairs, name, 0) {
        Some(at) => Some(pairs[at].1),
        None => None,
    }
}

/// The pairs after `name` has been given `value`: the first pair of that name
/// changes in place, and a new name goes to the end.
pub open spec fn with_value(pairs: PairsView, name: Seq<char>, value: Seq<char>) -> PairsView {
    match named_from(pairs, name, 0) {
        Some(at) => pairs.update(at, (name, value)),
        None => pairs.push((name, value)),
    }
}

pub open spec fn has_name(pairs: PairsView, name: Seq<char>) -> bool {
    named_from(pairs, name, 0) is Some
}

proof fn lemma_named(pairs: PairsView, name: Seq<char>, from: int, at: int)
    requires
        0 <= from <= at < pairs.len(),
        pairs[at].0 == name,
        forall|i: int| from <= i < at ==> pairs[i].0 != name,
    ensures
        named_from(pairs, name, from) == Some(at),
    decreases at - from,
{
    if from < at {
        lemma_named(pairs, name, from + 1, at);
    }
}

proof fn lemma_not_named(pairs: PairsView, name: Seq<char>, from: int)
    requires
        0 <= from,
        forall|i: int| from <= i < pairs.len() ==> pairs[i].0 != name,
    ensures
        named_from(pairs, name, from) is None,
    decreases pairs.len() - from,
{
    if from < pairs.len() {
        lemma_not_named(pairs, name, from + 1);
    }
}

proof fn lemma_named_is_first(pairs: PairsView, name: Seq<char>, from: int)
    requires
        0 <= from,
    ensures
        match named_from(pairs, name, from) {
            Some(at) => {
                &&& from <= at < pairs.len()
                &&& pairs[at].0 == name
                &&& forall|i: int| from <= i < at ==> pairs[i].0 != name
            },
            None => forall|i: int| from <= i < pairs.len() ==> pairs[i].0 != name,
        },
    decreases pairs.len() - from,
{
    if from < pairs.len() && pairs[from].0 != name {
        lemma_named_is_first(pairs, name, from + 1);
    }
}

fn position_of(pairs: &Vec<(String, String)>, name: &str) -> (r: Option<usize>)
    ensures
        match (r, named_from(pair_views(pairs@), name@, 0)) {
            (Some(i), Some(at)) => i == at && i < pairs@.len(),
            (None, None) => true,
            _ => false,
        },
{
    let ghost view = pair_views(pairs@);
    for i in 0..pairs.len()
        invariant
            view == pair_views(pairs@),
            forall|j: int| 0 <= j < i ==> view[j].0 != name@,
    {
        if text::same(pairs[i].0.as_str(), name) {
            proof {
                assert(view[i as int].0 == name@);
                lemma_named(view, name@, 0, i as int);
            }
            return Some(i);
        }
        assert(view[i as int].0 != name@);
    }
    proof {
        lemma_not_named(view, name@, 0);
    }
    None
}

/// The cookie in one chunk of a cookie text: a name and a value around the
/// first equals sign, each trimmed. A chunk without one, or with a blank
/// name, holds none.
pub open spec fn cookie_in(chunk: Seq<char>) -> Option<(Seq<char>, Seq<char>)> {
    let chunk = text::trimmed(chunk);
    match text::found_from(chunk, seq!['='], 0) {
        Some(at) => {
            let name = text::trimmed(chunk.take(at));
            let value = text::trimmed(chunk.skip(at + 1));
            if name.len() > 0 {
                Some((name, value))
            } else {
                None
            }
        },
        None => None,
    }
}

pub open spec fn cookies_in_chunks(chunks: Seq<Seq<char>>) -> PairsView
    decreases chunks.len(),
{
    if chunks.len() == 0 {
        Seq::empty()
    } else {
        let front = cookies_in_chunks(chunks.drop_last());
        match cookie_in(chunks.last()) {
            Some(cookie) => front.push(cookie),
            None => front,
        }
    }
}

/// The characters that end a cookie: a semicolon or a line's end.
pub open spec fn cookie_ends() -> Seq<char> {
    seq![';', '\n', '\r']
}

/// The cookies in a text, in order.
pub open spec fn cookies_in(raw: Seq<char>) -> PairsView {
    cookies_in_chunks(text::split(raw, cookie_ends()))
}

fn parse_cookie(chunk: &str) -> (r: Option<(String, String)>)
    ensures
        match (r, cookie_in(chunk@)) {
            (Some(pair), Some(view)) => (pair.0@, pair.1@) == view,
            (None, None) => true,
            _ => false,
        },
{
    let chunk = text::trim(chunk);
    let chars = text::chars_of(chunk.as_str());
    let len = chars.len();
    let equals = vec!['='];
    assert(equals@ == seq!['=']);
    match text::find_from(&chars, &equals, 0) {
        Some(at) => {
            let name = text::trim(text::text_of(&chars, 0, at).as_str());
            let value = text::trim(text::text_of(&chars, at + 1, len).as_str());
            assert(chunk@.take(at as int) == chars@.subrange(0, at as int));
            assert(chunk@.skip(at + 1) == chars@.subrange(at + 1, len as int));
            if name.as_str().is_empty() {
                None
            } else {
                Some((name, value))
            }
        },
        None => None,
    }
}

/// The cookies in a text, as a browser shows them: `name=value` pairs with
/// semicolons or line breaks between.
pub fn parse_cookies(raw: &str) -> (r: Vec<(String, String)>)
    ensures
        pair_views(r@) == cookies_in(raw@),
{
    let ends = vec![';', '\n', '\r'];
    assert(ends@ == cookie_ends());
    let chunks = text::split_text(raw, &ends);
    let ghost all = text::views(chunks@);
    let mut cookies: Vec<(String, String)> = Vec::new();
    for i in 0..chunks.len()
        invariant
            all == text::views(chunks@),
            pair_views(cookies@) == cookies_in_chunks(all.take(i as int)),
    {
        proof {
            assert(all.take(i + 1).drop_last() == all.take(i as int));
            assert(all.take(i + 1).last() == chunks@[i as int]@);
        }
        let ghost before = pair_views(cookies@);
        if let Some(cookie) = parse_cookie(chunks[i].as_str()) {
            let ghost view = (cookie.0@, cookie.1@);
            cookies.push(cookie);
            assert(pair_views(cookies@) == before.push(view));
        }
    }
    assert(all.take(chunks@.len() as int) == all);
    cookies
}

/// The names of `names` that no pair has.
pub open spec fn names_missing(names: Seq<Seq<char>>, pairs: PairsView) -> Seq<Seq<char>>
    decreases names.len(),
{
    if names.len() == 0 {
        Seq::empty()
    } else {
        let front = names_missing(names.drop_last(), pairs);
        if has_name(pairs, names.last()) {
            front
        } else {
            front.push(names.last())
        }
    }
}

/// The required cookies that are not among these.
pub open spec fn missing_cookies(pairs: PairsView) -> Seq<Seq<char>> {
    names_missing(required_cookies(), pairs)
}

pub proof fn lemma_none_missing(names: Seq<Seq<char>>, pairs: PairsView)
    ensures
        names_missing(names, pairs).len() == 0 <==> (forall|i: int|
            0 <= i < names.len() ==> has_name(pairs, #[trigger] names[i])),
    decreases names.len(),
{
    if names.len() > 0 {
        let front = names.drop_last();
        lemma_none_missing(front, pairs);
        if names_missing(names, pairs).len() == 0 {
            assert forall|i: int| 0 <= i < names.len() implies has_name(pairs, #[trigger] names[i]) by {
                if i < front.len() {
                    assert(front[i] == names[i]);
                }
            }
        }
        if forall|i: int| 0 <= i < names.len() ==> has_name(pairs, #[trigger] names[i]) {
            assert forall|i: int| 0 <= i < front.len() implies has_name(pairs, #[trigger] front[i]) by {
                assert(front[i] == names[i]);
            }
            assert(has_name(pairs, names[names.len() - 1]));
        }
    }
}

fn missing_names(pairs: &Vec<(String, String)>) -> (r: Vec<String>)
    ensures
        text::views(r@) == missing_cookies(pair_views(pairs@)),
{
    let ghost names = required_cookies();
    let ghost view = pair_views(pairs@);
    let mut missing: Vec<String> = Vec::new();
    let mut i: usize = 0;
    while i < 4
        invariant
            i <= 4,
            names == required_cookies(),
            view == pair_views(pairs@),
            text::views(missing@) == names_missing(names.take(i as int), view),
        decreases 4 - i,
    {
        let name: &str = REQUIRED_COOKIES[i];
        proof {
            assert(names.take(i + 1).drop_last() == names.take(i as int));
            assert(name@ == names[i as int]);
        }
        if position_of(pairs, name).is_none() {
            let ghost before = text::views(missing@);
            missing.push(name.to_owned());
            assert(text::views(missing@) == before.push(name@));
        }
        i = i + 1;
    }
    assert(names.take(4) == names);
    missing
}

/// `name=value`.
pub open spec fn cookie_text(cookie: (Seq<char>, Seq<char>)) -> Seq<char> {
    cookie.0 + seq!['='] + cookie.1
}

/// The cookies as a request carries them.
pub open spec fn header_of(pairs: PairsView) -> Seq<char> {
    text::joined(cookie_texts(pairs), "; "@)
}

pub open spec fn cookie_texts(pairs: PairsView) -> Seq<Seq<char>> {
    Seq::new(pairs.len(), |i: int| cookie_text(pairs[i]))
}

/// The cookies and the device token of a session.
pub struct Credentials {
    cookies: Vec<(String, String)>,
    device_token: String,
}

pub struct CredentialsView {
    pub cookies: PairsView,
    pub device_token: Seq<char>,
}

impl CredentialsView {
    /// Every required cookie is there.
    pub open spec fn complete(self) -> bool {
        forall|i: int|
            0 <= i < required_cookies().len() ==> has_name(
                self.cookies,
                #[trigger] required_cookies()[i],
            )
    }

    pub open spec fn set(self, name: Seq<char>, value: Seq<char>) -> CredentialsView {
        CredentialsView { cookies: with_value(self.cookies, name, value), ..self }
    }
}

impl View for Credentials {
    type V = CredentialsView;

    closed spec fn view(&self) -> CredentialsView {
        CredentialsView { cookies: pair_views(self.cookies@), device_token: self.device_token@ }
    }
}

impl Clone for Credentials {
    fn clone(&self) -> (r: Self)
        ensures
            r@ == self@,
    {
        let mut cookies: Vec<(String, String)> = Vec::new();
        for i in 0..self.cookies.len()
            invariant
                cookies@ == self.cookies@.take(i as int),
        {
            cookies.push((self.cookies[i].0.clone(), self.cookies[i].1.clone()));
        }
        assert(cookies@ == self.cookies@);
        Credentials { cookies, device_token: self.device_token.clone() }
    }
}

impl Credentials {
    /// The session in what was pasted, if no required cookie is missing.
    pub fn new(cookies: &str, device_token: &str) -> (r: Result<Self, Error>)
        ensures
            match r {
                Ok(credentials) => {
                    &&& missing_cookies(cookies_in(cookies@)).len() == 0
                    &&& credentials@.cookies == cookies_in(cookies@)
                    &&& credentials@.device_token == encoding::token_in(device_token@)
                    &&& valid_utf8(encoding::token_bytes(device_token@))
                        ==> credentials@.device_token == decode_utf8(
                        encoding::token_bytes(device_token@),
                    )
                    &&& credentials@.complete()
                },
                Err(error) => {
                    &&& missing_cookies(cookies_in(cookies@)).len() > 0
                    &&& error matches Error::Parse(message)
                    &&& message@ == "missing cookies: "@ + text::joined(
                        missing_cookies(cookies_in(cookies@)),
                        ", "@,
                    )
                },
            },
    {
        let parsed = parse_cookies(cookies);
        let missing = missing_names(&parsed);
        if missing.len() > 0 {
            let mut message = "missing cookies: ".to_owned();
            message.append(text::join(&missing, ", ").as_str());
            return Err(Error::Parse(message));
        }
        proof {
            lemma_none_missing(required_cookies(), cookies_in(cookies@));
        }
        let device_token = encoding::extract_device_token(device_token);
        Ok(Credentials { cookies: parsed, device_token })
    }

    pub fn has_device_token(&self) -> (r: bool)
        ensures
            r == (self@.device_token.len() > 0),
    {
        !self.device_token.as_str().is_empty()
    }

    pub fn device_token(&self) -> (r: &str)
        ensures
            r@ == self@.device_token,
    {
        self.device_token.as_str()
    }

    /// The cookies as a request carries them.
    pub fn cookie_header(&self) -> (r: String)
        ensures
            r@ == header_of(self@.cookies),
    {
        let ghost wanted = cookie_texts(self@.cookies);
        let mut parts: Vec<String> = Vec::new();
        for i in 0..self.cookies.len()
            invariant
                wanted == cookie_texts(self@.cookies),
                text::views(parts@) == wanted.take(i as int),
        {
            let mut part = self.cookies[i].0.clone();
            part.push('=');
            part.append(self.cookies[i].1.as_str());
            let ghost before = text::views(parts@);
            let ghost view = part@;
            assert(view == wanted[i as int]);
            parts.push(part);
            assert(text::views(parts@) == before.push(view));
        }
        assert(text::views(parts@) == wanted);
        text::join(&parts, "; ")
    }

    /// The value of the first cookie of this name.
    pub fn get(&self, name: &str) -> (r: Option<&str>)
        ensures
            match (r, value_of(self@.cookies, name@)) {
                (Some(value), Some(view)) => value@ == view,
                (None, None) => true,
                _ => false,
            },
    {
        match position_of(&self.cookies, name) {
            Some(at) => Some(self.cookies[at].1.as_str()),
            None => None,
        }
    }

    /// Gives a cookie a new value, or adds it.
    pub fn set(&mut self, name: &str, value: String)
        ensures
            final(self)@ == old(self)@.set(name@, value@),
    {
        let ghost before = pair_views(self.cookies@);
        let ghost view = (name@, value@);
        match position_of(&self.cookies, name) {
            Some(at) => {
                self.cookies.set(at, (name.to_owned(), value));
                assert(pair_views(self.cookies@) == before.update(at as int, view));
            },
            None => {
                self.cookies.push((name.to_owned(), value));
                assert(pair_views(self.cookies@) == before.push(view));
            },
        }
    }
}

/// A cookie that was set reads back, and every other name reads as before.
pub proof fn lemma_set_then_get(
    credentials: CredentialsView,
    name: Seq<char>,
    value: Seq<char>,
    other: Seq<char>,
)
    ensures
        value_of(credentials.set(name, value).cookies, name) == Some(value),
        other != name ==> value_of(credentials.set(name, value).cookies, other) == value_of(
            credentials.cookies,
            other,
        ),
{
    let old_pairs = credentials.cookies;
    let new_pairs = credentials.set(name, value).cookies;
    lemma_named_is_first(old_pairs, name, 0);
    lemma_named_is_first(old_pairs, other, 0);
    match named_from(old_pairs, name, 0) {
        Some(at) => {
            lemma_named(new_pairs, name, 0, at);
        },
        None => {
            lemma_named(new_pairs, name, 0, old_pairs.len() as int);
        },
    }
    if other != name {
        match named_from(old_pairs, other, 0) {
            Some(at) => {
                lemma_named(new_pairs, other, 0, at);
            },
            None => {
                lemma_not_named(new_pairs, other, 0);
            },
        }
    }
}

/// Setting cookies never loses a required one.
pub proof fn lemma_set_keeps_complete(
    credentials: CredentialsView,
    name: Seq<char>,
    value: Seq<char>,
)
    requires
        credentials.complete(),
    ensures
        credentials.set(name, value).complete(),
{
    let new_pairs = credentials.set(name, value).cookies;
    assert forall|i: int| 0 <= i < required_cookies().len() implies has_name(
        new_pairs,
        #[trigger] required_cookies()[i],
    ) by {
        assert(has_name(credentials.cookies, required_cookies()[i]));
        lemma_set_then_get(credentials, name, value, required_cookies()[i]);
    }
}

/// A cookie that a cookie text can carry: a name, without an equals sign, and
/// a value; neither holds a character that ends a cookie nor has white space
/// at its ends.
pub open spec fn clean_cookie(cookie: (Seq<char>, Seq<char>)) -> bool {
    &&& cookie.0.len() > 0
    &&& text::free_of(cookie.0, cookie_ends())
    &&& !cookie.0.contains('=')
    &&& text::trimmed(cookie.0) == cookie.0
    &&& text::free_of(cookie.1, cookie_ends())
    &&& text::trimmed(cookie.1) == cookie.1
}

pub open spec fn clean_cookies(pairs: PairsView) -> bool {
    forall|i: int| 0 <= i < pairs.len() ==> clean_cookie(#[trigger] pairs[i])
}

proof fn lemma_split_append(front: Seq<char>, back: Seq<char>, seps: Seq<char>)
    requires
        text::free_of(back, seps),
    ensures
        ({
            let parts = text::split(front, seps);
            text::split(front + back, seps) == parts.drop_last().push(parts.last() + back)
        }),
    decreases back.len(),
{
    let parts = text::split(front, seps);
    text::lemma_split_not_empty(front, seps);
    if back.len() == 0 {
        assert(front + back == front);
        assert(parts.last() + back == parts.last());
        assert(parts.drop_last().push(parts.last()) == parts);
    } else {
        let whole = front + back;
        let less = back.drop_last();
        assert forall|i: int| 0 <= i < less.len() implies !seps.contains(#[trigger] less[i]) by {
            assert(less[i] == back[i]);
        }
        lemma_split_append(front, less, seps);
        assert(whole.drop_last() == front + less);
        assert(whole.last() == back.last());
        assert(!seps.contains(back[back.len() - 1]));
        let before = text::split(front + less, seps);
        assert(before == parts.drop_last().push(parts.last() + less));
        assert(before.drop_last() == parts.drop_last());
        assert(before.last().push(back.last()) == parts.last() + back);
    }
}

proof fn lemma_split_separated(front: Seq<char>, sep: char, back: Seq<char>, seps: Seq<char>)
    requires
        seps.contains(sep),
        text::free_of(back, seps),
    ensures
        text::split(front.push(sep) + back, seps) == text::split(front, seps).push(back),
{
    let marked = front.push(sep);
    assert(marked.drop_last() == front);
    let parts = text::split(front, seps);
    assert(text::split(marked, seps) == parts.push(Seq::<char>::empty()));
    lemma_split_append(marked, back, seps);
    assert(parts.push(Seq::<char>::empty()).drop_last() == parts);
    assert(Seq::<char>::empty() + back == back);
}

proof fn lemma_white_space_ends(s: Seq<char>)
    requires
        s.len() > 0,
        text::trimmed(s) == s,
    ensures
        !text::is_white_space(s.first()),
        !text::is_white_space(s.last()),
{
    text::lemma_trimmed_start_shrinks(s);
    text::lemma_trimmed_end_shrinks(text::trimmed_start(s));
    if text::is_white_space(s.first()) {
        text::lemma_trimmed_start_shrinks(s.drop_first());
    }
    assert(text::trimmed_start(s) == s);
    if text::is_white_space(s.last()) {
        text::lemma_trimmed_end_shrinks(s.drop_last());
    }
}

proof fn lemma_first_equals(name: Seq<char>, value: Seq<char>, from: int)
    requires
        !name.contains('='),
        0 <= from <= name.len(),
    ensures
        text::found_from(name + seq!['='] + value, seq!['='], from) == Some(name.len() as int),
    decreases name.len() - from,
{
    let whole = name + seq!['='] + value;
    if from < name.len() {
        assert(whole.subrange(from, from + 1)[0] == name[from]);
        assert(name.contains(name[from]));
        assert(whole.subrange(from, from + 1) != seq!['=']);
        lemma_first_equals(name, value, from + 1);
    } else {
        assert(whole.subrange(from, from + 1) == seq!['=']);
    }
}

proof fn lemma_cookie_reads_back(cookie: (Seq<char>, Seq<char>), lead: Seq<char>)
    requires
        clean_cookie(cookie),
        lead == Seq::<char>::empty() || lead == seq![' '],
    ensures
        cookie_in(lead + cookie_text(cookie)) == Some(cookie),
{
    let (name, value) = cookie;
    let t = cookie_text(cookie);
    lemma_white_space_ends(name);
    if value.len() > 0 {
        lemma_white_space_ends(value);
        assert(t.last() == value.last());
    } else {
        assert(t.last() == '=');
    }
    assert(t.first() == name.first());
    text::lemma_trimmed_fixed(t);
    if lead.len() == 0 {
        assert(lead + t == t);
    } else {
        assert((lead + t).drop_first() == t);
        assert(text::trimmed_start(lead + t) == text::trimmed_start(t));
    }
    lemma_first_equals(name, value, 0);
    assert(t.take(name.len() as int) == name);
    assert(t.skip(name.len() as int + 1) == value);
}

/// The chunks that the header of these cookies falls into: all but the first
/// have a space in front.
spec fn header_chunks(pairs: PairsView) -> Seq<Seq<char>> {
    Seq::new(
        pairs.len(),
        |i: int|
            if i == 0 {
                cookie_text(pairs[i])
            } else {
                seq![' '] + cookie_text(pairs[i])
            },
    )
}

proof fn lemma_header_splits(pairs: PairsView)
    requires
        clean_cookies(pairs),
        pairs.len() > 0,
    ensures
        text::split(header_of(pairs), cookie_ends()) == header_chunks(pairs),
    decreases pairs.len(),
{
    let last = pairs.last();
    let t = cookie_text(last);
    let front = pairs.drop_last();
    assert(cookie_texts(pairs).drop_last() == cookie_texts(front));
    assert(cookie_texts(pairs).last() == t);
    assert(clean_cookie(pairs[pairs.len() - 1]));
    assert forall|i: int| 0 <= i < t.len() implies !cookie_ends().contains(#[trigger] t[i]) by {
        if i < last.0.len() {
            assert(t[i] == last.0[i]);
        } else if i > last.0.len() {
            assert(t[i] == last.1[i - last.0.len() - 1]);
        }
    }
    if pairs.len() == 1 {
        let none = Seq::<char>::empty();
        assert(cookie_texts(front).len() == 0);
        assert(text::joined(cookie_texts(front), "; "@) == none);
        assert(cookie_texts(pairs).len() == 1);
        assert(header_of(pairs) == none + none + t);
        assert(none + none + t == none + t);
        lemma_split_append(none, t, cookie_ends());
        assert(text::split(none, cookie_ends()) == seq![none]);
        assert(none + t == t);
        assert(seq![none].drop_last().push(t) == header_chunks(pairs));
    } else {
        assert forall|i: int| 0 <= i < front.len() implies clean_cookie(#[trigger] front[i]) by {
            assert(front[i] == pairs[i]);
        }
        lemma_header_splits(front);
        let spaced = seq![' '] + t;
        assert forall|i: int| 0 <= i < spaced.len() implies !cookie_ends().contains(
            #[trigger] spaced[i],
        ) by {
            if i > 0 {
                assert(spaced[i] == t[i - 1]);
            }
        }
        reveal_strlit("; ");
        assert("; "@ == seq![';', ' ']);
        assert(header_of(pairs) == header_of(front) + seq![';', ' '] + t);
        assert(header_of(pairs) == header_of(front).push(';') + spaced);
        assert(cookie_ends()[0] == ';');
        lemma_split_separated(header_of(front), ';', spaced, cookie_ends());
        assert(header_chunks(front).push(spaced) == header_chunks(pairs));
    }
}

proof fn lemma_chunks_read_back(pairs: PairsView, n: int)
    requires
        clean_cookies(pairs),
        0 <= n <= pairs.len(),
    ensures
        cookies_in_chunks(header_chunks(pairs).take(n)) == pairs.take(n),
    decreases n,
{
    let chunks = header_chunks(pairs);
    if n > 0 {
        lemma_chunks_read_back(pairs, n - 1);
        assert(chunks.take(n).drop_last() == chunks.take(n - 1));
        assert(clean_cookie(pairs[n - 1]));
        if n == 1 {
            assert(Seq::<char>::empty() + cookie_text(pairs[0]) == cookie_text(pairs[0]));
            lemma_cookie_reads_back(pairs[0], Seq::empty());
        } else {
            lemma_cookie_reads_back(pairs[n - 1], seq![' ']);
        }
        assert(pairs.take(n - 1).push(pairs[n - 1]) == pairs.take(n));
    }
}

/// The header of a session's cookies, read again, gives the same cookies: a
/// session that is stored and reloaded is the session that was stored.
pub proof fn lemma_header_reads_back(pairs: PairsView)
    requires
        clean_cookies(pairs),
    ensures
        cookies_in(header_of(pairs)) == pairs,
{
    if pairs.len() == 0 {
        let none = Seq::<char>::empty();
        assert(header_of(pairs) == none);
        assert(text::split(none, cookie_ends()) == seq![none]);
        assert(seq![none].drop_last() == Seq::<Seq<char>>::empty());
        assert(text::trimmed(none) == none);
        assert(cookie_in(none) is None);
        assert(cookies_in_chunks(Seq::<Seq<char>>::empty()) == pairs);
        assert(cookies_in_chunks(seq![none]) == pairs);
    } else {
        lemma_header_splits(pairs);
        lemma_chunks_read_back(pairs, pairs.len() as int);
        assert(header_chunks(pairs).take(pairs.len() as int) == header_chunks(pairs));
        assert(pairs.take(pairs.len() as int) == pairs);
    }
}

proof fn lemma_parsed_cookie_clean(chunk: Seq<char>)
    requires
        text::free_of(chunk, cookie_ends()),
    ensures
        cookie_in(chunk) matches Some(cookie) ==> clean_cookie(cookie),
{
    if cookie_in(chunk) is Some {
        let c = text::trimmed(chunk);
        text::lemma_trimmed(chunk);
        let (from, to) = choose|from: int, to: int|
            0 <= from <= to <= chunk.len() && c == #[trigger] chunk.subrange(from, to);
        assert forall|i: int| 0 <= i < c.len() implies !cookie_ends().contains(#[trigger] c[i]) by {
            assert(c[i] == chunk[from + i]);
        }
        let at = text::found_from(c, seq!['='], 0)->0;
        lemma_found_first(c, 0);
        let before = c.take(at);
        let after = c.skip(at + 1);
        let (name, value) = cookie_in(chunk)->0;
        text::lemma_trimmed(before);
        text::lemma_trimmed(after);
        let (nf, nt) = choose|nf: int, nt: int|
            0 <= nf <= nt <= before.len() && name == #[trigger] before.subrange(nf, nt);
        let (vf, vt) = choose|vf: int, vt: int|
            0 <= vf <= vt <= after.len() && value == #[trigger] after.subrange(vf, vt);
        assert forall|i: int| 0 <= i < name.len() implies !cookie_ends().contains(#[trigger] name[i])
            && name[i] != '=' by {
            assert(name[i] == c[nf + i]);
        }
        assert forall|i: int| 0 <= i < value.len() implies !cookie_ends().contains(#[trigger] value[i]) by {
            assert(value[i] == c[at + 1 + vf + i]);
        }
    }
}

proof fn lemma_found_first(s: Seq<char>, from: int)
    requires
        0 <= from,
    ensures
        text::found_from(s, seq!['='], from) matches Some(at) ==> {
            &&& from <= at < s.len()
            &&& forall|i: int| from <= i < at ==> s[i] != '='
        },
    decreases s.len() - from + 1,
{
    if from + 1 <= s.len() && !text::occurs_at(s, seq!['='], from) {
        lemma_found_first(s, from + 1);
        if s[from] == '=' {
            assert(s.subrange(from, from + 1) == seq!['=']);
        }
    }
}

/// Every cookie that a text yields can be carried by a cookie text again.
pub proof fn lemma_parsed_cookies_clean(raw: Seq<char>)
    ensures
        clean_cookies(cookies_in(raw)),
{
    text::lemma_split_parts_free(raw, cookie_ends());
    let chunks = text::split(raw, cookie_ends());
    lemma_chunks_clean(chunks);
}

proof fn lemma_chunks_clean(chunks: Seq<Seq<char>>)
    requires
        forall|i: int| 0 <= i < chunks.len() ==> text::free_of(#[trigger] chunks[i], cookie_ends()),
    ensures
        clean_cookies(cookies_in_chunks(chunks)),
    decreases chunks.len(),
{
    if chunks.len() > 0 {
        let front = chunks.drop_last();
        assert forall|i: int| 0 <= i < front.len() implies text::free_of(#[trigger] front[i], cookie_ends()) by {
            assert(front[i] == chunks[i]);
        }
        lemma_chunks_clean(front);
        assert(text::free_of(chunks[chunks.len() - 1], cookie_ends()));
        lemma_parsed_cookie_clean(chunks.last());
    }
}

/// Setting a clean cookie keeps the cookies clean, so a session whose cookies
/// Amazon has rotated can still be stored and reloaded.
pub proof fn lemma_set_keeps_clean(pairs: PairsView, name: Seq<char>, value: Seq<char>)
    requires
        clean_cookies(pairs),
        clean_cookie((name, value)),
    ensures
        clean_cookies(with_value(pairs, name, value)),
{
    lemma_named_is_first(pairs, name, 0);
}

/// The value of a name is that of the first pair that has it, and there is none
/// where no pair has it.
pub proof fn lemma_first_of_a_name(pairs: PairsView, name: Seq<char>, i: int)
    ensures
        0 <= i < pairs.len() && pairs[i].0 == name && (forall|j: int|
            0 <= j < i ==> (#[trigger] pairs[j]).0 != name) ==> value_of(pairs, name) == Some(
            pairs[i].1,
        ),
        (forall|j: int| 0 <= j < pairs.len() ==> (#[trigger] pairs[j]).0 != name) ==> value_of(
            pairs,
            name,
        ) is None,
        has_name(pairs, name) <==> exists|j: int|
            0 <= j < pairs.len() && (#[trigger] pairs[j]).0 == name,
{
    lemma_named_is_first(pairs, name, 0);
}

/// Giving a name a value changes the first pair of that name in its place, or
/// adds a pair at the end where there is none; every other pair stays, and so
/// does the device's token.
pub proof fn lemma_set_changes_one_pair(
    session: CredentialsView,
    name: Seq<char>,
    value: Seq<char>,
    i: int,
)
    ensures
        session.set(name, value).device_token == session.device_token,
        0 <= i < session.cookies.len() && session.cookies[i].0 == name && (forall|j: int|
            0 <= j < i ==> (#[trigger] session.cookies[j]).0 != name) ==> {
            let after = session.set(name, value).cookies;
            &&& after.len() == session.cookies.len()
            &&& after[i] == (name, value)
            &&& forall|j: int|
                0 <= j < after.len() && j != i ==> #[trigger] after[j] == session.cookies[j]
        },
        (forall|j: int| 0 <= j < session.cookies.len() ==> (#[trigger] session.cookies[j]).0 != name)
            ==> session.set(name, value).cookies == session.cookies + seq![(name, value)],
{
    lemma_named_is_first(session.cookies, name, 0);
    assert(session.cookies + seq![(name, value)] == session.cookies.push((name, value)));
}

/// A required cookie is missing if and only if no cookie has its name. Four are
/// required.
pub proof fn lemma_which_cookies_are_missing(pairs: PairsView, name: Seq<char>)
    ensures
        required_cookies() == seq!["ubid-main"@, "at-main"@, "x-main"@, "session-id"@],
        missing_cookies(pairs).contains(name) <==> {
            &&& name == "ubid-main"@ || name == "at-main"@ || name == "x-main"@ || name
                == "session-id"@
            &&& forall|j: int| 0 <= j < pairs.len() ==> (#[trigger] pairs[j]).0 != name
        },
{
    lemma_missing_names(required_cookies(), pairs, name);
    lemma_named_is_first(pairs, name, 0);
    let required = required_cookies();
    assert(required[0] == "ubid-main"@ && required[1] == "at-main"@ && required[2] == "x-main"@
        && required[3] == "session-id"@);
}

/// The missing names keep their order.
pub proof fn lemma_missing_in_order(first: Seq<Seq<char>>, second: Seq<Seq<char>>, pairs: PairsView)
    ensures
        names_missing(first + second, pairs) == names_missing(first, pairs) + names_missing(
            second,
            pairs,
        ),
    decreases second.len(),
{
    if second.len() == 0 {
        assert(first + second == first);
        assert(names_missing(first, pairs) + names_missing(second, pairs) == names_missing(
            first,
            pairs,
        ));
    } else {
        lemma_missing_in_order(first, second.drop_last(), pairs);
        assert((first + second).drop_last() == first + second.drop_last());
        assert((first + second).last() == second.last());
        assert((names_missing(first, pairs) + names_missing(second.drop_last(), pairs)).push(
            second.last(),
        ) == names_missing(first, pairs) + names_missing(second.drop_last(), pairs).push(
            second.last(),
        ));
    }
}

proof fn lemma_missing_names(names: Seq<Seq<char>>, pairs: PairsView, name: Seq<char>)
    ensures
        names_missing(names, pairs).contains(name) <==> names.contains(name) && !has_name(
            pairs,
            name,
        ),
    decreases names.len(),
{
    if names.len() > 0 {
        let less = names.drop_last();
        lemma_missing_names(less, pairs, name);
        let front = names_missing(less, pairs);
        let all = names_missing(names, pairs);
        assert(names.contains(name) <==> less.contains(name) || names.last() == name) by {
            if less.contains(name) {
                let k = choose|k: int| 0 <= k < less.len() && less[k] == name;
                assert(names[k] == name);
            }
            if names.contains(name) {
                let k = choose|k: int| 0 <= k < names.len() && names[k] == name;
                if k < less.len() {
                    assert(less[k] == name);
                }
            }
            assert(names[names.len() - 1] == names.last());
        }
        if !has_name(pairs, names.last()) {
            if front.contains(name) {
                let k = choose|k: int| 0 <= k < front.len() && front[k] == name;
                assert(all[k] == name);
            }
            assert(all[front.len() as int] == names.last());
            if all.contains(name) {
                let k = choose|k: int| 0 <= k < all.len() && all[k] == name;
                if k < front.len() {
                    assert(front[k] == name);
                }
            }
        }
    }
}

/// A session is complete if each of the four required cookies is there.
pub proof fn lemma_complete_session(session: CredentialsView)
    ensures
        session.complete() <==> {
            &&& has_name(session.cookies, "ubid-main"@)
            &&& has_name(session.cookies, "at-main"@)
            &&& has_name(session.cookies, "x-main"@)
            &&& has_name(session.cookies, "session-id"@)
        },
{
    let required = required_cookies();
    assert(required[0] == "ubid-main"@ && required[1] == "at-main"@ && required[2] == "x-main"@
        && required[3] == "session-id"@);
}

/// A chunk's name and value are what stands before and behind its first equals
/// sign, trimmed. Without such a sign, or without a name, there is no cookie.
pub proof fn lemma_cookie_of_a_chunk(name: Seq<char>, value: Seq<char>)
    requires
        !name.contains('='),
    ensures
        text::trimmed(name).len() > 0 ==> cookie_in(name + seq!['='] + value) == Some(
            (text::trimmed(name), text::trimmed(value)),
        ),
        text::trimmed(name).len() == 0 ==> cookie_in(name + seq!['='] + value) is None,
        cookie_in(name) is None,
{
    let chunk = name + seq!['='] + value;
    text::lemma_trimmed_around(name, '=', value);
    let start = text::trimmed_start(name);
    let end = text::trimmed_end(value);
    let core = start + seq!['='] + end;
    assert(text::trimmed(chunk) == core);
    assert(!start.contains('=')) by {
        text::lemma_trimmed_start_shrinks(name);
        if start.contains('=') {
            let k = choose|k: int| 0 <= k < start.len() && start[k] == '=';
            assert(name[name.len() - start.len() + k] == '=');
        }
    }
    text::lemma_found_char(start, '=', end);
    assert(core.take(start.len() as int) == start);
    assert(core.skip(start.len() as int + 1) == end);
    text::lemma_trimmed_twice(name);
    text::lemma_trimmed_twice(value);
    assert(!text::trimmed(name).contains('=')) by {
        assert(text::free_of(name, seq!['=']));
        text::lemma_trimmed_keeps_free(name, seq!['=']);
        if text::trimmed(name).contains('=') {
            let k = choose|k: int|
                0 <= k < text::trimmed(name).len() && text::trimmed(name)[k] == '=';
            assert(seq!['='][0] == '=');
            assert(seq!['='].contains(text::trimmed(name)[k]));
        }
    }
    text::lemma_found_char(text::trimmed(name), '=', value);
}

/// The cookies of a text are those of its chunks, one after the other: a
/// semicolon or the end of a line ends a chunk.
pub proof fn lemma_cookies_in_turn(first: Seq<char>, end: char, second: Seq<char>)
    requires
        end == ';' || end == '\n' || end == '\r',
    ensures
        cookies_in(first + seq![end] + second) == cookies_in(first) + cookies_in(second),
{
    let ends = cookie_ends();
    assert(ends[0] == ';' && ends[1] == '\n' && ends[2] == '\r');
    text::lemma_split_in_turn(first, end, second, ends);
    lemma_chunks_in_turn(text::split(first, ends), text::split(second, ends));
}

/// A text without such an end is one chunk.
pub proof fn lemma_cookies_of_one_chunk(chunk: Seq<char>)
    requires
        !chunk.contains(';'),
        !chunk.contains('\n'),
        !chunk.contains('\r'),
    ensures
        cookie_in(chunk) is Some ==> cookies_in(chunk) == seq![cookie_in(chunk)->0],
        cookie_in(chunk) is None ==> cookies_in(chunk).len() == 0,
{
    let ends = cookie_ends();
    assert(text::free_of(chunk, ends));
    text::lemma_split_whole(chunk, ends);
    let chunks = text::split(chunk, ends);
    assert(chunks == seq![chunk]);
    assert(chunks.drop_last() == Seq::<Seq<char>>::empty());
    assert(cookies_in_chunks(chunks.drop_last()) == PairsView::empty());
    if let Some(cookie) = cookie_in(chunk) {
        assert(PairsView::empty().push(cookie) == seq![cookie]);
    }
}

proof fn lemma_chunks_in_turn(first: Seq<Seq<char>>, second: Seq<Seq<char>>)
    ensures
        cookies_in_chunks(first + second) == cookies_in_chunks(first) + cookies_in_chunks(second),
    decreases second.len(),
{
    if second.len() == 0 {
        assert(first + second == first);
        assert(cookies_in_chunks(first) + cookies_in_chunks(second) == cookies_in_chunks(first));
    } else {
        lemma_chunks_in_turn(first, second.drop_last());
        assert((first + second).drop_last() == first + second.drop_last());
        assert((first + second).last() == second.last());
        if let Some(cookie) = cookie_in(second.last()) {
            assert((cookies_in_chunks(first) + cookies_in_chunks(second.drop_last())).push(cookie)
                == cookies_in_chunks(first) + cookies_in_chunks(second.drop_last()).push(cookie));
        }
    }
}

/// The header lists the cookies in order, each as its name, an equals sign and
/// its value, with a semicolon and a blank between.
pub proof fn lemma_header_lists_cookies(pairs: PairsView, name: Seq<char>, value: Seq<char>)
    ensures
        header_of(Seq::empty()) == Seq::<char>::empty(),
        header_of(seq![(name, value)]) == name + seq!['='] + value,
        pairs.len() > 0 ==> header_of(pairs.push((name, value))) == header_of(pairs) + "; "@ + (name
            + seq!['='] + value),
{
    let one = name + seq!['='] + value;
    text::lemma_join_one_more(cookie_texts(pairs), one, "; "@);
    assert(cookie_texts(Seq::empty()) == Seq::<Seq<char>>::empty());
    assert(cookie_texts(seq![(name, value)]) == seq![one]);
    assert(cookie_texts(pairs.push((name, value))) == cookie_texts(pairs).push(one));
}

/// What contracts say of a list of pairs is what each of them holds, in order.
pub proof fn lemma_pairs_seen_whole(pairs: Seq<(String, String)>, i: int)
    ensures
        pair_views(pairs).len() == pairs.len(),
        0 <= i < pairs.len() ==> pair_views(pairs)[i] == (pairs[i].0@, pairs[i].1@),
{
}

} // verus!
