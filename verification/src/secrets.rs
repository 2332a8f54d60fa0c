//! The stored session: the cookies, the device token and the region.

use vstd::prelude::*;

use crate::json;
use crate::json::JsonView;
use crate::text;

verus! {

/// Why a file could not be read or removed.
pub enum FileError {
    NotFound,
    Other(String),
}

pub type SessionView = (Seq<char>, Seq<char>, Seq<char>);

pub open spec fn session_view(session: (String, String, String)) -> SessionView {
    (session.0@, session.1@, session.2@)
}

/// The session as it is stored.
pub open spec fn session_json(session: SessionView) -> JsonView {
    JsonView::Object(
        Map::<Seq<char>, JsonView>::empty().insert("cookies"@, JsonView::Text(session.0)).insert(
            "deviceToken"@,
            JsonView::Text(session.1),
        ).insert("region"@, JsonView::Text(session.2)),
    )
}

pub open spec fn member_text(value: JsonView, key: Seq<char>, absent: Seq<char>) -> Seq<char> {
    match value.member(key).text() {
        Some(text) => text,
        None => absent,
    }
}

/// The session that a file's text holds. A blank file holds none, nor does one
/// without cookies.
pub open spec fn session_in(file: Seq<char>) -> Result<Option<SessionView>, Seq<char>> {
    let stored = text::trimmed(file);
    if stored.len() == 0 {
        Ok(None)
    } else {
        match json::json_read(stored) {
            Err(message) => Err("stored session is not JSON: "@ + message),
            Ok(value) => {
                let cookies = member_text(value, "cookies"@, Seq::empty());
                if cookies.len() == 0 {
                    Ok(None)
                } else {
                    Ok(
                        Some(
                            (
                                cookies,
                                member_text(value, "deviceToken"@, Seq::empty()),
                                member_text(value, "region"@, "us"@),
                            ),
                        ),
                    )
                }
            },
        }
    }
}

/// What is left of a session once it has been stored: all of it, if it has
/// cookies.
pub open spec fn kept_session(session: SessionView) -> Result<Option<SessionView>, Seq<char>> {
    if session.0.len() > 0 {
        Ok(Some(session))
    } else {
        Ok(None)
    }
}

/// What a session is stored as. Read back, it is the same session; one without
/// cookies is none.
pub fn store(cookies: &str, device_token: &str, region: &str) -> (r: String)
    ensures
        r@ == json::json_text(session_json((cookies@, device_token@, region@))),
        session_in(r@) == kept_session((cookies@, device_token@, region@)),
        cookies@.len() > 0 ==> session_in(r@) == Ok::<Option<SessionView>, Seq<char>>(
            Some((cookies@, device_token@, region@)),
        ),
{
    let mut session = json::json_object();
    json::json_insert(&mut session, "cookies", json::json_string(cookies));
    json::json_insert(&mut session, "deviceToken", json::json_string(device_token));
    json::json_insert(&mut session, "region", json::json_string(region));
    proof {
        reveal_with_fuel(JsonView::plain, 3);
    }
    let stored = json::json_line(&session);
    proof {
        reveal_strlit("cookies");
        reveal_strlit("deviceToken");
        reveal_strlit("region");
        assert("cookies"@.len() != "deviceToken"@.len());
        assert("cookies"@.len() != "region"@.len());
        assert("deviceToken"@.len() != "region"@.len());
        text::lemma_trimmed_fixed(stored@);
        assert(text::trimmed(stored@) == stored@);
    }
    stored
}

fn text_of_member(value: &serde_json::Value, key: &str, absent: &str) -> (r: String)
    ensures
        r@ == member_text(json::json_view(*value), key@, absent@),
{
    match json::json_as_str(json::json_member(value, key)) {
        Some(text) => text.to_owned(),
        None => absent.to_owned(),
    }
}

/// The stored session, given the file's text or why it could not be read. A
/// missing file holds none.
pub fn load(file: Result<String, FileError>) -> (r: Result<
    Option<(String, String, String)>,
    String,
>)
    ensures
        match file {
            Ok(file) => match (r, session_in(file@)) {
                (Ok(Some(session)), Ok(Some(view))) => session_view(session) == view,
                (Ok(None), Ok(None)) => true,
                (Err(message), Err(view)) => message@ == view,
                _ => false,
            },
            Err(FileError::NotFound) => r matches Ok(None),
            Err(FileError::Other(message)) => r matches Err(error) && error@ == message@,
        },
{
    let file = match file {
        Ok(file) => file,
        Err(FileError::NotFound) => {
            return Ok(None);
        },
        Err(FileError::Other(message)) => {
            return Err(message);
        },
    };
    let stored = text::trim(file.as_str());
    if stored.as_str().is_empty() {
        return Ok(None);
    }
    let value = match json::read_json(stored.as_str()) {
        Ok(value) => value,
        Err(message) => {
            return Err("stored session is not JSON: ".to_owned().concat(message.as_str()));
        },
    };
    proof {
        reveal_strlit("");
        assert(""@ == Seq::<char>::empty());
    }
    let cookies = text_of_member(&value, "cookies", "");
    let device_token = text_of_member(&value, "deviceToken", "");
    let region = text_of_member(&value, "region", "us");
    if cookies.as_str().is_empty() {
        return Ok(None);
    }
    Ok(Some((cookies, device_token, region)))
}

/// How clearing the session went, given how removing its file did. There is
/// nothing to clear where there is no file.
pub fn clear(removed: Result<(), FileError>) -> (r: Result<(), String>)
    ensures
        match removed {
            Ok(_) => r is Ok,
            Err(FileError::NotFound) => r is Ok,
            Err(FileError::Other(message)) => r == Err::<(), String>(message),
        },
{
    match removed {
        Ok(()) => Ok(()),
        Err(FileError::NotFound) => Ok(()),
        Err(FileError::Other(message)) => Err(message),
    }
}

/// The session that the environment names for development: cookies and a
/// device token, and a region if it is not the usual one.
pub fn dev_credentials(
    cookies: Option<String>,
    device_token: Option<String>,
    region: Option<String>,
) -> (r: Option<(String, String, String)>)
    ensures
        match (cookies, device_token) {
            (Some(cookies), Some(device_token)) => {
                &&& r matches Some(session)
                &&& session.0 == cookies
                &&& session.1 == device_token
                &&& session.2@ == match region {
                    Some(region) => region@,
                    None => "us"@,
                }
            },
            _ => r is None,
        },
{
    match (cookies, device_token) {
        (Some(cookies), Some(device_token)) => {
            let region = match region {
                Some(region) => region,
                None => "us".to_owned(),
            };
            Some((cookies, device_token, region))
        },
        _ => None,
    }
}

/// The environment names a session for development.
pub fn dev_credentials_present(cookies: Option<&str>, device_token: Option<&str>) -> (r: bool)
    ensures
        r == (cookies is Some && device_token is Some),
{
    cookies.is_some() && device_token.is_some()
}

/// What the store should hold from now on, if that is not what it holds: the
/// cookies that Amazon has changed are written back.
pub fn session_to_store(
    cookies: &str,
    device_token: &str,
    region: &str,
    stored: &Result<Option<(String, String, String)>, String>,
) -> (r: Option<String>)
    ensures
        match r {
            Some(text) => {
                &&& !(stored matches Ok(Some(session)) && session.0@ == cookies@)
                &&& text@ == json::json_text(session_json((cookies@, device_token@, region@)))
                &&& session_in(text@) == kept_session((cookies@, device_token@, region@))
            },
            None => stored matches Ok(Some(session)) && session.0@ == cookies@,
        },
{
    match stored {
        Ok(Some(session)) => {
            if text::same(session.0.as_str(), cookies) {
                return None;
            }
        },
        _ => {},
    }
    Some(store(cookies, device_token, region))
}

/// A session is stored under three names, and all of it is.
pub proof fn lemma_what_is_stored(cookies: Seq<char>, device_token: Seq<char>, region: Seq<char>)
    ensures
        session_json((cookies, device_token, region)) matches JsonView::Object(members) && {
            &&& members.dom() == set!["cookies"@, "deviceToken"@, "region"@]
            &&& members["cookies"@] == JsonView::Text(cookies)
            &&& members["deviceToken"@] == JsonView::Text(device_token)
            &&& members["region"@] == JsonView::Text(region)
        },
        cookies.len() > 0 ==> kept_session((cookies, device_token, region)) == Ok::<
            Option<SessionView>,
            Seq<char>,
        >(Some((cookies, device_token, region))),
        cookies.len() == 0 ==> kept_session((cookies, device_token, region)) == Ok::<
            Option<SessionView>,
            Seq<char>,
        >(None),
{
    reveal_strlit("cookies");
    reveal_strlit("deviceToken");
    reveal_strlit("region");
    assert("cookies"@.len() == 7 && "deviceToken"@.len() == 11 && "region"@.len() == 6);
    let members = session_json((cookies, device_token, region))->Object_0;
    assert(members.dom() =~= set!["cookies"@, "deviceToken"@, "region"@]);
}

/// A file that is blank, or has no cookies, holds no session, and one that is
/// not JSON is an error. Otherwise the session is what the file says, with no
/// device token and the usual region where it says nothing.
pub proof fn lemma_what_a_file_holds(file: Seq<char>)
    ensures
        text::trimmed(file).len() == 0 ==> session_in(file) == Ok::<Option<SessionView>, Seq<char>>(
            None,
        ),
        text::trimmed(file).len() > 0 ==> match json::json_read(text::trimmed(file)) {
            Err(message) => session_in(file) == Err::<Option<SessionView>, Seq<char>>(
                "stored session is not JSON: "@ + message,
            ),
            Ok(value) => match value.member("cookies"@) {
                JsonView::Text(cookies) => if cookies.len() == 0 {
                    session_in(file) == Ok::<Option<SessionView>, Seq<char>>(None)
                } else {
                    session_in(file) == Ok::<Option<SessionView>, Seq<char>>(
                        Some(
                            (
                                cookies,
                                match value.member("deviceToken"@) {
                                    JsonView::Text(token) => token,
                                    _ => Seq::empty(),
                                },
                                match value.member("region"@) {
                                    JsonView::Text(region) => region,
                                    _ => "us"@,
                                },
                            ),
                        ),
                    )
                },
                _ => session_in(file) == Ok::<Option<SessionView>, Seq<char>>(None),
            },
        },
{
}

/// What contracts say of a session is all of it.
pub proof fn lemma_sessions_seen_whole(session: (String, String, String))
    ensures
        session_view(session) == (session.0@, session.1@, session.2@),
{
}

} // verus!
