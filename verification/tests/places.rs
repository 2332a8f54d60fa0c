use omakindle::keyed::Keyed;
use omakindle::passages::HighlightsCache;
use omakindle::paths::{cache_path, config_dir, highlights_cache_path, session_path};
use omakindle::reading::Cache;
use omakindle::secrets::{
    clear, dev_credentials, dev_credentials_present, load, session_to_store, store, FileError,
};
use omakindle::socket::{
    admit_peer, default_socket_path, ensure_private_dir, existing_socket, refresh_at_startup,
    require_dir_owner, require_private_dir, socket_dir, verify_socket, FileFacts, Inspection,
    RefreshTimer, SHARED_BITS, WRITE_BITS,
};
use omakindle::state::App;

fn session(cookies: &str, token: &str, region: &str) -> (String, String, String) {
    (cookies.to_string(), token.to_string(), region.to_string())
}

#[test]
fn a_stored_session_loads_as_it_was() {
    let cookies = "a=1; b=\"x\\y\"\n; c=\u{e9}";
    let stored = store(cookies, "tok\ten", "de");
    assert_eq!(load(Ok(stored.clone())), Ok(Some(session(cookies, "tok\ten", "de"))));
    assert_eq!(load(Ok(format!("\n {stored} \n"))), Ok(Some(session(cookies, "tok\ten", "de"))));
    assert_eq!(load(Ok(store("", "t", "us"))), Ok(None));
}

#[test]
fn a_session_file_may_be_missing_blank_or_broken() {
    assert_eq!(load(Err(FileError::NotFound)), Ok(None));
    assert_eq!(load(Err(FileError::Other("denied".to_string()))), Err("denied".to_string()));
    assert_eq!(load(Ok(" \n".to_string())), Ok(None));
    assert_eq!(load(Ok("[1]".to_string())), Ok(None));
    assert_eq!(
        load(Ok("{\"cookies\":\"c\",\"deviceToken\":5}".to_string())),
        Ok(Some(session("c", "", "us")))
    );
    let message = load(Ok("{".to_string())).unwrap_err();
    assert!(message.starts_with("stored session is not JSON: "));
    assert!(message.len() > "stored session is not JSON: ".len());
}

#[test]
fn clearing_a_missing_session_is_fine() {
    assert_eq!(clear(Ok(())), Ok(()));
    assert_eq!(clear(Err(FileError::NotFound)), Ok(()));
    assert_eq!(clear(Err(FileError::Other("busy".to_string()))), Err("busy".to_string()));
}

#[test]
fn development_credentials_need_cookies_and_token() {
    let text = |value: &str| Some(value.to_string());
    assert_eq!(dev_credentials(text("c"), text("t"), None), Some(session("c", "t", "us")));
    assert_eq!(dev_credentials(text("c"), text("t"), text("jp")), Some(session("c", "t", "jp")));
    assert_eq!(dev_credentials(text("c"), None, text("jp")), None);
    assert!(dev_credentials_present(Some("c"), Some("t")));
    assert!(!dev_credentials_present(None, Some("t")));
}

#[test]
fn rotated_cookies_are_written_back() {
    let same = Ok(Some(session("c", "t", "us")));
    assert_eq!(session_to_store("c", "t", "us", &same), None);
    let written = session_to_store("c2", "t", "us", &same).unwrap();
    assert_eq!(load(Ok(written)), Ok(Some(session("c2", "t", "us"))));
    assert!(session_to_store("c", "t", "us", &Ok(None)).is_some());
    assert!(session_to_store("c", "t", "us", &Err("x".to_string())).is_some());
}

#[test]
fn files_are_kept_in_the_user_directories() {
    assert_eq!(config_dir(Some("/c"), Some("/h")), "/c/omakindle");
    assert_eq!(config_dir(Some(""), Some("/h")), "omakindle");
    assert_eq!(session_path(None, Some("/h/")), "/h/.config/omakindle/session.json");
    assert_eq!(session_path(None, None), "/tmp/.config/omakindle/session.json");
    assert_eq!(cache_path(Some("/c/"), None), "/c/omakindle/state.json");
    assert_eq!(
        highlights_cache_path(None, Some("/h")),
        "/h/.cache/omakindle/annotations.json"
    );
}

fn dir(uid: u32, mode: u32) -> Inspection {
    Inspection::Found(FileFacts {
        is_dir: true,
        is_socket: false,
        uid,
        mode,
    })
}

fn socket(uid: u32, mode: u32) -> FileFacts {
    FileFacts {
        is_dir: false,
        is_socket: true,
        uid,
        mode,
    }
}

const REFUSAL: &str = "refusing to use an insecure socket location: ";

#[test]
fn directories_must_be_owned_and_private() {
    assert_eq!(require_dir_owner("/d", 7, &dir(7, 0o40777)), Ok(()));
    assert_eq!(
        require_dir_owner("/d", 7, &dir(8, 0o40700)),
        Err(format!("{REFUSAL}/d is not owned by the current user"))
    );
    assert_eq!(
        require_dir_owner("/d", 7, &Inspection::Found(socket(7, 0o600))),
        Err(format!("{REFUSAL}/d is not a directory"))
    );
    assert_eq!(
        require_dir_owner("/d", 7, &Inspection::Missing("no such file".to_string())),
        Err(format!("{REFUSAL}cannot inspect /d: no such file"))
    );
    assert_eq!(
        require_dir_owner("/d", 7, &Inspection::Failed("denied".to_string())),
        Err(format!("{REFUSAL}cannot inspect /d: denied"))
    );
    assert_eq!(require_private_dir("/d", 7, WRITE_BITS, &dir(7, 0o40755)), Ok(()));
    assert_eq!(
        require_private_dir("/d", 7, WRITE_BITS, &dir(7, 0o40775)),
        Err(format!("{REFUSAL}/d is accessible to other local users"))
    );
    assert!(require_private_dir("/d", 7, SHARED_BITS, &dir(7, 0o40755)).is_err());
    assert_eq!(require_private_dir("/d", 7, SHARED_BITS, &dir(7, 0o40700)), Ok(()));
    assert!(require_private_dir("/d", 7, SHARED_BITS, &dir(9, 0o40700)).is_err());
}

#[test]
fn a_private_directory_is_created_or_taken_over() {
    assert_eq!(ensure_private_dir("/d", 7, &Inspection::Missing(String::new())), Ok(true));
    assert_eq!(ensure_private_dir("/d", 7, &dir(7, 0o40777)), Ok(false));
    assert!(ensure_private_dir("/d", 7, &dir(8, 0o40700)).is_err());
    assert_eq!(
        ensure_private_dir("/d", 7, &Inspection::Failed("io".to_string())),
        Err("io".to_string())
    );
}

#[test]
fn the_default_socket_needs_an_absolute_runtime_directory() {
    let message = |runtime: Option<&str>| match default_socket_path(runtime) {
        Err(message) => message,
        Ok(_) => panic!("expected a refusal"),
    };
    assert_eq!(message(None), format!("{REFUSAL}XDG_RUNTIME_DIR is not set"));
    let relative = format!("{REFUSAL}XDG_RUNTIME_DIR is empty or not an absolute path");
    assert_eq!(message(Some("")), relative);
    assert_eq!(message(Some("run/user")), relative);
    match default_socket_path(Some("/run/user/7")) {
        Ok(place) => {
            assert_eq!(place.runtime, "/run/user/7");
            assert_eq!(place.dir, "/run/user/7/omakindle");
            assert_eq!(place.path, "/run/user/7/omakindle/backend.sock");
        }
        Err(message) => panic!("unexpected refusal: {message}"),
    }
}

#[test]
fn a_socket_replaces_only_a_socket_of_the_user() {
    assert_eq!(socket_dir("/a/b", Some("/a".to_string())), Ok("/a".to_string()));
    assert_eq!(
        socket_dir("b", Some(String::new())),
        Err(format!("{REFUSAL}socket path is not absolute"))
    );
    assert_eq!(
        socket_dir("/", None),
        Err(format!("{REFUSAL}socket path has no parent directory"))
    );
    assert_eq!(existing_socket("/s", 7, &Inspection::Missing(String::new())), Ok(false));
    assert_eq!(existing_socket("/s", 7, &Inspection::Found(socket(7, 0o600))), Ok(true));
    let refused = Err(format!("{REFUSAL}/s already exists and is not a user-owned socket"));
    assert_eq!(existing_socket("/s", 7, &Inspection::Found(socket(8, 0o600))), refused);
    assert_eq!(existing_socket("/s", 7, &dir(7, 0o700)), refused);
    assert_eq!(
        existing_socket("/s", 7, &Inspection::Failed("io".to_string())),
        Err("io".to_string())
    );
    assert_eq!(verify_socket(7, &socket(7, 0o140600)), Ok(()));
    assert_eq!(
        verify_socket(7, &socket(7, 0o140660)),
        Err(format!("{REFUSAL}socket permissions could not be verified"))
    );
    assert!(verify_socket(7, &socket(8, 0o140600)).is_err());
}

#[test]
fn only_the_user_is_heard() {
    assert_eq!(admit_peer(7, Ok(7)), Ok(()));
    assert_eq!(
        admit_peer(7, Ok(8)),
        Err("rejected a connection from another local user".to_string())
    );
    assert_eq!(
        admit_peer(7, Err("gone".to_string())),
        Err("rejected a connection without peer credentials: gone".to_string())
    );
}

#[test]
fn the_backend_refreshes_at_startup_with_a_session() {
    assert!(refresh_at_startup(&Ok(Some(session("c", "t", "us"))), false));
    assert!(refresh_at_startup(&Ok(None), true));
    assert!(!refresh_at_startup(&Ok(None), false));
    assert!(!refresh_at_startup(&Err("x".to_string()), false));
}

#[test]
fn the_timer_is_due_after_the_set_minutes() {
    let mut app = App::new(
        Cache {
            region: String::new(),
            books: vec![],
            points: Keyed::new(),
            updated_at: None,
        },
        HighlightsCache { books: Keyed::new() },
    );
    app.set_refresh_minutes(5);
    let mut timer = RefreshTimer::new();
    let due: Vec<bool> = (0..20).map(|_| timer.tick(&app)).collect();
    for (index, due) in due.iter().enumerate() {
        assert_eq!(*due, index == 9 || index == 19);
    }
}
