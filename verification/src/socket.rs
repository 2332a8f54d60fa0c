//! Where the socket may stand, who may speak to it, and when the backend
//! refreshes by itself.

use vstd::prelude::*;

use crate::paths;
use crate::state::App;

verus! {

pub const APP_DIR: &'static str = "omakindle";

pub const SOCKET_NAME: &'static str = "backend.sock";

/// The write bits of the group and of others.
pub const WRITE_BITS: u32 = 0o022;

/// Every bit of the group and of others.
pub const SHARED_BITS: u32 = 0o077;

/// What stands at a path, without following a link: whether it is a directory
/// or a socket, whose it is, and its mode.
pub struct FileFacts {
    pub is_dir: bool,
    pub is_socket: bool,
    pub uid: u32,
    pub mode: u32,
}

/// What looking at a path came to. A failure comes with its message.
pub enum Inspection {
    Found(FileFacts),
    Missing(String),
    Failed(String),
}

/// The refusal of a place that others can get at.
pub open spec fn refusal(message: Seq<char>) -> Seq<char> {
    "refusing to use an insecure socket location: "@ + message
}

pub fn refuse(message: &str) -> (r: String)
    ensures
        r@ == refusal(message@),
{
    "refusing to use an insecure socket location: ".to_owned().concat(message)
}

/// Why a path is no directory of this user, if it is none.
pub open spec fn owner_problem(path: Seq<char>, uid: u32, inspection: Inspection) -> Option<Seq<char>> {
    match inspection {
        Inspection::Missing(message) => Some(
            refusal("cannot inspect "@ + path + ": "@ + message@),
        ),
        Inspection::Failed(message) => Some(refusal("cannot inspect "@ + path + ": "@ + message@)),
        Inspection::Found(facts) => if !facts.is_dir {
            Some(refusal(path + " is not a directory"@))
        } else if facts.uid != uid {
            Some(refusal(path + " is not owned by the current user"@))
        } else {
            None
        },
    }
}

/// Why a path is no directory of this user, with the forbidden bits off, if it
/// is none.
pub open spec fn private_problem(
    path: Seq<char>,
    uid: u32,
    forbidden: u32,
    inspection: Inspection,
) -> Option<Seq<char>> {
    match owner_problem(path, uid, inspection) {
        Some(problem) => Some(problem),
        None => if inspection->Found_0.mode & forbidden != 0 {
            Some(refusal(path + " is accessible to other local users"@))
        } else {
            None
        },
    }
}

/// The answer is the problem, if there is one.
pub open spec fn reports(r: Result<(), String>, problem: Option<Seq<char>>) -> bool {
    match (r, problem) {
        (Ok(_), None) => true,
        (Err(message), Some(problem)) => message@ == problem,
        _ => false,
    }
}

/// The path is a directory of this user.
pub fn require_dir_owner(path: &str, uid: u32, inspection: &Inspection) -> (r: Result<(), String>)
    ensures
        reports(r, owner_problem(path@, uid, *inspection)),
{
    match inspection {
        Inspection::Missing(message) => Err(
            refuse(
                "cannot inspect ".to_owned().concat(path).concat(": ").concat(
                    message.as_str(),
                ).as_str(),
            ),
        ),
        Inspection::Failed(message) => Err(
            refuse(
                "cannot inspect ".to_owned().concat(path).concat(": ").concat(
                    message.as_str(),
                ).as_str(),
            ),
        ),
        Inspection::Found(facts) => {
            if !facts.is_dir {
                return Err(refuse(path.to_owned().concat(" is not a directory").as_str()));
            }
            if facts.uid != uid {
                return Err(
                    refuse(path.to_owned().concat(" is not owned by the current user").as_str()),
                );
            }
            Ok(())
        },
    }
}

/// The path is a directory of this user, and none of the forbidden bits are
/// on.
pub fn require_private_dir(path: &str, uid: u32, forbidden: u32, inspection: &Inspection) -> (r:
    Result<(), String>)
    ensures
        reports(r, private_problem(path@, uid, forbidden, *inspection)),
{
    match require_dir_owner(path, uid, inspection) {
        Ok(()) => {},
        Err(message) => {
            return Err(message);
        },
    }
    match inspection {
        Inspection::Found(facts) => {
            if facts.mode & forbidden != 0 {
                return Err(
                    refuse(path.to_owned().concat(" is accessible to other local users").as_str()),
                );
            }
            Ok(())
        },
        _ => Ok(()),
    }
}

/// A private directory has to be created first, or not: one that exists has to
/// be this user's. Either way its mode is set to 0700 next, and then it is
/// looked at again.
pub fn ensure_private_dir(path: &str, uid: u32, inspection: &Inspection) -> (r: Result<
    bool,
    String,
>)
    ensures
        match inspection {
            Inspection::Found(_) => match owner_problem(path@, uid, *inspection) {
                Some(problem) => r matches Err(message) && message@ == problem,
                None => r == Ok::<bool, String>(false),
            },
            Inspection::Missing(_) => r == Ok::<bool, String>(true),
            Inspection::Failed(problem) => r matches Err(message) && message@ == problem@,
        },
{
    match inspection {
        Inspection::Found(_) => {
            match require_dir_owner(path, uid, inspection) {
                Ok(()) => Ok(false),
                Err(message) => Err(message),
            }
        },
        Inspection::Missing(_) => Ok(true),
        Inspection::Failed(message) => Err(message.clone()),
    }
}

/// A directory is accepted as private if and only if it is a real directory of
/// this user that nobody else has any access to.
pub proof fn lemma_private_dir(path: Seq<char>, uid: u32, inspection: Inspection)
    ensures
        private_problem(path, uid, SHARED_BITS, inspection) is None <==> {
            &&& inspection matches Inspection::Found(facts)
            &&& facts.is_dir
            &&& facts.uid == uid
            &&& facts.mode & 0o077 == 0
        },
        private_problem(path, uid, WRITE_BITS, inspection) is None <==> {
            &&& inspection matches Inspection::Found(facts)
            &&& facts.is_dir
            &&& facts.uid == uid
            &&& facts.mode & 0o022 == 0
        },
{
}

/// The runtime directory, the private directory in it, and the socket in that.
pub struct SocketPlace {
    pub runtime: String,
    pub dir: String,
    pub path: String,
}

pub open spec fn absolute(path: Seq<char>) -> bool {
    path.len() > 0 && path[0] == '/'
}

/// The default place of the socket, of the value of `XDG_RUNTIME_DIR`.
pub fn default_socket_path(runtime: Option<&str>) -> (r: Result<SocketPlace, String>)
    ensures
        match runtime {
            Some(runtime) => if absolute(runtime@) {
                &&& r matches Ok(place)
                &&& place.runtime@ == runtime@
                &&& place.dir@ == paths::joined_path(runtime@, "omakindle"@)
                &&& place.path@ == paths::joined_path(place.dir@, "backend.sock"@)
            } else {
                r matches Err(message) && message@ == refusal(
                    "XDG_RUNTIME_DIR is empty or not an absolute path"@,
                )
            },
            None => r matches Err(message) && message@ == refusal("XDG_RUNTIME_DIR is not set"@),
        },
{
    let runtime = match runtime {
        Some(runtime) => runtime,
        None => {
            return Err(refuse("XDG_RUNTIME_DIR is not set"));
        },
    };
    if runtime.is_empty() || runtime.get_char(0) != '/' {
        return Err(refuse("XDG_RUNTIME_DIR is empty or not an absolute path"));
    }
    let dir = paths::join_path(runtime, APP_DIR);
    let path = paths::join_path(dir.as_str(), SOCKET_NAME);
    Ok(SocketPlace { runtime: runtime.to_owned(), dir, path })
}

/// The directory that a socket's path has to be checked in.
pub fn socket_dir(path: &str, parent: Option<String>) -> (r: Result<String, String>)
    ensures
        if !absolute(path@) {
            r matches Err(message) && message@ == refusal("socket path is not absolute"@)
        } else {
            match parent {
                Some(parent) => r == Ok::<String, String>(parent),
                None => r matches Err(message) && message@ == refusal(
                    "socket path has no parent directory"@,
                ),
            }
        },
{
    if path.is_empty() || path.get_char(0) != '/' {
        return Err(refuse("socket path is not absolute"));
    }
    match parent {
        Some(parent) => Ok(parent),
        None => Err(refuse("socket path has no parent directory")),
    }
}

/// Something that stands at the socket's path is removed only if it is a
/// socket of this user. Says whether there is something to remove.
pub fn existing_socket(path: &str, uid: u32, inspection: &Inspection) -> (r: Result<bool, String>)
    ensures
        match inspection {
            Inspection::Found(facts) => if facts.is_socket && facts.uid == uid {
                r == Ok::<bool, String>(true)
            } else {
                r matches Err(message) && message@ == refusal(
                    path@ + " already exists and is not a user-owned socket"@,
                )
            },
            Inspection::Missing(_) => r == Ok::<bool, String>(false),
            Inspection::Failed(problem) => r matches Err(message) && message@ == problem@,
        },
{
    match inspection {
        Inspection::Found(facts) => {
            if !facts.is_socket || facts.uid != uid {
                return Err(
                    refuse(
                        path.to_owned().concat(
                            " already exists and is not a user-owned socket",
                        ).as_str(),
                    ),
                );
            }
            Ok(true)
        },
        Inspection::Missing(_) => Ok(false),
        Inspection::Failed(message) => Err(message.clone()),
    }
}

/// The socket that was made is this user's, and nobody else can use it.
pub open spec fn socket_private(uid: u32, facts: FileFacts) -> bool {
    facts.is_socket && facts.uid == uid && facts.mode & 0o777 == 0o600
}

pub fn verify_socket(uid: u32, facts: &FileFacts) -> (r: Result<(), String>)
    ensures
        reports(
            r,
            if socket_private(uid, *facts) {
                None
            } else {
                Some(refusal("socket permissions could not be verified"@))
            },
        ),
{
    if !facts.is_socket || facts.uid != uid || facts.mode & 0o777 != 0o600 {
        return Err(refuse("socket permissions could not be verified"));
    }
    Ok(())
}

/// A client is heard only if it runs as this user; otherwise the answer says
/// why it is turned away.
pub fn admit_peer(uid: u32, peer: Result<u32, String>) -> (r: Result<(), String>)
    ensures
        match peer {
            Ok(peer) => if peer == uid {
                r is Ok
            } else {
                r matches Err(message) && message@
                    == "rejected a connection from another local user"@
            },
            Err(problem) => r matches Err(message) && message@
                == "rejected a connection without peer credentials: "@ + problem@,
        },
{
    match peer {
        Ok(peer) => {
            if peer == uid {
                Ok(())
            } else {
                Err("rejected a connection from another local user".to_owned())
            }
        },
        Err(problem) => Err(
            "rejected a connection without peer credentials: ".to_owned().concat(
                problem.as_str(),
            ),
        ),
    }
}

/// The backend refreshes when it starts if there is a session, stored or named
/// by the environment.
pub fn refresh_at_startup(
    stored: &Result<Option<(String, String, String)>, String>,
    dev_credentials_present: bool,
) -> (r: bool)
    ensures
        r == (stored matches Ok(Some(_)) || dev_credentials_present),
{
    match stored {
        Ok(Some(_)) => true,
        _ => dev_credentials_present,
    }
}

/// Seconds between two ticks of the refresh timer.
pub const TICK_SECONDS: u64 = 30;

/// Counts the seconds since the last refresh by the clock.
pub struct RefreshTimer {
    elapsed: u64,
}

impl View for RefreshTimer {
    type V = u64;

    closed spec fn view(&self) -> u64 {
        self.elapsed
    }
}

impl RefreshTimer {
    pub fn new() -> (r: Self)
        ensures
            r@ == 0,
    {
        RefreshTimer { elapsed: 0 }
    }

    /// A tick: says whether a refresh is due, which starts the count anew. The
    /// count stays below a day.
    pub fn tick(&mut self, app: &App) -> (r: bool)
        requires
            old(self)@ < 86400,
        ensures
            r == (old(self)@ + TICK_SECONDS >= app@.refresh_minutes * 60),
            final(self)@ == if r {
                0
            } else {
                old(self)@ + TICK_SECONDS
            },
            final(self)@ < 86400,
    {
        let due: u64 = app.refresh_minutes() * 60;
        self.elapsed = self.elapsed + TICK_SECONDS;
        if self.elapsed >= due {
            self.elapsed = 0;
            return true;
        }
        false
    }
}

/// A refusal says what is wrong with the place, whatever it is.
pub proof fn lemma_what_refusals_say(path: Seq<char>, uid: u32, facts: FileFacts, problem: String)
    ensures
        refusal(path) == "refusing to use an insecure socket location: "@ + path,
        owner_problem(path, uid, Inspection::Missing(problem)) == Some(
            refusal("cannot inspect "@ + path + ": "@ + problem@),
        ),
        owner_problem(path, uid, Inspection::Failed(problem)) == Some(
            refusal("cannot inspect "@ + path + ": "@ + problem@),
        ),
        !facts.is_dir ==> owner_problem(path, uid, Inspection::Found(facts)) == Some(
            refusal(path + " is not a directory"@),
        ),
        facts.is_dir && facts.uid != uid ==> owner_problem(path, uid, Inspection::Found(facts))
            == Some(refusal(path + " is not owned by the current user"@)),
        facts.is_dir && facts.uid == uid ==> owner_problem(path, uid, Inspection::Found(facts))
            is None,
{
}

/// A directory of this user is refused for its bits alone where one of the
/// forbidden ones is on, and a directory that is not is refused for that.
pub proof fn lemma_forbidden_bits(path: Seq<char>, uid: u32, forbidden: u32, facts: FileFacts)
    ensures
        facts.is_dir && facts.uid == uid && facts.mode & forbidden != 0 ==> private_problem(
            path,
            uid,
            forbidden,
            Inspection::Found(facts),
        ) == Some(refusal(path + " is accessible to other local users"@)),
        facts.is_dir && facts.uid == uid && facts.mode & forbidden == 0 ==> private_problem(
            path,
            uid,
            forbidden,
            Inspection::Found(facts),
        ) is None,
        !(facts.is_dir && facts.uid == uid) ==> private_problem(
            path,
            uid,
            forbidden,
            Inspection::Found(facts),
        ) == owner_problem(path, uid, Inspection::Found(facts)),
        SHARED_BITS == 0o077,
        WRITE_BITS == 0o022,
        TICK_SECONDS == 30,
{
}

/// A socket is private if it is this user's, and its mode lets the owner read
/// and write it and nobody do anything else. A path is absolute if it begins
/// with a slash.
pub proof fn lemma_private_socket(uid: u32, facts: FileFacts, path: Seq<char>)
    ensures
        socket_private(uid, facts) <==> facts.is_socket && facts.uid == uid && facts.mode & 0o777
            == 0o600,
        absolute(path) <==> exists|rest: Seq<char>| path == #[trigger] (seq!['/'] + rest),
{
    if absolute(path) {
        assert(path == seq!['/'] + path.skip(1));
    }
}

/// A problem is reported as it is, and only where there is one.
pub proof fn lemma_problems_are_reported(r: Result<(), String>, problem: Seq<char>)
    ensures
        reports(r, None) <==> r is Ok,
        reports(r, Some(problem)) <==> r is Err && r->Err_0@ == problem,
{
}

} // verus!
