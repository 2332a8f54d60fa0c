//! Where the session and the caches are kept.

use vstd::prelude::*;

verus! {

/// The path of `name` in a directory. `name` is no absolute path.
pub open spec fn joined_path(dir: Seq<char>, name: Seq<char>) -> Seq<char> {
    if dir.len() == 0 || dir.last() == '/' {
        dir + name
    } else {
        dir + "/"@ + name
    }
}

pub fn join_path(dir: &str, name: &str) -> (r: String)
    ensures
        r@ == joined_path(dir@, name@),
{
    let length: usize = dir.unicode_len();
    if length == 0 || dir.get_char(length - 1) == '/' {
        dir.to_owned().concat(name)
    } else {
        dir.to_owned().concat("/").concat(name)
    }
}

/// The base directory that `variable` names, and `fallback` in the home
/// directory without it. `/tmp` stands in for a home directory.
pub open spec fn base_of(
    variable: Option<Seq<char>>,
    home: Option<Seq<char>>,
    fallback: Seq<char>,
) -> Seq<char> {
    match variable {
        Some(base) => base,
        None => joined_path(
            match home {
                Some(home) => home,
                None => "/tmp"@,
            },
            fallback,
        ),
    }
}

pub open spec fn opt_view(text: Option<&str>) -> Option<Seq<char>> {
    match text {
        Some(text) => Some(text@),
        None => None,
    }
}

fn base_dir(variable: Option<&str>, home: Option<&str>, fallback: &str) -> (r: String)
    ensures
        r@ == base_of(opt_view(variable), opt_view(home), fallback@),
{
    match variable {
        Some(base) => base.to_owned(),
        None => {
            let home = match home {
                Some(home) => home,
                None => "/tmp",
            };
            join_path(home, fallback)
        },
    }
}

/// The directory of the session, of the values of `XDG_CONFIG_HOME` and
/// `HOME`.
pub fn config_dir(config_home: Option<&str>, home: Option<&str>) -> (r: String)
    ensures
        r@ == joined_path(
            base_of(opt_view(config_home), opt_view(home), ".config"@),
            "omakindle"@,
        ),
{
    join_path(base_dir(config_home, home, ".config").as_str(), "omakindle")
}

/// The file of the session.
pub fn session_path(config_home: Option<&str>, home: Option<&str>) -> (r: String)
    ensures
        r@ == joined_path(
            joined_path(
                base_of(opt_view(config_home), opt_view(home), ".config"@),
                "omakindle"@,
            ),
            "session.json"@,
        ),
{
    join_path(config_dir(config_home, home).as_str(), "session.json")
}

/// The directory of the caches, of the values of `XDG_CACHE_HOME` and `HOME`.
pub fn cache_dir(cache_home: Option<&str>, home: Option<&str>) -> (r: String)
    ensures
        r@ == joined_path(
            base_of(opt_view(cache_home), opt_view(home), ".cache"@),
            "omakindle"@,
        ),
{
    join_path(base_dir(cache_home, home, ".cache").as_str(), "omakindle")
}

/// The file of the library and the progress in it.
pub fn cache_path(cache_home: Option<&str>, home: Option<&str>) -> (r: String)
    ensures
        r@ == joined_path(
            joined_path(
                base_of(opt_view(cache_home), opt_view(home), ".cache"@),
                "omakindle"@,
            ),
            "state.json"@,
        ),
{
    join_path(cache_dir(cache_home, home).as_str(), "state.json")
}

/// The file of the highlights.
pub fn highlights_cache_path(cache_home: Option<&str>, home: Option<&str>) -> (r: String)
    ensures
        r@ == joined_path(
            joined_path(
                base_of(opt_view(cache_home), opt_view(home), ".cache"@),
                "omakindle"@,
            ),
            "annotations.json"@,
        ),
{
    join_path(cache_dir(cache_home, home).as_str(), "annotations.json")
}

/// A name is put behind its directory with one slash between, which the
/// directory may already end in.
pub proof fn lemma_joined_path(dir: Seq<char>, name: Seq<char>)
    ensures
        dir.len() == 0 ==> joined_path(dir, name) == name,
        dir.len() > 0 && dir[dir.len() - 1] == '/' ==> joined_path(dir, name) == dir + name,
        dir.len() > 0 && dir[dir.len() - 1] != '/' ==> joined_path(dir, name) == dir + seq!['/']
            + name,
        dir.len() > 0 && dir[dir.len() - 1] != '/' ==> joined_path(dir, name) == joined_path(
            dir.push('/'),
            name,
        ),
{
    reveal_strlit("/");
    assert("/"@ == seq!['/']);
    assert(dir + seq!['/'] == dir.push('/'));
    assert(dir.len() == 0 ==> dir + name == name);
}

/// A base directory that is named is taken as it is; otherwise it stands in the
/// home directory, or in `/tmp` where there is none.
pub proof fn lemma_base_directory(
    base: Seq<char>,
    home: Option<Seq<char>>,
    known: Seq<char>,
    fallback: Seq<char>,
)
    ensures
        base_of(Some(base), home, fallback) == base,
        base_of(None, Some(known), fallback) == joined_path(known, fallback),
        base_of(None, None, fallback) == joined_path("/tmp"@, fallback),
{
}

/// What contracts say of a variable is what it holds, if it is set.
pub proof fn lemma_variables_seen_whole(value: &str)
    ensures
        opt_view(Some(value)) == Some(value@),
        opt_view(None) is None,
{
}

} // verus!
