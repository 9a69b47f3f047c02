//! Where the data and the log go on each operating system, computed from the environment
//! that the caller reads.
//!
//! Paths are held as text. Nothing here is relative: a program started from a desktop has
//! no working directory to rely on.
use vstd::prelude::*;
use crate::text::{contains_spec, occurs_at, string_from_chars};

verus! {

/// The operating systems whose conventions differ.
#[derive(Debug, Clone, Copy, PartialEq, Eq, Structural)]
pub enum Platform {
    MacOs,
    Windows,
    Unix,
}

/// What the path rules read from the environment. A variable that is unset is `None`.
#[derive(Debug, Clone)]
pub struct PathEnvironment {
    pub platform: Platform,
    /// `USERPROFILE` on Windows, `HOME` elsewhere.
    pub home: Option<String>,
    pub app_data: Option<String>,
    pub local_app_data: Option<String>,
    pub xdg_data_home: Option<String>,
    pub xdg_state_home: Option<String>,
    /// The system's temporary directory.
    pub temp_dir: String,
}

pub open spec fn app_name() -> Seq<char> {
    seq!['e', 'k', 'a', 'n', 'b', 'a', 'n']
}

pub open spec fn log_name() -> Seq<char> {
    app_name() + seq!['.', 'l', 'o', 'g']
}

pub open spec fn is_separator(platform: Platform, c: char) -> bool {
    c == '/' || (platform == Platform::Windows && c == '\\')
}

pub open spec fn separator(platform: Platform) -> char {
    if platform == Platform::Windows {
        '\\'
    } else {
        '/'
    }
}

/// `base` joined with the relative path `part`, with one separator between them
/// (`Path::join` for a relative `part`).
pub open spec fn join_spec(platform: Platform, base: Seq<char>, part: Seq<char>) -> Seq<char> {
    if base.len() == 0 {
        part
    } else if is_separator(platform, base.last()) {
        base + part
    } else {
        base + seq![separator(platform)] + part
    }
}

pub open spec fn is_ascii_letter(c: char) -> bool {
    ('a' <= c && c <= 'z') || ('A' <= c && c <= 'Z')
}

/// The path starts at a root: `/` on Unix and macOS; a drive and a separator, or a `\\`
/// network prefix, on Windows.
pub open spec fn is_absolute_spec(platform: Platform, path: Seq<char>) -> bool {
    if platform == Platform::Windows {
        ||| (path.len() >= 3 && is_ascii_letter(path[0]) && path[1] == ':' && is_separator(
            platform,
            path[2],
        ))
        ||| (path.len() >= 2 && path[0] == '\\' && path[1] == '\\')
    } else {
        path.len() >= 1 && path[0] == '/'
    }
}

/// A variable's value, when it is set and not empty.
pub open spec fn nonempty(value: Option<String>) -> Option<Seq<char>> {
    match value {
        Some(v) => if v@.len() > 0 {
            Some(v@)
        } else {
            None
        },
        None => None,
    }
}

/// A directory from a variable, when it is set, not empty and absolute.
pub open spec fn usable_dir(platform: Platform, value: Option<String>) -> Option<Seq<char>> {
    match nonempty(value) {
        Some(v) => if is_absolute_spec(platform, v) {
            Some(v)
        } else {
            None
        },
        None => None,
    }
}

pub open spec fn mac_support() -> Seq<char> {
    seq![
        'L', 'i', 'b', 'r', 'a', 'r', 'y', '/', 'A', 'p', 'p', 'l', 'i', 'c', 'a', 't', 'i', 'o',
        'n', ' ', 'S', 'u', 'p', 'p', 'o', 'r', 't',
    ]
}

pub open spec fn mac_logs() -> Seq<char> {
    seq!['L', 'i', 'b', 'r', 'a', 'r', 'y', '/', 'L', 'o', 'g', 's']
}

pub open spec fn local_share() -> Seq<char> {
    seq!['.', 'l', 'o', 'c', 'a', 'l', '/', 's', 'h', 'a', 'r', 'e']
}

pub open spec fn local_state() -> Seq<char> {
    seq!['.', 'l', 'o', 'c', 'a', 'l', '/', 's', 't', 'a', 't', 'e']
}

/// The last resort when neither a home nor a variable is available: the temporary directory.
pub open spec fn fallback_dir_spec(env: PathEnvironment) -> Seq<char> {
    join_spec(env.platform, env.temp_dir@, app_name())
}

/// The directory for the database.
pub open spec fn data_dir_spec(env: PathEnvironment) -> Seq<char> {
    let p = env.platform;
    match p {
        Platform::MacOs => match nonempty(env.home) {
            Some(home) => join_spec(p, join_spec(p, home, mac_support()), app_name()),
            None => fallback_dir_spec(env),
        },
        Platform::Windows => match usable_dir(p, env.app_data) {
            Some(dir) => join_spec(p, dir, app_name()),
            None => fallback_dir_spec(env),
        },
        Platform::Unix => match usable_dir(p, env.xdg_data_home) {
            Some(dir) => join_spec(p, dir, app_name()),
            None => match nonempty(env.home) {
                Some(home) => join_spec(p, join_spec(p, home, local_share()), app_name()),
                None => fallback_dir_spec(env),
            },
        },
    }
}

/// The log file for start-up failures.
pub open spec fn log_file_spec(env: PathEnvironment) -> Seq<char> {
    let p = env.platform;
    match p {
        Platform::MacOs => match nonempty(env.home) {
            Some(home) => join_spec(p, join_spec(p, home, mac_logs()), log_name()),
            None => join_spec(p, fallback_dir_spec(env), log_name()),
        },
        Platform::Windows => match usable_dir(p, env.local_app_data) {
            Some(dir) => join_spec(p, join_spec(p, dir, app_name()), log_name()),
            None => join_spec(p, fallback_dir_spec(env), log_name()),
        },
        Platform::Unix => match usable_dir(p, env.xdg_state_home) {
            Some(dir) => join_spec(p, join_spec(p, dir, app_name()), log_name()),
            None => match nonempty(env.home) {
                Some(home) => join_spec(
                    p,
                    join_spec(p, join_spec(p, home, local_state()), app_name()),
                    log_name(),
                ),
                None => join_spec(p, fallback_dir_spec(env), log_name()),
            },
        },
    }
}

fn is_separator_exec(platform: Platform, c: char) -> (r: bool)
    ensures
        r == is_separator(platform, c),
{
    c == '/' || (matches!(platform, Platform::Windows) && c == '\\')
}

/// `base` joined with the relative path `part`.
pub fn join(platform: Platform, base: &Vec<char>, part: &Vec<char>) -> (r: Vec<char>)
    ensures
        r@ == join_spec(platform, base@, part@),
{
    let mut out: Vec<char> = Vec::new();
    let mut i: usize = 0;
    while i < base.len()
        invariant
            i <= base@.len(),
            out@ == base@.take(i as int),
        decreases base.len() - i,
    {
        out.push(base[i]);
        i += 1;
    }
    assert(base@.take(base@.len() as int) =~= base@);
    if base.len() > 0 && !is_separator_exec(platform, base[base.len() - 1]) {
        out.push(if matches!(platform, Platform::Windows) { '\\' } else { '/' });
    }
    let ghost before = out@;
    let mut j: usize = 0;
    while j < part.len()
        invariant
            j <= part@.len(),
            out@ == before + part@.take(j as int),
        decreases part.len() - j,
    {
        out.push(part[j]);
        j += 1;
        assert(before + part@.take(j as int) =~= (before + part@.take(j - 1)).push(part@[j - 1]));
    }
    assert(part@.take(part@.len() as int) =~= part@);
    if base.len() == 0 {
        assert(out@ =~= part@);
    }
    out
}

fn chars_of_option(value: &Option<String>) -> (r: Option<Vec<char>>)
    ensures
        match nonempty(*value) {
            Some(v) => r matches Some(c) && c@ == v,
            None => r is None,
        },
{
    match value {
        Some(v) => {
            let chars = crate::text::chars_of(v.as_str());
            if chars.len() > 0 {
                Some(chars)
            } else {
                None
            }
        },
        None => None,
    }
}

fn is_absolute(platform: Platform, path: &Vec<char>) -> (r: bool)
    ensures
        r == is_absolute_spec(platform, path@),
{
    if matches!(platform, Platform::Windows) {
        (path.len() >= 3 && (('a' <= path[0] && path[0] <= 'z') || ('A' <= path[0] && path[0]
            <= 'Z')) && path[1] == ':' && is_separator_exec(platform, path[2])) || (path.len()
            >= 2 && path[0] == '\\' && path[1] == '\\')
    } else {
        path.len() >= 1 && path[0] == '/'
    }
}

/// The home directory, when the variable holds one.
fn home_dir(env: &PathEnvironment) -> (r: Option<Vec<char>>)
    ensures
        match nonempty(env.home) {
            Some(v) => r matches Some(c) && c@ == v,
            None => r is None,
        },
{
    chars_of_option(&env.home)
}

/// A directory named by a variable, used only when it is absolute.
fn env_dir(platform: Platform, value: &Option<String>) -> (r: Option<Vec<char>>)
    ensures
        match usable_dir(platform, *value) {
            Some(v) => r matches Some(c) && c@ == v,
            None => r is None,
        },
{
    match chars_of_option(value) {
        Some(dir) => if is_absolute(platform, &dir) {
            Some(dir)
        } else {
            None
        },
        None => None,
    }
}

fn app_name_chars() -> (r: Vec<char>)
    ensures
        r@ == app_name(),
{
    let v = vec!['e', 'k', 'a', 'n', 'b', 'a', 'n'];
    assert(v@ =~= app_name());
    v
}

fn log_name_chars() -> (r: Vec<char>)
    ensures
        r@ == log_name(),
{
    let v = vec!['e', 'k', 'a', 'n', 'b', 'a', 'n', '.', 'l', 'o', 'g'];
    assert(v@ =~= log_name());
    v
}

fn fallback_dir(env: &PathEnvironment) -> (r: Vec<char>)
    ensures
        r@ == fallback_dir_spec(*env),
{
    join(env.platform, &crate::text::chars_of(env.temp_dir.as_str()), &app_name_chars())
}

/// The directory that holds the database and the other files that must not be lost.
///
/// - macOS: `~/Library/Application Support/ekanban`
/// - Windows: `%APPDATA%\ekanban`
/// - elsewhere: `$XDG_DATA_HOME/ekanban`, else `~/.local/share/ekanban`
///
/// A variable that is empty or relative is ignored; with nothing usable the temporary
/// directory is used.
pub fn data_dir(env: &PathEnvironment) -> (r: String)
    ensures
        r@ == data_dir_spec(*env),
{
    let p = env.platform;
    let dir = match p {
        Platform::MacOs => match home_dir(env) {
            Some(home) => {
                let support = vec![
                    'L', 'i', 'b', 'r', 'a', 'r', 'y', '/', 'A', 'p', 'p', 'l', 'i', 'c', 'a',
                    't', 'i', 'o', 'n', ' ', 'S', 'u', 'p', 'p', 'o', 'r', 't',
                ];
                assert(support@ =~= mac_support());
                join(p, &join(p, &home, &support), &app_name_chars())
            },
            None => fallback_dir(env),
        },
        Platform::Windows => match env_dir(p, &env.app_data) {
            Some(dir) => join(p, &dir, &app_name_chars()),
            None => fallback_dir(env),
        },
        Platform::Unix => match env_dir(p, &env.xdg_data_home) {
            Some(dir) => join(p, &dir, &app_name_chars()),
            None => match home_dir(env) {
                Some(home) => {
                    let share = vec!['.', 'l', 'o', 'c', 'a', 'l', '/', 's', 'h', 'a', 'r', 'e'];
                    assert(share@ =~= local_share());
                    join(p, &join(p, &home, &share), &app_name_chars())
                },
                None => fallback_dir(env),
            },
        },
    };
    string_from_chars(&dir)
}

/// The log file that records start-up failures.
///
/// - macOS: `~/Library/Logs/ekanban.log`
/// - Windows: `%LOCALAPPDATA%\ekanban\ekanban.log`
/// - elsewhere: `$XDG_STATE_HOME/ekanban/ekanban.log`, else
///   `~/.local/state/ekanban/ekanban.log`
pub fn log_file(env: &PathEnvironment) -> (r: String)
    ensures
        r@ == log_file_spec(*env),
{
    let p = env.platform;
    let file = match p {
        Platform::MacOs => match home_dir(env) {
            Some(home) => {
                let logs = vec!['L', 'i', 'b', 'r', 'a', 'r', 'y', '/', 'L', 'o', 'g', 's'];
                assert(logs@ =~= mac_logs());
                join(p, &join(p, &home, &logs), &log_name_chars())
            },
            None => join(p, &fallback_dir(env), &log_name_chars()),
        },
        Platform::Windows => match env_dir(p, &env.local_app_data) {
            Some(dir) => join(p, &join(p, &dir, &app_name_chars()), &log_name_chars()),
            None => join(p, &fallback_dir(env), &log_name_chars()),
        },
        Platform::Unix => match env_dir(p, &env.xdg_state_home) {
            Some(dir) => join(p, &join(p, &dir, &app_name_chars()), &log_name_chars()),
            None => match home_dir(env) {
                Some(home) => {
                    let state = vec!['.', 'l', 'o', 'c', 'a', 'l', '/', 's', 't', 'a', 't', 'e'];
                    assert(state@ =~= local_state());
                    join(p, &join(p, &join(p, &home, &state), &app_name_chars()), &log_name_chars())
                },
                None => join(p, &fallback_dir(env), &log_name_chars()),
            },
        },
    };
    string_from_chars(&file)
}


/// The directories a path can start from: the home directory, when it is set, and the
/// temporary directory are absolute.
pub open spec fn absolute_roots(env: PathEnvironment) -> bool {
    &&& is_absolute_spec(env.platform, env.temp_dir@)
    &&& (nonempty(env.home) matches Some(home) ==> is_absolute_spec(env.platform, home))
}

/// A joined path starts as its base does and ends with the part.
proof fn lemma_join(platform: Platform, base: Seq<char>, part: Seq<char>)
    requires
        base.len() > 0,
    ensures
        join_spec(platform, base, part).len() >= base.len() + part.len(),
        forall|i: int| 0 <= i < base.len() ==> #[trigger] join_spec(platform, base, part)[i] == base[i],
        occurs_at(
            join_spec(platform, base, part),
            part,
            join_spec(platform, base, part).len() - part.len(),
        ),
{
    let j = join_spec(platform, base, part);
    assert(j.subrange(j.len() - part.len(), j.len() as int) =~= part);
}

/// A path joined onto an absolute base is absolute.
proof fn lemma_join_absolute(platform: Platform, base: Seq<char>, part: Seq<char>)
    requires
        is_absolute_spec(platform, base),
    ensures
        is_absolute_spec(platform, join_spec(platform, base, part)),
{
    lemma_join(platform, base, part);
    let j = join_spec(platform, base, part);
    if platform == Platform::Windows {
        if base.len() >= 3 && is_ascii_letter(base[0]) && base[1] == ':' && is_separator(platform, base[2]) {
            assert(j[0] == base[0] && j[1] == base[1] && j[2] == base[2]);
        } else {
            assert(j[0] == base[0] && j[1] == base[1]);
        }
    } else {
        assert(j[0] == base[0]);
    }
}

/// The text `ekanban` stands at the end of a path that ends with the app name or the log
/// name.
proof fn lemma_ends_named(platform: Platform, base: Seq<char>, last: Seq<char>)
    requires
        base.len() > 0,
        last == app_name() || last == log_name(),
    ensures
        contains_spec(join_spec(platform, base, last), app_name()),
{
    lemma_join(platform, base, last);
    let j = join_spec(platform, base, last);
    let at = j.len() - last.len();
    assert(j.subrange(at, at + 7) =~= last.subrange(0, 7)) by {
        assert(j.subrange(at, at + last.len() as int) == last);
    }
    assert(last.subrange(0, 7) =~= app_name());
    assert(occurs_at(j, app_name(), at));
}

/// Where the data and the log go are absolute paths that name the app, as long as the
/// directories they start from are absolute; the log is a `.log` file.
pub proof fn law_paths_absolute_and_namespaced(env: PathEnvironment)
    requires
        absolute_roots(env),
    ensures
        is_absolute_spec(env.platform, data_dir_spec(env)),
        contains_spec(data_dir_spec(env), app_name()),
        is_absolute_spec(env.platform, log_file_spec(env)),
        contains_spec(log_file_spec(env), app_name()),
        occurs_at(log_file_spec(env), log_name(), log_file_spec(env).len() - log_name().len()),
{
    let p = env.platform;
    let fallback = fallback_dir_spec(env);
    assert(env.temp_dir@.len() > 0);
    lemma_join_absolute(p, env.temp_dir@, app_name());
    lemma_join(p, fallback, log_name());
    lemma_join_absolute(p, fallback, log_name());
    lemma_ends_named(p, env.temp_dir@, app_name());
    lemma_ends_named(p, fallback, log_name());
    match p {
        Platform::MacOs => match nonempty(env.home) {
            Some(home) => {
                lemma_join_absolute(p, home, mac_support());
                lemma_join_absolute(p, join_spec(p, home, mac_support()), app_name());
                lemma_ends_named(p, join_spec(p, home, mac_support()), app_name());
                lemma_join_absolute(p, home, mac_logs());
                lemma_join_absolute(p, join_spec(p, home, mac_logs()), log_name());
                lemma_ends_named(p, join_spec(p, home, mac_logs()), log_name());
                lemma_join(p, join_spec(p, home, mac_logs()), log_name());
            },
            None => {},
        },
        Platform::Windows => {
            match usable_dir(p, env.app_data) {
                Some(dir) => {
                    lemma_join_absolute(p, dir, app_name());
                    lemma_ends_named(p, dir, app_name());
                },
                None => {},
            }
            match usable_dir(p, env.local_app_data) {
                Some(dir) => {
                    lemma_join_absolute(p, dir, app_name());
                    lemma_join_absolute(p, join_spec(p, dir, app_name()), log_name());
                    lemma_ends_named(p, join_spec(p, dir, app_name()), log_name());
                    lemma_join(p, join_spec(p, dir, app_name()), log_name());
                },
                None => {},
            }
        },
        Platform::Unix => {
            match usable_dir(p, env.xdg_data_home) {
                Some(dir) => {
                    lemma_join_absolute(p, dir, app_name());
                    lemma_ends_named(p, dir, app_name());
                },
                None => match nonempty(env.home) {
                    Some(home) => {
                        lemma_join_absolute(p, home, local_share());
                        lemma_join_absolute(p, join_spec(p, home, local_share()), app_name());
                        lemma_ends_named(p, join_spec(p, home, local_share()), app_name());
                    },
                    None => {},
                },
            }
            match usable_dir(p, env.xdg_state_home) {
                Some(dir) => {
                    lemma_join_absolute(p, dir, app_name());
                    lemma_join_absolute(p, join_spec(p, dir, app_name()), log_name());
                    lemma_ends_named(p, join_spec(p, dir, app_name()), log_name());
                    lemma_join(p, join_spec(p, dir, app_name()), log_name());
                },
                None => match nonempty(env.home) {
                    Some(home) => {
                        let share = join_spec(p, join_spec(p, home, local_state()), app_name());
                        lemma_join_absolute(p, home, local_state());
                        lemma_join_absolute(p, join_spec(p, home, local_state()), app_name());
                        lemma_join_absolute(p, share, log_name());
                        lemma_ends_named(p, share, log_name());
                        lemma_join(p, share, log_name());
                    },
                    None => {},
                },
            }
        },
    }
}

} // verus!
