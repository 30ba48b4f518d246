//! Install Locator: the client's install variants, the decision logic that
//! picks one from the host's probe results, the conventional library
//! locations of each variant, and the launch command each variant calls for.
//!
//! Probing itself (search-path lookup, the sandbox tool's package list, the
//! platform registry, directory existence) is filesystem and process work
//! done by the caller; the functions here turn those plain results into
//! decisions.

use vstd::prelude::*;
use vstd::string::StrSliceExecFns;
use vstd::string::StringExecFns;
use crate::text::{spec_parse_u32, parse_u32, views_of};

verus! {

/// How the client is installed on the host.
#[derive(Debug, Clone, PartialEq)]
pub enum SteamKind {
    /// The standard install for the running platform.
    Vanilla,
    /// An install root recorded by the platform registry.
    AltPath(String),
    /// The sandboxed (Flatpak) package.
    Flatpak,
    /// No install detected.
    NotFound,
}

/// The variant the detection decides on with the sandboxed package in play:
/// a native executable wins, then a sandboxed package, else nothing.
pub open spec fn spec_detect_linux(has_vanilla: bool, flatpak_matches: u32) -> SteamKind {
    if has_vanilla {
        SteamKind::Vanilla
    } else if flatpak_matches > 0 {
        SteamKind::Flatpak
    } else {
        SteamKind::NotFound
    }
}

/// Decides the install variant from the probe results: whether an executable
/// named after the client resolves on the search path, and how many lines of
/// the sandbox tool's package list name the client.
pub fn detect_steam_linux(has_vanilla: bool, flatpak_matches: u32) -> (r: SteamKind)
    ensures
        r == spec_detect_linux(has_vanilla, flatpak_matches),
{
    if has_vanilla {
        SteamKind::Vanilla
    } else if flatpak_matches > 0 {
        SteamKind::Flatpak
    } else {
        SteamKind::NotFound
    }
}

/// Decides the install variant from the probe results on the platform where
/// a registry can record an alternate root: whether the conventional
/// executable resolves, what install path the registry records, and whether
/// the executable exists under that path. The conventional install wins;
/// else a recorded root under which the executable was found; else nothing.
pub fn detect_steam_windows(
    has_vanilla: bool,
    registry_root: Option<String>,
    exe_under_registry_root: bool,
) -> (r: SteamKind)
    ensures
        has_vanilla ==> r is Vanilla,
        !has_vanilla ==> match registry_root {
            Some(p) => if exe_under_registry_root {
                r == SteamKind::AltPath(p)
            } else {
                r is NotFound
            },
            None => r is NotFound,
        },
{
    if has_vanilla {
        SteamKind::Vanilla
    } else {
        match registry_root {
            Some(p) => if exe_under_registry_root {
                SteamKind::AltPath(p)
            } else {
                SteamKind::NotFound
            },
            None => SteamKind::NotFound,
        }
    }
}

/// Decides the install variant where only the conventional install exists.
pub fn detect_steam_macos(has_vanilla: bool) -> (r: SteamKind)
    ensures
        has_vanilla <==> r is Vanilla,
        !has_vanilla <==> r is NotFound,
{
    if has_vanilla {
        SteamKind::Vanilla
    } else {
        SteamKind::NotFound
    }
}

/// What the sandbox tool's match count reads as: the count text always ends
/// in a line break, which is dropped before the digits are read; an empty
/// text, a non-digit, or an out-of-range value yields nothing.
pub open spec fn spec_parse_count(s: Seq<char>) -> Option<u32> {
    if s.len() == 0 {
        None
    } else {
        spec_parse_u32(s.drop_last())
    }
}

/// Reads the match count printed by the sandbox tool's package-list query:
/// the text with its final character removed, read as a decimal number.
pub fn parse_flatpak_count(s: &str) -> (r: Option<u32>)
    ensures
        r == spec_parse_count(s@),
{
    let n = s.unicode_len();
    if n == 0 {
        return None;
    }
    let body = s.substring_char(0, n - 1);
    proof {
        assert(body@ =~= s@.drop_last());
    }
    parse_u32(body)
}

/// The manifest directory under a library root.
pub fn manifest_dir() -> (r: &'static str)
    ensures
        r@ == "steamapps/"@,
{
    "steamapps/"
}

/// The sandboxed package's data directory, relative to the user's home.
pub fn flatpak_data_dir() -> (r: &'static str)
    ensures
        r@ == ".var/app/com.valvesoftware.Steam/data/Steam"@,
{
    ".var/app/com.valvesoftware.Steam/data/Steam"
}

/// The conventional install directories, relative to the user's home, probed
/// in order: the first that exists and is a directory is the default root.
pub fn vanilla_candidate_dirs() -> (r: Vec<String>)
    ensures
        r@.len() == 2,
        r@[0]@ == ".local/share/steam"@,
        r@[1]@ == ".steam/steam"@,
{
    let mut v: Vec<String> = Vec::new();
    v.push(String::from_str(".local/share/steam"));
    v.push(String::from_str(".steam/steam"));
    v
}

/// The single conventional install root on the platform with a registry.
pub fn vanilla_root_windows() -> (r: &'static str)
    ensures
        r@ == "C:\\Program Files (x86)\\Steam"@,
{
    "C:\\Program Files (x86)\\Steam"
}

/// The conventional data directory, relative to the user's home, on the
/// platform with a single fixed layout under the home directory.
pub fn vanilla_data_dir_macos() -> (r: &'static str)
    ensures
        r@ == "Library/Application Support/Steam"@,
{
    "Library/Application Support/Steam"
}

/// Joins a base path and a relative part with a single separator.
pub fn join_path(base: &str, rel: &str) -> (r: String)
    ensures
        r@ == base@ + "/"@ + rel@,
{
    let b = base.to_owned();
    let with_sep = b.concat("/");
    with_sep.concat(rel)
}

/// The default library root each variant resolves to: the sandboxed data
/// directory under the home for the sandboxed package; the first existing
/// conventional directory under the home for the standard install (nothing
/// when neither exists); the recorded root itself for a registry-recorded
/// install; nothing when no install was detected.
pub open spec fn spec_default_root(
    kind: SteamKind,
    home: Seq<char>,
    exists0: bool,
    exists1: bool,
) -> Option<Seq<char>> {
    match kind {
        SteamKind::Flatpak => Some(home + "/"@ + ".var/app/com.valvesoftware.Steam/data/Steam"@),
        SteamKind::Vanilla => if exists0 {
            Some(home + "/"@ + ".local/share/steam"@)
        } else if exists1 {
            Some(home + "/"@ + ".steam/steam"@)
        } else {
            None
        },
        SteamKind::AltPath(p) => Some(p@),
        SteamKind::NotFound => None,
    }
}

/// Resolves the default library root of the detected variant on the platform
/// with the sandboxed package. `exists0` and `exists1` report whether each
/// conventional directory of `vanilla_candidate_dirs` exists under the home
/// and is a directory.
pub fn default_library_root(kind: &SteamKind, home: &str, exists0: bool, exists1: bool) -> (r:
    Option<String>)
    ensures
        match r {
            Some(p) => spec_default_root(*kind, home@, exists0, exists1) == Some(p@),
            None => spec_default_root(*kind, home@, exists0, exists1) is None,
        },
{
    match kind {
        SteamKind::Flatpak => Some(join_path(home, flatpak_data_dir())),
        SteamKind::Vanilla => if exists0 {
            Some(join_path(home, ".local/share/steam"))
        } else if exists1 {
            Some(join_path(home, ".steam/steam"))
        } else {
            None
        },
        SteamKind::AltPath(p) => {
            let root = p.clone();
            Some(root)
        },
        SteamKind::NotFound => None,
    }
}

/// Builds the URI that asks the client to run the game with the given id.
pub fn generate_steam_rungame(id: &str) -> (r: String)
    ensures
        r@ == "steam://rungameid/"@ + id@,
{
    let base = String::from_str("steam://rungameid/");
    base.concat(id)
}

/// The program and arguments that launch a game under each variant, on the
/// platform with the sandboxed package: the sandbox tool runs the package
/// with the run URI; the standard install's executable takes the URI alone;
/// no command exists when no install was detected.
pub open spec fn spec_launch_command(kind: SteamKind, id: Seq<char>) -> Option<
    (Seq<char>, Seq<Seq<char>>),
> {
    let uri = "steam://rungameid/"@ + id;
    match kind {
        SteamKind::Flatpak => Some(
            ("flatpak"@, seq!["run"@, "com.valvesoftware.Steam"@, uri]),
        ),
        SteamKind::Vanilla => Some(("steam"@, seq![uri])),
        SteamKind::AltPath(_) => None,
        SteamKind::NotFound => None,
    }
}

/// Resolves the launch command for the detected variant on the platform with
/// the sandboxed package; the caller spawns it detached, with its output
/// discarded.
pub fn launch_command(kind: &SteamKind, id: &str) -> (r: Option<(String, Vec<String>)>)
    ensures
        match r {
            Some(c) => spec_launch_command(*kind, id@) == Some((c.0@, views_of(c.1@))),
            None => spec_launch_command(*kind, id@) is None,
        },
{
    match kind {
        SteamKind::Flatpak => {
            let mut args: Vec<String> = Vec::new();
            args.push(String::from_str("run"));
            args.push(String::from_str("com.valvesoftware.Steam"));
            args.push(generate_steam_rungame(id));
            proof {
                assert(views_of(args@) =~= seq![
                    "run"@,
                    "com.valvesoftware.Steam"@,
                    "steam://rungameid/"@ + id@,
                ]);
            }
            Some((String::from_str("flatpak"), args))
        },
        SteamKind::Vanilla => {
            let mut args: Vec<String> = Vec::new();
            args.push(generate_steam_rungame(id));
            proof {
                assert(views_of(args@) =~= seq!["steam://rungameid/"@ + id@]);
            }
            Some((String::from_str("steam"), args))
        },
        SteamKind::AltPath(_) => None,
        SteamKind::NotFound => None,
    }
}

/// The program and arguments that launch a game under each variant, on the
/// platform with a registry: the conventional executable, or the one under
/// the recorded root, takes the run URI alone.
pub open spec fn spec_launch_command_windows(kind: SteamKind, id: Seq<char>) -> Option<
    (Seq<char>, Seq<Seq<char>>),
> {
    let uri = "steam://rungameid/"@ + id;
    match kind {
        SteamKind::Vanilla => Some(("C:\\Program Files (x86)\\Steam\\steam.exe"@, seq![uri])),
        SteamKind::AltPath(p) => Some((p@ + "\\steam.exe"@, seq![uri])),
        SteamKind::Flatpak => None,
        SteamKind::NotFound => None,
    }
}

/// Resolves the launch command for the detected variant on the platform with
/// a registry.
pub fn launch_command_windows(kind: &SteamKind, id: &str) -> (r: Option<(String, Vec<String>)>)
    ensures
        match r {
            Some(c) => spec_launch_command_windows(*kind, id@) == Some((c.0@, views_of(c.1@))),
            None => spec_launch_command_windows(*kind, id@) is None,
        },
{
    match kind {
        SteamKind::Vanilla => {
            let mut args: Vec<String> = Vec::new();
            args.push(generate_steam_rungame(id));
            proof {
                assert(views_of(args@) =~= seq!["steam://rungameid/"@ + id@]);
            }
            Some((String::from_str("C:\\Program Files (x86)\\Steam\\steam.exe"), args))
        },
        SteamKind::AltPath(p) => {
            let exe = p.clone().concat("\\steam.exe");
            let mut args: Vec<String> = Vec::new();
            args.push(generate_steam_rungame(id));
            proof {
                assert(views_of(args@) =~= seq!["steam://rungameid/"@ + id@]);
            }
            Some((exe, args))
        },
        SteamKind::Flatpak => None,
        SteamKind::NotFound => None,
    }
}

} // verus!
