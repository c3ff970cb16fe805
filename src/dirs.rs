//! The tool's configuration and cache directories, resolved from the operating
//! system's name and a snapshot of the environment: on Linux and the BSDs the
//! XDG variable if set, else a directory under the home directory; on macOS a
//! directory under `~/Library`; elsewhere the platform's own directory.

use vstd::prelude::*;
use crate::cache::{join, join_path};
use crate::error::GitNavigatorError;
use crate::text::same_text;

verus! {

pub open spec fn uses_xdg(os: Seq<char>) -> bool {
    os == "linux"@ || os == "freebsd"@ || os == "netbsd"@ || os == "openbsd"@
}

pub open spec fn view_or_empty(o: Option<String>) -> Seq<char> {
    match o {
        Some(s) => s@,
        None => Seq::empty(),
    }
}

/// The base directory before the tool's own name is appended.
pub open spec fn base_dir(
    os: Seq<char>,
    xdg: Option<String>,
    home: Option<String>,
    platform: Option<String>,
    home_sub: Seq<char>,
    mac_sub: Seq<char>,
) -> Seq<char> {
    if uses_xdg(os) {
        match xdg {
            Some(x) => x@,
            None => join_path(view_or_empty(home), home_sub),
        }
    } else if os == "macos"@ {
        join_path(view_or_empty(home), mac_sub)
    } else {
        view_or_empty(platform)
    }
}

fn or_empty(o: Option<String>) -> (r: String)
    ensures
        r@ == view_or_empty(o),
{
    match o {
        Some(s) => s,
        None => String::new(),
    }
}

fn is_xdg_os(os: &str) -> (r: bool)
    ensures
        r == uses_xdg(os@),
{
    same_text(os, "linux") || same_text(os, "freebsd") || same_text(os, "netbsd") || same_text(
        os,
        "openbsd",
    )
}

fn resolve_base(
    os: &str,
    xdg: Option<String>,
    home: Option<String>,
    platform: Option<String>,
    home_sub: &str,
    mac_sub: &str,
) -> (r: String)
    ensures
        r@ == base_dir(os@, xdg, home, platform, home_sub@, mac_sub@),
{
    if is_xdg_os(os) {
        match xdg {
            Some(x) => x,
            None => join(&or_empty(home), home_sub),
        }
    } else if same_text(os, "macos") {
        join(&or_empty(home), mac_sub)
    } else {
        or_empty(platform)
    }
}

/// The tool's configuration directory on `os`, given `XDG_CONFIG_HOME`, the
/// home directory and the platform's configuration directory.
pub fn get_config_directory(
    os: &str,
    xdg_config_home: Option<String>,
    home_dir: Option<String>,
    platform_config_dir: Option<String>,
) -> (r: Result<String, GitNavigatorError>)
    ensures
        r matches Ok(p) && p@ == join_path(
            base_dir(
                os@,
                xdg_config_home,
                home_dir,
                platform_config_dir,
                ".config"@,
                "Library/Application Support"@,
            ),
            "git-navigator"@,
        ),
{
    let base = resolve_base(
        os,
        xdg_config_home,
        home_dir,
        platform_config_dir,
        ".config",
        "Library/Application Support",
    );
    Ok(join(&base, "git-navigator"))
}

/// The tool's cache directory on `os`, given `XDG_CACHE_HOME`, the home
/// directory and the platform's cache directory.
pub fn get_cache_directory(
    os: &str,
    xdg_cache_home: Option<String>,
    home_dir: Option<String>,
    platform_cache_dir: Option<String>,
) -> (r: Result<String, GitNavigatorError>)
    ensures
        r matches Ok(p) && p@ == join_path(
            base_dir(os@, xdg_cache_home, home_dir, platform_cache_dir, ".cache"@, "Library/Caches"@),
            "git-navigator"@,
        ),
{
    let base = resolve_base(os, xdg_cache_home, home_dir, platform_cache_dir, ".cache", "Library/Caches");
    Ok(join(&base, "git-navigator"))
}

} // verus!
