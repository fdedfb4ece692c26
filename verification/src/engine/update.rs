//! Releases: which one is newer, which file to download, and when to look.

use vstd::prelude::*;

use crate::number::{decimal, decimal_of};
use crate::text::{
    chars_of, prefix_stripped, same_text, strip_prefix, text_of, text_ref, texts, trim, trimmed,
};

verus! {

/// Where the latest release is described.
pub const GITHUB_LATEST_RELEASE_URL: &'static str =
    "https://api.github.com/repos/Commitor-AI/commitor/releases/latest";

/// Seconds between two automatic checks.
pub const UPDATE_CHECK_INTERVAL_SECS: u64 = 86_400;

/// Seconds before a check gives up.
pub const RELEASE_CHECK_TIMEOUT_SECS: u64 = 5;

/// The file that names a release that is waiting to be installed.
pub const PENDING_UPDATE_FILE: &'static str = "pending_update";

/// A release.
#[derive(Debug, Clone)]
pub struct ReleaseInfo {
    pub tag_name: String,
    pub html_url: String,
    pub assets: Vec<ReleaseAsset>,
}

/// A file of a release.
#[derive(Debug, Clone)]
pub struct ReleaseAsset {
    pub name: String,
    pub browser_download_url: String,
}

/// The version of this program.
pub fn current_version() -> (r: &'static str)
    ensures
        r@ == "0.5.1"@,
{
    "0.5.1"
}

/// How this program introduces itself.
pub fn user_agent() -> (r: String)
    ensures
        r@ == "commitor/"@ + "0.5.1"@,
{
    let mut out = "commitor/".to_owned();
    out.append(current_version());
    out
}

/// What is said where the description of the latest release cannot be had.
pub fn release_error(status: u16, body: &str) -> (r: String)
    ensures
        r@ == "GitHub API returned HTTP "@ + decimal_of(status as nat) + ": "@ + body@,
{
    let mut out = "GitHub API returned HTTP ".to_owned();
    out.append(decimal(status as u64).as_str());
    out.append(": ");
    out.append(body);
    out
}

// ── versions ────────────────────────────────────────────────────────

/// What `semver` says of two texts: nothing where one of them is no version,
/// else whether the first is the greater version.
pub uninterp spec fn version_greater(first: Seq<char>, second: Seq<char>) -> Option<bool>;

/// A version of three numbers.
pub open spec fn version_text(major: u64, minor: u64, patch: u64) -> Seq<char> {
    decimal_of(major as nat) + "."@ + decimal_of(minor as nat) + "."@ + decimal_of(patch as nat)
}

/// The first three numbers make a greater version than the second three.
pub open spec fn numbers_greater(a: (u64, u64, u64), b: (u64, u64, u64)) -> bool {
    a.0 > b.0 || (a.0 == b.0 && (a.1 > b.1 || (a.1 == b.1 && a.2 > b.2)))
}

/// `semver::Version::parse` on both texts, and `>` on the versions. The result
/// depends on the texts alone. An empty text is no version; versions of three
/// numbers compare number by number; no version is greater than itself; and of
/// two versions at most one is greater. What else is a version, and how
/// versions with further parts compare, is left unsaid.
#[verifier::external_body]
fn compare_versions(first: &str, second: &str) -> (r: Option<bool>)
    ensures
        r == version_greater(first@, second@),
        first@.len() == 0 || second@.len() == 0 ==> r is None,
        forall|a: u64, b: u64, c: u64, x: u64, y: u64, z: u64|
            first@ == #[trigger] version_text(a, b, c) && second@ == #[trigger] version_text(
                x,
                y,
                z,
            ) ==> r == Some(numbers_greater((a, b, c), (x, y, z))),
        first@ == second@ ==> r != Some(true),
        r == Some(true) ==> version_greater(second@, first@) == Some(false),
{
    match (semver::Version::parse(first), semver::Version::parse(second)) {
        (Ok(a), Ok(b)) => Some(a > b),
        _ => None,
    }
}

/// A tag without white space around it and without a leading `v`.
pub open spec fn bare_version(tag: Seq<char>) -> Seq<char> {
    match prefix_stripped(trimmed(tag), "v"@) {
        Some(rest) => rest,
        None => trimmed(tag),
    }
}

/// The tag names a greater version. Where a tag names no version, it does not.
pub open spec fn newer(latest_tag: Seq<char>, current: Seq<char>) -> bool {
    version_greater(bare_version(latest_tag), bare_version(current)) == Some(true)
}

fn bare(tag: &str) -> (r: String)
    ensures
        r@ == bare_version(tag@),
{
    let chars = chars_of(tag);
    let name = trim(chars.as_slice());
    match strip_prefix(name, "v") {
        Some(rest) => text_of(rest),
        None => text_of(name),
    }
}

/// Whether a tag names a greater version than the current one. Both may have a
/// leading `v`. A tag that names no version is never newer, no version is newer
/// than itself, and of two versions at most one is newer.
pub fn is_newer(latest_tag: &str, current: &str) -> (r: bool)
    ensures
        r == newer(latest_tag@, current@),
        bare_version(latest_tag@).len() == 0 || bare_version(current@).len() == 0 ==> !r,
        forall|a: u64, b: u64, c: u64, x: u64, y: u64, z: u64|
            bare_version(latest_tag@) == #[trigger] version_text(a, b, c) && bare_version(current@)
                == #[trigger] version_text(x, y, z) ==> r == numbers_greater(
                (a, b, c),
                (x, y, z),
            ),
        bare_version(latest_tag@) == bare_version(current@) ==> !r,
        r ==> !newer(current@, latest_tag@),
{
    let latest = bare(latest_tag);
    let now = bare(current);
    match compare_versions(latest.as_str(), now.as_str()) {
        Some(greater) => greater,
        None => false,
    }
}

// ── files ───────────────────────────────────────────────────────────

/// The part of a file name that tells the platform.
pub open spec fn triple_of(os: Seq<char>, arch: Seq<char>) -> Seq<char> {
    if os == "linux"@ {
        arch + "-unknown-linux-gnu"@
    } else if os == "macos"@ {
        arch + "-apple-darwin"@
    } else if os == "windows"@ {
        arch + "-pc-windows-msvc"@
    } else {
        arch + "-"@ + os
    }
}

/// The name of the file for a platform.
pub open spec fn asset_name_of(os: Seq<char>, arch: Seq<char>) -> Seq<char> {
    "commitor-"@ + triple_of(os, arch) + (if os == "windows"@ {
        ".exe"@
    } else {
        Seq::empty()
    })
}

fn target_triple(os: &str, arch: &str) -> (r: String)
    ensures
        r@ == triple_of(os@, arch@),
{
    let mut out = arch.to_owned();
    if same_text(os, "linux") {
        out.append("-unknown-linux-gnu");
    } else if same_text(os, "macos") {
        out.append("-apple-darwin");
    } else if same_text(os, "windows") {
        out.append("-pc-windows-msvc");
    } else {
        out.append("-");
        out.append(os);
    }
    out
}

/// The name of the file for a platform, such as
/// `commitor-x86_64-unknown-linux-gnu`.
pub fn expected_asset_name(os: &str, arch: &str) -> (r: String)
    ensures
        r@ == asset_name_of(os@, arch@),
{
    let mut out = "commitor-".to_owned();
    out.append(target_triple(os, arch).as_str());
    if same_text(os, "windows") {
        out.append(".exe");
    } else {
        assert(out@ + Seq::empty() =~= out@);
    }
    out
}

/// Where the first file with this name stands.
pub open spec fn asset_index(assets: Seq<ReleaseAsset>, name: Seq<char>) -> Option<int>
    decreases assets.len(),
{
    if assets.len() == 0 {
        None
    } else {
        match asset_index(assets.drop_last(), name) {
            Some(i) => Some(i),
            None => if assets.last().name@ == name {
                Some(assets.len() - 1)
            } else {
                None
            },
        }
    }
}

/// What is said of a release without a file for the platform.
pub open spec fn no_asset_text(release: ReleaseInfo, wanted: Seq<char>) -> Seq<char> {
    "release "@ + release.tag_name@ + " has no asset named `"@ + wanted
        + "` — download it manually from "@ + release.html_url@
}

/// Find the file for a platform.
pub fn find_matching_asset<'a>(release: &'a ReleaseInfo, os: &str, arch: &str) -> (r: Result<
    &'a ReleaseAsset,
    String,
>)
    ensures
        match r {
            Ok(asset) => asset_index(release.assets@, asset_name_of(os@, arch@)) matches Some(i)
                && 0 <= i < release.assets@.len() && *asset == release.assets@[i] && asset.name@
                == asset_name_of(os@, arch@),
            Err(why) => asset_index(release.assets@, asset_name_of(os@, arch@)) is None && why@
                == no_asset_text(*release, asset_name_of(os@, arch@)),
        },
{
    let wanted = expected_asset_name(os, arch);
    let ghost all = release.assets@;
    let mut found: Option<usize> = None;
    for i in 0..release.assets.len()
        invariant
            all == release.assets@,
            match found {
                Some(k) => k < i && asset_index(all.take(i as int), wanted@) == Some(k as int)
                    && all[k as int].name@ == wanted@,
                None => asset_index(all.take(i as int), wanted@) is None,
            },
    {
        assert(all.take(i + 1).drop_last() =~= all.take(i as int));
        assert(all.take(i + 1).last() == all[i as int]);
        if found.is_none() && same_text(release.assets[i].name.as_str(), wanted.as_str()) {
            found = Some(i);
        }
    }
    assert(all.take(all.len() as int) =~= all);
    match found {
        Some(i) => Ok(&release.assets[i]),
        None => {
            let mut why = "release ".to_owned();
            why.append(release.tag_name.as_str());
            why.append(" has no asset named `");
            why.append(wanted.as_str());
            why.append("` — download it manually from ");
            why.append(release.html_url.as_str());
            Err(why)
        },
    }
}

/// What is said of a download that failed.
pub fn download_error(status: u16) -> (r: String)
    ensures
        r@ == "download returned HTTP "@ + decimal_of(status as nat),
{
    let mut out = "download returned HTTP ".to_owned();
    out.append(decimal(status as u64).as_str());
    out
}

// ── the daily check ─────────────────────────────────────────────────

/// The segments of the directory for the configuration, or what is missing to
/// name it. On Windows it is under `APPDATA`; elsewhere under
/// `XDG_CONFIG_HOME`, or under the home directory where that is not set.
pub open spec fn config_segments(
    windows: bool,
    appdata: Option<Seq<char>>,
    xdg: Option<Seq<char>>,
    home: Option<Seq<char>>,
) -> Result<Seq<Seq<char>>, Seq<char>> {
    if windows {
        match appdata {
            Some(base) => Ok(seq![base, "commitor"@]),
            None => Err("APPDATA is not set"@),
        }
    } else if xdg is Some && xdg->0.len() > 0 {
        Ok(seq![xdg->0, "commitor"@])
    } else {
        match home {
            Some(base) => Ok(seq![base, ".config"@, "commitor"@]),
            None => Err("HOME is not set"@),
        }
    }
}

/// Name the directory for the configuration by its segments.
pub fn config_dir(
    windows: bool,
    appdata: Option<&str>,
    xdg: Option<&str>,
    home: Option<&str>,
) -> (r: Result<Vec<String>, String>)
    ensures
        match r {
            Ok(segments) => config_segments(
                windows,
                text_ref(appdata),
                text_ref(xdg),
                text_ref(home),
            ) == Ok::<Seq<Seq<char>>, Seq<char>>(texts(segments@)),
            Err(why) => config_segments(
                windows,
                text_ref(appdata),
                text_ref(xdg),
                text_ref(home),
            ) == Err::<Seq<Seq<char>>, Seq<char>>(why@),
        },
{
    let mut out: Vec<String> = Vec::new();
    if windows {
        return match appdata {
            Some(base) => {
                out.push(base.to_owned());
                out.push("commitor".to_owned());
                assert(texts(out@) =~= seq![base@, "commitor"@]);
                Ok(out)
            },
            None => Err("APPDATA is not set".to_owned()),
        };
    }
    if let Some(base) = xdg {
        if chars_of(base).len() > 0 {
            out.push(base.to_owned());
            out.push("commitor".to_owned());
            assert(texts(out@) =~= seq![base@, "commitor"@]);
            return Ok(out);
        }
    }
    match home {
        Some(base) => {
            out.push(base.to_owned());
            out.push(".config".to_owned());
            out.push("commitor".to_owned());
            assert(texts(out@) =~= seq![base@, ".config"@, "commitor"@]);
            Ok(out)
        },
        None => Err("HOME is not set".to_owned()),
    }
}

/// Whether it is time for a check. `elapsed` are the seconds since the last
/// one, where there was one.
pub fn update_check_due(elapsed: Option<u64>) -> (r: bool)
    ensures
        r == match elapsed {
            Some(secs) => secs >= UPDATE_CHECK_INTERVAL_SECS,
            None => true,
        },
{
    match elapsed {
        Some(secs) => secs >= UPDATE_CHECK_INTERVAL_SECS,
        None => true,
    }
}

/// What is written down of a release that is waiting to be installed.
pub fn record_pending_version(version: &str) -> (r: String)
    ensures
        r@ == trimmed(version@),
{
    let chars = chars_of(version);
    text_of(trim(chars.as_slice()))
}

/// What was written down of a release that is waiting to be installed.
#[derive(Debug)]
pub enum Pending {
    /// Nothing was written down.
    Absent,
    /// The release is not newer than this program: the file is to be removed.
    Stale,
    /// The release is newer.
    Newer(String),
}

/// What a file says of a release that is waiting to be installed.
pub fn pending_version(stored: Option<&str>) -> (r: Pending)
    ensures
        match stored {
            None => r is Absent,
            Some(content) => if trimmed(content@).len() > 0 && newer(
                trimmed(content@),
                "0.5.1"@,
            ) {
                r matches Pending::Newer(version) && version@ == trimmed(content@)
            } else {
                r is Stale
            },
        },
{
    match stored {
        None => Pending::Absent,
        Some(content) => {
            let version = record_pending_version(content);
            if chars_of(version.as_str()).len() == 0 || !is_newer(
                version.as_str(),
                current_version(),
            ) {
                Pending::Stale
            } else {
                Pending::Newer(version)
            }
        },
    }
}

} // verus!
