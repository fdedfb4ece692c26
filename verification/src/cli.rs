//! The commands, and the notice that a newer release is there.

use vstd::prelude::*;

use crate::commit::answers::{prompt_confirm, says_yes};
use crate::engine::update::{
    asset_index, asset_name_of, current_version, find_matching_asset, is_newer, newer,
    no_asset_text, update_check_due, Pending, ReleaseInfo, UPDATE_CHECK_INTERVAL_SECS,
};
use crate::text::{chars_of, same_text, text, text_ref};

verus! {

/// The commands of the program.
#[derive(Debug, Clone, Copy, PartialEq, Eq, Structural)]
pub enum Command {
    Login,
    Logout,
    Whoami,
    Scan,
    Commit,
    Revert,
    Changelog,
    Admin,
    Update,
}

/// Whether a command has to do with the backend, so that its users are told of
/// a newer release.
pub fn is_server_facing(command: Command) -> (r: bool)
    ensures
        r == (command == Command::Login || command == Command::Logout || command
            == Command::Whoami || command == Command::Scan || command == Command::Commit),
{
    match command {
        Command::Login => true,
        Command::Logout => true,
        Command::Whoami => true,
        Command::Scan => true,
        Command::Commit => true,
        Command::Revert => false,
        Command::Changelog => false,
        Command::Admin => false,
        Command::Update => false,
    }
}

/// The user does not want to be told of newer releases.
pub open spec fn is_allowed(setting: Option<Seq<char>>) -> bool {
    match setting {
        Some(value) => value.len() > 0 && value != "0"@,
        None => false,
    }
}

/// Whether the user does not want to be told of newer releases. `setting` is
/// the value of `COMMITOR_ALLOW_OUTDATED`, where it is set.
pub fn allow_outdated(setting: Option<&str>) -> (r: bool)
    ensures
        r == is_allowed(text_ref(setting)),
{
    match setting {
        Some(value) => chars_of(value).len() > 0 && !same_text(value, "0"),
        None => false,
    }
}

/// The notice that a newer release is there.
pub open spec fn notice_text(latest: Seq<char>) -> Seq<char> {
    "note: commitor "@ + latest + " is available — run `commitor update` to upgrade (current: v"@
        + "0.5.1"@ + ").\n"@
}

/// Write the notice that a newer release is there.
pub fn update_notice(latest: &str) -> (r: String)
    ensures
        r@ == notice_text(latest@),
{
    let mut out = "note: commitor ".to_owned();
    out.append(latest);
    out.append(" is available — run `commitor update` to upgrade (current: v");
    out.append(current_version());
    out.append(").\n");
    out
}

/// What to do before a command.
#[derive(Debug)]
pub enum Notice {
    /// Nothing.
    Nothing,
    /// Print a notice.
    Print(String),
    /// Look for the latest release.
    Check,
}

/// What to do before a command, from what is stored on this machine: a release
/// that is known to be newer is told of at once, and at most once a day the
/// latest release is looked for. `elapsed` are the seconds since that was last
/// done; it is an error where they cannot be told.
pub fn notify_update_available(
    allowed: bool,
    pending: &Pending,
    elapsed: Result<Option<u64>, String>,
) -> (r: Notice)
    ensures
        if allowed {
            r is Nothing
        } else {
            match pending {
                Pending::Newer(latest) => r matches Notice::Print(out) && out@ == notice_text(
                    latest@,
                ),
                _ => match elapsed {
                    Ok(None) => r is Check,
                    Ok(Some(secs)) => if secs >= UPDATE_CHECK_INTERVAL_SECS {
                        r is Check
                    } else {
                        r is Nothing
                    },
                    Err(_) => r is Nothing,
                },
            }
        },
{
    if allowed {
        return Notice::Nothing;
    }
    match pending {
        Pending::Newer(latest) => Notice::Print(update_notice(latest.as_str())),
        _ => match elapsed {
            Ok(since) => if update_check_due(since) {
                Notice::Check
            } else {
                Notice::Nothing
            },
            Err(_) => Notice::Nothing,
        },
    }
}

/// What to do after the latest release was found: a newer one is written down
/// and told of.
pub fn after_release_check(tag: &str) -> (r: Option<String>)
    ensures
        text(r) == if newer(tag@, "0.5.1"@) {
            Some(notice_text(tag@))
        } else {
            None
        },
{
    if is_newer(tag, current_version()) {
        Some(update_notice(tag))
    } else {
        None
    }
}

// ── updating ────────────────────────────────────────────────────────

/// What `commitor update` does once it knows the latest release.
#[derive(Debug)]
pub enum UpdateStep {
    /// This program is the latest release.
    Latest(String),
    /// A newer release is there: what to print, what to ask, and the name and
    /// the address of the file.
    Offer { say: String, question: String, name: String, url: String },
    /// A newer release is there, but no file for this platform.
    NoFile { say: String, error: String },
}

/// What is said of a newer release.
pub open spec fn available_text(tag: Seq<char>) -> Seq<char> {
    "New version available: "@ + tag + " (you have v"@ + "0.5.1"@ + ")\n"@
}

/// What is asked before a download.
pub open spec fn install_question(tag: Seq<char>, name: Seq<char>) -> Seq<char> {
    "Download and install "@ + tag + " ("@ + name + ")? [y/N] "@
}

/// Decide what to do with the latest release.
pub fn run_update(release: &ReleaseInfo, os: &str, arch: &str) -> (r: UpdateStep)
    ensures
        ({
            let tag = release.tag_name@;
            let wanted = asset_name_of(os@, arch@);
            match r {
                UpdateStep::Latest(say) => !newer(tag, "0.5.1"@) && say@
                    == "You're already on the latest version (v"@ + "0.5.1"@ + ").\n"@,
                UpdateStep::Offer { say, question, name, url } => {
                    &&& newer(tag, "0.5.1"@)
                    &&& asset_index(release.assets@, wanted) matches Some(i) && 0 <= i
                        < release.assets@.len() && url@
                        == release.assets@[i].browser_download_url@
                    &&& name@ == wanted
                    &&& say@ == available_text(tag)
                    &&& question@ == install_question(tag, wanted)
                },
                UpdateStep::NoFile { say, error } => newer(tag, "0.5.1"@) && asset_index(
                    release.assets@,
                    wanted,
                ) is None && say@ == available_text(tag) && error@ == no_asset_text(
                    *release,
                    wanted,
                ),
            }
        }),
{
    let tag = release.tag_name.as_str();
    if !is_newer(tag, current_version()) {
        let mut say = "You're already on the latest version (v".to_owned();
        say.append(current_version());
        say.append(").\n");
        return UpdateStep::Latest(say);
    }
    let mut say = "New version available: ".to_owned();
    say.append(tag);
    say.append(" (you have v");
    say.append(current_version());
    say.append(")\n");
    match find_matching_asset(release, os, arch) {
        Err(error) => UpdateStep::NoFile { say, error },
        Ok(asset) => {
            let mut question = "Download and install ".to_owned();
            question.append(tag);
            question.append(" (");
            question.append(asset.name.as_str());
            question.append(")? [y/N] ");
            UpdateStep::Offer {
                say,
                question,
                name: asset.name.clone(),
                url: asset.browser_download_url.clone(),
            }
        },
    }
}

/// What is said after a newer release was installed.
pub fn installed_text(tag: &str) -> (r: String)
    ensures
        r@ == "Installed "@ + tag@ + ". Run `commitor --version` in a new shell to confirm.\n"@,
{
    let mut out = "Installed ".to_owned();
    out.append(tag);
    out.append(". Run `commitor --version` in a new shell to confirm.\n");
    out
}

/// Whether a line confirms. Only `y` and `yes`, in any case, do.
pub fn confirm(line: &str) -> (r: bool)
    ensures
        r == says_yes(line@),
{
    prompt_confirm(line)
}

} // verus!
