//! Releases and the notice of a newer one.

use commitor::cli::{
    after_release_check, allow_outdated, confirm, installed_text, is_server_facing,
    notify_update_available, run_update, Command, Notice, UpdateStep,
};
use commitor::engine::update::{
    config_dir, current_version, download_error, expected_asset_name, find_matching_asset,
    is_newer, pending_version, record_pending_version, release_error, update_check_due,
    user_agent, Pending, ReleaseAsset, ReleaseInfo,
};

#[test]
fn newer_patch_is_newer() {
    assert!(is_newer("0.1.1", "0.1.0"));
}

#[test]
fn newer_minor_is_newer() {
    assert!(is_newer("0.2.0", "0.1.9"));
}

#[test]
fn newer_major_is_newer() {
    assert!(is_newer("1.0.0", "0.9.9"));
}

#[test]
fn equal_versions_are_not_newer() {
    assert!(!is_newer("0.1.0", "0.1.0"));
}

#[test]
fn older_latest_is_not_newer() {
    assert!(!is_newer("0.1.0", "0.2.0"));
}

#[test]
fn v_prefix_is_stripped_from_both_sides() {
    assert!(is_newer("v0.2.0", "v0.1.0"));
    assert!(is_newer("v0.2.0", "0.1.0"));
    assert!(is_newer("0.2.0", "v0.1.0"));
    assert!(!is_newer("v0.1.0", "v0.1.0"));
}

#[test]
fn unparseable_versions_never_count_as_newer() {
    assert!(!is_newer("not-a-version", "0.1.0"));
    assert!(!is_newer("v0.2.0", ""));
    assert!(!is_newer("", "v0.1.0"));
}


const OS: &str = "linux";

const ARCH: &str = "x86_64";

fn release_with_assets(names: &[&str]) -> ReleaseInfo {
    ReleaseInfo {
        tag_name: "v0.2.0".into(),
        html_url: "https://github.com/Commitor-AI/commitor/releases/tag/v0.2.0".into(),
        assets: names
            .iter()
            .map(|name| ReleaseAsset {
                name: (*name).into(),
                browser_download_url: format!("https://example.com/{name}"),
            })
            .collect(),
    }
}

#[test]
fn finds_the_asset_for_this_platform() {
    let release = release_with_assets(&[
        "commitor-x86_64-apple-darwin",
        "commitor-aarch64-apple-darwin",
        "commitor-x86_64-pc-windows-msvc.exe",
        "commitor-x86_64-unknown-linux-gnu",
        "source.tar.gz",
    ]);

    let asset = find_matching_asset(&release, OS, ARCH).unwrap();
    assert_eq!(asset.name, expected_asset_name(OS, ARCH));
    assert!(asset.name.starts_with("commitor-"));
}

#[test]
fn missing_platform_asset_is_an_error() {
    let release = release_with_assets(&["source.tar.gz"]);
    assert!(find_matching_asset(&release, OS, ARCH).is_err());
}

#[test]
fn expected_asset_name_follows_release_convention() {
    let name = expected_asset_name(OS, ARCH);
    assert!(name.starts_with("commitor-"));
    if OS == "windows" {
        assert!(name.ends_with(".exe"));
        assert!(name.contains("pc-windows-msvc"));
    } else if OS == "macos" {
        assert!(name.ends_with("-apple-darwin"));
    } else if OS == "linux" {
        assert!(name.ends_with("-unknown-linux-gnu"));
    }
}

#[test]
fn every_platform_has_its_file() {
    assert_eq!(expected_asset_name("linux", "x86_64"), "commitor-x86_64-unknown-linux-gnu");
    assert_eq!(expected_asset_name("macos", "aarch64"), "commitor-aarch64-apple-darwin");
    assert_eq!(expected_asset_name("windows", "x86_64"), "commitor-x86_64-pc-windows-msvc.exe");
    assert_eq!(expected_asset_name("plan9", "mips"), "commitor-mips-plan9");
}

#[test]
fn a_missing_file_is_named_with_the_release() {
    let err = find_matching_asset(&release_with_assets(&[]), "linux", "arm").unwrap_err();
    assert_eq!(
        err,
        "release v0.2.0 has no asset named `commitor-arm-unknown-linux-gnu` — download it manually from https://github.com/Commitor-AI/commitor/releases/tag/v0.2.0"
    );
}

#[test]
fn newer_is_strict_and_one_sided() {
    let tags = ["0.1.0", "0.1.1", "0.2.0", "1.0.0", "1.0.0-rc.1", "10.0.0", "9.9.9"];
    for a in tags {
        assert!(!is_newer(a, a));
        for b in tags {
            assert!(!(is_newer(a, b) && is_newer(b, a)));
        }
    }
    assert!(is_newer("10.0.0", "9.9.9"));
    assert!(is_newer("1.0.0", "1.0.0-rc.1"));
    assert!(is_newer("  v2.0.0 ", "1.9.9"));
}

#[test]
fn a_check_is_due_once_a_day() {
    assert!(update_check_due(None));
    assert!(!update_check_due(Some(0)));
    assert!(!update_check_due(Some(86_399)));
    assert!(update_check_due(Some(86_400)));
}

#[test]
fn a_recorded_release_counts_while_it_is_newer() {
    assert!(matches!(pending_version(None), Pending::Absent));
    let stored = record_pending_version(" 99.0.0\n");
    assert_eq!(stored, "99.0.0");
    assert!(matches!(pending_version(Some(&stored)), Pending::Newer(v) if v == "99.0.0"));
    assert!(matches!(pending_version(Some("0.0.1")), Pending::Stale));
    assert!(matches!(pending_version(Some(" \n")), Pending::Stale));
    assert!(matches!(pending_version(Some(current_version())), Pending::Stale));
}

#[test]
fn the_configuration_directory_follows_the_platform() {
    let dir = |w, a, x, h| config_dir(w, a, x, h);
    assert_eq!(dir(true, Some("A"), None, None).unwrap(), vec!["A", "commitor"]);
    assert_eq!(dir(true, None, Some("X"), Some("H")).unwrap_err(), "APPDATA is not set");
    assert_eq!(dir(false, None, Some("X"), Some("H")).unwrap(), vec!["X", "commitor"]);
    assert_eq!(dir(false, None, Some(""), Some("H")).unwrap(), vec!["H", ".config", "commitor"]);
    assert_eq!(dir(false, None, None, None).unwrap_err(), "HOME is not set");
}

#[test]
fn errors_of_the_release_page_are_told() {
    assert_eq!(current_version(), "0.5.1");
    assert_eq!(user_agent(), "commitor/0.5.1");
    assert_eq!(release_error(404, "none"), "GitHub API returned HTTP 404: none");
    assert_eq!(download_error(500), "download returned HTTP 500");
}

#[test]
fn the_notice_fails_open() {
    let newer = Pending::Newer("v9.0.0".to_string());
    assert!(matches!(notify_update_available(true, &newer, Ok(None)), Notice::Nothing));
    assert!(matches!(
        notify_update_available(false, &newer, Ok(Some(0))),
        Notice::Print(t) if t == "note: commitor v9.0.0 is available — run `commitor update` to upgrade (current: v0.5.1).\n"
    ));
    assert!(matches!(notify_update_available(false, &Pending::Stale, Ok(None)), Notice::Check));
    assert!(matches!(notify_update_available(false, &Pending::Absent, Ok(Some(5))), Notice::Nothing));
    assert!(matches!(notify_update_available(false, &Pending::Absent, Err(String::new())), Notice::Nothing));
    assert!(after_release_check("v99.0.0").is_some());
    assert_eq!(after_release_check("v0.5.1"), None);
    assert_eq!(after_release_check("nightly"), None);
}

#[test]
fn an_update_is_offered_with_its_file() {
    let mut release = release_with_assets(&["commitor-x86_64-unknown-linux-gnu"]);
    assert!(matches!(
        run_update(&release, "linux", "x86_64"),
        UpdateStep::Latest(t) if t == "You're already on the latest version (v0.5.1).\n"
    ));
    release.tag_name = "v9.1.0".to_string();
    match run_update(&release, "linux", "x86_64") {
        UpdateStep::Offer { say, question, name, url } => {
            assert_eq!(say, "New version available: v9.1.0 (you have v0.5.1)\n");
            assert_eq!(question, "Download and install v9.1.0 (commitor-x86_64-unknown-linux-gnu)? [y/N] ");
            assert_eq!(name, "commitor-x86_64-unknown-linux-gnu");
            assert_eq!(url, "https://example.com/commitor-x86_64-unknown-linux-gnu");
        }
        other => panic!("{other:?}"),
    }
    assert!(matches!(run_update(&release, "macos", "x86_64"), UpdateStep::NoFile { .. }));
    assert_eq!(installed_text("v1"), "Installed v1. Run `commitor --version` in a new shell to confirm.\n");
}

#[test]
fn settings_and_commands_are_read() {
    assert!(!allow_outdated(None) && !allow_outdated(Some("")) && !allow_outdated(Some("0")));
    assert!(allow_outdated(Some("1")) && allow_outdated(Some("no")));
    for c in [Command::Login, Command::Logout, Command::Whoami, Command::Scan, Command::Commit] {
        assert!(is_server_facing(c));
    }
    for c in [Command::Update, Command::Revert, Command::Changelog, Command::Admin] {
        assert!(!is_server_facing(c));
    }
    assert!(confirm("Y\n") && !confirm("n\n"));
}
