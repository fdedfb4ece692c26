//! Releases: the file for a platform, where settings are, and when to look.

use vstd::prelude::*;

use crate::cli::{available_text, install_question, is_allowed, notice_text};
use crate::config::base_url_of;
use crate::engine::update::{
    asset_index, asset_name_of, bare_version, config_segments, newer, no_asset_text,
    numbers_greater, ReleaseAsset, ReleaseInfo,
};
use crate::laws::texts::{
    blank, lemma_edges_taken_off, lemma_occurs_inside, lemma_prefix_is_taken_off, lemma_trimmed,
    tight,
};
use crate::text::{is_white_space, occurs, trimmed};

verus! {

/// The name of the file for a platform names the architecture.
pub proof fn lemma_the_file_names_the_architecture(os: Seq<char>, arch: Seq<char>)
    ensures
        ("commitor-"@ + arch).is_prefix_of(asset_name_of(os, arch)),
{
    let head = "commitor-"@ + arch;
    let name = asset_name_of(os, arch);
    assert(name.subrange(0, head.len() as int) =~= head);
}

/// Different architectures have different files.
pub proof fn lemma_architectures_have_different_files(
    os: Seq<char>,
    a: Seq<char>,
    b: Seq<char>,
)
    requires
        asset_name_of(os, a) == asset_name_of(os, b),
    ensures
        a == b,
{
    let x = asset_name_of(os, a);
    let y = asset_name_of(os, b);
    let n = "commitor-"@.len();
    lemma_the_file_names_the_architecture(os, a);
    lemma_the_file_names_the_architecture(os, b);
    assert(x.len() - a.len() == y.len() - b.len());
    assert(a.len() == b.len());
    assert forall|i: int| 0 <= i < a.len() implies a[i] == b[i] by {
        assert(x.subrange(0, ("commitor-"@ + a).len() as int)[n + i] == a[i]);
        assert(y.subrange(0, ("commitor-"@ + b).len() as int)[n + i] == b[i]);
        assert(x[n + i] == a[i]);
        assert(y[n + i] == b[i]);
    }
    assert(a =~= b);
}

/// Linux, macOS and Windows have different files; only the one for Windows ends
/// like a program there, and each tells its system.
pub proof fn lemma_systems_have_different_files(arch: Seq<char>)
    ensures
        "-linux-gnu"@.is_suffix_of(asset_name_of("linux"@, arch)),
        "-apple-darwin"@.is_suffix_of(asset_name_of("macos"@, arch)),
        "-windows-msvc.exe"@.is_suffix_of(asset_name_of("windows"@, arch)),
        asset_name_of("linux"@, arch) == "commitor-"@ + arch + "-unknown-linux-gnu"@,
        asset_name_of("macos"@, arch) == "commitor-"@ + arch + "-apple-darwin"@,
        asset_name_of("windows"@, arch) == "commitor-"@ + arch + "-pc-windows-msvc.exe"@,
{
    reveal_strlit("linux");
    reveal_strlit("macos");
    reveal_strlit("windows");
    reveal_strlit("-linux-gnu");
    reveal_strlit("-unknown-linux-gnu");
    reveal_strlit("-apple-darwin");
    reveal_strlit("-windows-msvc.exe");
    reveal_strlit("-pc-windows-msvc");
    reveal_strlit("-pc-windows-msvc.exe");
    reveal_strlit(".exe");
    assert("linux"@[0] != "macos"@[0] && "windows"@[0] != "macos"@[0] && "linux"@[0]
        != "windows"@[0]);
    let l = asset_name_of("linux"@, arch);
    let m = asset_name_of("macos"@, arch);
    let w = asset_name_of("windows"@, arch);
    assert(l.subrange(l.len() - 10, l.len() as int) =~= "-linux-gnu"@);
    assert(m.subrange(m.len() - 13, m.len() as int) =~= "-apple-darwin"@);
    assert(w.subrange(w.len() - 17, w.len() as int) =~= "-windows-msvc.exe"@);
    assert(l =~= "commitor-"@ + arch + "-unknown-linux-gnu"@);
    assert(m =~= "commitor-"@ + arch + "-apple-darwin"@);
    assert(w =~= "commitor-"@ + arch + "-pc-windows-msvc.exe"@);
}

/// The file is the first one of the release with its name, and there is none
/// only where no file has it.
pub proof fn lemma_the_file_has_its_name(assets: Seq<ReleaseAsset>, name: Seq<char>)
    ensures
        match asset_index(assets, name) {
            Some(i) => 0 <= i < assets.len() && assets[i].name@ == name && forall|j: int|
                0 <= j < i ==> (#[trigger] assets[j]).name@ != name,
            None => forall|j: int| 0 <= j < assets.len() ==> (#[trigger] assets[j]).name@ != name,
        },
    decreases assets.len(),
{
    if assets.len() > 0 {
        let front = assets.drop_last();
        lemma_the_file_has_its_name(front, name);
        assert forall|j: int| 0 <= j < front.len() implies #[trigger] assets[j] == front[j] by {}
        match asset_index(front, name) {
            Some(i) => {
                assert forall|j: int| 0 <= j < i implies (#[trigger] assets[j]).name@ != name by {
                    assert(assets[j] == front[j]);
                }
            },
            None => {
                assert forall|j: int| 0 <= j < front.len() implies (#[trigger] assets[j]).name@
                    != name by {
                    assert(assets[j] == front[j]);
                }
            },
        }
    }
}

/// Where no file fits, the wanted name and the page of the release are told.
pub proof fn lemma_a_missing_file_is_told(release: ReleaseInfo, wanted: Seq<char>)
    ensures
        occurs(no_asset_text(release, wanted), wanted),
        occurs(no_asset_text(release, wanted), release.tag_name@),
        release.html_url@.is_suffix_of(no_asset_text(release, wanted)),
{
    let s = no_asset_text(release, wanted);
    let tag = release.tag_name@;
    let url = release.html_url@;
    let a = "release "@;
    let b = " has no asset named `"@;
    let c = "` — download it manually from "@;
    assert(s =~= a + tag + (b + wanted + c + url));
    lemma_occurs_inside(a, tag, b + wanted + c + url);
    assert(s =~= (a + tag + b) + wanted + (c + url));
    lemma_occurs_inside(a + tag + b, wanted, c + url);
    assert(s.subrange(s.len() - url.len(), s.len() as int) =~= url);
}

// ── versions ────────────────────────────────────────────────────────

/// White space around a tag and one leading `v` do not matter.
pub proof fn lemma_tags_are_bare_versions(
    a: Seq<char>,
    version: Seq<char>,
    b: Seq<char>,
    other: Seq<char>,
)
    requires
        blank(a),
        blank(b),
        tight(version),
        version.len() > 0,
        version[0] != 'v',
    ensures
        bare_version(a + version + b) == version,
        bare_version(a + (seq!['v'] + version) + b) == version,
        newer(a + (seq!['v'] + version) + b, other) == newer(version, other),
        newer(other, a + (seq!['v'] + version) + b) == newer(other, version),
{
    reveal_strlit("v");
    let none: Seq<char> = Seq::empty();
    let tagged = seq!['v'] + version;
    assert("v"@ =~= seq!['v']);
    lemma_trimmed(a, version, b);
    assert(!is_white_space('v'));
    assert(tagged.last() == version.last());
    lemma_trimmed(a, tagged, b);
    lemma_prefix_is_taken_off("v"@, version, version);
    if "v"@.is_prefix_of(version) {
        assert(version.subrange(0, 1)[0] == version[0]);
    }
    assert(none + version + none =~= version);
}

/// Versions of three numbers are ordered as the triples are: of two different
/// ones exactly one is greater, and a greater number counts before all that
/// follow it.
pub proof fn lemma_triples_are_ordered(a: (u64, u64, u64), b: (u64, u64, u64), c: (u64, u64, u64))
    ensures
        !numbers_greater(a, a),
        a != b ==> numbers_greater(a, b) != numbers_greater(b, a),
        numbers_greater(a, b) && numbers_greater(b, c) ==> numbers_greater(a, c),
        a.0 > b.0 ==> numbers_greater(a, b),
        a.0 == b.0 && a.1 > b.1 ==> numbers_greater(a, b),
        a.0 == b.0 && a.1 == b.1 ==> (numbers_greater(a, b) <==> a.2 > b.2),
{
}

// ── settings ────────────────────────────────────────────────────────

/// The directory for the settings is under the first of the places that is set,
/// always ends in the name of the program, and there is none only where no
/// place is set. What other systems use does not matter.
pub proof fn lemma_the_settings_have_a_place(
    windows: bool,
    appdata: Option<Seq<char>>,
    xdg: Option<Seq<char>>,
    home: Option<Seq<char>>,
    other: Option<Seq<char>>,
)
    ensures
        match config_segments(windows, appdata, xdg, home) {
            Ok(segments) => {
                &&& segments.len() >= 2
                &&& segments.last() == "commitor"@
                &&& windows ==> appdata == Some(segments[0]) && segments.len() == 2
                &&& !windows && xdg is Some && xdg->0.len() > 0 ==> xdg == Some(segments[0])
                    && segments.len() == 2
                &&& !windows && (xdg is None || xdg->0.len() == 0) ==> home == Some(segments[0])
                    && segments.len() == 3 && segments[1] == ".config"@
            },
            Err(_) => if windows {
                appdata is None
            } else {
                home is None && (xdg is None || xdg->0.len() == 0)
            },
        },
        config_segments(true, appdata, xdg, home) == config_segments(true, appdata, other, other),
        config_segments(false, appdata, xdg, home) == config_segments(false, other, xdg, home),
{
}

/// The backend that the user names is used, without the slashes at its end; a
/// blank name counts as none.
pub proof fn lemma_the_named_backend_is_used(url: Seq<char>, slashes: Seq<char>, none: Seq<char>)
    requires
        forall|i: int| 0 <= i < slashes.len() ==> #[trigger] slashes[i] == '/',
        url.len() > 0,
        url.last() != '/',
        url[0] != '/',
        trimmed(url + slashes).len() > 0,
        trimmed(none).len() == 0,
    ensures
        base_url_of(Some(url + slashes)) == url,
        base_url_of(Some(none)) == base_url_of(None),
{
    let empty: Seq<char> = Seq::empty();
    lemma_edges_taken_off(empty, url, slashes, '/');
}

/// Any setting but an empty one and `0` silences the notice, and no setting
/// does not.
pub proof fn lemma_what_silences_the_notice(value: Seq<char>)
    ensures
        is_allowed(Some(value)) <==> value.len() > 0 && !(value.len() == 1 && value[0] == '0'),
        !is_allowed(None),
{
    reveal_strlit("0");
    if value.len() == 1 && value[0] == '0' {
        assert(value =~= "0"@);
    }
}

/// The notice and the offer name the release that is there, and the offer also
/// the file.
pub proof fn lemma_the_release_is_named(tag: Seq<char>, name: Seq<char>)
    ensures
        occurs(notice_text(tag), tag),
        occurs(available_text(tag), tag),
        occurs(install_question(tag, name), tag),
        occurs(install_question(tag, name), name),
{
    let a = "note: commitor "@;
    let rest = notice_text(tag).skip((a + tag).len() as int);
    assert(notice_text(tag) =~= a + tag + rest);
    lemma_occurs_inside(a, tag, rest);
    let b = "New version available: "@;
    let rest2 = available_text(tag).skip((b + tag).len() as int);
    assert(available_text(tag) =~= b + tag + rest2);
    lemma_occurs_inside(b, tag, rest2);
    let c = "Download and install "@;
    let q = install_question(tag, name);
    assert(q =~= c + tag + (" ("@ + name + ")? [y/N] "@));
    lemma_occurs_inside(c, tag, " ("@ + name + ")? [y/N] "@);
    assert(q =~= (c + tag + " ("@) + name + ")? [y/N] "@);
    lemma_occurs_inside(c + tag + " ("@, name, ")? [y/N] "@);
}

} // verus!
