//! Local rules that judge from its paths whether a changeset is one logical
//! change.

use vstd::prelude::*;

use crate::letters::{ascii_lowercase, ascii_lowered};
use crate::number::{count, decimal_of};
use crate::order::{
    by_text, lemma_by_text_is_strict_order, lemma_sorted_set_depends_on_members, sorted_names,
    sorted_texts,
};
use crate::pieces::{join, joined, last_of_split, last_piece};
use crate::text::{
    among, chars_of, find, first_index, is_one_of, last_index, lemma_texts_push, rfind, text_of,
    texts,
};

verus! {

/// What the rules concluded about a changeset.
#[derive(Debug, PartialEq, Eq)]
pub enum Verdict {
    /// Confidently one logical change.
    Clean { summary: String },
    /// Perhaps several changes.
    Inconclusive { reason: String },
}

/// A verdict with its explanation as a text.
pub enum VerdictView {
    Clean { summary: Seq<char> },
    Inconclusive { reason: Seq<char> },
}

impl View for Verdict {
    type V = VerdictView;

    open spec fn view(&self) -> VerdictView {
        match self {
            Verdict::Clean { summary } => VerdictView::Clean { summary: summary@ },
            Verdict::Inconclusive { reason } => VerdictView::Inconclusive { reason: reason@ },
        }
    }
}

/// Extensions of frontend code.
pub open spec fn frontend_extensions() -> Seq<&'static str> {
    seq![
        "css",
        "scss",
        "sass",
        "less",
        "html",
        "htm",
        "js",
        "jsx",
        "ts",
        "tsx",
        "vue",
        "svelte",
    ]
}

/// Extensions of backend code.
pub open spec fn backend_extensions() -> Seq<&'static str> {
    seq![
        "rs",
        "py",
        "go",
        "java",
        "kt",
        "rb",
        "php",
        "c",
        "cc",
        "cpp",
        "h",
        "hpp",
        "cs",
        "swift",
    ]
}

/// Extensions of documentation.
pub open spec fn docs_extensions() -> Seq<&'static str> {
    seq!["md", "mdx", "rst", "adoc"]
}

/// Directories of documentation.
pub open spec fn docs_directories() -> Seq<&'static str> {
    seq!["docs", "doc", "documentation", "wiki"]
}

/// The first segment of a path; files at the root of the repository have none.
pub open spec fn top_segment_of(path: Seq<char>) -> Option<Seq<char>> {
    match first_index(path, '/') {
        Some(i) => if i > 0 {
            Some(path.take(i))
        } else {
            None
        },
        None => None,
    }
}

/// The extension of a path; dotfiles and names that end in a dot have none.
pub open spec fn extension_of(path: Seq<char>) -> Option<Seq<char>> {
    let leaf = last_piece(path, '/');
    match last_index(leaf, '.') {
        Some(i) => if i > 0 && i + 1 < leaf.len() {
            Some(leaf.skip(i + 1))
        } else {
            None
        },
        None => None,
    }
}

/// The first segments of the paths that have one.
pub open spec fn top_segments(paths: Seq<Seq<char>>) -> Seq<Seq<char>>
    decreases paths.len(),
{
    if paths.len() == 0 {
        Seq::empty()
    } else {
        match top_segment_of(paths.last()) {
            Some(s) => top_segments(paths.drop_last()).push(s),
            None => top_segments(paths.drop_last()),
        }
    }
}

/// The extensions, in lower case, of the paths that have one.
pub open spec fn extensions(paths: Seq<Seq<char>>) -> Seq<Seq<char>>
    decreases paths.len(),
{
    if paths.len() == 0 {
        Seq::empty()
    } else {
        match extension_of(paths.last()) {
            Some(e) => extensions(paths.drop_last()).push(ascii_lowered(e)),
            None => extensions(paths.drop_last()),
        }
    }
}

/// Membership in a list of names.
pub open spec fn listed(names: Seq<&str>) -> spec_fn(Seq<char>) -> bool {
    |s: Seq<char>| among(s, names)
}

/// The members of `items` that are listed in `names`.
pub open spec fn picked(items: Seq<Seq<char>>, names: Seq<&str>) -> Seq<Seq<char>> {
    items.filter(listed(names))
}

/// The verdict on a changeset with these paths.
pub open spec fn verdict_of(paths: Seq<Seq<char>>) -> VerdictView {
    let areas = sorted_texts(top_segments(paths));
    let exts = sorted_texts(extensions(paths));
    let frontend = picked(exts, frontend_extensions());
    let backend = picked(exts, backend_extensions());
    let docs = picked(exts, docs_extensions());
    if paths.len() == 0 {
        VerdictView::Clean { summary: "no files changed"@ }
    } else if frontend.len() == 0 && backend.len() == 0 && docs.len() > 0 {
        VerdictView::Clean { summary: "documentation-only change"@ }
    } else if frontend.len() > 0 && backend.len() > 0 {
        VerdictView::Inconclusive {
            reason: "mixes frontend ("@ + joined(frontend, "/"@) + ") with backend ("@ + joined(
                backend,
                "/"@,
            ) + ") files"@,
        }
    } else if docs.len() > 0 {
        if picked(areas, docs_directories()).len() == 0 && areas.len() == 1 {
            VerdictView::Clean { summary: "code and its docs under "@ + areas[0] }
        } else {
            VerdictView::Inconclusive { reason: "touches both documentation and code"@ }
        }
    } else if areas.len() == 0 {
        VerdictView::Clean { summary: "all changes under "@ + "the repo root"@ }
    } else if areas.len() == 1 {
        VerdictView::Clean { summary: "all changes under "@ + areas[0] }
    } else {
        VerdictView::Inconclusive {
            reason: "spreads across "@ + decimal_of(areas.len()) + " areas: "@ + joined(
                areas,
                ", "@,
            ),
        }
    }
}

fn top_segment(path: &str) -> (r: Option<String>)
    ensures
        match r {
            Some(s) => top_segment_of(path@) == Some(s@),
            None => top_segment_of(path@) is None,
        },
{
    let chars = chars_of(path);
    let s = chars.as_slice();
    match find(s, '/') {
        Some(i) => if i > 0 {
            assert(s@.subrange(0, i as int) =~= s@.take(i as int));
            Some(text_of(&s[0..i]))
        } else {
            None
        },
        None => None,
    }
}

fn lowered_extension(path: &str) -> (r: Option<String>)
    ensures
        match r {
            Some(s) => extension_of(path@) matches Some(e) && s@ == ascii_lowered(e),
            None => extension_of(path@) is None,
        },
{
    let chars = chars_of(path);
    let leaf = last_of_split(chars.as_slice(), '/');
    let n = leaf.len();
    match rfind(leaf, '.') {
        Some(i) => if i > 0 && i + 1 < n {
            assert(leaf@.subrange(i + 1, n as int) =~= leaf@.skip(i + 1));
            let lowered = ascii_lowercase(&leaf[i + 1..n]);
            Some(text_of(lowered.as_slice()))
        } else {
            None
        },
        None => None,
    }
}

fn areas(paths: &[String]) -> (r: Vec<String>)
    ensures
        texts(r@) == sorted_texts(top_segments(texts(paths@))),
{
    broadcast use lemma_texts_push;

    let ghost all = texts(paths@);
    let mut found: Vec<String> = Vec::new();
    assert(texts(found@) =~= top_segments(all.take(0)));
    for i in 0..paths.len()
        invariant
            all == texts(paths@),
            texts(found@) == top_segments(all.take(i as int)),
    {
        assert(all.take(i + 1).drop_last() =~= all.take(i as int));
        assert(all.take(i + 1).last() == paths@[i as int]@);
        match top_segment(paths[i].as_str()) {
            Some(s) => {
                found.push(s);
            },
            None => {},
        }
    }
    assert(all.take(all.len() as int) =~= all);
    sorted_names(found)
}

fn extension_names(paths: &[String]) -> (r: Vec<String>)
    ensures
        texts(r@) == sorted_texts(extensions(texts(paths@))),
{
    broadcast use lemma_texts_push;

    let ghost all = texts(paths@);
    let mut found: Vec<String> = Vec::new();
    assert(texts(found@) =~= extensions(all.take(0)));
    for i in 0..paths.len()
        invariant
            all == texts(paths@),
            texts(found@) == extensions(all.take(i as int)),
    {
        assert(all.take(i + 1).drop_last() =~= all.take(i as int));
        assert(all.take(i + 1).last() == paths@[i as int]@);
        match lowered_extension(paths[i].as_str()) {
            Some(s) => {
                found.push(s);
            },
            None => {},
        }
    }
    assert(all.take(all.len() as int) =~= all);
    sorted_names(found)
}

fn pick(items: &[String], names: &[&str]) -> (r: Vec<String>)
    ensures
        texts(r@) == picked(texts(items@), names@),
{
    broadcast use lemma_texts_push;

    let ghost all = texts(items@);
    let mut found: Vec<String> = Vec::new();
    assert(all.take(0) =~= Seq::empty());
    assert(texts(found@) =~= picked(all.take(0), names@)) by {
        reveal(Seq::filter);
    }
    for i in 0..items.len()
        invariant
            all == texts(items@),
            texts(found@) == picked(all.take(i as int), names@),
    {
        proof {
            assert(all.take(i + 1) =~= all.take(i as int).push(items@[i as int]@));
            all.take(i as int).lemma_filter_push(items@[i as int]@, listed(names@));
        }
        let chars = chars_of(items[i].as_str());
        if is_one_of(chars.as_slice(), names) {
            found.push(items[i].clone());
        }
    }
    assert(all.take(all.len() as int) =~= all);
    found
}

/// Judge a changeset by its paths.
pub fn evaluate(paths: &[String]) -> (r: Verdict)
    ensures
        r@ == verdict_of(texts(paths@)),
{
    if paths.len() == 0 {
        return Verdict::Clean { summary: "no files changed".to_owned() };
    }
    let top_dirs = areas(paths);
    let exts = extension_names(paths);
    let frontend_names: Vec<&str> = vec![
        "css",
        "scss",
        "sass",
        "less",
        "html",
        "htm",
        "js",
        "jsx",
        "ts",
        "tsx",
        "vue",
        "svelte",
    ];
    let backend_names: Vec<&str> = vec![
        "rs",
        "py",
        "go",
        "java",
        "kt",
        "rb",
        "php",
        "c",
        "cc",
        "cpp",
        "h",
        "hpp",
        "cs",
        "swift",
    ];
    let docs_names: Vec<&str> = vec!["md", "mdx", "rst", "adoc"];
    let docs_dirs: Vec<&str> = vec!["docs", "doc", "documentation", "wiki"];
    assert(frontend_names@ =~= frontend_extensions());
    assert(backend_names@ =~= backend_extensions());
    assert(docs_names@ =~= docs_extensions());
    assert(docs_dirs@ =~= docs_directories());
    let frontend = pick(exts.as_slice(), frontend_names.as_slice());
    let backend = pick(exts.as_slice(), backend_names.as_slice());
    let docs = pick(exts.as_slice(), docs_names.as_slice());
    assert(texts(frontend@).len() == frontend@.len());
    assert(texts(backend@).len() == backend@.len());
    assert(texts(docs@).len() == docs@.len());
    assert(texts(top_dirs@).len() == top_dirs@.len());

    if frontend.len() == 0 && backend.len() == 0 && docs.len() > 0 {
        return Verdict::Clean { summary: "documentation-only change".to_owned() };
    }
    if frontend.len() > 0 && backend.len() > 0 {
        let mut reason = "mixes frontend (".to_owned();
        reason.append(join(frontend.as_slice(), "/").as_str());
        reason.append(") with backend (");
        reason.append(join(backend.as_slice(), "/").as_str());
        reason.append(") files");
        return Verdict::Inconclusive { reason };
    }
    if docs.len() > 0 {
        let in_docs = pick(top_dirs.as_slice(), docs_dirs.as_slice());
        assert(texts(in_docs@).len() == in_docs@.len());
        if in_docs.len() == 0 && top_dirs.len() == 1 {
            let mut summary = "code and its docs under ".to_owned();
            summary.append(top_dirs[0].as_str());
            return Verdict::Clean { summary };
        }
        return Verdict::Inconclusive { reason: "touches both documentation and code".to_owned() };
    }
    if top_dirs.len() <= 1 {
        let mut summary = "all changes under ".to_owned();
        if top_dirs.len() == 0 {
            summary.append("the repo root");
        } else {
            summary.append(top_dirs[0].as_str());
        }
        return Verdict::Clean { summary };
    }
    let mut reason = "spreads across ".to_owned();
    reason.append(count(top_dirs.len()).as_str());
    reason.append(" areas: ");
    reason.append(join(top_dirs.as_slice(), ", ").as_str());
    Verdict::Inconclusive { reason }
}

// ── the law ─────────────────────────────────────────────────────────

pub proof fn lemma_top_segments_members(paths: Seq<Seq<char>>)
    ensures
        forall|s: Seq<char>| #[trigger]
            top_segments(paths).contains(s) <==> exists|i: int|
                0 <= i < paths.len() && top_segment_of(#[trigger] paths[i]) == Some(s),
    decreases paths.len(),
{
    if paths.len() > 0 {
        let front = paths.drop_last();
        lemma_top_segments_members(front);
        assert forall|s: Seq<char>| #[trigger] top_segments(paths).contains(s) <==> exists|i: int|
            0 <= i < paths.len() && top_segment_of(#[trigger] paths[i]) == Some(s) by {
            if let Some(x) = top_segment_of(paths.last()) {
                lemma_push_contains(top_segments(front), x, s);
            }
            assert(paths[paths.len() - 1] == paths.last());
            if top_segments(front).contains(s) {
                let i = choose|i: int|
                    0 <= i < front.len() && top_segment_of(#[trigger] front[i]) == Some(s);
                assert(paths[i] == front[i]);
            }
            if exists|i: int|
                0 <= i < paths.len() && top_segment_of(#[trigger] paths[i]) == Some(s) {
                let i = choose|i: int|
                    0 <= i < paths.len() && top_segment_of(#[trigger] paths[i]) == Some(s);
                if i < front.len() {
                    assert(front[i] == paths[i]);
                }
            }
        }
    }
}

pub proof fn lemma_extensions_members(paths: Seq<Seq<char>>)
    ensures
        forall|s: Seq<char>| #[trigger]
            extensions(paths).contains(s) <==> exists|i: int|
                0 <= i < paths.len() && has_extension(#[trigger] paths[i], s),
    decreases paths.len(),
{
    if paths.len() > 0 {
        let front = paths.drop_last();
        lemma_extensions_members(front);
        assert forall|s: Seq<char>| #[trigger] extensions(paths).contains(s) <==> exists|i: int|
            0 <= i < paths.len() && has_extension(#[trigger] paths[i], s) by {
            if let Some(x) = extension_of(paths.last()) {
                lemma_push_contains(extensions(front), ascii_lowered(x), s);
            }
            assert(paths[paths.len() - 1] == paths.last());
            if extensions(front).contains(s) {
                let i = choose|i: int|
                    0 <= i < front.len() && has_extension(#[trigger] front[i], s);
                assert(paths[i] == front[i]);
            }
            if exists|i: int| 0 <= i < paths.len() && has_extension(#[trigger] paths[i], s) {
                let i = choose|i: int|
                    0 <= i < paths.len() && has_extension(#[trigger] paths[i], s);
                if i < front.len() {
                    assert(front[i] == paths[i]);
                }
            }
        }
    }
}

/// `s` is the extension of `path` in lower case.
pub open spec fn has_extension(path: Seq<char>, s: Seq<char>) -> bool {
    extension_of(path) matches Some(e) && ascii_lowered(e) == s
}

proof fn lemma_push_contains(items: Seq<Seq<char>>, x: Seq<char>, s: Seq<char>)
    ensures
        items.push(x).contains(s) <==> items.contains(s) || s == x,
{
    assert(items.push(x)[items.len() as int] == x);
    if items.contains(s) {
        let i = choose|i: int| 0 <= i < items.len() && items[i] == s;
        assert(items.push(x)[i] == s);
    }
}

/// The verdict depends only on which paths are changed: neither their order
/// nor repetitions matter.
pub proof fn lemma_verdict_depends_on_the_set_of_paths(a: Seq<Seq<char>>, b: Seq<Seq<char>>)
    requires
        forall|p: Seq<char>| #[trigger] a.contains(p) <==> b.contains(p),
    ensures
        verdict_of(a) == verdict_of(b),
{
    lemma_top_segments_members(a);
    lemma_top_segments_members(b);
    lemma_extensions_members(a);
    lemma_extensions_members(b);
    assert forall|s: Seq<char>| #[trigger] top_segments(a).contains(s) <==> top_segments(b).contains(
        s,
    ) by {
        lemma_same_witness(a, b, |p: Seq<char>| top_segment_of(p) == Some(s));
        lemma_same_witness(b, a, |p: Seq<char>| top_segment_of(p) == Some(s));
    }
    assert forall|s: Seq<char>| #[trigger] extensions(a).contains(s) <==> extensions(b).contains(
        s,
    ) by {
        lemma_same_witness(a, b, |p: Seq<char>| has_extension(p, s));
        lemma_same_witness(b, a, |p: Seq<char>| has_extension(p, s));
    }
    lemma_by_text_is_strict_order();
    lemma_sorted_set_depends_on_members(top_segments(a), top_segments(b), by_text());
    lemma_sorted_set_depends_on_members(extensions(a), extensions(b), by_text());
    if a.len() > 0 {
        assert(a.contains(a[0]));
    }
    if b.len() > 0 {
        assert(a.contains(b[0]) <==> b.contains(b[0]));
    }
}

proof fn lemma_same_witness(
    a: Seq<Seq<char>>,
    b: Seq<Seq<char>>,
    holds: spec_fn(Seq<char>) -> bool,
)
    requires
        forall|p: Seq<char>| #[trigger] a.contains(p) <==> b.contains(p),
    ensures
        (exists|i: int| 0 <= i < a.len() && holds(#[trigger] a[i])) ==> exists|i: int|
            0 <= i < b.len() && holds(#[trigger] b[i]),
{
    if exists|i: int| 0 <= i < a.len() && holds(#[trigger] a[i]) {
        let i = choose|i: int| 0 <= i < a.len() && holds(#[trigger] a[i]);
        assert(a.contains(a[i]));
        let j = choose|j: int| 0 <= j < b.len() && b[j] == a[i];
        assert(holds(b[j]));
    }
}

} // verus!
