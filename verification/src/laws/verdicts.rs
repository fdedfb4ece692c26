//! The local verdict on a changeset.

use vstd::prelude::*;

use crate::heuristics::{
    backend_extensions, docs_directories, docs_extensions, extensions, frontend_extensions,
    has_extension, lemma_extensions_members, lemma_top_segments_members, listed, picked,
    top_segment_of, top_segments, verdict_of, VerdictView,
};
use crate::laws::texts::{
    lacks, lemma_end_pieces, lemma_first_place, lemma_last_place, lemma_one_piece,
};
use crate::letters::ascii_lowered;
use crate::number::decimal_of;
use crate::order::{
    by_text, increasing, lemma_by_text_is_strict_order, lemma_increasing_unique, lemma_sorted_set,
    sorted_texts,
};
use crate::pieces::{joined, last_piece};
use crate::text::{among, first_index, last_index, lemma_first_index, lemma_last_index};

verus! {

/// Extensions of files that a browser shows or runs.
pub open spec fn is_frontend(e: Seq<char>) -> bool {
    e == "css"@
        || e == "scss"@
        || e == "sass"@
        || e == "less"@
        || e == "html"@
        || e == "htm"@
        || e == "js"@
        || e == "jsx"@
        || e == "ts"@
        || e == "tsx"@
        || e == "vue"@
        || e == "svelte"@
}

/// Extensions of files that are compiled or run elsewhere.
pub open spec fn is_backend(e: Seq<char>) -> bool {
    e == "rs"@
        || e == "py"@
        || e == "go"@
        || e == "java"@
        || e == "kt"@
        || e == "rb"@
        || e == "php"@
        || e == "c"@
        || e == "cc"@
        || e == "cpp"@
        || e == "h"@
        || e == "hpp"@
        || e == "cs"@
        || e == "swift"@
}

/// Extensions of documentation.
pub open spec fn is_docs(e: Seq<char>) -> bool {
    e == "md"@
        || e == "mdx"@
        || e == "rst"@
        || e == "adoc"@
}

/// Directories of documentation.
pub open spec fn is_docs_dir(e: Seq<char>) -> bool {
    e == "docs"@
        || e == "doc"@
        || e == "documentation"@
        || e == "wiki"@
}

proof fn lemma_is_frontend(e: Seq<char>)
    ensures
        is_frontend(e) <==> among(e, frontend_extensions()),
{
    let names = frontend_extensions();
    assert(names[0]@ == "css"@);
    assert(names[1]@ == "scss"@);
    assert(names[2]@ == "sass"@);
    assert(names[3]@ == "less"@);
    assert(names[4]@ == "html"@);
    assert(names[5]@ == "htm"@);
    assert(names[6]@ == "js"@);
    assert(names[7]@ == "jsx"@);
    assert(names[8]@ == "ts"@);
    assert(names[9]@ == "tsx"@);
    assert(names[10]@ == "vue"@);
    assert(names[11]@ == "svelte"@);
    if among(e, names) {
        let i = choose|i: int| 0 <= i < names.len() && (#[trigger] names[i])@ == e;
        assert(0 <= i < 12);
    }
}

proof fn lemma_is_backend(e: Seq<char>)
    ensures
        is_backend(e) <==> among(e, backend_extensions()),
{
    let names = backend_extensions();
    assert(names[0]@ == "rs"@);
    assert(names[1]@ == "py"@);
    assert(names[2]@ == "go"@);
    assert(names[3]@ == "java"@);
    assert(names[4]@ == "kt"@);
    assert(names[5]@ == "rb"@);
    assert(names[6]@ == "php"@);
    assert(names[7]@ == "c"@);
    assert(names[8]@ == "cc"@);
    assert(names[9]@ == "cpp"@);
    assert(names[10]@ == "h"@);
    assert(names[11]@ == "hpp"@);
    assert(names[12]@ == "cs"@);
    assert(names[13]@ == "swift"@);
    if among(e, names) {
        let i = choose|i: int| 0 <= i < names.len() && (#[trigger] names[i])@ == e;
        assert(0 <= i < 14);
    }
}

proof fn lemma_is_docs(e: Seq<char>)
    ensures
        is_docs(e) <==> among(e, docs_extensions()),
{
    let names = docs_extensions();
    assert(names[0]@ == "md"@);
    assert(names[1]@ == "mdx"@);
    assert(names[2]@ == "rst"@);
    assert(names[3]@ == "adoc"@);
    if among(e, names) {
        let i = choose|i: int| 0 <= i < names.len() && (#[trigger] names[i])@ == e;
        assert(0 <= i < 4);
    }
}

proof fn lemma_is_docs_dir(e: Seq<char>)
    ensures
        is_docs_dir(e) <==> among(e, docs_directories()),
{
    let names = docs_directories();
    assert(names[0]@ == "docs"@);
    assert(names[1]@ == "doc"@);
    assert(names[2]@ == "documentation"@);
    assert(names[3]@ == "wiki"@);
    if among(e, names) {
        let i = choose|i: int| 0 <= i < names.len() && (#[trigger] names[i])@ == e;
        assert(0 <= i < 4);
    }
}

/// The path is that of a file below a directory at the root.
pub open spec fn below(path: Seq<char>, area: Seq<char>) -> bool {
    area.len() > 0 && lacks(area, '/') && exists|rest: Seq<char>| path == #[trigger] (area + seq!['/']
        + rest)
}

/// The path is that of a file with this extension, which is in lower case: a
/// name that is not empty, a dot, and the extension in any case.
pub open spec fn typed(path: Seq<char>, ext: Seq<char>) -> bool {
    exists|front: Seq<char>, e: Seq<char>| path == #[trigger] (front + seq!['.'] + e)
        && front.len() > 0 && front.last() != '/' && e.len() > 0 && lacks(e, '.') && lacks(e, '/')
        && ascii_lowered(e) == ext
}

/// Some path has an extension of the kind.
pub open spec fn some_typed(paths: Seq<Seq<char>>, kind: spec_fn(Seq<char>) -> bool) -> bool {
    exists|i: int, ext: Seq<char>| 0 <= i < paths.len() && kind(ext) && #[trigger] typed(paths[i], ext)
}

/// Some path is below the directory.
pub open spec fn some_below(paths: Seq<Seq<char>>, area: Seq<char>) -> bool {
    exists|i: int| 0 <= i < paths.len() && #[trigger] below(paths[i], area)
}

// ── what the parts of a path are ────────────────────────────────────

proof fn lemma_below(path: Seq<char>, area: Seq<char>)
    ensures
        below(path, area) <==> top_segment_of(path) == Some(area),
{
    if below(path, area) {
        let rest = choose|rest: Seq<char>| path == #[trigger] (area + seq!['/'] + rest);
        lemma_first_place(area, '/', rest);
        assert(path.take(area.len() as int) =~= area);
    }
    if top_segment_of(path) == Some(area) {
        lemma_first_index(path, '/');
        let i = first_index(path, '/')->0;
        let rest = path.skip(i + 1);
        assert(path =~= area + seq!['/'] + rest);
        assert forall|j: int| 0 <= j < area.len() implies #[trigger] area[j] != '/' by {
            assert(area[j] == path[j]);
        }
    }
}

pub proof fn lemma_leaf(path: Seq<char>)
    ensures
        lacks(last_piece(path, '/'), '/'),
        path == last_piece(path, '/') || exists|d: Seq<char>| path == #[trigger] (d + seq!['/']
            + last_piece(path, '/')),
{
    lemma_last_index(path, '/');
    match last_index(path, '/') {
        None => {
            assert(lacks(path, '/')) by {
                assert forall|i: int| 0 <= i < path.len() implies #[trigger] path[i] != '/' by {
                    assert(path.contains(path[i]));
                }
            }
            lemma_one_piece(path, '/');
        },
        Some(i) => {
            let d = path.take(i);
            let b = path.skip(i + 1);
            assert(path =~= d + seq!['/'] + b);
            assert(lacks(b, '/')) by {
                assert forall|j: int| 0 <= j < b.len() implies #[trigger] b[j] != '/' by {
                    assert(b[j] == path[i + 1 + j]);
                }
            }
            lemma_end_pieces(d, '/', b);
        },
    }
}

proof fn lemma_typed(path: Seq<char>, ext: Seq<char>)
    ensures
        typed(path, ext) <==> has_extension(path, ext),
{
    let leaf = last_piece(path, '/');
    lemma_leaf(path);
    if typed(path, ext) {
        let (front, e) = choose|front: Seq<char>, e: Seq<char>|
            path == #[trigger] (front + seq!['.'] + e) && front.len() > 0 && front.last() != '/'
                && e.len() > 0 && lacks(e, '.') && lacks(e, '/') && ascii_lowered(e) == ext;
        lemma_leaf(front);
        let name = last_piece(front, '/');
        let tail = name + seq!['.'] + e;
        assert(lacks(tail, '/')) by {
            assert forall|i: int| 0 <= i < tail.len() implies #[trigger] tail[i] != '/' by {
                if i < name.len() {
                    assert(tail[i] == name[i]);
                } else if i > name.len() {
                    assert(tail[i] == e[i - name.len() - 1]);
                }
            }
        }
        if front == name {
            assert(path =~= tail);
            lemma_one_piece(path, '/');
        } else {
            let d = choose|d: Seq<char>| front == #[trigger] (d + seq!['/'] + name);
            assert(path =~= d + seq!['/'] + tail);
            lemma_end_pieces(d, '/', tail);
        }
        assert(leaf == tail);
        assert(name.len() > 0) by {
            if name.len() == 0 {
                assert(front.last() == '/');
            }
        }
        lemma_last_place(name, '.', e);
        assert(leaf.skip(name.len() as int + 1) =~= e);
    }
    if has_extension(path, ext) {
        lemma_last_index(leaf, '.');
        let i = last_index(leaf, '.')->0;
        let name = leaf.take(i);
        let e = leaf.skip(i + 1);
        assert(leaf =~= name + seq!['.'] + e);
        assert(lacks(e, '.') && lacks(e, '/')) by {
            assert forall|j: int| 0 <= j < e.len() implies #[trigger] e[j] != '.' && e[j] != '/' by {
                assert(e[j] == leaf[i + 1 + j]);
            }
        }
        assert(name.last() == leaf[i - 1]);
        if path == leaf {
            assert(path == name + seq!['.'] + e);
        } else {
            let d = choose|d: Seq<char>| path == #[trigger] (d + seq!['/'] + leaf);
            let front = d + seq!['/'] + name;
            assert(path =~= front + seq!['.'] + e);
            assert(front.last() == name.last());
        }
    }
}

proof fn lemma_picked(items: Seq<Seq<char>>, names: Seq<&str>)
    ensures
        picked(items, names).len() > 0 <==> exists|s: Seq<char>|
            items.contains(s) && #[trigger] among(s, names),
    decreases items.len(),
{
    if items.len() == 0 {
        reveal(Seq::filter);
    } else {
        let front = items.drop_last();
        let x = items.last();
        assert(items =~= front.push(x));
        lemma_picked(front, names);
        front.lemma_filter_push(x, listed(names));
        assert(items[items.len() - 1] == x);
        if picked(items, names).len() > 0 {
            if among(x, names) {
                assert(items.contains(x));
            } else {
                let s = choose|s: Seq<char>| front.contains(s) && #[trigger] among(s, names);
                let k = choose|k: int| 0 <= k < front.len() && front[k] == s;
                assert(items[k] == s);
            }
        }
        if exists|s: Seq<char>| items.contains(s) && #[trigger] among(s, names) {
            let s = choose|s: Seq<char>| items.contains(s) && #[trigger] among(s, names);
            let k = choose|k: int| 0 <= k < items.len() && items[k] == s;
            if k < front.len() {
                assert(front[k] == s);
            }
        }
    }
}

proof fn lemma_kinds(paths: Seq<Seq<char>>, names: Seq<&str>, kind: spec_fn(Seq<char>) -> bool)
    requires
        forall|e: Seq<char>| #[trigger] kind(e) <==> among(e, names),
    ensures
        picked(sorted_texts(extensions(paths)), names).len() > 0 <==> some_typed(paths, kind),
{
    let exts = sorted_texts(extensions(paths));
    lemma_by_text_is_strict_order();
    lemma_sorted_set(extensions(paths), by_text());
    lemma_extensions_members(paths);
    lemma_picked(exts, names);
    if picked(exts, names).len() > 0 {
        let s = choose|s: Seq<char>| exts.contains(s) && #[trigger] among(s, names);
        let i = choose|i: int| 0 <= i < paths.len() && has_extension(#[trigger] paths[i], s);
        lemma_typed(paths[i], s);
        assert(kind(s));
    }
    if some_typed(paths, kind) {
        let (i, s) = choose|i: int, ext: Seq<char>|
            0 <= i < paths.len() && kind(ext) && #[trigger] typed(paths[i], ext);
        lemma_typed(paths[i], s);
        assert(has_extension(paths[i], s));
        assert(extensions(paths).contains(s));
        assert(exts.contains(s) && among(s, names));
    }
}

proof fn lemma_areas(paths: Seq<Seq<char>>, area: Seq<char>)
    ensures
        sorted_texts(top_segments(paths)).contains(area) <==> some_below(paths, area),
{
    lemma_by_text_is_strict_order();
    lemma_sorted_set(top_segments(paths), by_text());
    lemma_top_segments_members(paths);
    if sorted_texts(top_segments(paths)).contains(area) {
        let i = choose|i: int| 0 <= i < paths.len() && top_segment_of(#[trigger] paths[i]) == Some(area);
        lemma_below(paths[i], area);
    }
    if some_below(paths, area) {
        let i = choose|i: int| 0 <= i < paths.len() && #[trigger] below(paths[i], area);
        lemma_below(paths[i], area);
        assert(top_segment_of(paths[i]) == Some(area));
    }
}

/// Some path is that of a frontend file.
pub open spec fn has_frontend(paths: Seq<Seq<char>>) -> bool {
    some_typed(paths, |e: Seq<char>| is_frontend(e))
}

/// Some path is that of a backend file.
pub open spec fn has_backend(paths: Seq<Seq<char>>) -> bool {
    some_typed(paths, |e: Seq<char>| is_backend(e))
}

/// Some path is that of a document.
pub open spec fn has_docs(paths: Seq<Seq<char>>) -> bool {
    some_typed(paths, |e: Seq<char>| is_docs(e))
}

/// The paths below directories are all below the same one.
pub open spec fn one_area(paths: Seq<Seq<char>>) -> bool {
    forall|a: Seq<char>, b: Seq<char>| #[trigger]
        some_below(paths, a) && #[trigger] some_below(paths, b) ==> a == b
}

proof fn lemma_facts(paths: Seq<Seq<char>>)
    ensures
        ({
            let areas = sorted_texts(top_segments(paths));
            let exts = sorted_texts(extensions(paths));
            &&& picked(exts, frontend_extensions()).len() > 0 <==> has_frontend(paths)
            &&& picked(exts, backend_extensions()).len() > 0 <==> has_backend(paths)
            &&& picked(exts, docs_extensions()).len() > 0 <==> has_docs(paths)
            &&& areas.len() <= 1 <==> one_area(paths)
            &&& increasing(areas, by_text())
            &&& forall|a: Seq<char>| #[trigger] areas.contains(a) <==> some_below(paths, a)
        }),
{
    let areas = sorted_texts(top_segments(paths));
    assert forall|e: Seq<char>| #[trigger] is_frontend(e) <==> among(e, frontend_extensions()) by {
        lemma_is_frontend(e);
    }
    assert forall|e: Seq<char>| #[trigger] is_backend(e) <==> among(e, backend_extensions()) by {
        lemma_is_backend(e);
    }
    assert forall|e: Seq<char>| #[trigger] is_docs(e) <==> among(e, docs_extensions()) by {
        lemma_is_docs(e);
    }
    lemma_kinds(paths, frontend_extensions(), |e: Seq<char>| is_frontend(e));
    lemma_kinds(paths, backend_extensions(), |e: Seq<char>| is_backend(e));
    lemma_kinds(paths, docs_extensions(), |e: Seq<char>| is_docs(e));
    lemma_by_text_is_strict_order();
    lemma_sorted_set(top_segments(paths), by_text());
    assert forall|a: Seq<char>| #[trigger] areas.contains(a) <==> some_below(paths, a) by {
        lemma_areas(paths, a);
    }
    if areas.len() <= 1 {
        assert forall|a: Seq<char>, b: Seq<char>| #[trigger]
            some_below(paths, a) && #[trigger] some_below(paths, b) implies a == b by {
            assert(areas.contains(a) && areas.contains(b));
        }
    } else {
        assert(areas.contains(areas[0]) && areas.contains(areas[1]));
        assert(areas[0] != areas[1]);
        assert(some_below(paths, areas[0]) && some_below(paths, areas[1]));
    }
}

// ── laws ────────────────────────────────────────────────────────────

/// Without documentation, changes below two different directories are never
/// called one change.
pub proof fn lemma_spread_changes_are_not_clean(
    paths: Seq<Seq<char>>,
    a: Seq<char>,
    b: Seq<char>,
)
    requires
        !has_docs(paths),
        some_below(paths, a),
        some_below(paths, b),
        a != b,
    ensures
        verdict_of(paths) is Inconclusive,
{
    lemma_facts(paths);
}

/// A change that is called clean is a mere documentation change, or all its
/// directories are the same one and it does not mix frontend with backend.
pub proof fn lemma_clean_changes_are_in_one_place(paths: Seq<Seq<char>>)
    requires
        verdict_of(paths) is Clean,
    ensures
        ({
            ||| has_docs(paths) && !has_frontend(paths) && !has_backend(paths)
            ||| one_area(paths) && !(has_frontend(paths) && has_backend(paths))
        }),
{
    lemma_facts(paths);
    if paths.len() == 0 {
        assert forall|a: Seq<char>, b: Seq<char>| #[trigger]
            some_below(paths, a) && #[trigger] some_below(paths, b) implies a == b by {}
        assert(!has_frontend(paths));
    }
}

/// Frontend files next to backend files are never called one change.
pub proof fn lemma_mixed_changes_are_not_clean(paths: Seq<Seq<char>>)
    requires
        has_frontend(paths),
        has_backend(paths),
    ensures
        verdict_of(paths) matches VerdictView::Inconclusive { reason }
            && "mixes frontend ("@.is_prefix_of(reason),
{
    lemma_facts(paths);
    let reason = verdict_of(paths)->reason;
    assert(reason.subrange(0, "mixes frontend ("@.len() as int) =~= "mixes frontend ("@);
}

/// Documentation alone is one change, wherever it is.
pub proof fn lemma_documentation_is_clean(paths: Seq<Seq<char>>)
    requires
        has_docs(paths),
        !has_frontend(paths),
        !has_backend(paths),
    ensures
        verdict_of(paths) == (VerdictView::Clean { summary: "documentation-only change"@ }),
{
    lemma_facts(paths);
    if paths.len() == 0 {
        assert(!has_docs(paths));
    }
}

/// Code next to its documentation is one change exactly where all of it is
/// below one directory, and that is not a directory of documentation.
pub proof fn lemma_code_with_documentation(paths: Seq<Seq<char>>)
    requires
        has_docs(paths),
        has_frontend(paths) != has_backend(paths),
    ensures
        verdict_of(paths) is Clean <==> one_area(paths) && exists|a: Seq<char>|
            #[trigger] some_below(paths, a) && !is_docs_dir(a),
        verdict_of(paths) matches VerdictView::Clean { summary } ==> forall|a: Seq<char>|
            #[trigger] some_below(paths, a) ==> summary == "code and its docs under "@ + a,
        verdict_of(paths) matches VerdictView::Inconclusive { reason } ==> reason
            == "touches both documentation and code"@,
{
    lemma_facts(paths);
    let areas = sorted_texts(top_segments(paths));
    if paths.len() == 0 {
        assert(!has_docs(paths));
    }
    lemma_picked(areas, docs_directories());
    assert forall|e: Seq<char>| #[trigger] is_docs_dir(e) <==> among(e, docs_directories()) by {
        lemma_is_docs_dir(e);
    }
    if areas.len() == 1 {
        assert(areas.contains(areas[0]));
        assert(some_below(paths, areas[0]));
        lemma_is_docs_dir(areas[0]);
        assert forall|a: Seq<char>| #[trigger] some_below(paths, a) implies a == areas[0] by {
            assert(areas.contains(a));
        }
        if picked(areas, docs_directories()).len() > 0 {
            let s = choose|s: Seq<char>| areas.contains(s) && #[trigger] among(s, docs_directories());
            assert(s == areas[0]);
        } else {
            assert(areas.contains(areas[0]) && !among(areas[0], docs_directories()));
        }
    }
    if areas.len() == 0 {
        assert forall|a: Seq<char>| !#[trigger] some_below(paths, a) by {
            assert(!areas.contains(a));
        }
    }
}

/// Without documentation and without a mix of frontend and backend, the
/// verdict goes by the directories: one or none is one change, and it is named;
/// several are listed, in order, with their number.
pub proof fn lemma_directories_decide(paths: Seq<Seq<char>>, areas: Seq<Seq<char>>)
    requires
        paths.len() > 0,
        !has_docs(paths),
        !(has_frontend(paths) && has_backend(paths)),
        increasing(areas, by_text()),
        forall|a: Seq<char>| #[trigger] areas.contains(a) <==> some_below(paths, a),
    ensures
        verdict_of(paths) == if areas.len() == 0 {
            VerdictView::Clean { summary: "all changes under the repo root"@ }
        } else if areas.len() == 1 {
            VerdictView::Clean { summary: "all changes under "@ + areas[0] }
        } else {
            VerdictView::Inconclusive {
                reason: "spreads across "@ + decimal_of(areas.len()) + " areas: "@ + joined(
                    areas,
                    ", "@,
                ),
            }
        },
{
    lemma_facts(paths);
    let own = sorted_texts(top_segments(paths));
    lemma_by_text_is_strict_order();
    assert forall|a: Seq<char>| #[trigger] own.contains(a) <==> areas.contains(a) by {
        assert(own.contains(a) <==> some_below(paths, a));
    }
    lemma_increasing_unique(own, areas, by_text());
    reveal_strlit("all changes under the repo root");
    reveal_strlit("all changes under ");
    reveal_strlit("the repo root");
    assert("all changes under "@ + "the repo root"@ =~= "all changes under the repo root"@);
}

} // verus!
