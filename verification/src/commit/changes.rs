//! What a patch does to each file, and the conventional type of a change.

use vstd::prelude::*;

use crate::engine::hunks::{in_hunk, keeps_hunk};
use crate::letters::{ascii_lowercase, ascii_lowered};
use crate::number::{count, decimal_of};
use crate::pieces::{last_of_split, last_piece, lines, lines_of};
use crate::text::{
    after_last, among, behind_last, chars_of, contains, ends_with, is_one_of, last_index, occurs,
    parts, prefix_stripped, rfind, starts_with, strip_prefix, text_of,
};

verus! {

/// Whether a patch creates, removes or edits a file.
#[derive(Debug, Clone, Copy, PartialEq, Eq, Structural)]
pub enum FileKind {
    Added,
    Deleted,
    Modified,
}

/// What kind of content a path stands for.
#[derive(Debug, Clone, Copy, PartialEq, Eq, Structural)]
pub enum Category {
    Source,
    Test,
    Docs,
    Build,
    Other,
}

/// The type of a conventional commit, in the order in which commits of an
/// offline plan are made.
#[derive(Debug, Clone, Copy, PartialEq, Eq, Structural)]
pub enum ChangeType {
    Feat,
    Fix,
    Refactor,
    Docs,
    Test,
    Build,
    Chore,
}

impl ChangeType {
    /// The word that a commit message starts with.
    pub open spec fn word(self) -> Seq<char> {
        match self {
            ChangeType::Feat => "feat"@,
            ChangeType::Fix => "fix"@,
            ChangeType::Refactor => "refactor"@,
            ChangeType::Docs => "docs"@,
            ChangeType::Test => "test"@,
            ChangeType::Build => "build"@,
            ChangeType::Chore => "chore"@,
        }
    }

    /// The place of the type in the order of commits.
    pub open spec fn rank(self) -> int {
        match self {
            ChangeType::Feat => 0,
            ChangeType::Fix => 1,
            ChangeType::Refactor => 2,
            ChangeType::Docs => 3,
            ChangeType::Test => 4,
            ChangeType::Build => 5,
            ChangeType::Chore => 6,
        }
    }

    /// The word that a commit message starts with.
    pub fn name(self) -> (r: String)
        ensures
            r@ == self.word(),
    {
        match self {
            ChangeType::Feat => "feat".to_owned(),
            ChangeType::Fix => "fix".to_owned(),
            ChangeType::Refactor => "refactor".to_owned(),
            ChangeType::Docs => "docs".to_owned(),
            ChangeType::Test => "test".to_owned(),
            ChangeType::Build => "build".to_owned(),
            ChangeType::Chore => "chore".to_owned(),
        }
    }

    /// Whether commits of this type come before those of `other`.
    pub fn comes_before(self, other: ChangeType) -> (r: bool)
        ensures
            r == (self.rank() < other.rank()),
    {
        self.place() < other.place()
    }

    fn place(self) -> (r: u8)
        ensures
            r == self.rank(),
    {
        match self {
            ChangeType::Feat => 0,
            ChangeType::Fix => 1,
            ChangeType::Refactor => 2,
            ChangeType::Docs => 3,
            ChangeType::Test => 4,
            ChangeType::Build => 5,
            ChangeType::Chore => 6,
        }
    }
}

/// What a patch does to one file.
#[derive(Debug, Clone)]
pub struct FileChange {
    pub path: String,
    pub kind: FileKind,
    /// Lines added.
    pub added: usize,
    /// Lines removed.
    pub removed: usize,
}

/// A file change with its path as a text.
pub struct ChangeView {
    pub path: Seq<char>,
    pub kind: FileKind,
    pub added: int,
    pub removed: int,
}

impl View for FileChange {
    type V = ChangeView;

    open spec fn view(&self) -> ChangeView {
        ChangeView {
            path: self.path@,
            kind: self.kind,
            added: self.added as int,
            removed: self.removed as int,
        }
    }
}

/// The changes with their paths as texts.
pub open spec fn change_views(changes: Seq<FileChange>) -> Seq<ChangeView> {
    changes.map_values(|c: FileChange| c@)
}

pub broadcast proof fn lemma_change_views_push(changes: Seq<FileChange>, c: FileChange)
    ensures
        #[trigger] change_views(changes.push(c)) == change_views(changes).push(c@),
{
    assert(change_views(changes.push(c)) =~= change_views(changes).push(c@));
}

// ── reading a patch ─────────────────────────────────────────────────

/// The path that a `diff --git` line names: what stands behind its last
/// ` b/`, or all of it.
pub open spec fn opened_path(line: Seq<char>) -> Option<Seq<char>> {
    match prefix_stripped(line, "diff --git "@) {
        Some(rest) => Some(
            match behind_last(rest, " b/"@) {
                Some(path) => path,
                None => rest,
            },
        ),
        None => None,
    }
}

/// The line adds a line to the file. Before the first hunk, `+++` opens the line
/// that names the new side.
pub open spec fn adds_line(line: Seq<char>, in_hunk: bool) -> bool {
    "+"@.is_prefix_of(line) && (in_hunk || !"+++"@.is_prefix_of(line))
}

/// The line removes a line of the file. Before the first hunk, `---` opens the
/// line that names the old side.
pub open spec fn removes_line(line: Seq<char>, in_hunk: bool) -> bool {
    "-"@.is_prefix_of(line) && (in_hunk || !"---"@.is_prefix_of(line))
}

/// What is known of a file after one more line of its section.
pub open spec fn noted(change: ChangeView, line: Seq<char>, in_hunk: bool) -> ChangeView {
    if !in_hunk && "new file mode"@.is_prefix_of(line) {
        ChangeView { kind: FileKind::Added, ..change }
    } else if !in_hunk && "deleted file mode"@.is_prefix_of(line) {
        ChangeView { kind: FileKind::Deleted, ..change }
    } else if adds_line(line, in_hunk) {
        ChangeView { added: change.added + 1, ..change }
    } else if removes_line(line, in_hunk) {
        ChangeView { removed: change.removed + 1, ..change }
    } else {
        change
    }
}

/// The file changes that the lines of a patch describe, in order. Lines before
/// the first `diff --git` line describe none.
pub open spec fn changes_in(patch: Seq<Seq<char>>) -> Seq<ChangeView>
    decreases patch.len(),
{
    if patch.len() == 0 {
        Seq::empty()
    } else {
        let before = changes_in(patch.drop_last());
        let line = patch.last();
        match opened_path(line) {
            Some(path) => before.push(
                ChangeView { path, kind: FileKind::Modified, added: 0, removed: 0 },
            ),
            None => if before.len() == 0 {
                before
            } else {
                before.update(
                    before.len() - 1,
                    noted(before.last(), line, in_hunk(patch.drop_last())),
                )
            },
        }
    }
}

/// The file changes that a patch describes.
pub open spec fn changes_of(patch: Seq<char>) -> Seq<ChangeView> {
    changes_in(lines_of(patch))
}

fn opened(line: &[char]) -> (r: Option<String>)
    ensures
        match r {
            Some(path) => opened_path(line@) == Some(path@),
            None => opened_path(line@) is None,
        },
{
    match strip_prefix(line, "diff --git ") {
        Some(rest) => match after_last(rest, " b/") {
            Some(path) => Some(text_of(path)),
            None => Some(text_of(rest)),
        },
        None => None,
    }
}

fn note(change: &mut FileChange, line: &[char], in_hunk: bool)
    requires
        old(change).added < usize::MAX,
        old(change).removed < usize::MAX,
    ensures
        final(change)@ == noted(old(change)@, line@, in_hunk),
{
    if !in_hunk && starts_with(line, "new file mode") {
        change.kind = FileKind::Added;
    } else if !in_hunk && starts_with(line, "deleted file mode") {
        change.kind = FileKind::Deleted;
    } else if starts_with(line, "+") && (in_hunk || !starts_with(line, "+++")) {
        change.added = change.added + 1;
    } else if starts_with(line, "-") && (in_hunk || !starts_with(line, "---")) {
        change.removed = change.removed + 1;
    }
}

/// Read which files a patch creates, removes or edits, and how many lines it
/// adds to and removes from each.
pub fn parse_file_changes(patch: &str) -> (r: Vec<FileChange>)
    ensures
        change_views(r@) == changes_of(patch@),
{
    broadcast use lemma_change_views_push;

    let chars = chars_of(patch);
    let all = lines(chars.as_slice());
    let ghost lines_seq = parts(all@);
    let mut changes: Vec<FileChange> = Vec::new();
    let mut inside = false;
    assert(change_views(changes@) =~= changes_in(lines_seq.take(0)));
    for i in 0..all.len()
        invariant
            lines_seq == parts(all@),
            change_views(changes@) == changes_in(lines_seq.take(i as int)),
            inside == in_hunk(lines_seq.take(i as int)),
            forall|j: int|
                0 <= j < changes@.len() ==> (#[trigger] changes@[j]).added <= i && changes@[j].removed
                    <= i,
    {
        let line = all[i];
        let ghost before = changes@;
        assert(lines_seq.take(i + 1).drop_last() =~= lines_seq.take(i as int));
        assert(lines_seq.take(i + 1).last() == line@);
        match opened(line) {
            Some(path) => {
                changes.push(FileChange { path, kind: FileKind::Modified, added: 0, removed: 0 });
            },
            None => {
                let n = changes.len();
                if n > 0 {
                    note(&mut changes[n - 1], line, inside);
                    assert(change_views(changes@) =~= change_views(before).update(
                        n - 1,
                        noted(change_views(before).last(), line@, inside),
                    ));
                }
            },
        }
        inside = keeps_hunk(inside, line);
    }
    assert(lines_seq.take(lines_seq.len() as int) =~= lines_seq);
    changes
}

// ── categories ──────────────────────────────────────────────────────

/// File names that belong to the build or the configuration.
pub open spec fn build_names() -> Seq<&'static str> {
    seq![
        "cargo.toml",
        "cargo.lock",
        "package.json",
        "package-lock.json",
        "yarn.lock",
        "pnpm-lock.yaml",
        "dockerfile",
        "makefile",
        "justfile",
        "build.rs",
        "requirements.txt",
        "pyproject.toml",
        "setup.py",
        "setup.cfg",
        "docker-compose.yml",
        "composer.json",
        "gemfile",
        ".gitignore",
    ]
}

/// Extensions of source code.
pub open spec fn source_extensions() -> Seq<&'static str> {
    seq![
        "rs",
        "py",
        "js",
        "ts",
        "jsx",
        "tsx",
        "go",
        "java",
        "c",
        "h",
        "cpp",
        "hpp",
        "cc",
        "rb",
        "php",
        "swift",
        "kt",
        "scala",
        "sh",
        "sql",
        "html",
        "css",
        "scss",
        "sass",
        "vue",
        "elm",
        "ex",
        "exs",
        "clj",
        "lua",
        "dart",
    ]
}

/// A path, in lower case, with its last segment `name`, is a test.
pub open spec fn is_test_path(lower: Seq<char>, name: Seq<char>) -> bool {
    ||| occurs(lower, "/tests/"@)
    ||| occurs(lower, "/test/"@)
    ||| occurs(lower, "__tests__"@)
    ||| "test_"@.is_prefix_of(name)
    ||| "_test.rs"@.is_suffix_of(name)
    ||| "_test.py"@.is_suffix_of(name)
    ||| ".test.ts"@.is_suffix_of(name)
    ||| ".test.js"@.is_suffix_of(name)
    ||| "_spec.rs"@.is_suffix_of(name)
    ||| "_spec.py"@.is_suffix_of(name)
}

/// A path, in lower case, with its last segment `name`, is documentation.
pub open spec fn is_docs_path(lower: Seq<char>, name: Seq<char>) -> bool {
    ||| ".md"@.is_suffix_of(name)
    ||| ".rst"@.is_suffix_of(name)
    ||| occurs(lower, "/docs/"@)
    ||| "readme"@.is_prefix_of(name)
    ||| "changelog"@.is_prefix_of(name)
    ||| "license"@.is_prefix_of(name)
}

/// A path, in lower case, with its last segment `name`, is configuration.
pub open spec fn is_build_path(lower: Seq<char>, name: Seq<char>) -> bool {
    ||| among(name, build_names())
    ||| occurs(lower, "/.github/"@)
    ||| occurs(lower, "/.gitlab/"@)
    ||| ".tf"@.is_suffix_of(lower)
    ||| ".toml"@.is_suffix_of(lower)
    ||| ".yml"@.is_suffix_of(lower)
    ||| ".yaml"@.is_suffix_of(lower)
}

/// The category of a path: a test, else documentation, else configuration,
/// else source code by its extension.
pub open spec fn category_of(path: Seq<char>) -> Category {
    let lower = ascii_lowered(path);
    let name = last_piece(lower, '/');
    if is_test_path(lower, name) {
        Category::Test
    } else if is_docs_path(lower, name) {
        Category::Docs
    } else if is_build_path(lower, name) {
        Category::Build
    } else if among(last_piece(name, '.'), source_extensions()) {
        Category::Source
    } else {
        Category::Other
    }
}

fn test_path(lower: &[char], name: &[char]) -> (r: bool)
    ensures
        r == is_test_path(lower@, name@),
{
    contains(lower, "/tests/") || contains(lower, "/test/") || contains(lower, "__tests__")
        || starts_with(name, "test_") || ends_with(name, "_test.rs") || ends_with(name, "_test.py")
        || ends_with(name, ".test.ts") || ends_with(name, ".test.js") || ends_with(name, "_spec.rs")
        || ends_with(name, "_spec.py")
}

fn docs_path(lower: &[char], name: &[char]) -> (r: bool)
    ensures
        r == is_docs_path(lower@, name@),
{
    ends_with(name, ".md") || ends_with(name, ".rst") || contains(lower, "/docs/") || starts_with(
        name,
        "readme",
    ) || starts_with(name, "changelog") || starts_with(name, "license")
}

fn build_path(lower: &[char], name: &[char]) -> (r: bool)
    ensures
        r == is_build_path(lower@, name@),
{
    let names: Vec<&str> = vec![
        "cargo.toml",
        "cargo.lock",
        "package.json",
        "package-lock.json",
        "yarn.lock",
        "pnpm-lock.yaml",
        "dockerfile",
        "makefile",
        "justfile",
        "build.rs",
        "requirements.txt",
        "pyproject.toml",
        "setup.py",
        "setup.cfg",
        "docker-compose.yml",
        "composer.json",
        "gemfile",
        ".gitignore",
    ];
    assert(names@ =~= build_names());
    is_one_of(name, names.as_slice()) || contains(lower, "/.github/") || contains(
        lower,
        "/.gitlab/",
    ) || ends_with(lower, ".tf") || ends_with(lower, ".toml") || ends_with(lower, ".yml")
        || ends_with(lower, ".yaml")
}

fn source_extension(extension: &[char]) -> (r: bool)
    ensures
        r == among(extension@, source_extensions()),
{
    let names: Vec<&str> = vec![
        "rs",
        "py",
        "js",
        "ts",
        "jsx",
        "tsx",
        "go",
        "java",
        "c",
        "h",
        "cpp",
        "hpp",
        "cc",
        "rb",
        "php",
        "swift",
        "kt",
        "scala",
        "sh",
        "sql",
        "html",
        "css",
        "scss",
        "sass",
        "vue",
        "elm",
        "ex",
        "exs",
        "clj",
        "lua",
        "dart",
    ];
    assert(names@ =~= source_extensions());
    is_one_of(extension, names.as_slice())
}

/// Bucket a path into a coarse category.
pub fn categorize(path: &str) -> (r: Category)
    ensures
        r == category_of(path@),
{
    let chars = chars_of(path);
    let lowered = ascii_lowercase(chars.as_slice());
    let lower = lowered.as_slice();
    let name = last_of_split(lower, '/');
    if test_path(lower, name) {
        Category::Test
    } else if docs_path(lower, name) {
        Category::Docs
    } else if build_path(lower, name) {
        Category::Build
    } else if source_extension(last_of_split(name, '.')) {
        Category::Source
    } else {
        Category::Other
    }
}

/// Files of the category may hold a feature or a fix.
pub open spec fn code_like(category: Category) -> bool {
    category == Category::Source || category == Category::Other
}

/// Whether files of the category may hold a feature or a fix.
pub fn is_code_like(category: Category) -> (r: bool)
    ensures
        r == code_like(category),
{
    category == Category::Source || category == Category::Other
}

// ── the type of a changeset ─────────────────────────────────────────

/// There are changes, and all are of one category.
pub open spec fn all_in(changes: Seq<ChangeView>, category: Category) -> bool {
    &&& changes.len() > 0
    &&& forall|i: int|
        0 <= i < changes.len() ==> category_of((#[trigger] changes[i]).path) == category
}

/// The change is new functionality: a new source file, or lines that are only
/// added to a code file, new or not.
pub open spec fn adds_code(change: ChangeView) -> bool {
    let category = category_of(change.path);
    let only_adds = change.added > 0 && change.removed == 0;
    match change.kind {
        FileKind::Added => category == Category::Source || (code_like(category) && only_adds),
        FileKind::Modified => code_like(category) && only_adds,
        FileKind::Deleted => false,
    }
}

/// How many lines the changes add.
pub open spec fn total_added(changes: Seq<ChangeView>) -> int
    decreases changes.len(),
{
    if changes.len() == 0 {
        0
    } else {
        total_added(changes.drop_last()) + changes.last().added
    }
}

/// How many lines the changes remove.
pub open spec fn total_removed(changes: Seq<ChangeView>) -> int
    decreases changes.len(),
{
    if changes.len() == 0 {
        0
    } else {
        total_removed(changes.drop_last()) + changes.last().removed
    }
}

/// The conventional type of a changeset.
pub open spec fn type_of(changes: Seq<ChangeView>) -> ChangeType {
    if all_in(changes, Category::Test) {
        ChangeType::Test
    } else if all_in(changes, Category::Docs) {
        ChangeType::Docs
    } else if all_in(changes, Category::Build) {
        ChangeType::Build
    } else if exists|i: int| 0 <= i < changes.len() && adds_code(#[trigger] changes[i]) {
        ChangeType::Feat
    } else if changes.len() > 1 && total_removed(changes) > total_added(changes) {
        ChangeType::Refactor
    } else if total_removed(changes) > 0 || exists|i: int|
        0 <= i < changes.len() && (#[trigger] changes[i]).kind == FileKind::Deleted {
        ChangeType::Fix
    } else {
        ChangeType::Refactor
    }
}

fn every_one_in(changes: &[FileChange], category: Category) -> (r: bool)
    ensures
        r == all_in(change_views(changes@), category),
{
    if changes.len() == 0 {
        return false;
    }
    for i in 0..changes.len()
        invariant
            forall|j: int|
                0 <= j < i ==> category_of((#[trigger] change_views(changes@)[j]).path) == category,
    {
        assert(change_views(changes@)[i as int] == changes@[i as int]@);
        if categorize(changes[i].path.as_str()) != category {
            return false;
        }
    }
    true
}

fn some_one_adds_code(changes: &[FileChange]) -> (r: bool)
    ensures
        r == exists|i: int| 0 <= i < changes@.len() && adds_code(#[trigger] change_views(changes@)[i]),
{
    for i in 0..changes.len()
        invariant
            forall|j: int| 0 <= j < i ==> !adds_code(#[trigger] change_views(changes@)[j]),
    {
        let c = &changes[i];
        assert(change_views(changes@)[i as int] == c@);
        let category = categorize(c.path.as_str());
        let only_adds = c.added > 0 && c.removed == 0;
        let extends = match c.kind {
            FileKind::Added => category == Category::Source || (is_code_like(category)
                && only_adds),
            FileKind::Modified => is_code_like(category) && only_adds,
            FileKind::Deleted => false,
        };
        if extends {
            return true;
        }
    }
    false
}

fn some_one_is_deleted(changes: &[FileChange]) -> (r: bool)
    ensures
        r == exists|i: int|
            0 <= i < changes@.len() && (#[trigger] change_views(changes@)[i]).kind
                == FileKind::Deleted,
{
    for i in 0..changes.len()
        invariant
            forall|j: int|
                0 <= j < i ==> (#[trigger] change_views(changes@)[j]).kind != FileKind::Deleted,
    {
        assert(change_views(changes@)[i as int] == changes@[i as int]@);
        if changes[i].kind == FileKind::Deleted {
            return true;
        }
    }
    false
}

proof fn lemma_totals_grow(changes: Seq<FileChange>, n: int)
    requires
        0 <= n <= changes.len(),
    ensures
        total_added(change_views(changes).take(n)) <= total_added(change_views(changes)),
        total_removed(change_views(changes).take(n)) <= total_removed(change_views(changes)),
    decreases changes.len() - n,
{
    let views = change_views(changes);
    if n < changes.len() {
        lemma_totals_grow(changes, n + 1);
        assert(views.take(n + 1).drop_last() =~= views.take(n));
        assert(views.take(n + 1).last() == changes[n]@);
    } else {
        assert(views.take(n) =~= views);
    }
}

/// Decide the conventional type of a changeset.
pub fn classify_change(changes: &[FileChange]) -> (r: ChangeType)
    requires
        total_added(change_views(changes@)) <= usize::MAX,
        total_removed(change_views(changes@)) <= usize::MAX,
    ensures
        r == type_of(change_views(changes@)),
{
    let ghost views = change_views(changes@);
    if every_one_in(changes, Category::Test) {
        return ChangeType::Test;
    }
    if every_one_in(changes, Category::Docs) {
        return ChangeType::Docs;
    }
    if every_one_in(changes, Category::Build) {
        return ChangeType::Build;
    }
    if some_one_adds_code(changes) {
        return ChangeType::Feat;
    }
    let mut added: usize = 0;
    let mut removed: usize = 0;
    for i in 0..changes.len()
        invariant
            views == change_views(changes@),
            added == total_added(views.take(i as int)),
            removed == total_removed(views.take(i as int)),
            total_added(views) <= usize::MAX,
            total_removed(views) <= usize::MAX,
    {
        proof {
            lemma_totals_grow(changes@, i + 1);
            assert(views.take(i + 1).drop_last() =~= views.take(i as int));
            assert(views.take(i + 1).last() == changes@[i as int]@);
        }
        added = added + changes[i].added;
        removed = removed + changes[i].removed;
    }
    assert(views.take(views.len() as int) =~= views);
    if changes.len() > 1 && removed > added {
        return ChangeType::Refactor;
    }
    if removed > 0 || some_one_is_deleted(changes) {
        return ChangeType::Fix;
    }
    ChangeType::Refactor
}

// ── the subject of a changeset ──────────────────────────────────────

/// The change is a new file that may hold a feature.
pub open spec fn is_new_code(change: ChangeView) -> bool {
    change.kind == FileKind::Added && code_like(category_of(change.path))
}

/// The change is to a file that may hold a feature or a fix.
pub open spec fn is_code(change: ChangeView) -> bool {
    code_like(category_of(change.path))
}

/// The first change with the property.
pub open spec fn first_change(
    changes: Seq<ChangeView>,
    wanted: spec_fn(ChangeView) -> bool,
) -> Option<ChangeView>
    decreases changes.len(),
{
    if changes.len() == 0 {
        None
    } else {
        match first_change(changes.drop_last(), wanted) {
            Some(c) => Some(c),
            None => if wanted(changes.last()) {
                Some(changes.last())
            } else {
                None
            },
        }
    }
}

/// The change that a subject speaks of: the first new code file, else the
/// first code file, else the first file.
pub open spec fn primary_change(changes: Seq<ChangeView>) -> Option<ChangeView> {
    match first_change(changes, |c: ChangeView| is_new_code(c)) {
        Some(c) => Some(c),
        None => match first_change(changes, |c: ChangeView| is_code(c)) {
            Some(c) => Some(c),
            None => if changes.len() > 0 {
                Some(changes[0])
            } else {
                None
            },
        },
    }
}

/// The file name of a path without its last extension; a name whose only dot
/// is its first character stays whole.
pub open spec fn stem_of(path: Seq<char>) -> Seq<char> {
    let name = last_piece(path, '/');
    match last_index(name, '.') {
        Some(i) => if i == 0 {
            name
        } else {
            name.take(i)
        },
        None => name,
    }
}

/// What is done to a file, as an imperative.
pub open spec fn verb_of(kind: FileKind) -> Seq<char> {
    match kind {
        FileKind::Added => "add"@,
        FileKind::Deleted => "remove"@,
        FileKind::Modified => "update"@,
    }
}

/// The subject line of a changeset.
pub open spec fn subject_of(changes: Seq<ChangeView>) -> Seq<char> {
    match primary_change(changes) {
        None => "update working changes"@,
        Some(primary) => {
            let head = verb_of(primary.kind) + " "@ + stem_of(primary.path);
            if changes.len() == 1 {
                head
            } else {
                head + " and "@ + decimal_of((changes.len() - 1) as nat) + " more"@
            }
        },
    }
}

fn first_new_code(changes: &[FileChange]) -> (r: Option<&FileChange>)
    ensures
        match r {
            Some(c) => first_change(change_views(changes@), |c: ChangeView| is_new_code(c)) == Some(
                c@,
            ),
            None => first_change(change_views(changes@), |c: ChangeView| is_new_code(c)) is None,
        },
{
    let ghost views = change_views(changes@);
    let mut found: Option<&FileChange> = None;
    for i in 0..changes.len()
        invariant
            views == change_views(changes@),
            match found {
                Some(c) => first_change(views.take(i as int), |c: ChangeView| is_new_code(c))
                    == Some(c@),
                None => first_change(views.take(i as int), |c: ChangeView| is_new_code(c)) is None,
            },
    {
        assert(views.take(i + 1).drop_last() =~= views.take(i as int));
        assert(views.take(i + 1).last() == changes@[i as int]@);
        if found.is_none() && changes[i].kind == FileKind::Added && is_code_like(
            categorize(changes[i].path.as_str()),
        ) {
            found = Some(&changes[i]);
        }
    }
    assert(views.take(views.len() as int) =~= views);
    found
}

fn first_code(changes: &[FileChange]) -> (r: Option<&FileChange>)
    ensures
        match r {
            Some(c) => first_change(change_views(changes@), |c: ChangeView| is_code(c)) == Some(c@),
            None => first_change(change_views(changes@), |c: ChangeView| is_code(c)) is None,
        },
{
    let ghost views = change_views(changes@);
    let mut found: Option<&FileChange> = None;
    for i in 0..changes.len()
        invariant
            views == change_views(changes@),
            match found {
                Some(c) => first_change(views.take(i as int), |c: ChangeView| is_code(c)) == Some(c@),
                None => first_change(views.take(i as int), |c: ChangeView| is_code(c)) is None,
            },
    {
        assert(views.take(i + 1).drop_last() =~= views.take(i as int));
        assert(views.take(i + 1).last() == changes@[i as int]@);
        if found.is_none() && is_code_like(categorize(changes[i].path.as_str())) {
            found = Some(&changes[i]);
        }
    }
    assert(views.take(views.len() as int) =~= views);
    found
}

fn primary(changes: &[FileChange]) -> (r: Option<&FileChange>)
    ensures
        match r {
            Some(c) => primary_change(change_views(changes@)) == Some(c@),
            None => primary_change(change_views(changes@)) is None,
        },
{
    match first_new_code(changes) {
        Some(c) => Some(c),
        None => match first_code(changes) {
            Some(c) => Some(c),
            None => if changes.len() > 0 {
                assert(change_views(changes@)[0] == changes@[0]@);
                Some(&changes[0])
            } else {
                None
            },
        },
    }
}

fn stem(path: &str) -> (r: String)
    ensures
        r@ == stem_of(path@),
{
    let chars = chars_of(path);
    let name = last_of_split(chars.as_slice(), '/');
    match rfind(name, '.') {
        Some(i) => if i == 0 {
            text_of(name)
        } else {
            assert(name@.subrange(0, i as int) =~= name@.take(i as int));
            text_of(&name[0..i])
        },
        None => text_of(name),
    }
}

fn verb(kind: FileKind) -> (r: String)
    ensures
        r@ == verb_of(kind),
{
    match kind {
        FileKind::Added => "add".to_owned(),
        FileKind::Deleted => "remove".to_owned(),
        FileKind::Modified => "update".to_owned(),
    }
}

/// The subject line of a changeset, such as `add auth` or
/// `update parser and 2 more`.
pub fn subject_line(changes: &[FileChange]) -> (r: String)
    ensures
        r@ == subject_of(change_views(changes@)),
{
    match primary(changes) {
        None => "update working changes".to_owned(),
        Some(c) => {
            let mut out = verb(c.kind);
            out.append(" ");
            out.append(stem(c.path.as_str()).as_str());
            if changes.len() != 1 {
                out.append(" and ");
                out.append(count(changes.len() - 1).as_str());
                out.append(" more");
            }
            out
        },
    }
}

} // verus!
