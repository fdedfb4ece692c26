//! Which files are code, and which are configuration.

use vstd::prelude::*;

use crate::commit::changes::{build_names, category_of, source_extensions, Category};
use crate::laws::changes::{lemma_lowered_word, lemma_names, names};
use crate::laws::texts::{
    lacks, lemma_does_not_occur, lemma_end_pieces, lemma_lower_case, lemma_occurs_inside,
};
use crate::letters::ascii_lowered;
use crate::pieces::last_piece;
use crate::text::{among, occurs, occurs_at};

verus! {

/// An extension of source code.
pub open spec fn is_code_word(e: Seq<char>) -> bool {
    ||| e == "rs"@
    ||| e == "py"@
    ||| e == "js"@
    ||| e == "ts"@
    ||| e == "jsx"@
    ||| e == "tsx"@
    ||| e == "go"@
    ||| e == "java"@
    ||| e == "c"@
    ||| e == "h"@
    ||| e == "cpp"@
    ||| e == "hpp"@
    ||| e == "cc"@
    ||| e == "rb"@
    ||| e == "php"@
    ||| e == "swift"@
    ||| e == "kt"@
    ||| e == "scala"@
    ||| e == "sh"@
    ||| e == "sql"@
    ||| e == "html"@
    ||| e == "css"@
    ||| e == "scss"@
    ||| e == "sass"@
    ||| e == "vue"@
    ||| e == "elm"@
    ||| e == "ex"@
    ||| e == "exs"@
    ||| e == "clj"@
    ||| e == "lua"@
    ||| e == "dart"@
}

/// The name of a file of the build.
pub open spec fn is_build_name(n: Seq<char>) -> bool {
    ||| n == "cargo.toml"@
    ||| n == "cargo.lock"@
    ||| n == "package.json"@
    ||| n == "package-lock.json"@
    ||| n == "yarn.lock"@
    ||| n == "pnpm-lock.yaml"@
    ||| n == "dockerfile"@
    ||| n == "makefile"@
    ||| n == "justfile"@
    ||| n == "build.rs"@
    ||| n == "requirements.txt"@
    ||| n == "pyproject.toml"@
    ||| n == "setup.py"@
    ||| n == "setup.cfg"@
    ||| n == "docker-compose.yml"@
    ||| n == "composer.json"@
    ||| n == "gemfile"@
    ||| n == ".gitignore"@
}

proof fn lemma_code_words(e: Seq<char>)
    ensures
        is_code_word(e) <==> among(e, source_extensions()),
{
    let names = source_extensions();
    assert(names[0]@ == "rs"@);
    assert(names[1]@ == "py"@);
    assert(names[2]@ == "js"@);
    assert(names[3]@ == "ts"@);
    assert(names[4]@ == "jsx"@);
    assert(names[5]@ == "tsx"@);
    assert(names[6]@ == "go"@);
    assert(names[7]@ == "java"@);
    assert(names[8]@ == "c"@);
    assert(names[9]@ == "h"@);
    assert(names[10]@ == "cpp"@);
    assert(names[11]@ == "hpp"@);
    assert(names[12]@ == "cc"@);
    assert(names[13]@ == "rb"@);
    assert(names[14]@ == "php"@);
    assert(names[15]@ == "swift"@);
    assert(names[16]@ == "kt"@);
    assert(names[17]@ == "scala"@);
    assert(names[18]@ == "sh"@);
    assert(names[19]@ == "sql"@);
    assert(names[20]@ == "html"@);
    assert(names[21]@ == "css"@);
    assert(names[22]@ == "scss"@);
    assert(names[23]@ == "sass"@);
    assert(names[24]@ == "vue"@);
    assert(names[25]@ == "elm"@);
    assert(names[26]@ == "ex"@);
    assert(names[27]@ == "exs"@);
    assert(names[28]@ == "clj"@);
    assert(names[29]@ == "lua"@);
    assert(names[30]@ == "dart"@);
    if among(e, names) {
        let i = choose|i: int| 0 <= i < names.len() && (#[trigger] names[i])@ == e;
        assert(names.len() == 31);
        assert(is_code_word(e));
    }
}

proof fn lemma_build_names(n: Seq<char>)
    ensures
        is_build_name(n) <==> among(n, build_names()),
{
    let names = build_names();
    assert(names[0]@ == "cargo.toml"@);
    assert(names[1]@ == "cargo.lock"@);
    assert(names[2]@ == "package.json"@);
    assert(names[3]@ == "package-lock.json"@);
    assert(names[4]@ == "yarn.lock"@);
    assert(names[5]@ == "pnpm-lock.yaml"@);
    assert(names[6]@ == "dockerfile"@);
    assert(names[7]@ == "makefile"@);
    assert(names[8]@ == "justfile"@);
    assert(names[9]@ == "build.rs"@);
    assert(names[10]@ == "requirements.txt"@);
    assert(names[11]@ == "pyproject.toml"@);
    assert(names[12]@ == "setup.py"@);
    assert(names[13]@ == "setup.cfg"@);
    assert(names[14]@ == "docker-compose.yml"@);
    assert(names[15]@ == "composer.json"@);
    assert(names[16]@ == "gemfile"@);
    assert(names[17]@ == ".gitignore"@);
    if among(n, names) {
        let i = choose|i: int| 0 <= i < names.len() && (#[trigger] names[i])@ == n;
        assert(names.len() == 18);
        assert(is_build_name(n));
    }
}

/// A text of small letters.
pub open spec fn letters(s: Seq<char>) -> bool {
    forall|i: int| 0 <= i < s.len() ==> 'a' <= #[trigger] s[i] <= 'z'
}

/// A stem of small letters with an extension of small letters, whose stem does
/// not begin like a document.
pub open spec fn simple_name(name: Seq<char>, stem: Seq<char>, ext: Seq<char>) -> bool {
    &&& name == stem + seq!['.'] + ext
    &&& letters(stem)
    &&& letters(ext)
    &&& !"readme"@.is_prefix_of(name)
    &&& !"changelog"@.is_prefix_of(name)
    &&& !"license"@.is_prefix_of(name)
}

proof fn lemma_simple_name(name: Seq<char>, stem: Seq<char>, ext: Seq<char>)
    requires
        simple_name(name, stem, ext),
    ensures
        ascii_lowered(name) == name,
        last_piece(name, '/') == name,
        last_piece(name, '.') == ext,
        lacks(name, '/'),
        lacks(name, '_'),
        forall|i: int| 0 <= i < name.len() && i != stem.len() ==> #[trigger] name[i] != '.',
{
    assert forall|i: int| 0 <= i < name.len() implies #[trigger] name[i] != '/' && name[i] != '_'
        && (i != stem.len() ==> name[i] != '.') && !('A' <= name[i] <= 'Z') by {
        if i < stem.len() {
            assert(name[i] == stem[i]);
        } else if i > stem.len() {
            assert(name[i] == ext[i - stem.len() - 1]);
        }
    }
    lemma_lowered_word(name);
    lemma_names(name, name);
    assert(lacks(ext, '.'));
    lemma_end_pieces(stem, '.', ext);
}

proof fn lemma_no_test_name(name: Seq<char>, end: Seq<char>)
    requires
        lacks(name, '_'),
        end.contains('_'),
    ensures
        !end.is_suffix_of(name),
        !end.is_prefix_of(name),
        !occurs(name, end),
{
    let i = end.index_of('_');
    if end.is_suffix_of(name) {
        assert(name.subrange(name.len() - end.len(), name.len() as int)[i] == name[name.len()
            - end.len() + i]);
    }
    if end.is_prefix_of(name) {
        assert(name.subrange(0, end.len() as int)[i] == name[i]);
    }
    if occurs(name, end) {
        let k = choose|k: int| occurs_at(name, end, k);
        assert(name.subrange(k, k + end.len())[i] == name[k + i]);
    }
}

proof fn lemma_simple_is_no_test(name: Seq<char>, stem: Seq<char>, ext: Seq<char>)
    requires
        simple_name(name, stem, ext),
    ensures
        category_of(name) != Category::Test,
{
    lemma_simple_name(name, stem, ext);
    reveal_strlit("/tests/");
    reveal_strlit("/test/");
    lemma_does_not_occur(name, "/tests/"@);
    lemma_does_not_occur(name, "/test/"@);
    reveal_strlit("__tests__");
    reveal_strlit("test_");
    reveal_strlit("_test.rs");
    reveal_strlit("_test.py");
    reveal_strlit("_spec.rs");
    reveal_strlit("_spec.py");
    assert("__tests__"@[0] == '_');
    assert("test_"@[4] == '_');
    assert("_test.rs"@[0] == '_');
    assert("_test.py"@[0] == '_');
    assert("_spec.rs"@[0] == '_');
    assert("_spec.py"@[0] == '_');
    lemma_no_test_name(name, "__tests__"@);
    lemma_no_test_name(name, "test_"@);
    lemma_no_test_name(name, "_test.rs"@);
    lemma_no_test_name(name, "_test.py"@);
    lemma_no_test_name(name, "_spec.rs"@);
    lemma_no_test_name(name, "_spec.py"@);
    reveal_strlit(".test.ts");
    reveal_strlit(".test.js");
    let n = name.len() as int;
    if ".test.ts"@.is_suffix_of(name) {
        assert(name.subrange(n - 8, n)[0] == name[n - 8]);
        assert(name.subrange(n - 8, n)[5] == name[n - 3]);
    }
    if ".test.js"@.is_suffix_of(name) {
        assert(name.subrange(n - 8, n)[0] == name[n - 8]);
        assert(name.subrange(n - 8, n)[5] == name[n - 3]);
    }
}

proof fn lemma_ends_in(name: Seq<char>, stem: Seq<char>, ext: Seq<char>, end: Seq<char>)
    requires
        simple_name(name, stem, ext),
        letters(end),
    ensures
        (seq!['.'] + end).is_suffix_of(name) <==> ext == end,
{
    lemma_simple_name(name, stem, ext);
    let n = name.len() as int;
    let full = seq!['.'] + end;
    if full.is_suffix_of(name) {
        let at = n - full.len();
        assert(name.subrange(at, n)[0] == name[at]);
        assert(at == stem.len());
        assert(ext =~= end) by {
            assert forall|i: int| 0 <= i < ext.len() implies #[trigger] ext[i] == end[i] by {
                assert(name.subrange(at, n)[i + 1] == name[at + 1 + i]);
                assert(name[at + 1 + i] == ext[i]);
                assert(full[i + 1] == end[i]);
            }
        }
    }
    if ext == end {
        assert(name.subrange(n - full.len(), n) =~= full);
    }
}

/// At the root of a repository, a file with a plain name is documentation,
/// configuration, source code or something else as its extension says.
pub proof fn lemma_the_extension_decides(name: Seq<char>, stem: Seq<char>, ext: Seq<char>)
    requires
        simple_name(name, stem, ext),
        !is_build_name(name),
    ensures
        category_of(name) == Category::Docs <==> ext == "md"@ || ext == "rst"@,
        category_of(name) == Category::Build <==> ext == "tf"@ || ext == "toml"@ || ext == "yml"@
            || ext == "yaml"@,
        category_of(name) == Category::Source <==> is_code_word(ext),
{
    lemma_simple_name(name, stem, ext);
    lemma_simple_is_no_test(name, stem, ext);
    lemma_code_words(ext);
    lemma_build_names(name);
    reveal_strlit("/docs/");
    reveal_strlit("/.github/");
    reveal_strlit("/.gitlab/");
    lemma_does_not_occur(name, "/docs/"@);
    lemma_does_not_occur(name, "/.github/"@);
    lemma_does_not_occur(name, "/.gitlab/"@);
    reveal_strlit("md");
    reveal_strlit("rst");
    reveal_strlit("tf");
    reveal_strlit("toml");
    reveal_strlit("yml");
    reveal_strlit("yaml");
    reveal_strlit(".md");
    reveal_strlit(".rst");
    reveal_strlit(".tf");
    reveal_strlit(".toml");
    reveal_strlit(".yml");
    reveal_strlit(".yaml");
    assert(seq!['.'] + "md"@ =~= ".md"@);
    assert(seq!['.'] + "rst"@ =~= ".rst"@);
    assert(seq!['.'] + "tf"@ =~= ".tf"@);
    assert(seq!['.'] + "toml"@ =~= ".toml"@);
    assert(seq!['.'] + "yml"@ =~= ".yml"@);
    assert(seq!['.'] + "yaml"@ =~= ".yaml"@);
    lemma_ends_in(name, stem, ext, "md"@);
    lemma_ends_in(name, stem, ext, "rst"@);
    lemma_ends_in(name, stem, ext, "tf"@);
    lemma_ends_in(name, stem, ext, "toml"@);
    lemma_ends_in(name, stem, ext, "yml"@);
    lemma_ends_in(name, stem, ext, "yaml"@);
    if is_code_word(ext) {
        lemma_other_endings(ext);
    }
}

proof fn lemma_other_endings(ext: Seq<char>)
    requires
        is_code_word(ext),
    ensures
        ext != "md"@ && ext != "rst"@ && ext != "tf"@ && ext != "toml"@ && ext != "yml"@ && ext
            != "yaml"@,
{
    reveal_strlit("md");
    reveal_strlit("rst");
    reveal_strlit("tf");
    reveal_strlit("toml");
    reveal_strlit("yml");
    reveal_strlit("yaml");
    reveal_strlit("rs");
    reveal_strlit("py");
    reveal_strlit("js");
    reveal_strlit("ts");
    reveal_strlit("jsx");
    reveal_strlit("tsx");
    reveal_strlit("go");
    reveal_strlit("java");
    reveal_strlit("c");
    reveal_strlit("h");
    reveal_strlit("cpp");
    reveal_strlit("hpp");
    reveal_strlit("cc");
    reveal_strlit("rb");
    reveal_strlit("php");
    reveal_strlit("swift");
    reveal_strlit("kt");
    reveal_strlit("scala");
    reveal_strlit("sh");
    reveal_strlit("sql");
    reveal_strlit("html");
    reveal_strlit("css");
    reveal_strlit("scss");
    reveal_strlit("sass");
    reveal_strlit("vue");
    reveal_strlit("elm");
    reveal_strlit("ex");
    reveal_strlit("exs");
    reveal_strlit("clj");
    reveal_strlit("lua");
    reveal_strlit("dart");
    assert("md"@.len() == 2 && "md"@[0] == 'm');
    assert("rst"@.len() == 3 && "rst"@[0] == 'r');
    assert("tf"@.len() == 2 && "tf"@[0] == 't');
    assert("toml"@.len() == 4 && "toml"@[0] == 't');
    assert("yml"@.len() == 3 && "yml"@[0] == 'y');
    assert("yaml"@.len() == 4 && "yaml"@[0] == 'y');
    assert("rs"@.len() == 2 && "rs"@[0] == 'r');
    assert("py"@.len() == 2 && "py"@[0] == 'p');
    assert("js"@.len() == 2 && "js"@[0] == 'j');
    assert("ts"@.len() == 2 && "ts"@[0] == 't');
    assert("jsx"@.len() == 3 && "jsx"@[0] == 'j');
    assert("tsx"@.len() == 3 && "tsx"@[0] == 't');
    assert("go"@.len() == 2 && "go"@[0] == 'g');
    assert("java"@.len() == 4 && "java"@[0] == 'j');
    assert("c"@.len() == 1 && "c"@[0] == 'c');
    assert("h"@.len() == 1 && "h"@[0] == 'h');
    assert("cpp"@.len() == 3 && "cpp"@[0] == 'c');
    assert("hpp"@.len() == 3 && "hpp"@[0] == 'h');
    assert("cc"@.len() == 2 && "cc"@[0] == 'c');
    assert("rb"@.len() == 2 && "rb"@[0] == 'r');
    assert("php"@.len() == 3 && "php"@[0] == 'p');
    assert("swift"@.len() == 5 && "swift"@[0] == 's');
    assert("kt"@.len() == 2 && "kt"@[0] == 'k');
    assert("scala"@.len() == 5 && "scala"@[0] == 's');
    assert("sh"@.len() == 2 && "sh"@[0] == 's');
    assert("sql"@.len() == 3 && "sql"@[0] == 's');
    assert("html"@.len() == 4 && "html"@[0] == 'h');
    assert("css"@.len() == 3 && "css"@[0] == 'c');
    assert("scss"@.len() == 4 && "scss"@[0] == 's');
    assert("sass"@.len() == 4 && "sass"@[0] == 's');
    assert("vue"@.len() == 3 && "vue"@[0] == 'v');
    assert("elm"@.len() == 3 && "elm"@[0] == 'e');
    assert("ex"@.len() == 2 && "ex"@[0] == 'e');
    assert("exs"@.len() == 3 && "exs"@[0] == 'e');
    assert("clj"@.len() == 3 && "clj"@[0] == 'c');
    assert("lua"@.len() == 3 && "lua"@[0] == 'l');
    assert("dart"@.len() == 4 && "dart"@[0] == 'd');
    assert("ts"@[1] == 's' && "tf"@[1] == 'f');
}

/// A file of the build is configuration wherever it is, unless its path makes it
/// a test or documentation. It is never code.
pub proof fn lemma_build_files(path: Seq<char>, name: Seq<char>)
    requires
        names(path, name),
        is_build_name(ascii_lowered(name)),
    ensures
        category_of(path) == Category::Build || category_of(path) == Category::Docs || category_of(
            path,
        ) == Category::Test,
{
    lemma_names(path, name);
    lemma_build_names(ascii_lowered(name));
}

/// A file below a directory of documentation is no code, and neither is one
/// below the directories of the hosting services.
pub proof fn lemma_directories_of_other_files(a: Seq<char>, b: Seq<char>)
    ensures
        category_of(a + "/docs/"@ + b) == Category::Docs || category_of(a + "/docs/"@ + b)
            == Category::Test,
        ({
            let c = category_of(a + "/.github/"@ + b);
            c == Category::Build || c == Category::Docs || c == Category::Test
        }),
        ({
            let c = category_of(a + "/.gitlab/"@ + b);
            c == Category::Build || c == Category::Docs || c == Category::Test
        }),
{
    reveal_strlit("/docs/");
    reveal_strlit("/.github/");
    reveal_strlit("/.gitlab/");
    let x = ascii_lowered(a);
    let y = ascii_lowered(b);
    lemma_lowered_word("/docs/"@);
    lemma_lowered_word("/.github/"@);
    lemma_lowered_word("/.gitlab/"@);
    lemma_lower_case(a + "/docs/"@, b);
    lemma_lower_case(a, "/docs/"@);
    lemma_lower_case(a + "/.github/"@, b);
    lemma_lower_case(a, "/.github/"@);
    lemma_lower_case(a + "/.gitlab/"@, b);
    lemma_lower_case(a, "/.gitlab/"@);
    lemma_occurs_inside(x, "/docs/"@, y);
    lemma_occurs_inside(x, "/.github/"@, y);
    lemma_occurs_inside(x, "/.gitlab/"@, y);
}

} // verus!
