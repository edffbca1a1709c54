//! The state of the package file browser: loading, searching, selecting.
use vstd::prelude::*;

use crate::text::{chars_eq_str, chars_of, contains_chars, contains_seq, lowercase, str_eq, to_lowercase};
use crate::utils::deb_files::{extension_facts, lower_extension, lowercase_extension, path_extension, DebFileEntry};
use crate::views::files_tree::{build_tree_items_clean, tree_of, TreeNode};

verus! {

/// Where the file list of the current package stands.
pub enum FilesLoadState {
    Idle,
    Loading,
    Loaded(Vec<DebFileEntry>),
    Error,
}

/// The file browser's state apart from its widgets.
pub struct FilesPreviewState {
    pub load_state: FilesLoadState,
    /// The package whose files were last asked for.
    pub last_loaded_path: Option<String>,
    /// The file shown in the preview.
    pub selected: Option<DebFileEntry>,
}

// ---------------------------------------------------------------------------
// Specification
// ---------------------------------------------------------------------------

/// Whether `Path` equality holds between two paths given as strings (paths
/// are compared component by component). It depends on the paths alone.
pub uninterp spec fn same_path(a: Seq<char>, b: Seq<char>) -> bool;

/// The syntax-highlighting language for a lowercased file extension.
pub open spec fn language_for(e: Seq<char>) -> Seq<char> {
    if e == "rs"@ {
        "rust"@
    } else if e == "py"@ {
        "python"@
    } else if e == "js"@ || e == "mjs"@ || e == "cjs"@ {
        "javascript"@
    } else if e == "ts"@ || e == "tsx"@ {
        "typescript"@
    } else if e == "json"@ {
        "json"@
    } else if e == "toml"@ {
        "toml"@
    } else if e == "yaml"@ || e == "yml"@ {
        "yaml"@
    } else if e == "sh"@ || e == "bash"@ || e == "zsh"@ {
        "bash"@
    } else if e == "c"@ || e == "h"@ {
        "c"@
    } else if e == "cpp"@ || e == "cc"@ || e == "cxx"@ || e == "hpp"@ || e == "hxx"@ {
        "cpp"@
    } else if e == "go"@ {
        "go"@
    } else if e == "java"@ {
        "java"@
    } else if e == "xml"@ || e == "html"@ || e == "htm"@ || e == "xhtml"@ {
        "html"@
    } else if e == "css"@ || e == "scss"@ || e == "sass"@ {
        "css"@
    } else if e == "md"@ || e == "markdown"@ {
        "markdown"@
    } else if e == "sql"@ {
        "sql"@
    } else if e == "lua"@ {
        "lua"@
    } else if e == "rb"@ {
        "ruby"@
    } else if e == "php"@ {
        "php"@
    } else if e == "swift"@ {
        "swift"@
    } else if e == "kt"@ || e == "kts"@ {
        "kotlin"@
    } else if e == "r"@ {
        "r"@
    } else if e == "ini"@ || e == "cfg"@ || e == "conf"@ || e == "properties"@ {
        "ini"@
    } else if e == "dockerfile"@ {
        "dockerfile"@
    } else if e == "makefile"@ || e == "mk"@ {
        "makefile"@
    } else {
        "text"@
    }
}

/// The empty extension is given no language of its own.
proof fn lemma_no_extension_is_text()
    ensures
        language_for(Seq::empty()) == "text"@,
{
    reveal_strlit("rs");
    assert("rs"@.len() > 0);
    reveal_strlit("py");
    assert("py"@.len() > 0);
    reveal_strlit("js");
    assert("js"@.len() > 0);
    reveal_strlit("mjs");
    assert("mjs"@.len() > 0);
    reveal_strlit("cjs");
    assert("cjs"@.len() > 0);
    reveal_strlit("ts");
    assert("ts"@.len() > 0);
    reveal_strlit("tsx");
    assert("tsx"@.len() > 0);
    reveal_strlit("json");
    assert("json"@.len() > 0);
    reveal_strlit("toml");
    assert("toml"@.len() > 0);
    reveal_strlit("yaml");
    assert("yaml"@.len() > 0);
    reveal_strlit("yml");
    assert("yml"@.len() > 0);
    reveal_strlit("sh");
    assert("sh"@.len() > 0);
    reveal_strlit("bash");
    assert("bash"@.len() > 0);
    reveal_strlit("zsh");
    assert("zsh"@.len() > 0);
    reveal_strlit("c");
    assert("c"@.len() > 0);
    reveal_strlit("h");
    assert("h"@.len() > 0);
    reveal_strlit("cpp");
    assert("cpp"@.len() > 0);
    reveal_strlit("cc");
    assert("cc"@.len() > 0);
    reveal_strlit("cxx");
    assert("cxx"@.len() > 0);
    reveal_strlit("hpp");
    assert("hpp"@.len() > 0);
    reveal_strlit("hxx");
    assert("hxx"@.len() > 0);
    reveal_strlit("go");
    assert("go"@.len() > 0);
    reveal_strlit("java");
    assert("java"@.len() > 0);
    reveal_strlit("xml");
    assert("xml"@.len() > 0);
    reveal_strlit("html");
    assert("html"@.len() > 0);
    reveal_strlit("htm");
    assert("htm"@.len() > 0);
    reveal_strlit("xhtml");
    assert("xhtml"@.len() > 0);
    reveal_strlit("css");
    assert("css"@.len() > 0);
    reveal_strlit("scss");
    assert("scss"@.len() > 0);
    reveal_strlit("sass");
    assert("sass"@.len() > 0);
    reveal_strlit("md");
    assert("md"@.len() > 0);
    reveal_strlit("markdown");
    assert("markdown"@.len() > 0);
    reveal_strlit("sql");
    assert("sql"@.len() > 0);
    reveal_strlit("lua");
    assert("lua"@.len() > 0);
    reveal_strlit("rb");
    assert("rb"@.len() > 0);
    reveal_strlit("php");
    assert("php"@.len() > 0);
    reveal_strlit("swift");
    assert("swift"@.len() > 0);
    reveal_strlit("kt");
    assert("kt"@.len() > 0);
    reveal_strlit("kts");
    assert("kts"@.len() > 0);
    reveal_strlit("r");
    assert("r"@.len() > 0);
    reveal_strlit("ini");
    assert("ini"@.len() > 0);
    reveal_strlit("cfg");
    assert("cfg"@.len() > 0);
    reveal_strlit("conf");
    assert("conf"@.len() > 0);
    reveal_strlit("properties");
    assert("properties"@.len() > 0);
    reveal_strlit("dockerfile");
    assert("dockerfile"@.len() > 0);
    reveal_strlit("makefile");
    assert("makefile"@.len() > 0);
    reveal_strlit("mk");
    assert("mk"@.len() > 0);
}

/// The entries whose lowercased path contains `q` (already lowercased),
/// in order.
pub open spec fn matching(es: Seq<DebFileEntry>, q: Seq<char>) -> Seq<DebFileEntry>
    decreases es.len(),
{
    if es.len() == 0 {
        es
    } else if contains_seq(lowercase(es.last().path@), q) {
        matching(es.drop_last(), q).push(es.last())
    } else {
        matching(es.drop_last(), q)
    }
}

/// The entries shown for a search text: all of them when the lowercased
/// text is empty, else those whose lowercased path contains it.
pub open spec fn search_result(es: Seq<DebFileEntry>, search: Seq<char>) -> Seq<DebFileEntry> {
    if lowercase(search).len() == 0 {
        es
    } else {
        matching(es, lowercase(search))
    }
}

/// The index of the first entry with path `id` (or the length).
pub open spec fn find_path(es: Seq<DebFileEntry>, id: Seq<char>, i: int) -> int
    decreases es.len() - i,
{
    if i < 0 || i >= es.len() {
        es.len() as int
    } else if es[i].path@ == id {
        i
    } else {
        find_path(es, id, i + 1)
    }
}

// ---------------------------------------------------------------------------
// Laws
// ---------------------------------------------------------------------------

/// The highlighting languages of the known extensions (lowercased).
pub proof fn law_language_table()
    ensures
        language_for("rs"@) == "rust"@,
        language_for("py"@) == "python"@,
        language_for("js"@) == "javascript"@,
        language_for("mjs"@) == "javascript"@,
        language_for("cjs"@) == "javascript"@,
        language_for("ts"@) == "typescript"@,
        language_for("tsx"@) == "typescript"@,
        language_for("json"@) == "json"@,
        language_for("toml"@) == "toml"@,
        language_for("yaml"@) == "yaml"@,
        language_for("yml"@) == "yaml"@,
        language_for("sh"@) == "bash"@,
        language_for("bash"@) == "bash"@,
        language_for("zsh"@) == "bash"@,
        language_for("c"@) == "c"@,
        language_for("h"@) == "c"@,
        language_for("cpp"@) == "cpp"@,
        language_for("cc"@) == "cpp"@,
        language_for("cxx"@) == "cpp"@,
        language_for("hpp"@) == "cpp"@,
        language_for("hxx"@) == "cpp"@,
        language_for("go"@) == "go"@,
        language_for("java"@) == "java"@,
        language_for("xml"@) == "html"@,
        language_for("html"@) == "html"@,
        language_for("htm"@) == "html"@,
        language_for("xhtml"@) == "html"@,
        language_for("css"@) == "css"@,
        language_for("scss"@) == "css"@,
        language_for("sass"@) == "css"@,
        language_for("md"@) == "markdown"@,
        language_for("markdown"@) == "markdown"@,
        language_for("sql"@) == "sql"@,
        language_for("lua"@) == "lua"@,
        language_for("rb"@) == "ruby"@,
        language_for("php"@) == "php"@,
        language_for("swift"@) == "swift"@,
        language_for("kt"@) == "kotlin"@,
        language_for("kts"@) == "kotlin"@,
        language_for("r"@) == "r"@,
        language_for("ini"@) == "ini"@,
        language_for("cfg"@) == "ini"@,
        language_for("conf"@) == "ini"@,
        language_for("properties"@) == "ini"@,
        language_for("dockerfile"@) == "dockerfile"@,
        language_for("makefile"@) == "makefile"@,
        language_for("mk"@) == "makefile"@,
{
    reveal_strlit("rs");
    assert("rs"@.len() == 2 && "rs"@[0] == 'r' && "rs"@[1] == 's');
    reveal_strlit("py");
    assert("py"@.len() == 2 && "py"@[0] == 'p' && "py"@[1] == 'y');
    reveal_strlit("js");
    assert("js"@.len() == 2 && "js"@[0] == 'j' && "js"@[1] == 's');
    reveal_strlit("mjs");
    assert("mjs"@.len() == 3 && "mjs"@[0] == 'm' && "mjs"@[1] == 'j' && "mjs"@[2] == 's');
    reveal_strlit("cjs");
    assert("cjs"@.len() == 3 && "cjs"@[0] == 'c' && "cjs"@[1] == 'j' && "cjs"@[2] == 's');
    reveal_strlit("ts");
    assert("ts"@.len() == 2 && "ts"@[0] == 't' && "ts"@[1] == 's');
    reveal_strlit("tsx");
    assert("tsx"@.len() == 3 && "tsx"@[0] == 't' && "tsx"@[1] == 's' && "tsx"@[2] == 'x');
    reveal_strlit("json");
    assert("json"@.len() == 4 && "json"@[0] == 'j' && "json"@[1] == 's' && "json"@[2] == 'o' && "json"@[3] == 'n');
    reveal_strlit("toml");
    assert("toml"@.len() == 4 && "toml"@[0] == 't' && "toml"@[1] == 'o' && "toml"@[2] == 'm' && "toml"@[3] == 'l');
    reveal_strlit("yaml");
    assert("yaml"@.len() == 4 && "yaml"@[0] == 'y' && "yaml"@[1] == 'a' && "yaml"@[2] == 'm' && "yaml"@[3] == 'l');
    reveal_strlit("yml");
    assert("yml"@.len() == 3 && "yml"@[0] == 'y' && "yml"@[1] == 'm' && "yml"@[2] == 'l');
    reveal_strlit("sh");
    assert("sh"@.len() == 2 && "sh"@[0] == 's' && "sh"@[1] == 'h');
    reveal_strlit("bash");
    assert("bash"@.len() == 4 && "bash"@[0] == 'b' && "bash"@[1] == 'a' && "bash"@[2] == 's' && "bash"@[3] == 'h');
    reveal_strlit("zsh");
    assert("zsh"@.len() == 3 && "zsh"@[0] == 'z' && "zsh"@[1] == 's' && "zsh"@[2] == 'h');
    reveal_strlit("c");
    assert("c"@.len() == 1 && "c"@[0] == 'c');
    reveal_strlit("h");
    assert("h"@.len() == 1 && "h"@[0] == 'h');
    reveal_strlit("cpp");
    assert("cpp"@.len() == 3 && "cpp"@[0] == 'c' && "cpp"@[1] == 'p' && "cpp"@[2] == 'p');
    reveal_strlit("cc");
    assert("cc"@.len() == 2 && "cc"@[0] == 'c' && "cc"@[1] == 'c');
    reveal_strlit("cxx");
    assert("cxx"@.len() == 3 && "cxx"@[0] == 'c' && "cxx"@[1] == 'x' && "cxx"@[2] == 'x');
    reveal_strlit("hpp");
    assert("hpp"@.len() == 3 && "hpp"@[0] == 'h' && "hpp"@[1] == 'p' && "hpp"@[2] == 'p');
    reveal_strlit("hxx");
    assert("hxx"@.len() == 3 && "hxx"@[0] == 'h' && "hxx"@[1] == 'x' && "hxx"@[2] == 'x');
    reveal_strlit("go");
    assert("go"@.len() == 2 && "go"@[0] == 'g' && "go"@[1] == 'o');
    reveal_strlit("java");
    assert("java"@.len() == 4 && "java"@[0] == 'j' && "java"@[1] == 'a' && "java"@[2] == 'v' && "java"@[3] == 'a');
    reveal_strlit("xml");
    assert("xml"@.len() == 3 && "xml"@[0] == 'x' && "xml"@[1] == 'm' && "xml"@[2] == 'l');
    reveal_strlit("html");
    assert("html"@.len() == 4 && "html"@[0] == 'h' && "html"@[1] == 't' && "html"@[2] == 'm' && "html"@[3] == 'l');
    reveal_strlit("htm");
    assert("htm"@.len() == 3 && "htm"@[0] == 'h' && "htm"@[1] == 't' && "htm"@[2] == 'm');
    reveal_strlit("xhtml");
    assert("xhtml"@.len() == 5 && "xhtml"@[0] == 'x' && "xhtml"@[1] == 'h' && "xhtml"@[2] == 't' && "xhtml"@[3] == 'm' && "xhtml"@[4] == 'l');
    reveal_strlit("css");
    assert("css"@.len() == 3 && "css"@[0] == 'c' && "css"@[1] == 's' && "css"@[2] == 's');
    reveal_strlit("scss");
    assert("scss"@.len() == 4 && "scss"@[0] == 's' && "scss"@[1] == 'c' && "scss"@[2] == 's' && "scss"@[3] == 's');
    reveal_strlit("sass");
    assert("sass"@.len() == 4 && "sass"@[0] == 's' && "sass"@[1] == 'a' && "sass"@[2] == 's' && "sass"@[3] == 's');
    reveal_strlit("md");
    assert("md"@.len() == 2 && "md"@[0] == 'm' && "md"@[1] == 'd');
    reveal_strlit("markdown");
    assert("markdown"@.len() == 8 && "markdown"@[0] == 'm' && "markdown"@[1] == 'a' && "markdown"@[2] == 'r' && "markdown"@[3] == 'k' && "markdown"@[4] == 'd' && "markdown"@[5] == 'o' && "markdown"@[6] == 'w' && "markdown"@[7] == 'n');
    reveal_strlit("sql");
    assert("sql"@.len() == 3 && "sql"@[0] == 's' && "sql"@[1] == 'q' && "sql"@[2] == 'l');
    reveal_strlit("lua");
    assert("lua"@.len() == 3 && "lua"@[0] == 'l' && "lua"@[1] == 'u' && "lua"@[2] == 'a');
    reveal_strlit("rb");
    assert("rb"@.len() == 2 && "rb"@[0] == 'r' && "rb"@[1] == 'b');
    reveal_strlit("php");
    assert("php"@.len() == 3 && "php"@[0] == 'p' && "php"@[1] == 'h' && "php"@[2] == 'p');
    reveal_strlit("swift");
    assert("swift"@.len() == 5 && "swift"@[0] == 's' && "swift"@[1] == 'w' && "swift"@[2] == 'i' && "swift"@[3] == 'f' && "swift"@[4] == 't');
    reveal_strlit("kt");
    assert("kt"@.len() == 2 && "kt"@[0] == 'k' && "kt"@[1] == 't');
    reveal_strlit("kts");
    assert("kts"@.len() == 3 && "kts"@[0] == 'k' && "kts"@[1] == 't' && "kts"@[2] == 's');
    reveal_strlit("r");
    assert("r"@.len() == 1 && "r"@[0] == 'r');
    reveal_strlit("ini");
    assert("ini"@.len() == 3 && "ini"@[0] == 'i' && "ini"@[1] == 'n' && "ini"@[2] == 'i');
    reveal_strlit("cfg");
    assert("cfg"@.len() == 3 && "cfg"@[0] == 'c' && "cfg"@[1] == 'f' && "cfg"@[2] == 'g');
    reveal_strlit("conf");
    assert("conf"@.len() == 4 && "conf"@[0] == 'c' && "conf"@[1] == 'o' && "conf"@[2] == 'n' && "conf"@[3] == 'f');
    reveal_strlit("properties");
    assert("properties"@.len() == 10 && "properties"@[0] == 'p' && "properties"@[1] == 'r' && "properties"@[2] == 'o' && "properties"@[3] == 'p' && "properties"@[4] == 'e' && "properties"@[5] == 'r' && "properties"@[6] == 't' && "properties"@[7] == 'i' && "properties"@[8] == 'e' && "properties"@[9] == 's');
    reveal_strlit("dockerfile");
    assert("dockerfile"@.len() == 10 && "dockerfile"@[0] == 'd' && "dockerfile"@[1] == 'o' && "dockerfile"@[2] == 'c' && "dockerfile"@[3] == 'k' && "dockerfile"@[4] == 'e' && "dockerfile"@[5] == 'r' && "dockerfile"@[6] == 'f' && "dockerfile"@[7] == 'i' && "dockerfile"@[8] == 'l' && "dockerfile"@[9] == 'e');
    reveal_strlit("makefile");
    assert("makefile"@.len() == 8 && "makefile"@[0] == 'm' && "makefile"@[1] == 'a' && "makefile"@[2] == 'k' && "makefile"@[3] == 'e' && "makefile"@[4] == 'f' && "makefile"@[5] == 'i' && "makefile"@[6] == 'l' && "makefile"@[7] == 'e');
    reveal_strlit("mk");
    assert("mk"@.len() == 2 && "mk"@[0] == 'm' && "mk"@[1] == 'k');
}

/// An extension outside the table gets no language of its own: "text".
pub proof fn law_unlisted_extension_is_text(e: Seq<char>)
    requires
        e != "rs"@,
        e != "py"@,
        e != "js"@,
        e != "mjs"@,
        e != "cjs"@,
        e != "ts"@,
        e != "tsx"@,
        e != "json"@,
        e != "toml"@,
        e != "yaml"@,
        e != "yml"@,
        e != "sh"@,
        e != "bash"@,
        e != "zsh"@,
        e != "c"@,
        e != "h"@,
        e != "cpp"@,
        e != "cc"@,
        e != "cxx"@,
        e != "hpp"@,
        e != "hxx"@,
        e != "go"@,
        e != "java"@,
        e != "xml"@,
        e != "html"@,
        e != "htm"@,
        e != "xhtml"@,
        e != "css"@,
        e != "scss"@,
        e != "sass"@,
        e != "md"@,
        e != "markdown"@,
        e != "sql"@,
        e != "lua"@,
        e != "rb"@,
        e != "php"@,
        e != "swift"@,
        e != "kt"@,
        e != "kts"@,
        e != "r"@,
        e != "ini"@,
        e != "cfg"@,
        e != "conf"@,
        e != "properties"@,
        e != "dockerfile"@,
        e != "makefile"@,
        e != "mk"@,
    ensures
        language_for(e) == "text"@,
{
}

/// A non-empty search keeps, in their order, exactly the entries whose
/// lowercased archive path contains the lowercased search text; what else
/// an entry holds (its kind, its cache path) plays no part. An empty search
/// keeps every entry.
pub proof fn law_search_keeps_matching_paths(es: Seq<DebFileEntry>, search: Seq<char>)
    ensures
        lowercase(search).len() > 0 ==> search_result(es, search) == es.filter(
            |e: DebFileEntry| contains_seq(lowercase(e.path@), lowercase(search)),
        ),
        lowercase(search).len() == 0 ==> search_result(es, search) == es,
    decreases es.len(),
{
    if lowercase(search).len() > 0 {
        lemma_matching_is_filter(es, lowercase(search));
    }
}

proof fn lemma_matching_is_filter(es: Seq<DebFileEntry>, q: Seq<char>)
    ensures
        matching(es, q) == es.filter(|e: DebFileEntry| contains_seq(lowercase(e.path@), q)),
    decreases es.len(),
{
    reveal(Seq::filter);
    if es.len() > 0 {
        lemma_matching_is_filter(es.drop_last(), q);
    }
}

// ---------------------------------------------------------------------------
// Outside call
// ---------------------------------------------------------------------------

/// `Path`'s `==` on two paths given as strings; its result is named by
/// `same_path`. A path equals itself: two equal strings make equal paths.
#[verifier::external_body]
fn paths_equal(a: &str, b: &str) -> (r: bool)
    ensures
        r == same_path(a@, b@),
        a@ == b@ ==> r,
{
    std::path::Path::new(a) == std::path::Path::new(b)
}

// ---------------------------------------------------------------------------
// Implementation
// ---------------------------------------------------------------------------

/// The syntax-highlighting language for a lowercased file extension.
pub fn language_for_extension(ext: &str) -> (r: &'static str)
    ensures
        r@ == language_for(ext@),
{
    let e = chars_of(ext);
    let e = e.as_slice();
    if chars_eq_str(e, "rs") {
        "rust"
    } else if chars_eq_str(e, "py") {
        "python"
    } else if chars_eq_str(e, "js") || chars_eq_str(e, "mjs") || chars_eq_str(e, "cjs") {
        "javascript"
    } else if chars_eq_str(e, "ts") || chars_eq_str(e, "tsx") {
        "typescript"
    } else if chars_eq_str(e, "json") {
        "json"
    } else if chars_eq_str(e, "toml") {
        "toml"
    } else if chars_eq_str(e, "yaml") || chars_eq_str(e, "yml") {
        "yaml"
    } else if chars_eq_str(e, "sh") || chars_eq_str(e, "bash") || chars_eq_str(e, "zsh") {
        "bash"
    } else if chars_eq_str(e, "c") || chars_eq_str(e, "h") {
        "c"
    } else if chars_eq_str(e, "cpp") || chars_eq_str(e, "cc") || chars_eq_str(e, "cxx")
        || chars_eq_str(e, "hpp") || chars_eq_str(e, "hxx") {
        "cpp"
    } else if chars_eq_str(e, "go") {
        "go"
    } else if chars_eq_str(e, "java") {
        "java"
    } else if chars_eq_str(e, "xml") || chars_eq_str(e, "html") || chars_eq_str(e, "htm")
        || chars_eq_str(e, "xhtml") {
        "html"
    } else if chars_eq_str(e, "css") || chars_eq_str(e, "scss") || chars_eq_str(e, "sass") {
        "css"
    } else if chars_eq_str(e, "md") || chars_eq_str(e, "markdown") {
        "markdown"
    } else if chars_eq_str(e, "sql") {
        "sql"
    } else if chars_eq_str(e, "lua") {
        "lua"
    } else if chars_eq_str(e, "rb") {
        "ruby"
    } else if chars_eq_str(e, "php") {
        "php"
    } else if chars_eq_str(e, "swift") {
        "swift"
    } else if chars_eq_str(e, "kt") || chars_eq_str(e, "kts") {
        "kotlin"
    } else if chars_eq_str(e, "r") {
        "r"
    } else if chars_eq_str(e, "ini") || chars_eq_str(e, "cfg") || chars_eq_str(e, "conf")
        || chars_eq_str(e, "properties") {
        "ini"
    } else if chars_eq_str(e, "dockerfile") {
        "dockerfile"
    } else if chars_eq_str(e, "makefile") || chars_eq_str(e, "mk") {
        "makefile"
    } else {
        "text"
    }
}

/// The syntax-highlighting language for a file, by its extension
/// (case-insensitively).
pub fn detect_language(path: &str) -> (r: &'static str)
    ensures
        r@ == language_for(lower_extension(path@)),
        path_extension(path@).is_none() ==> r@ == "text"@,
        extension_facts(path@),
{
    let ext = lowercase_extension(path);
    proof {
        lemma_no_extension_is_text();
        if path_extension(path@).is_none() {
            assert(lower_extension(path@) =~= Seq::<char>::empty());
        }
    }
    language_for_extension(ext.as_str())
}

/// A copy of an entry.
pub fn copy_entry(e: &DebFileEntry) -> (r: DebFileEntry)
    ensures
        r == *e,
{
    let cache_path = match &e.cache_path {
        Some(p) => Some(p.clone()),
        None => None,
    };
    DebFileEntry { path: e.path.clone(), kind: e.kind, cache_path }
}

/// The entries whose lowercased path contains the lowercased query `q`.
fn matching_entries(entries: &Vec<DebFileEntry>, q: &str) -> (r: Vec<DebFileEntry>)
    ensures
        r@ == matching(entries@, q@),
{
    let qc = chars_of(q);
    let mut out: Vec<DebFileEntry> = Vec::new();
    let mut i: usize = 0;
    while i < entries.len()
        invariant
            i <= entries.len(),
            qc@ == q@,
            out@ == matching(entries@.take(i as int), q@),
        decreases entries.len() - i,
    {
        assert(entries@.take(i + 1).drop_last() =~= entries@.take(i as int));
        let lower = to_lowercase(entries[i].path.as_str());
        let lc = chars_of(lower.as_str());
        if contains_chars(lc.as_slice(), qc.as_slice()) {
            out.push(copy_entry(&entries[i]));
        }
        i = i + 1;
    }
    assert(entries@.take(entries.len() as int) =~= entries@);
    out
}

/// The entries shown for a search text.
pub fn filter_entries(entries: &Vec<DebFileEntry>, search: &str) -> (r: Vec<DebFileEntry>)
    ensures
        r@ == search_result(entries@, search@),
{
    let q = to_lowercase(search);
    if q.as_str().unicode_len() == 0 {
        let mut out: Vec<DebFileEntry> = Vec::new();
        let mut i: usize = 0;
        while i < entries.len()
            invariant
                i <= entries.len(),
                out@ == entries@.take(i as int),
            decreases entries.len() - i,
        {
            out.push(copy_entry(&entries[i]));
            i = i + 1;
            assert(out@ =~= entries@.take(i as int));
        }
        assert(entries@.take(entries.len() as int) =~= entries@);
        out
    } else {
        matching_entries(entries, q.as_str())
    }
}

/// The entry with path `id`, if there is one.
pub fn find_entry(entries: &Vec<DebFileEntry>, id: &str) -> (r: Option<DebFileEntry>)
    ensures
        match r {
            Some(e) => find_path(entries@, id@, 0) < entries@.len() && e == entries@[find_path(
                entries@,
                id@,
                0,
            )],
            None => find_path(entries@, id@, 0) == entries@.len(),
        },
{
    let mut i: usize = 0;
    while i < entries.len()
        invariant
            i <= entries.len(),
            find_path(entries@, id@, 0) == find_path(entries@, id@, i as int),
        decreases entries.len() - i,
    {
        if str_eq(entries[i].path.as_str(), id) {
            return Some(copy_entry(&entries[i]));
        }
        i = i + 1;
    }
    None
}

impl FilesPreviewState {
    /// Nothing loaded, nothing selected.
    pub fn new() -> (r: FilesPreviewState)
        ensures
            r.load_state is Idle,
            r.last_loaded_path.is_none(),
            r.selected.is_none(),
    {
        FilesPreviewState { load_state: FilesLoadState::Idle, last_loaded_path: None, selected: None }
    }

    /// A package was chosen. Returns whether its files must be loaded: not
    /// when the same path was asked for last; otherwise the package is
    /// remembered, the list is loading and nothing is selected.
    pub fn trigger_load(&mut self, path: &str) -> (r: bool)
        ensures
            r == !(old(self).last_loaded_path matches Some(p) && same_path(p@, path@)),
            r ==> {
                &&& final(self).last_loaded_path matches Some(p) && p@ == path@
                &&& final(self).load_state is Loading
                &&& final(self).selected.is_none()
            },
            !r ==> *final(self) == *old(self),
            (old(self).last_loaded_path matches Some(p) && p@ == path@) ==> !r && *final(self)
                == *old(self),
    {
        let same = match &self.last_loaded_path {
            Some(p) => paths_equal(p.as_str(), path),
            None => false,
        };
        if same {
            return false;
        }
        self.last_loaded_path = Some(String::from_str(path));
        self.load_state = FilesLoadState::Loading;
        self.selected = None;
        true
    }

    /// The files of the package were read: they are listed, nothing is
    /// selected.
    pub fn finish_loading(&mut self, entries: Vec<DebFileEntry>)
        ensures
            final(self).load_state == FilesLoadState::Loaded(entries),
            final(self).selected.is_none(),
            final(self).last_loaded_path == old(self).last_loaded_path,
    {
        self.load_state = FilesLoadState::Loaded(entries);
        self.selected = None;
    }

    /// The files of the package could not be read.
    pub fn fail_loading(&mut self)
        ensures
            final(self).load_state is Error,
            final(self).selected == old(self).selected,
            final(self).last_loaded_path == old(self).last_loaded_path,
    {
        self.load_state = FilesLoadState::Error;
    }

    /// A file of the tree was clicked. When the list is loaded and holds a
    /// file with that path, the first such file becomes the selection and
    /// is returned; otherwise nothing changes.
    pub fn select_file(&mut self, id: &str) -> (r: Option<DebFileEntry>)
        ensures
            match old(self).load_state {
                FilesLoadState::Loaded(es) => match r {
                    Some(e) => {
                        &&& find_path(es@, id@, 0) < es@.len()
                        &&& e == es@[find_path(es@, id@, 0)]
                        &&& final(self).selected == Some(e)
                        &&& final(self).load_state == old(self).load_state
                        &&& final(self).last_loaded_path == old(self).last_loaded_path
                    },
                    None => find_path(es@, id@, 0) == es@.len() && *final(self) == *old(self),
                },
                _ => r.is_none() && *final(self) == *old(self),
            },
    {
        let found = match &self.load_state {
            FilesLoadState::Loaded(es) => find_entry(es, id),
            _ => None,
        };
        match found {
            Some(e) => {
                self.selected = Some(copy_entry(&e));
                Some(e)
            },
            None => None,
        }
    }

    /// The tree for a search text, when the list is loaded.
    pub fn tree_items(&self, search: &str) -> (r: Option<Vec<TreeNode>>)
        ensures
            match self.load_state {
                FilesLoadState::Loaded(es) => r matches Some(t) && tree_of(
                    t@,
                    search_result(es@, search@),
                ),
                _ => r.is_none(),
            },
    {
        match &self.load_state {
            FilesLoadState::Loaded(es) => {
                let shown = filter_entries(es, search);
                Some(build_tree_items_clean(shown.as_slice()))
            },
            _ => None,
        }
    }
}

} // verus!
