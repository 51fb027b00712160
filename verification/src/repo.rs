//! Repository summarization: which files count as code, how files are packed
//! into chunks for the language model, and the markdown rendering of a
//! finished summary.  Walking the repository and running completions live
//! outside.

use vstd::prelude::*;
use vstd::string::StrSliceExecFns;
use vstd::string::StringExecFns;
use crate::rag::{ext_of, last_component};
use crate::text::{
    chars_of, dec_str, join_with, last_char, last_char_index, lower_seq, str_eq, str_views,
    string_of, to_lower, u64_string, vec_range,
};

verus! {

/// Errors of repository summarization.
#[derive(Debug, Clone)]
pub enum RepoError {
    /// The path does not exist.
    PathNotFound(String),
    /// The path is not a directory.
    NotADirectory(String),
    /// A file could not be read.
    IoError(String),
    /// The language model failed.
    GeminiError(String),
    /// The model's answer did not parse as JSON.
    JsonError(String),
    /// Nothing was found to summarize.
    NoFilesFound,
}

/// A file snippet collected from the repository.
#[derive(Debug, Clone)]
pub struct FileSnippet {
    /// Path relative to the repository root.
    pub path: String,
    /// Detected language.
    pub language: String,
    /// File content, possibly shortened.
    pub content: String,
    /// Whether the content was shortened.
    pub truncated: bool,
    /// Original size in bytes.
    pub size: u64,
}

/// A bundle of files handed to the language model in one request.
#[derive(Debug, Clone)]
pub struct RepoChunk {
    /// Bundle number, counted from one.
    pub id: u32,
    /// What the bundle holds.
    pub description: String,
    /// The files of the bundle.
    pub files: Vec<FileSnippet>,
}

/// Summary of one module or directory.
#[derive(Debug, Clone)]
pub struct ModuleSummary {
    pub path: String,
    pub description: String,
    pub key_files: Vec<String>,
    pub technologies: Vec<String>,
}

/// Summary of a whole repository.
#[derive(Debug, Clone)]
pub struct RepoSummary {
    pub name: String,
    pub overview: String,
    pub modules: Vec<ModuleSummary>,
    pub languages: Vec<String>,
    pub file_count: u32,
    pub total_lines: u32,
}

/// Options for repository scanning.
#[derive(Debug, Clone)]
pub struct RepoOptions {
    /// Largest file taken, in bytes.
    pub max_file_size: u64,
    /// Most files taken, if capped.
    pub max_files: Option<u32>,
    /// Token budget per bundle.
    pub max_chunk_tokens: u32,
    /// Character budget per file.
    pub max_content_per_file: usize,
    /// Extensions to include; empty means every known code file.
    pub include_extensions: Vec<String>,
}

impl Default for RepoOptions {
    /// Hundred-kilobyte files, no file cap, eight thousand tokens per
    /// bundle, ten thousand characters per file, every known code file.
    fn default() -> (r: RepoOptions)
        ensures
            r.max_file_size == 100000,
            r.max_files is None,
            r.max_chunk_tokens == 8000,
            r.max_content_per_file == 10000,
            r.include_extensions@.len() == 0,
    {
        RepoOptions {
            max_file_size: 100000,
            max_files: None,
            max_chunk_tokens: 8000,
            max_content_per_file: 10000,
            include_extensions: Vec::new(),
        }
    }
}

impl RepoOptions {
    /// The same options with a file cap.
    pub fn with_max_files(self, max: u32) -> (r: RepoOptions)
        ensures
            r.max_files == Some(max),
            r.max_file_size == self.max_file_size,
            r.max_chunk_tokens == self.max_chunk_tokens,
            r.max_content_per_file == self.max_content_per_file,
            r.include_extensions == self.include_extensions,
    {
        RepoOptions { max_files: Some(max), ..self }
    }

    /// The same options with another bundle budget.
    pub fn with_max_chunk_tokens(self, tokens: u32) -> (r: RepoOptions)
        ensures
            r.max_chunk_tokens == tokens,
            r.max_file_size == self.max_file_size,
            r.max_files == self.max_files,
            r.max_content_per_file == self.max_content_per_file,
            r.include_extensions == self.include_extensions,
    {
        RepoOptions { max_chunk_tokens: tokens, ..self }
    }
}

/// The language assigned to a lowered file extension, if it is a known code
/// or text extension.
pub open spec fn spec_language_for(e: Seq<char>) -> Option<Seq<char>> {
    if e == "rs"@ {
        Some("Rust"@)
    } else if e == "py"@ {
        Some("Python"@)
    } else if e == "js"@ {
        Some("JavaScript"@)
    } else if e == "ts"@ {
        Some("TypeScript"@)
    } else if e == "tsx"@ || e == "jsx"@ {
        Some("TypeScript/React"@)
    } else if e == "go"@ {
        Some("Go"@)
    } else if e == "java"@ {
        Some("Java"@)
    } else if e == "kt"@ || e == "kts"@ {
        Some("Kotlin"@)
    } else if e == "swift"@ {
        Some("Swift"@)
    } else if e == "c"@ || e == "h"@ {
        Some("C"@)
    } else if e == "cpp"@ || e == "cxx"@ || e == "cc"@ || e == "hpp"@ {
        Some("C++"@)
    } else if e == "cs"@ {
        Some("C#"@)
    } else if e == "rb"@ {
        Some("Ruby"@)
    } else if e == "php"@ {
        Some("PHP"@)
    } else if e == "scala"@ {
        Some("Scala"@)
    } else if e == "ex"@ || e == "exs"@ {
        Some("Elixir"@)
    } else if e == "erl"@ || e == "hrl"@ {
        Some("Erlang"@)
    } else if e == "hs"@ {
        Some("Haskell"@)
    } else if e == "ml"@ || e == "mli"@ {
        Some("OCaml"@)
    } else if e == "clj"@ || e == "cljs"@ {
        Some("Clojure"@)
    } else if e == "lua"@ {
        Some("Lua"@)
    } else if e == "r"@ {
        Some("R"@)
    } else if e == "jl"@ {
        Some("Julia"@)
    } else if e == "sh"@ || e == "bash"@ || e == "zsh"@ {
        Some("Shell"@)
    } else if e == "sql"@ {
        Some("SQL"@)
    } else if e == "html"@ || e == "htm"@ {
        Some("HTML"@)
    } else if e == "css"@ || e == "scss"@ || e == "sass"@ || e == "less"@ {
        Some("CSS"@)
    } else if e == "json"@ {
        Some("JSON"@)
    } else if e == "yaml"@ || e == "yml"@ {
        Some("YAML"@)
    } else if e == "toml"@ {
        Some("TOML"@)
    } else if e == "xml"@ {
        Some("XML"@)
    } else if e == "md"@ || e == "markdown"@ {
        Some("Markdown"@)
    } else if e == "dockerfile"@ {
        Some("Dockerfile"@)
    } else if e == "makefile"@ {
        Some("Makefile"@)
    } else {
        None
    }
}

/// The language of a file extension, ASCII case ignored; `None` for an
/// unknown extension.
pub fn get_language_for_extension(ext: &str) -> (r: Option<String>)
    ensures
        match r {
            Some(l) => spec_language_for(lower_seq(ext@)) matches Some(x) && x == l@,
            None => spec_language_for(lower_seq(ext@)) is None,
        },
{
    let v = chars_of(ext);
    let lowv = to_lower(&v);
    let low = string_of(&lowv);
    let e = low.as_str();
    if str_eq(e, "rs") {
        Some(String::from_str("Rust"))
    } else if str_eq(e, "py") {
        Some(String::from_str("Python"))
    } else if str_eq(e, "js") {
        Some(String::from_str("JavaScript"))
    } else if str_eq(e, "ts") {
        Some(String::from_str("TypeScript"))
    } else if str_eq(e, "tsx") || str_eq(e, "jsx") {
        Some(String::from_str("TypeScript/React"))
    } else if str_eq(e, "go") {
        Some(String::from_str("Go"))
    } else if str_eq(e, "java") {
        Some(String::from_str("Java"))
    } else if str_eq(e, "kt") || str_eq(e, "kts") {
        Some(String::from_str("Kotlin"))
    } else if str_eq(e, "swift") {
        Some(String::from_str("Swift"))
    } else if str_eq(e, "c") || str_eq(e, "h") {
        Some(String::from_str("C"))
    } else if str_eq(e, "cpp") || str_eq(e, "cxx") || str_eq(e, "cc") || str_eq(e, "hpp") {
        Some(String::from_str("C++"))
    } else if str_eq(e, "cs") {
        Some(String::from_str("C#"))
    } else if str_eq(e, "rb") {
        Some(String::from_str("Ruby"))
    } else if str_eq(e, "php") {
        Some(String::from_str("PHP"))
    } else if str_eq(e, "scala") {
        Some(String::from_str("Scala"))
    } else if str_eq(e, "ex") || str_eq(e, "exs") {
        Some(String::from_str("Elixir"))
    } else if str_eq(e, "erl") || str_eq(e, "hrl") {
        Some(String::from_str("Erlang"))
    } else if str_eq(e, "hs") {
        Some(String::from_str("Haskell"))
    } else if str_eq(e, "ml") || str_eq(e, "mli") {
        Some(String::from_str("OCaml"))
    } else if str_eq(e, "clj") || str_eq(e, "cljs") {
        Some(String::from_str("Clojure"))
    } else if str_eq(e, "lua") {
        Some(String::from_str("Lua"))
    } else if str_eq(e, "r") {
        Some(String::from_str("R"))
    } else if str_eq(e, "jl") {
        Some(String::from_str("Julia"))
    } else if str_eq(e, "sh") || str_eq(e, "bash") || str_eq(e, "zsh") {
        Some(String::from_str("Shell"))
    } else if str_eq(e, "sql") {
        Some(String::from_str("SQL"))
    } else if str_eq(e, "html") || str_eq(e, "htm") {
        Some(String::from_str("HTML"))
    } else if str_eq(e, "css") || str_eq(e, "scss") || str_eq(e, "sass") || str_eq(e, "less") {
        Some(String::from_str("CSS"))
    } else if str_eq(e, "json") {
        Some(String::from_str("JSON"))
    } else if str_eq(e, "yaml") || str_eq(e, "yml") {
        Some(String::from_str("YAML"))
    } else if str_eq(e, "toml") {
        Some(String::from_str("TOML"))
    } else if str_eq(e, "xml") {
        Some(String::from_str("XML"))
    } else if str_eq(e, "md") || str_eq(e, "markdown") {
        Some(String::from_str("Markdown"))
    } else if str_eq(e, "dockerfile") {
        Some(String::from_str("Dockerfile"))
    } else if str_eq(e, "makefile") {
        Some(String::from_str("Makefile"))
    } else {
        None
    }
}

/// A filename that counts as a known configuration file, lowered.
pub open spec fn known_filename(f: Seq<char>) -> bool {
    ||| f == "dockerfile"@
    ||| f == "makefile"@
    ||| f == "cargo.toml"@
    ||| f == "package.json"@
    ||| f == "readme.md"@
}

/// Whether one of the configured extensions equals `e`, ASCII case ignored.
pub open spec fn ext_configured(exts: Seq<String>, e: Seq<char>) -> bool {
    exists|k: int| 0 <= k < exts.len() && lower_seq((#[trigger] exts[k])@) == lower_seq(e)
}

/// Whether a file takes part in a repository scan: with configured
/// extensions, its extension must be among them (ASCII case ignored);
/// otherwise its name must be a known configuration file or its extension a
/// known code extension.
pub fn should_include_file(path: &str, options: &RepoOptions) -> (r: bool)
    ensures
        r == ({
            let e = ext_of(path@);
            if options.include_extensions@.len() > 0 {
                ext_configured(options.include_extensions@, e)
            } else {
                known_filename(lower_seq(last_component(path@))) || spec_language_for(
                    lower_seq(e),
                ) is Some
            }
        }),
{
    let ext = crate::rag::ext_of_path(path);
    if options.include_extensions.len() > 0 {
        let el = to_lower(&chars_of(ext.as_str()));
        let els = string_of(&el);
        let n = options.include_extensions.len();
        let mut i: usize = 0;
        while i < n
            invariant
                n == options.include_extensions@.len(),
                i <= n,
                ext@ == ext_of(path@),
                els@ == lower_seq(ext@),
                forall|k: int|
                    0 <= k < i ==> lower_seq((#[trigger] options.include_extensions@[k])@)
                        != lower_seq(ext@),
            decreases n - i,
        {
            let cl = to_lower(&chars_of(options.include_extensions[i].as_str()));
            let cls = string_of(&cl);
            if str_eq(cls.as_str(), els.as_str()) {
                proof {
                    assert(ext_configured(options.include_extensions@, ext_of(path@)));
                }
                return true;
            }
            i = i + 1;
        }
        proof {
            if ext_configured(options.include_extensions@, ext_of(path@)) {
                let k = choose|k: int|
                    0 <= k < options.include_extensions@.len() && lower_seq(
                        (#[trigger] options.include_extensions@[k])@,
                    ) == lower_seq(ext_of(path@));
                assert(false);
            }
        }
        false
    } else {
        let v = chars_of(path);
        let n = v.len();
        let mut k: usize = n;
        while k > 0 && v[k - 1] != '/'
            invariant
                n == v@.len(),
                k <= n,
                forall|i: int| k <= i < n ==> v@[i] != '/',
            decreases k,
        {
            k = k - 1;
        }
        proof {
            crate::rag::lemma_last_component_determined(v@, k as int);
        }
        let comp = vec_range(&v, k, n);
        let low_comp = to_lower(&comp);
        let name = string_of(&low_comp);
        let f = name.as_str();
        let is_known = str_eq(f, "dockerfile") || str_eq(f, "makefile") || str_eq(f, "cargo.toml")
            || str_eq(f, "package.json") || str_eq(f, "readme.md");
        if is_known {
            return true;
        }
        match get_language_for_extension(ext.as_str()) {
            Some(_) => true,
            None => false,
        }
    }
}

/// The budget weight of the files of one bundle: per file its content
/// length, its path length, and fifty characters of framing.
pub open spec fn bundle_size(files: Seq<FileSnippet>) -> int
    decreases files.len(),
{
    if files.len() == 0 {
        0
    } else {
        bundle_size(files.drop_last()) + files.last().content@.len() + files.last().path@.len()
            + 50
    }
}

/// One more file adds its weight.
proof fn lemma_bundle_size_push(files: Seq<FileSnippet>, f: FileSnippet)
    ensures
        bundle_size(files.push(f)) == bundle_size(files) + f.content@.len() + f.path@.len() + 50,
{
    assert(files.push(f).drop_last() =~= files);
}

/// The file lists of all bundles, concatenated.
pub open spec fn bundled_files(cs: Seq<RepoChunk>) -> Seq<FileSnippet>
    decreases cs.len(),
{
    if cs.len() == 0 {
        Seq::empty()
    } else {
        cs[0].files@ + bundled_files(cs.drop_first())
    }
}

/// One more bundle appends its files.
proof fn lemma_bundled_push(cs: Seq<RepoChunk>, c: RepoChunk)
    ensures
        bundled_files(cs.push(c)) == bundled_files(cs) + c.files@,
    decreases cs.len(),
{
    if cs.len() == 0 {
        assert(cs.push(c).drop_first() =~= Seq::<RepoChunk>::empty());
        assert(bundled_files(Seq::<RepoChunk>::empty()) =~= Seq::<FileSnippet>::empty());
        assert(cs.push(c)[0] == c);
        assert(bundled_files(cs.push(c)) =~= bundled_files(cs) + c.files@);
    } else {
        lemma_bundled_push(cs.drop_first(), c);
        assert(cs.push(c).drop_first() =~= cs.drop_first().push(c));
        assert(cs[0].files@ + (bundled_files(cs.drop_first()) + c.files@) =~= (cs[0].files@
            + bundled_files(cs.drop_first())) + c.files@);
        assert(bundled_files(cs.push(c)) =~= bundled_files(cs) + c.files@);
    }
}

/// Pack the files into bundles of at most roughly `max_tokens` tokens (four
/// characters per token), in order.  Every file lands in exactly one bundle,
/// the bundles keep the input order, and bundle numbers count up from one.
pub fn chunk_files(files: Vec<FileSnippet>, max_tokens: u32) -> (r: Vec<RepoChunk>)
    ensures
        bundled_files(r@) == files@,
        forall|k: int| 0 <= k < r@.len() ==> (#[trigger] r@[k]).id == (k + 1) as u32,
        forall|k: int| 0 <= k < r@.len() ==> (#[trigger] r@[k]).files@.len() > 0,
        forall|k: int|
            0 <= k < r@.len() && bundle_size((#[trigger] r@[k]).files@) > 4 * max_tokens ==> r@[
                k
            ].files@.len() == 1,
{
    let max_chars: u128 = (max_tokens as u128) * 4;
    let ghost orig = files@;
    let mut rest = files;
    let ghost k: int = 0;
    let mut chunks: Vec<RepoChunk> = Vec::new();
    let mut current: Vec<FileSnippet> = Vec::new();
    let mut current_size: u128 = 0;
    proof {
        assert(bundled_files(chunks@) =~= Seq::<FileSnippet>::empty());
        assert(bundled_files(chunks@) + current@ + rest@ =~= orig);
    }
    while rest.len() > 0
        invariant
            max_chars == (max_tokens as u128) * 4,
            bundled_files(chunks@) + current@ + rest@ == orig,
            forall|q: int| 0 <= q < chunks@.len() ==> (#[trigger] chunks@[q]).id == (q + 1) as u32,
            forall|q: int| 0 <= q < chunks@.len() ==> (#[trigger] chunks@[q]).files@.len() > 0,
            forall|q: int|
                0 <= q < chunks@.len() && bundle_size((#[trigger] chunks@[q]).files@) > 4
                    * max_tokens ==> chunks@[q].files@.len() == 1,
            current_size as int == bundle_size(current@),
            current@.len() >= 2 ==> current_size <= max_chars,
            current_size < 0x100000000000000000,
        decreases rest@.len(),
    {
        let f = rest.remove(0);
        let fsize: u128 = (f.content.as_str().unicode_len() as u128) + (f.path.as_str().unicode_len()
            as u128) + 50;
        let flush = current_size + fsize > max_chars && current.len() > 0;
        if flush {
            let ghost pre_chunks = chunks@;
            let ghost flushed_files = current@;
            let mut desc = String::from_str("Files from ");
            let dir = dir_of_path(current[0].path.as_str());
            desc.append(dir.as_str());
            let cl = chunks.len();
            let id = #[verifier::truncate] (((cl as u128) + 1) as u32);
            let bundle = RepoChunk { id, description: desc, files: current };
            chunks.push(bundle);
            proof {
                lemma_bundled_push(pre_chunks, chunks@.last());
                assert(chunks@.last().files@ == flushed_files);
                assert forall|q: int|
                    0 <= q < chunks@.len() && bundle_size((#[trigger] chunks@[q]).files@) > 4
                        * max_tokens implies chunks@[q].files@.len() == 1 by {
                    if q < chunks@.len() - 1 {
                        assert(chunks@[q] == pre_chunks[q]);
                    } else {
                        assert(bundle_size(flushed_files) == current_size as int);
                        if flushed_files.len() >= 2 {
                            assert(current_size <= max_chars);
                            assert(max_chars == 4 * max_tokens);
                        }
                    }
                }
            }
            current = Vec::new();
            current_size = 0;
            proof {
                assert(current@ =~= Seq::<FileSnippet>::empty());
                assert(bundle_size(current@) == 0);
            }
        }
        let ghost pre_current = current@;
        proof {
            assert(pre_current.push(f) + rest@ =~= pre_current + (seq![f] + rest@));
            lemma_bundle_size_push(pre_current, f);
            assert(fsize < 0x40000000000000000);
            if pre_current.len() > 0 {
                assert(!flush || pre_current.len() == 0);
                assert(current_size + fsize <= max_chars);
            } else {
                assert(current_size as int == bundle_size(pre_current));
                assert(current_size == 0);
            }
        }
        current.push(f);
        current_size = current_size + fsize;
        proof {
            assert(bundled_files(chunks@) + current@ + rest@ =~= orig);
        }
    }
    if current.len() > 0 {
        let ghost pre_chunks = chunks@;
        let cl = chunks.len();
        let id = #[verifier::truncate] (((cl as u128) + 1) as u32);
        let bundle = RepoChunk {
            id,
            description: String::from_str("Remaining files"),
            files: current,
        };
        chunks.push(bundle);
        proof {
            lemma_bundled_push(pre_chunks, chunks@.last());
            assert(bundled_files(chunks@) =~= orig);
        }
    } else {
        proof {
            assert(bundled_files(chunks@) + current@ =~= bundled_files(chunks@));
            assert(bundled_files(chunks@) =~= orig);
        }
    }
    chunks
}

/// The directory part of a path: everything before the last slash, or a dot
/// when there is none.
pub fn dir_of_path(path: &str) -> (r: String)
    ensures
        ({
            let d = last_char(path@, '/');
            if d >= 0 {
                r@ == path@.subrange(0, d)
            } else {
                r@ == "."@
            }
        }),
{
    let v = chars_of(path);
    match last_char_index(&v, '/') {
        Some(d) => {
            let dir = vec_range(&v, 0, d);
            string_of(&dir)
        },
        None => String::from_str("."),
    }
}

/// The markdown rendering of one module summary.
pub open spec fn module_md(m: ModuleSummary) -> Seq<char> {
    "### "@ + m.path@ + "\n\n"@ + m.description@ + "\n\n"@ + (if m.key_files@.len() > 0 {
        "**Key files:** "@ + join_with(str_views(m.key_files@), ", "@) + "\n\n"@
    } else {
        Seq::empty()
    }) + (if m.technologies@.len() > 0 {
        "**Technologies:** "@ + join_with(str_views(m.technologies@), ", "@) + "\n\n"@
    } else {
        Seq::empty()
    })
}

/// The markdown rendering of all module summaries, in order.
pub open spec fn modules_md(ms: Seq<ModuleSummary>) -> Seq<char>
    decreases ms.len(),
{
    if ms.len() == 0 {
        Seq::empty()
    } else {
        module_md(ms[0]) + modules_md(ms.drop_first())
    }
}

/// The markdown rendering of a repository summary.
pub open spec fn repo_summary_md(s: RepoSummary) -> Seq<char> {
    "# "@ + s.name@ + " - Repository Summary\n\n"@ + "## Overview\n\n"@ + s.overview@ + "\n\n"@
        + "## Statistics\n\n"@ + "- **Files analyzed:** "@ + dec_str(s.file_count as int) + "\n"@
        + "- **Lines of code:** ~"@ + dec_str(s.total_lines as int) + "\n"@ + "- **Languages:** "@
        + join_with(str_views(s.languages@), ", "@) + "\n\n"@ + (if s.modules@.len() > 0 {
        "## Modules\n\n"@ + modules_md(s.modules@)
    } else {
        Seq::empty()
    })
}

/// Render one module summary as markdown.
fn render_module(m: &ModuleSummary) -> (r: String)
    ensures
        r@ == module_md(*m),
{
    let mut md = String::from_str("### ");
    md.append(m.path.as_str());
    md.append("\n\n");
    md.append(m.description.as_str());
    md.append("\n\n");
    if m.key_files.len() > 0 {
        md.append("**Key files:** ");
        let kf = crate::text::join_strings(&m.key_files, ", ");
        md.append(kf.as_str());
        md.append("\n\n");
    }
    if m.technologies.len() > 0 {
        md.append("**Technologies:** ");
        let th = crate::text::join_strings(&m.technologies, ", ");
        md.append(th.as_str());
        md.append("\n\n");
    }
    proof {
        assert(md@ =~= module_md(*m));
    }
    md
}

/// Render a repository summary as markdown: the name as a heading, the
/// overview, the statistics, and every module in order.
pub fn repo_summary_to_markdown(summary: &RepoSummary) -> (r: String)
    ensures
        r@ == repo_summary_md(*summary),
{
    let mut md = String::from_str("# ");
    md.append(summary.name.as_str());
    md.append(" - Repository Summary\n\n");
    md.append("## Overview\n\n");
    md.append(summary.overview.as_str());
    md.append("\n\n");
    md.append("## Statistics\n\n");
    md.append("- **Files analyzed:** ");
    let fc = u64_string(summary.file_count as u64);
    md.append(fc.as_str());
    md.append("\n");
    md.append("- **Lines of code:** ~");
    let tl = u64_string(summary.total_lines as u64);
    md.append(tl.as_str());
    md.append("\n");
    md.append("- **Languages:** ");
    let langs = crate::text::join_strings(&summary.languages, ", ");
    md.append(langs.as_str());
    md.append("\n\n");
    if summary.modules.len() > 0 {
        md.append("## Modules\n\n");
        let n = summary.modules.len();
        let ghost base = md@;
        let mut i: usize = 0;
        let mut tailmd = String::new();
        proof {
            assert(summary.modules@.subrange(0, n as int) =~= summary.modules@);
        }
        while i < n
            invariant
                n == summary.modules@.len(),
                i <= n,
                modules_md(summary.modules@) == tailmd@ + modules_md(
                    summary.modules@.subrange(i as int, n as int),
                ),
            decreases n - i,
        {
            let ghost tail = summary.modules@.subrange(i as int, n as int);
            proof {
                assert(tail.len() > 0);
                assert(tail[0] == summary.modules@[i as int]);
                assert(tail.drop_first() =~= summary.modules@.subrange(i as int + 1, n as int));
            }
            let block = render_module(&summary.modules[i]);
            tailmd.append(block.as_str());
            i = i + 1;
            proof {
                assert(modules_md(summary.modules@) =~= tailmd@ + modules_md(
                    summary.modules@.subrange(i as int, n as int),
                ));
            }
        }
        proof {
            assert(summary.modules@.subrange(n as int, n as int) =~= Seq::<ModuleSummary>::empty());
            assert(modules_md(Seq::<ModuleSummary>::empty()) =~= Seq::<char>::empty());
            assert(tailmd@ =~= modules_md(summary.modules@));
        }
        md.append(tailmd.as_str());
    }
    proof {
        assert(md@ =~= repo_summary_md(*summary));
    }
    md
}

} // verus!
