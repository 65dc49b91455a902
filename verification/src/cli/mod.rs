//! The decisions of the command line: what kind of file a path names, what
//! gets logged at which level, where the base directory is, and the messages
//! that close a run.
use vstd::prelude::*;

pub mod path_parser;

use crate::diagnostic::render::{
    decimal, diagnostic_text, renderable, styles_spec, Color,
};
use crate::diagnostic::render::render_diagnostic;
use crate::diagnostic::{Diagnostic, DiagnosticCategory, DiagnosticLocation};
use crate::paths::{parent_of, path_parent, portable_path};
use crate::text::{push_char, push_str, str_eq, to_owned_string};

verus! {

// ── File types ─────────────────────────────────────────────────────────────

/// The kinds of files that documents are read from.
#[derive(Debug, Clone, Copy, PartialEq, Eq, Structural)]
pub enum FileType {
    GraphQL,
    JavaScript,
    TypeScript,
}

/// The kind of file an extension names.
pub open spec fn file_type_of(ext: Seq<char>) -> Option<FileType> {
    if ext == "graphql"@ || ext == "gql"@ {
        Some(FileType::GraphQL)
    } else if ext == "js"@ || ext == "mjs"@ || ext == "jsx"@ || ext == "cjs"@ {
        Some(FileType::JavaScript)
    } else if ext == "ts"@ || ext == "mts"@ || ext == "tsx"@ || ext == "cts"@ {
        Some(FileType::TypeScript)
    } else {
        None
    }
}

/// The kind of file an extension names: GraphQL, JavaScript or TypeScript.
pub fn get_file_type(extension: &str) -> (r: Option<FileType>)
    ensures
        r == file_type_of(extension@),
{
    if str_eq(extension, "graphql") || str_eq(extension, "gql") {
        Some(FileType::GraphQL)
    } else if str_eq(extension, "js") || str_eq(extension, "mjs") || str_eq(extension, "jsx")
        || str_eq(extension, "cjs") {
        Some(FileType::JavaScript)
    } else if str_eq(extension, "ts") || str_eq(extension, "mts") || str_eq(extension, "tsx")
        || str_eq(extension, "cts") {
        Some(FileType::TypeScript)
    } else {
        None
    }
}

/// The extensions documents are read from, with the kind of file each one
/// names.
pub open spec fn document_extensions() -> Seq<(Seq<char>, FileType)> {
    seq![
        ("graphql"@, FileType::GraphQL),
        ("gql"@, FileType::GraphQL),
        ("js"@, FileType::JavaScript),
        ("mjs"@, FileType::JavaScript),
        ("jsx"@, FileType::JavaScript),
        ("cjs"@, FileType::JavaScript),
        ("ts"@, FileType::TypeScript),
        ("mts"@, FileType::TypeScript),
        ("tsx"@, FileType::TypeScript),
        ("cts"@, FileType::TypeScript),
    ]
}

/// Each listed extension names its kind of file: `graphql` and `gql` name
/// GraphQL files, `js`, `mjs`, `jsx` and `cjs` JavaScript files, and `ts`,
/// `mts`, `tsx` and `cts` TypeScript files.
pub proof fn law_listed_extensions(i: int)
    requires
        0 <= i < document_extensions().len(),
    ensures
        file_type_of(document_extensions()[i].0) == Some(document_extensions()[i].1),
{
    reveal_strlit("graphql");
    reveal_strlit("gql");
    reveal_strlit("js");
    reveal_strlit("mjs");
    reveal_strlit("jsx");
    reveal_strlit("cjs");
    reveal_strlit("ts");
    reveal_strlit("mts");
    reveal_strlit("tsx");
    reveal_strlit("cts");
    let e = document_extensions()[i].0;
    if i == 0 {
        assert(file_type_of(e) == Some(FileType::GraphQL));
    } else if i == 1 {
        assert(file_type_of(e) == Some(FileType::GraphQL));
    } else if i == 2 {
        assert(e.len() != "graphql"@.len() && e.len() != "gql"@.len());
        assert(file_type_of(e) == Some(FileType::JavaScript));
    } else if i == 3 {
        assert(e[0] != "gql"@[0]);
        assert(file_type_of(e) == Some(FileType::JavaScript));
    } else if i == 4 {
        assert(e[0] != "gql"@[0]);
        assert(e[0] != "mjs"@[0]);
        assert(file_type_of(e) == Some(FileType::JavaScript));
    } else if i == 5 {
        assert(e[0] != "gql"@[0]);
        assert(e[0] != "mjs"@[0]);
        assert(e[0] != "jsx"@[0]);
        assert(file_type_of(e) == Some(FileType::JavaScript));
    } else if i == 6 {
        assert(e[0] != "js"@[0]);
        assert(file_type_of(e) == Some(FileType::TypeScript));
    } else if i == 7 {
        assert(e[0] != "gql"@[0]);
        assert(e[1] != "mjs"@[1]);
        assert(e[0] != "jsx"@[0]);
        assert(e[0] != "cjs"@[0]);
        assert(file_type_of(e) == Some(FileType::TypeScript));
    } else if i == 8 {
        assert(e[0] != "gql"@[0]);
        assert(e[0] != "mjs"@[0]);
        assert(e[0] != "jsx"@[0]);
        assert(e[0] != "cjs"@[0]);
        assert(e[0] != "mts"@[0]);
        assert(file_type_of(e) == Some(FileType::TypeScript));
    } else if i == 9 {
        assert(e[0] != "gql"@[0]);
        assert(e[0] != "mjs"@[0]);
        assert(e[0] != "jsx"@[0]);
        assert(e[1] != "cjs"@[1]);
        assert(e[0] != "mts"@[0]);
        assert(e[0] != "tsx"@[0]);
        assert(file_type_of(e) == Some(FileType::TypeScript));
    }
}

/// Any other extension names no kind of file that documents are read from.
pub proof fn law_unlisted_extensions(e: Seq<char>)
    requires
        forall|i: int| 0 <= i < document_extensions().len() ==> e != (#[trigger] document_extensions()[i]).0,
    ensures
        file_type_of(e) is None,
{
    let t = document_extensions();
    assert(e != t[0].0 && e != t[1].0 && e != t[2].0 && e != t[3].0 && e != t[4].0);
    assert(e != t[5].0 && e != t[6].0 && e != t[7].0 && e != t[8].0 && e != t[9].0);
}

// ── Logging ────────────────────────────────────────────────────────────────

/// How much the command line reports.
#[derive(Debug, Clone, Copy, PartialEq, Eq, Structural)]
pub enum LogLevel {
    Quiet,
    Normal,
    Verbose,
}

/// The log level chosen by the flags: quiet wins over verbose.
pub fn log_level_for(quiet: bool, verbose: bool) -> (r: LogLevel)
    ensures
        r == if quiet {
            LogLevel::Quiet
        } else if verbose {
            LogLevel::Verbose
        } else {
            LogLevel::Normal
        },
{
    if quiet {
        LogLevel::Quiet
    } else if verbose {
        LogLevel::Verbose
    } else {
        LogLevel::Normal
    }
}

/// Decides which messages are printed; the printing itself is the caller's.
pub struct Logger {
    level: LogLevel,
}

impl Logger {
    pub closed spec fn level_spec(&self) -> LogLevel {
        self.level
    }

    pub fn new(level: LogLevel) -> (r: Self)
        ensures
            r.level_spec() == level,
    {
        Logger { level }
    }

    pub fn level(&self) -> (r: LogLevel)
        ensures
            r == self.level_spec(),
    {
        self.level
    }

    /// Success messages are printed unless quiet.
    pub fn shows_success(&self) -> (r: bool)
        ensures
            r == (self.level_spec() != LogLevel::Quiet),
    {
        self.level != LogLevel::Quiet
    }

    /// Errors are always printed.
    pub fn shows_error(&self) -> (r: bool)
        ensures
            r,
    {
        true
    }

    /// Debug messages are printed only when verbose.
    pub fn shows_debug(&self) -> (r: bool)
        ensures
            r == (self.level_spec() == LogLevel::Verbose),
    {
        self.level == LogLevel::Verbose
    }

    /// Written files are listed only when verbose.
    pub fn shows_file(&self) -> (r: bool)
        ensures
            r == (self.level_spec() == LogLevel::Verbose),
    {
        self.level == LogLevel::Verbose
    }
}

// ── Base directory ─────────────────────────────────────────────────────────

/// The base directory for a parent directory: the parent when it is known
/// and not empty, else the current directory.
pub fn base_dir_from_parent(parent: Option<&str>) -> (r: String)
    ensures
        r@ == match parent {
            Some(p) => if p@.len() > 0 {
                p@
            } else {
                "."@
            },
            None => "."@,
        },
{
    match parent {
        Some(p) => {
            if !p.is_empty() {
                to_owned_string(p)
            } else {
                to_owned_string(".")
            }
        },
        None => to_owned_string("."),
    }
}

/// The directory of the configuration file, or `.` when it has none.
pub fn resolve_base_dir(config_path: &str) -> (r: String)
    ensures
        r@.len() > 0,
        portable_path(config_path@) ==> r@ == match parent_of(config_path@) {
            Some(p) => if p.len() > 0 {
                p
            } else {
                "."@
            },
            None => "."@,
        },
{
    proof {
        reveal_strlit(".");
    }
    let parent = path_parent(config_path);
    match &parent {
        Some(p) => base_dir_from_parent(Some(p.as_str())),
        None => base_dir_from_parent(None),
    }
}

// ── Closing messages ───────────────────────────────────────────────────────

/// `{action} {count} file{s}`: what a run did, or would do in check mode.
pub open spec fn summary_text(check: bool, count: nat) -> Seq<char> {
    (if check {
        "Would generate"@
    } else {
        "Generated"@
    }) + seq![' '] + decimal(count) + " file"@ + (if count == 1 {
        Seq::empty()
    } else {
        seq!['s']
    })
}

fn push_decimal_text(out: &mut String, n: usize)
    ensures
        final(out)@ == old(out)@ + decimal(n as nat),
{
    let s = crate::diagnostic::render::decimal_string(n);
    push_str(out, s.as_str());
}

/// The closing message of a run that generated `count` files.
pub fn summary_message(check: bool, count: usize) -> (r: String)
    ensures
        r@ == summary_text(check, count as nat),
{
    proof {
        reveal_strlit("s");
    }
    let mut out = String::new();
    if check {
        push_str(&mut out, "Would generate");
    } else {
        push_str(&mut out, "Generated");
    }
    push_char(&mut out, ' ');
    push_decimal_text(&mut out, count);
    push_str(&mut out, " file");
    if count != 1 {
        push_str(&mut out, "s");
    }
    proof {
        assert(out@ =~= summary_text(check, count as nat));
    }
    out
}

/// The message after clearing the cache.
pub fn clear_message(did_clear: bool) -> (r: &'static str)
    ensures
        r@ == if did_clear {
            "Cache cleared"@
        } else {
            "Cache already clean"@
        },
{
    if did_clear {
        "Cache cleared"
    } else {
        "Cache already clean"
    }
}

/// The diagnostic for a configuration file that does not parse: an error at
/// the given line and column, with the file's text as its source.
pub fn config_error_diagnostic(file: &str, message: &str, line: usize, column: usize, content: &str) -> (r: Diagnostic)
    ensures
        r.severity == crate::diagnostic::Severity::Error,
        r.category == DiagnosticCategory::Config,
        r.message@ == message@,
        r.location matches Some(loc) && loc.file@ == file@ && loc.line == line && loc.column
            == column && loc.length is None,
        r.related@.len() == 0,
        r.inline_source matches Some(src) && src@ == content@,
{
    Diagnostic::error(DiagnosticCategory::Config, message).with_location(
        DiagnosticLocation { file: to_owned_string(file), line, column, length: None },
    ).with_inline_source(to_owned_string(content))
}

/// The number of warnings shown under a cap (0 = unlimited).
pub open spec fn shown_count(max: nat, len: nat) -> nat {
    if max > 0 && max < len {
        max
    } else {
        len
    }
}

/// The line that closes a capped list of warnings.
pub open spec fn more_warnings_text(remaining: nat) -> Seq<char> {
    "... and "@ + decimal(remaining) + " more warning"@ + (if remaining == 1 {
        Seq::empty()
    } else {
        seq!['s']
    }) + " (Hint: run with --max-diagnostics=0 to show all)"@ + seq!['\n']
}

/// The renderings of the warnings, one after the other.
pub open spec fn concat_warnings(ws: Seq<&Diagnostic>, color: Color, term: bool) -> Seq<char>
    decreases ws.len(),
{
    if ws.len() == 0 {
        Seq::empty()
    } else {
        concat_warnings(ws.drop_last(), color, term) + diagnostic_text(*ws.last(), styles_spec(color, term))
    }
}

/// The report of the warnings of a run: the first `max` (all when `max` is
/// 0) rendered, then how many more there are.
pub open spec fn warnings_report_text(ws: Seq<&Diagnostic>, max: nat, color: Color, term: bool) -> Seq<char> {
    let shown = shown_count(max, ws.len());
    concat_warnings(ws.subrange(0, shown as int), color, term) + if max > 0 && ws.len() > max {
        more_warnings_text((ws.len() - max) as nat)
    } else {
        Seq::empty()
    }
}

/// Reports the warnings of a run, capped at `max` (0 = unlimited).
pub fn warnings_report(warnings: &Vec<&Diagnostic>, max: usize, color: Color, stderr_is_terminal: bool) -> (r: String)
    requires
        forall|i: int| 0 <= i < warnings@.len() ==> renderable(*#[trigger] warnings@[i]),
    ensures
        r@ == warnings_report_text(warnings@, max as nat, color, stderr_is_terminal),
{
    proof {
        reveal_strlit("s");
    }
    let len = warnings.len();
    let show = if max > 0 && max < len {
        max
    } else {
        len
    };
    let mut out = String::new();
    let mut i: usize = 0;
    while i < show
        invariant
            len == warnings@.len(),
            show <= len,
            i <= show,
            forall|k: int| 0 <= k < warnings@.len() ==> renderable(*#[trigger] warnings@[k]),
            out@ == concat_warnings(warnings@.subrange(0, i as int), color, stderr_is_terminal),
        decreases show - i,
    {
        assert(renderable(*warnings@[i as int]));
        let text = render_diagnostic(warnings[i], color, stderr_is_terminal);
        push_str(&mut out, text.as_str());
        proof {
            assert(warnings@.subrange(0, i + 1).drop_last() =~= warnings@.subrange(0, i as int));
        }
        i = i + 1;
    }
    if max > 0 && len > max {
        let ghost before = out@;
        push_str(&mut out, "... and ");
        push_decimal_text(&mut out, len - max);
        push_str(&mut out, " more warning");
        if len - max != 1 {
            push_str(&mut out, "s");
        }
        push_str(&mut out, " (Hint: run with --max-diagnostics=0 to show all)");
        push_char(&mut out, '\n');
        proof {
            assert(out@ =~= before + more_warnings_text((len - max) as nat));
        }
    } else {
        proof {
            assert(out@ =~= out@ + Seq::<char>::empty());
        }
    }
    out
}

// ── Reading documents ──────────────────────────────────────────────────────

/// What to do with a file that matched the document pattern.
#[derive(Debug, Clone)]
pub enum ReadAction {
    /// Skip it, with these warnings.
    Skip(Vec<String>),
    /// Read it as one GraphQL document.
    ReadGraphQL,
    /// Extract the documents of a JavaScript or TypeScript file.
    ParseScript,
}

pub open spec fn no_extension_text(path: Seq<char>) -> Seq<char> {
    "Encountered a file with no extension: \""@ + path + "\""@
}

pub open spec fn unsupported_text(ext: Seq<char>, path: Seq<char>) -> Seq<char> {
    "Encountered a file with an unsupported file extension: \""@ + ext + "\" for file \""@ + path
        + "\""@
}

/// What to do with the file at `path` (as displayed) given its extension.
pub fn read_action(path: &str, extension: Option<&str>) -> (r: ReadAction)
    ensures
        match extension {
            None => r matches ReadAction::Skip(w) && w@.len() == 1 && w@[0]@ == no_extension_text(path@),
            Some(ext) => match file_type_of(ext@) {
                None => r matches ReadAction::Skip(w) && w@.len() == 2 && w@[0]@ == unsupported_text(
                    ext@,
                    path@,
                ) && w@[1]@
                    == "Please make sure the file has either a valid GraphQL, JavaScript or TypeScript extension."@,
                Some(FileType::GraphQL) => r is ReadGraphQL,
                Some(_) => r is ParseScript,
            },
        },
{
    match extension {
        None => {
            let mut w = to_owned_string("Encountered a file with no extension: \"");
            push_str(&mut w, path);
            push_str(&mut w, "\"");
            let mut ws: Vec<String> = Vec::new();
            ws.push(w);
            ReadAction::Skip(ws)
        },
        Some(ext) => match get_file_type(ext) {
            None => {
                let mut w = to_owned_string("Encountered a file with an unsupported file extension: \"");
                push_str(&mut w, ext);
                push_str(&mut w, "\" for file \"");
                push_str(&mut w, path);
                push_str(&mut w, "\"");
                let mut ws: Vec<String> = Vec::new();
                ws.push(w);
                ws.push(
                    to_owned_string(
                        "Please make sure the file has either a valid GraphQL, JavaScript or TypeScript extension.",
                    ),
                );
                ReadAction::Skip(ws)
            },
            Some(FileType::GraphQL) => ReadAction::ReadGraphQL,
            Some(_) => ReadAction::ParseScript,
        },
    }
}

/// Whether a walk skips an entry: one of its path components is
/// `node_modules`.
pub fn skip_dir(components: &Vec<String>) -> (r: bool)
    ensures
        r == exists|i: int| 0 <= i < components@.len() && #[trigger] components@[i]@ == "node_modules"@,
{
    let mut i: usize = 0;
    while i < components.len()
        invariant
            i <= components@.len(),
            forall|k: int| 0 <= k < i ==> #[trigger] components@[k]@ != "node_modules"@,
        decreases components@.len() - i,
    {
        if str_eq(components[i].as_str(), "node_modules") {
            return true;
        }
        i = i + 1;
    }
    false
}

} // verus!
