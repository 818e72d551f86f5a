//! Entry points of Rust and Python sources, found line by line.
use vstd::prelude::*;
use crate::language::Language;
use crate::text::{
    has_infix, has_prefix, index_of, lines_of, second_piece, text_before_char, text_contains,
    text_lines, text_remove_all, text_second_piece, text_starts_with, text_trim, trimmed,
    without_all,
};

verus! {

/// A detected entry point.
#[derive(Debug, Clone)]
pub struct EntryPoint {
    /// Unique identifier.
    pub id: String,
    /// Human-readable name.
    pub name: String,
    pub kind: EntryPointKind,
    /// The file that defines it.
    pub file_path: String,
    /// Its line in that file, from 1.
    pub line: Option<usize>,
}

/// The kinds of entry points.
#[derive(Debug, Clone, Copy, PartialEq, Eq)]
pub enum EntryPointKind {
    /// `fn main()`
    Main,
    /// `async fn main()` under a runtime attribute
    AsyncMain,
    /// A test function
    Test,
    /// `if __name__ == "__main__"` or `def main(`
    PythonMain,
    /// A Flask route
    FlaskRoute,
    /// A FastAPI route
    FastAPIRoute,
    /// A Django view
    DjangoView,
    /// Any other exported function
    ExportedFunction,
}

/// What an entry point holds, as plain values.
pub struct EntryPointView {
    pub id: Seq<char>,
    pub name: Seq<char>,
    pub kind: EntryPointKind,
    pub file_path: Seq<char>,
    pub line: Option<usize>,
}

impl View for EntryPoint {
    type V = EntryPointView;

    open spec fn view(&self) -> EntryPointView {
        EntryPointView {
            id: self.id@,
            name: self.name@,
            kind: self.kind,
            file_path: self.file_path@,
            line: self.line,
        }
    }
}

/// The entry points of a list, as plain values.
pub open spec fn entry_views(v: Seq<EntryPoint>) -> Seq<EntryPointView> {
    v.map_values(|e: EntryPoint| e@)
}

/// `name` scoped under `file`, as `file::name`.
pub open spec fn scoped(file: Seq<char>, name: Seq<char>) -> Seq<char> {
    file + "::"@ + name
}

/// The entry point named `name` of the given kind, on line `line` of `file`.
pub open spec fn entry_at(
    id: Seq<char>,
    name: Seq<char>,
    kind: EntryPointKind,
    file: Seq<char>,
    line: int,
) -> EntryPointView {
    EntryPointView { id, name, kind, file_path: file, line: Some(line as usize) }
}

/// The name of a test function from its trimmed declaration line.
pub open spec fn rust_test_name(t: Seq<char>) -> Seq<char> {
    trimmed(without_all(without_all(t.take(index_of(t, '(')), "fn "@), "async "@))
}

/// The entry points that line `i` of a Rust file declares.
pub open spec fn rust_entries_at(file: Seq<char>, lines: Seq<Seq<char>>, i: int) -> Seq<EntryPointView> {
    let t = trimmed(lines[i]);
    let prev = lines[i - 1];
    let main = if has_prefix(t, "fn main("@) || has_prefix(t, "pub fn main("@) {
        seq![entry_at(scoped(file, "main"@), "main"@, EntryPointKind::Main, file, i + 1)]
    } else {
        Seq::empty()
    };
    let async_main = if (has_prefix(t, "async fn main("@) || has_prefix(t, "pub async fn main("@))
        && i > 0 && (has_infix(prev, "#[tokio::main]"@) || has_infix(prev, "#[async_std::main]"@)) {
        seq![
            entry_at(
                scoped(file, "async_main"@),
                "async main"@,
                EntryPointKind::AsyncMain,
                file,
                i + 1,
            ),
        ]
    } else {
        Seq::empty()
    };
    let test = if (has_prefix(t, "fn test_"@) || has_prefix(t, "async fn test_"@)) && i > 0 && (
    has_infix(prev, "#[test]"@) || has_infix(prev, "#[tokio::test]"@)) {
        seq![
            entry_at(
                scoped(file, rust_test_name(t)),
                rust_test_name(t),
                EntryPointKind::Test,
                file,
                i + 1,
            ),
        ]
    } else {
        Seq::empty()
    };
    main + async_main + test
}

/// The name of a function from its declaration line without `def `.
pub open spec fn before_paren(s: Seq<char>) -> Seq<char> {
    s.take(index_of(s, '('))
}

/// The route of a decorator line: up to the first `)` after `route(`.
pub open spec fn route_of(t: Seq<char>) -> Seq<char> {
    match second_piece(t, "route("@) {
        Some(p) => p.take(index_of(p, ')')),
        None => "unknown"@,
    }
}

/// The function name of an endpoint declaration line.
pub open spec fn endpoint_name(nt: Seq<char>) -> Seq<char> {
    let r = without_all(nt, "async "@);
    if has_prefix(r, "def "@) {
        before_paren(r.skip(4))
    } else {
        "endpoint"@
    }
}

/// A decorator line names an HTTP verb of a route.
pub open spec fn is_verb_decorator(t: Seq<char>) -> bool {
    has_infix(t, ".get("@) || has_infix(t, ".post("@) || has_infix(t, ".put("@) || has_infix(
        t,
        ".delete("@,
    )
}

/// The entry points that line `i` of a Python file declares.
pub open spec fn python_entries_at(file: Seq<char>, lines: Seq<Seq<char>>, i: int) -> Seq<
    EntryPointView,
> {
    let t = trimmed(lines[i]);
    let has_next = i + 1 < lines.len();
    let nt = trimmed(lines[i + 1]);
    let dunder = if has_infix(t, "__name__"@) && has_infix(t, "__main__"@) {
        seq![entry_at(scoped(file, "__main__"@), "__main__"@, EntryPointKind::PythonMain, file, i + 1)]
    } else {
        Seq::empty()
    };
    let flask = if has_prefix(t, "@"@) && has_infix(t, ".route("@) && has_next && has_prefix(
        nt,
        "def "@,
    ) {
        seq![
            entry_at(
                scoped(file, before_paren(nt.skip(4))),
                "route "@ + route_of(t),
                EntryPointKind::FlaskRoute,
                file,
                i + 2,
            ),
        ]
    } else {
        Seq::empty()
    };
    let fastapi = if has_prefix(t, "@"@) && is_verb_decorator(t) && has_next && (has_prefix(
        nt,
        "def "@,
    ) || has_prefix(nt, "async def "@)) {
        seq![
            entry_at(
                scoped(file, endpoint_name(nt)),
                "API "@ + endpoint_name(nt),
                EntryPointKind::FastAPIRoute,
                file,
                i + 2,
            ),
        ]
    } else {
        Seq::empty()
    };
    let main = if t == "def main():"@ || has_prefix(t, "def main("@) {
        seq![entry_at(scoped(file, "main"@), "main"@, EntryPointKind::PythonMain, file, i + 1)]
    } else {
        Seq::empty()
    };
    dunder + flask + fastapi + main
}

/// The entry points of the first `k` lines, line by line.
pub open spec fn entries_upto(language: Language, file: Seq<char>, lines: Seq<Seq<char>>, k: int) -> Seq<
    EntryPointView,
>
    decreases k,
{
    if k <= 0 {
        Seq::empty()
    } else {
        entries_upto(language, file, lines, k - 1) + match language {
            Language::Rust => rust_entries_at(file, lines, k - 1),
            Language::Python => python_entries_at(file, lines, k - 1),
        }
    }
}

/// The entry points of a source file, line by line.
pub open spec fn entries_of(language: Language, file: Seq<char>, source: Seq<char>) -> Seq<
    EntryPointView,
> {
    let lines = lines_of(source);
    entries_upto(language, file, lines, lines.len() as int)
}

/// `file::name`.
fn scoped_id(file: &str, name: &str) -> (r: String)
    ensures
        r@ == scoped(file@, name@),
{
    let mut id = String::from_str(file);
    id.append("::");
    id.append(name);
    id
}

fn entry(id: String, name: String, kind: EntryPointKind, file: &str, line: usize) -> (r: EntryPoint)
    ensures
        r@ == entry_at(id@, name@, kind, file@, line as int),
{
    EntryPoint { id, name, kind, file_path: String::from_str(file), line: Some(line) }
}

/// Detects entry points of one language in source text.
pub struct EntryPointDetector {
    language: Language,
}

impl EntryPointDetector {
    /// The language this detector reads.
    pub closed spec fn language(&self) -> Language {
        self.language
    }

    /// A detector for `language`.
    pub fn new(language: Language) -> (r: EntryPointDetector)
        ensures
            r.language() == language,
    {
        EntryPointDetector { language }
    }

    /// The entry points that `source`, the text of `file_path`, declares,
    /// line by line.
    pub fn detect(&self, file_path: &str, source: &str) -> (r: Vec<EntryPoint>)
        ensures
            entry_views(r@) == entries_of(self.language(), file_path@, source@),
    {
        let lines = text_lines(source);
        let ghost lv = lines@.map_values(|l: String| l@);
        let mut out: Vec<EntryPoint> = Vec::new();
        let mut i: usize = 0;
        assert(entry_views(out@) =~= Seq::<EntryPointView>::empty());
        while i < lines.len()
            invariant
                i <= lines.len(),
                lv == lines@.map_values(|l: String| l@),
                lv == lines_of(source@),
                entry_views(out@) == entries_upto(self.language, file_path@, lv, i as int),
            decreases lines.len() - i,
        {
            let ghost before = entry_views(out@);
            match self.language {
                Language::Rust => self.detect_rust_line(file_path, &lines, i, &mut out),
                Language::Python => self.detect_python_line(file_path, &lines, i, &mut out),
            }
            i = i + 1;
        }
        out
    }

    fn detect_rust_line(&self, file: &str, lines: &Vec<String>, i: usize, out: &mut Vec<EntryPoint>)
        requires
            i < lines.len(),
        ensures
            entry_views(final(out)@) == entry_views(old(out)@) + rust_entries_at(
                file@,
                lines@.map_values(|l: String| l@),
                i as int,
            ),
    {
        let ghost lv = lines@.map_values(|l: String| l@);
        let ghost start = entry_views(out@);
        let t = text_trim(lines[i].as_str());
        let ts = t.as_str();
        assert(t@ == trimmed(lv[i as int]));
        if text_starts_with(ts, "fn main(") || text_starts_with(ts, "pub fn main(") {
            let e = entry(scoped_id(file, "main"), String::from_str("main"), EntryPointKind::Main, file, i + 1);
            out.push(e);
        }
        let ghost after_main = entry_views(out@);
        if (text_starts_with(ts, "async fn main(") || text_starts_with(ts, "pub async fn main(")) && i > 0 {
            let prev = lines[i - 1].as_str();
            assert(prev@ == lv[i - 1]);
            if text_contains(prev, "#[tokio::main]") || text_contains(prev, "#[async_std::main]") {
                let e = entry(
                    scoped_id(file, "async_main"),
                    String::from_str("async main"),
                    EntryPointKind::AsyncMain,
                    file,
                    i + 1,
                );
                out.push(e);
            }
        }
        let ghost after_async = entry_views(out@);
        if (text_starts_with(ts, "fn test_") || text_starts_with(ts, "async fn test_")) && i > 0 {
            let prev = lines[i - 1].as_str();
            assert(prev@ == lv[i - 1]);
            if text_contains(prev, "#[test]") || text_contains(prev, "#[tokio::test]") {
                proof {
                    reveal_strlit("fn ");
                    reveal_strlit("async ");
                }
                let head = text_before_char(ts, '(');
                let no_fn = text_remove_all(head.as_str(), "fn ");
                let no_async = text_remove_all(no_fn.as_str(), "async ");
                let name = text_trim(no_async.as_str());
                let e = entry(scoped_id(file, name.as_str()), name, EntryPointKind::Test, file, i + 1);
                out.push(e);
            }
        }
        assert(entry_views(out@) =~= start + rust_entries_at(file@, lv, i as int));
    }

    fn detect_python_line(&self, file: &str, lines: &Vec<String>, i: usize, out: &mut Vec<EntryPoint>)
        requires
            i < lines.len(),
        ensures
            entry_views(final(out)@) == entry_views(old(out)@) + python_entries_at(
                file@,
                lines@.map_values(|l: String| l@),
                i as int,
            ),
    {
        let ghost lv = lines@.map_values(|l: String| l@);
        let ghost start = entry_views(out@);
        let t = text_trim(lines[i].as_str());
        let ts = t.as_str();
        assert(t@ == trimmed(lv[i as int]));
        if text_contains(ts, "__name__") && text_contains(ts, "__main__") {
            let e = entry(
                scoped_id(file, "__main__"),
                String::from_str("__main__"),
                EntryPointKind::PythonMain,
                file,
                i + 1,
            );
            out.push(e);
        }
        let decorated = text_starts_with(ts, "@");
        if decorated && text_contains(ts, ".route(") && i + 1 < lines.len() {
            let nt = text_trim(lines[i + 1].as_str());
            assert(nt@ == trimmed(lv[i + 1]));
            if text_starts_with(nt.as_str(), "def ") {
                let route = match text_second_piece(ts, "route(") {
                    Some(p) => text_before_char(p.as_str(), ')'),
                    None => String::from_str("unknown"),
                };
                let n = nt.as_str().unicode_len();
                proof {
                    reveal_strlit("def ");
                }
                let after_def = nt.as_str().substring_char(4, n);
                let fname = text_before_char(after_def, '(');
                let mut name = String::from_str("route ");
                name.append(route.as_str());
                let e = entry(scoped_id(file, fname.as_str()), name, EntryPointKind::FlaskRoute, file, i + 2);
                out.push(e);
            }
        }
        if decorated && (text_contains(ts, ".get(") || text_contains(ts, ".post(") || text_contains(
            ts,
            ".put(",
        ) || text_contains(ts, ".delete(")) && i + 1 < lines.len() {
            let nt = text_trim(lines[i + 1].as_str());
            assert(nt@ == trimmed(lv[i + 1]));
            if text_starts_with(nt.as_str(), "def ") || text_starts_with(nt.as_str(), "async def ") {
                proof {
                    reveal_strlit("async ");
                }
                let r = text_remove_all(nt.as_str(), "async ");
                let fname = if text_starts_with(r.as_str(), "def ") {
                    let n = r.as_str().unicode_len();
                    proof {
                        reveal_strlit("def ");
                    }
                    text_before_char(r.as_str().substring_char(4, n), '(')
                } else {
                    String::from_str("endpoint")
                };
                let mut name = String::from_str("API ");
                name.append(fname.as_str());
                let e = entry(scoped_id(file, fname.as_str()), name, EntryPointKind::FastAPIRoute, file, i + 2);
                out.push(e);
            }
        }
        if t == String::from_str("def main():") || text_starts_with(ts, "def main(") {
            let e = entry(
                scoped_id(file, "main"),
                String::from_str("main"),
                EntryPointKind::PythonMain,
                file,
                i + 1,
            );
            out.push(e);
        }
        assert(entry_views(out@) =~= start + python_entries_at(file@, lv, i as int));
    }
}

} // verus!
