//! The icon lookup table: one glyph per file kind or extension.
//!
//! The table is plain data, built once and handed to whoever renders the
//! tree; nothing here touches process-wide state.  The choice of glyph is
//! pinned relative to the table's content: directories by their expansion
//! state, a few special file names first, then the lowercased extension,
//! with a default for everything unknown.

use vstd::prelude::*;
use vstd::string::StringExecFns;

use crate::pathmap::PathMap;
use crate::strutil::{is_substring, lower_of, lowercase, str_contains, str_ends_with, str_eq, suffix_after_last, suffix_after_last_exec};
use crate::watch::ends_with;

verus! {

/// The value under `key`, or `dflt` where the table has no such key.
pub open spec fn lookup_or(m: Map<Seq<char>, String>, key: Seq<char>, dflt: Seq<char>) -> Seq<
    char,
> {
    if m.contains_key(key) {
        m[key]@
    } else {
        dflt
    }
}

/// The glyph a table yields for one entry: directory glyphs by expansion
/// state; otherwise special names first, then the lowercased extension,
/// then the default.
pub open spec fn spec_get_icon(
    m: Map<Seq<char>, String>,
    name: Seq<char>,
    is_dir: bool,
    is_expanded: bool,
) -> Seq<char> {
    if is_dir {
        if is_expanded {
            lookup_or(m, "dir_open"@, "\u{f024b} "@)
        } else {
            lookup_or(m, "dir_closed"@, "\u{f0256} "@)
        }
    } else {
        let lower = lower_of(name);
        if lower == "dockerfile"@ {
            lookup_or(m, "dockerfile"@, " "@)
        } else if is_substring(lower, ".git"@) {
            lookup_or(m, "git"@, " "@)
        } else if ends_with(lower, ".lock"@) {
            lookup_or(m, "lock"@, " "@)
        } else {
            let ext = lower_of(suffix_after_last(name, '.'));
            if m.contains_key(ext) {
                m[ext]@
            } else {
                lookup_or(m, "default"@, " "@)
            }
        }
    }
}

/// Glyphs keyed by extension or special name.
#[derive(Debug)]
pub struct IconTable {
    map: PathMap<String>,
}

impl View for IconTable {
    type V = Map<Seq<char>, String>;

    closed spec fn view(&self) -> Map<Seq<char>, String> {
        self.map@
    }
}

impl IconTable {
    /// The table keeps one glyph per key.
    pub closed spec fn wf(&self) -> bool {
        self.map.wf()
    }

    /// The value under `key`, or `dflt` where the table has no such key.
    fn get_or(&self, key: &str, dflt: &str) -> (r: String)
        requires
            self.wf(),
        ensures
            r@ == lookup_or(self@, key@, dflt@),
    {
        match self.map.get(key) {
            Some(v) => v.clone(),
            None => String::from_str(dflt),
        }
    }

    /// The glyph for one entry of the visible sequence.
    pub fn get_icon(&self, filename: &str, is_dir: bool, is_expanded: bool) -> (r: String)
        requires
            self.wf(),
        ensures
            r@ == spec_get_icon(self@, filename@, is_dir, is_expanded),
    {
        if is_dir {
            if is_expanded {
                return self.get_or("dir_open", "\u{f024b} ");
            } else {
                return self.get_or("dir_closed", "\u{f0256} ");
            }
        }
        let lower = lowercase(filename);
        if str_eq(lower.as_str(), "dockerfile") {
            return self.get_or("dockerfile", " ");
        }
        if str_contains(lower.as_str(), ".git") {
            return self.get_or("git", " ");
        }
        if str_ends_with(lower.as_str(), ".lock") {
            return self.get_or("lock", " ");
        }
        let ext_raw = suffix_after_last_exec(filename, '.');
        let ext = lowercase(ext_raw.as_str());
        match self.map.get(ext.as_str()) {
            Some(v) => v.clone(),
            None => self.get_or("default", " "),
        }
    }

    /// One table entry.
    fn put(&mut self, key: &str, glyph: &str)
        requires
            old(self).wf(),
        ensures
            final(self).wf(),
            final(self)@.contains_key(key@),
            final(self)@[key@]@ == glyph@,
    {
        self.map.set(key, String::from_str(glyph));
    }

    /// The standard table.
    pub fn new() -> (r: IconTable)
        ensures
            r.wf(),
    {
        let mut t = IconTable { map: PathMap::new() };
        t.put("dir_open", "\u{f024b} ");
        t.put("dir_closed", "\u{f0256} ");
        t.put("rs", " ");
        t.put("py", " ");
        t.put("js", " ");
        t.put("ts", " ");
        t.put("jsx", " ");
        t.put("tsx", " ");
        t.put("go", " ");
        t.put("rb", " ");
        t.put("php", " ");
        t.put("java", " ");
        t.put("c", " ");
        t.put("cpp", " ");
        t.put("h", " ");
        t.put("hpp", " ");
        t.put("cs", "\u{f031b} ");
        t.put("swift", " ");
        t.put("kt", " ");
        t.put("scala", " ");
        t.put("hs", " ");
        t.put("lua", " ");
        t.put("vim", " ");
        t.put("sh", " ");
        t.put("bash", " ");
        t.put("zsh", " ");
        t.put("fish", " ");
        t.put("html", " ");
        t.put("css", " ");
        t.put("scss", " ");
        t.put("sass", " ");
        t.put("less", " ");
        t.put("vue", " ");
        t.put("svelte", " ");
        t.put("json", " ");
        t.put("yaml", " ");
        t.put("yml", " ");
        t.put("toml", " ");
        t.put("xml", "\u{f05c0} ");
        t.put("csv", " ");
        t.put("sql", " ");
        t.put("md", " ");
        t.put("txt", " ");
        t.put("pdf", " ");
        t.put("doc", "\u{f022c} ");
        t.put("docx", "\u{f022c} ");
        t.put("png", " ");
        t.put("jpg", " ");
        t.put("jpeg", " ");
        t.put("gif", " ");
        t.put("svg", "\u{f0721} ");
        t.put("ico", " ");
        t.put("webp", " ");
        t.put("zip", " ");
        t.put("tar", " ");
        t.put("gz", " ");
        t.put("rar", " ");
        t.put("7z", " ");
        t.put("git", " ");
        t.put("gitignore", " ");
        t.put("dockerfile", " ");
        t.put("docker", " ");
        t.put("lock", " ");
        t.put("env", " ");
        t.put("log", " ");
        t.put("default", " ");
        t
    }
}

} // verus!
