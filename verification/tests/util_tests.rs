use treeview::icons::IconTable;
use treeview::pathmap::PathMap;
use treeview::strutil::{
    parent_of, str_contains, str_ends_with, str_eq, str_lex_lt, str_starts_with,
    suffix_after_last_exec, u32_to_oct, u64_to_dec,
};
use treeview::watch::{should_ignore_path, should_process_event, ChangeKind};

#[test]
fn lexicographic_comparison_by_code_point() {
    assert!(str_lex_lt("abc", "abd"));
    assert!(str_lex_lt("ab", "abc"));
    assert!(!str_lex_lt("abc", "abc"));
    assert!(!str_lex_lt("b", "a"));
    assert!(str_lex_lt("", "a"));
    assert!(!str_lex_lt("a", ""));
    assert!(str_lex_lt("A", "a"));
}

#[test]
fn substring_prefix_suffix_tests() {
    assert!(str_starts_with(".#lock", ".#"));
    assert!(!str_starts_with("a.#", ".#"));
    assert!(str_ends_with("file.swp", ".swp"));
    assert!(!str_ends_with("swp", ".swp"));
    assert!(str_contains("a.gitx", ".git"));
    assert!(!str_contains("agit", ".git"));
    assert!(str_contains("anything", ""));
    assert!(str_eq("same", "same"));
    assert!(!str_eq("same", "Same"));
}

#[test]
fn parent_of_splits_at_last_slash() {
    assert_eq!(parent_of("/a/b/c.txt").unwrap(), "/a/b");
    assert_eq!(parent_of("/a").unwrap(), "/");
    assert!(parent_of("noslash").is_none());
}

#[test]
fn suffix_after_last_picks_extension() {
    assert_eq!(suffix_after_last_exec("archive.tar.gz", '.'), "gz");
    assert_eq!(suffix_after_last_exec("README", '.'), "README");
    assert_eq!(suffix_after_last_exec("dot.", '.'), "");
}

#[test]
fn decimal_and_octal_rendering() {
    assert_eq!(u64_to_dec(0), "0");
    assert_eq!(u64_to_dec(7), "7");
    assert_eq!(u64_to_dec(12345), "12345");
    assert_eq!(u64_to_dec(u64::MAX), format!("{}", u64::MAX));
    assert_eq!(u32_to_oct(0), "0");
    assert_eq!(u32_to_oct(0o755), "755");
}

#[test]
fn watcher_processes_only_mutating_events() {
    assert!(should_process_event(&ChangeKind::Create));
    assert!(should_process_event(&ChangeKind::Modify));
    assert!(should_process_event(&ChangeKind::Remove));
    assert!(!should_process_event(&ChangeKind::Other));
}

#[test]
fn ignore_policy_matches_editor_and_vcs_noise() {
    assert!(should_ignore_path("file.swp"));
    assert!(should_ignore_path("file.swo"));
    assert!(should_ignore_path("backup~"));
    assert!(should_ignore_path(".#main.rs"));
    assert!(should_ignore_path(".DS_Store"));
    assert!(should_ignore_path("temp.tmp"));
    assert!(should_ignore_path(".gitignore"));
    assert!(should_ignore_path("index.git"));
    assert!(!should_ignore_path("main.rs"));
    assert!(!should_ignore_path("notes.md"));
    assert!(!should_ignore_path("swp"));
}

#[test]
fn path_map_keeps_one_record_per_path() {
    let mut m: PathMap<u32> = PathMap::new();
    assert_eq!(m.len(), 0);
    assert!(m.get("/a").is_none());
    m.set("/a", 1);
    m.set("/b", 2);
    assert_eq!(m.len(), 2);
    m.set("/a", 3);
    assert_eq!(m.len(), 2);
    assert_eq!(*m.get("/a").unwrap(), 3);
    assert_eq!(*m.get("/b").unwrap(), 2);
    assert!(m.contains("/a"));
    m.remove("/a");
    assert!(!m.contains("/a"));
    assert_eq!(m.len(), 1);
    m.remove("/missing");
    assert_eq!(m.len(), 1);
}

#[test]
fn icons_for_directories_follow_expansion_state() {
    let t = IconTable::new();
    assert_eq!(t.get_icon("any", true, true), "\u{f024b} ");
    assert_eq!(t.get_icon("any", true, false), "\u{f0256} ");
}

#[test]
fn icons_for_files_use_special_names_then_extension() {
    let t = IconTable::new();
    let xml = t.get_icon("data.xml", false, false);
    let xml_upper = t.get_icon("DATA.XML", false, false);
    assert_eq!(xml, xml_upper);
    assert_eq!(xml, "\u{f05c0} ");

    assert_eq!(t.get_icon("app.cs", false, false), "\u{f031b} ");
    assert_eq!(t.get_icon("paper.doc", false, false), "\u{f022c} ");
    assert_eq!(t.get_icon("logo.svg", false, false), "\u{f0721} ");
    assert_eq!(t.get_icon("Dockerfile", false, false), " ");
    assert_eq!(t.get_icon("Cargo.lock", false, false), " ");
    assert_eq!(t.get_icon("README", false, false), " ");
    assert_eq!(t.get_icon("file.unknownext", false, false), " ");
}
