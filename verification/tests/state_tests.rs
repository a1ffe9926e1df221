use treeview::app::{cut_entry, get_target_dir, update_search_results, yank_entry, App};
use treeview::entry::{EntryType, FileEntry};
use treeview::node::FsNode;
use treeview::preview::{PreviewContent, PreviewData, PreviewMetadata};
use treeview::recency::RecencyTracker;

fn file(name: &str, path: &str) -> FsNode {
    FsNode {
        name: name.to_string(),
        path: path.to_string(),
        kind: EntryType::File,
        is_executable: false,
        children: Vec::new(),
    }
}

fn dir(name: &str, path: &str, children: Vec<FsNode>) -> FsNode {
    FsNode {
        name: name.to_string(),
        path: path.to_string(),
        kind: EntryType::Directory,
        is_executable: false,
        children,
    }
}

fn row(name: &str, path: &str, kind: EntryType, depth: usize) -> FileEntry {
    FileEntry {
        name: name.to_string(),
        path: path.to_string(),
        entry_type: kind,
        is_hidden: false,
        is_expanded: false,
        depth,
        is_executable: false,
    }
}

fn names(entries: &[FileEntry]) -> Vec<String> {
    entries.iter().map(|e| e.name.clone()).collect()
}

#[test]
fn cursor_moves_stay_in_bounds() {
    let mut app = App::new("/r".to_string());
    app.move_cursor_up();
    assert_eq!(app.cursor, 0);
    app.move_cursor_down();
    assert_eq!(app.cursor, 0);

    app.entries = vec![
        row("a", "/r/a", EntryType::File, 0),
        row("b", "/r/b", EntryType::File, 0),
    ];
    app.move_cursor_down();
    assert_eq!(app.cursor, 1);
    app.move_cursor_down();
    assert_eq!(app.cursor, 1);
    app.move_cursor_up();
    assert_eq!(app.cursor, 0);
    app.go_to_bottom();
    assert_eq!(app.cursor, 1);
    app.go_to_top();
    assert_eq!(app.cursor, 0);
}

#[test]
fn refresh_rebuilds_and_clamps_cursor() {
    let root = dir(
        "r",
        "/r",
        vec![
            dir("d", "/r/d", vec![file("x", "/r/d/x"), file("y", "/r/d/y")]),
            file("z", "/r/z"),
        ],
    );
    let mut app = App::new("/r".to_string());
    app.refresh(&root);
    assert_eq!(names(&app.entries), vec!["d", "z"]);

    app.cursor = 0;
    app.toggle_expand(&root);
    assert_eq!(names(&app.entries), vec!["d", "x", "y", "z"]);
    assert!(app.entries[0].is_expanded);

    app.go_to_bottom();
    assert_eq!(app.cursor, 3);
    app.toggle_expand(&root);
    assert_eq!(app.cursor, 3);

    app.cursor = 0;
    app.toggle_expand(&root);
    assert_eq!(names(&app.entries), vec!["d", "z"]);

    app.cursor = 3;
    app.refresh(&root);
    assert_eq!(app.cursor, 1);
}

#[test]
fn collapse_or_parent_moves_to_nearest_shallower_directory() {
    let mut app = App::new("/r".to_string());
    app.entries = vec![
        row("top", "/r/top", EntryType::Directory, 0),
        row("d1", "/r/top/d1", EntryType::Directory, 1),
        row("d2", "/r/top/d2", EntryType::Directory, 1),
        row("leaf", "/r/top/d2/leaf", EntryType::File, 2),
        row("other", "/r/other", EntryType::File, 0),
    ];
    app.cursor = 3;
    let root = dir("r", "/r", vec![]);
    app.collapse_or_parent(&root);
    assert_eq!(app.cursor, 2);
}

#[test]
fn collapse_or_parent_collapses_expanded_directory() {
    let root = dir(
        "r",
        "/r",
        vec![dir("d", "/r/d", vec![file("x", "/r/d/x")])],
    );
    let mut app = App::new("/r".to_string());
    app.refresh(&root);
    app.toggle_expand(&root);
    assert_eq!(names(&app.entries), vec!["d", "x"]);
    app.cursor = 0;
    app.collapse_or_parent(&root);
    assert_eq!(names(&app.entries), vec!["d"]);
}

#[test]
fn toggle_hidden_rebuilds_and_sets_status() {
    let root = dir(
        "r",
        "/r",
        vec![file(".env", "/r/.env"), file("a", "/r/a")],
    );
    let mut app = App::new("/r".to_string());
    app.refresh(&root);
    assert_eq!(names(&app.entries), vec!["a"]);

    app.toggle_hidden(&root, 100);
    assert!(app.show_hidden);
    assert_eq!(names(&app.entries), vec![".env", "a"]);
    let (msg, at) = app.status_message.clone().unwrap();
    assert_eq!(msg, "Showing hidden files");
    assert_eq!(at, 100);

    app.toggle_hidden(&root, 200);
    assert!(!app.show_hidden);
    assert_eq!(names(&app.entries), vec!["a"]);
    let (msg2, _) = app.status_message.clone().unwrap();
    assert_eq!(msg2, "Hiding hidden files");
}

#[test]
fn expand_all_and_collapse_all() {
    let root = dir(
        "r",
        "/r",
        vec![
            dir("d", "/r/d", vec![file("x", "/r/d/x")]),
            file("z", "/r/z"),
        ],
    );
    let mut app = App::new("/r".to_string());
    app.refresh(&root);
    app.expand_all(&root, 5);
    assert_eq!(names(&app.entries), vec!["d", "x", "z"]);
    let (msg, _) = app.status_message.clone().unwrap();
    assert_eq!(msg, "Expanded all (3 entries)");

    app.collapse_all(&root, 6);
    assert_eq!(names(&app.entries), vec!["d", "z"]);
    let (msg2, _) = app.status_message.clone().unwrap();
    assert_eq!(msg2, "Collapsed all directories");
}

#[test]
fn status_message_expires_after_ttl() {
    let mut app = App::new("/r".to_string());
    app.set_status("hello".to_string(), 1000);
    app.clear_old_status(3999);
    assert!(app.status_message.is_some());
    app.clear_old_status(4000);
    assert!(app.status_message.is_none());
}

#[test]
fn recency_expiry_and_sweep() {
    let mut t = RecencyTracker::new();
    t.record("/r/a", 1000);
    assert!(t.is_recent("/r/a", 1000));
    assert!(t.is_recent("/r/a", 5999));
    assert!(!t.is_recent("/r/a", 6000));
    assert!(!t.is_recent("/r/b", 1000));

    t.record("/r/b", 6000);
    t.sweep(7000);
    assert!(!t.is_recent("/r/a", 7000));
    assert!(t.is_recent("/r/b", 7000));
}

#[test]
fn check_watcher_records_and_invalidates() {
    let mut app = App::new("/r".to_string());
    app.entries = vec![row("f", "/r/f", EntryType::File, 0)];
    app.cursor = 0;
    app.generate_current_preview(stub_preview("/r/f", 0));
    assert!(app.get_cached_preview().is_some());

    let batch = vec!["/r/f".to_string(), "/r/g".to_string()];
    app.check_watcher(&batch, 2000);
    assert!(app.is_recently_changed("/r/f", 2000));
    assert!(app.is_recently_changed("/r/g", 2500));
    assert!(!app.is_recently_changed("/r/h", 2000));
    assert!(app.get_cached_preview().is_none());
}

fn stub_preview(path: &str, stamp: u64) -> PreviewData {
    PreviewData {
        path: path.to_string(),
        content: PreviewContent::Empty,
        metadata: PreviewMetadata { size: 0, modified: None, permissions: 0 },
        cached_at: stamp,
    }
}

#[test]
fn preview_cache_returns_cached_record_until_invalidated() {
    let mut app = App::new("/r".to_string());
    app.entries = vec![row("f", "/r/f", EntryType::File, 0)];
    app.cursor = 0;

    let mut generated: usize = 0;

    if app.get_cached_preview().is_none() {
        generated += 1;
        app.generate_current_preview(stub_preview("/r/f", 1));
    }
    assert_eq!(generated, 1);

    if app.get_cached_preview().is_none() {
        generated += 1;
        app.generate_current_preview(stub_preview("/r/f", 2));
    }
    assert_eq!(generated, 1);
    assert_eq!(app.get_cached_preview().unwrap().cached_at, 1);

    app.check_watcher(&vec!["/r/f".to_string()], 50);
    if app.get_cached_preview().is_none() {
        generated += 1;
        app.generate_current_preview(stub_preview("/r/f", 3));
    }
    assert_eq!(generated, 2);
    assert_eq!(app.get_cached_preview().unwrap().cached_at, 3);
}

#[test]
fn stored_preview_is_not_replaced_while_cached() {
    let mut app = App::new("/r".to_string());
    app.entries = vec![row("f", "/r/f", EntryType::File, 0)];
    app.cursor = 0;
    app.generate_current_preview(stub_preview("/r/f", 1));
    app.generate_current_preview(stub_preview("/r/f", 9));
    assert_eq!(app.get_cached_preview().unwrap().cached_at, 1);
}

#[test]
fn search_finds_matches_in_order_and_navigates_with_wraparound() {
    let mut app = App::new("/r".to_string());
    app.entries = vec![
        row("readme.md", "/r/readme.md", EntryType::File, 0),
        row("src", "/r/src", EntryType::Directory, 0),
        row("Reader.txt", "/r/Reader.txt", EntryType::File, 0),
    ];
    app.search_query = "read".to_string();
    update_search_results(&mut app);
    assert_eq!(app.search_results, vec![0, 2]);
    assert_eq!(app.search_index, 0);
    assert_eq!(app.cursor, 0);

    app.next_match();
    assert_eq!(app.search_index, 1);
    assert_eq!(app.cursor, 2);
    app.next_match();
    assert_eq!(app.search_index, 0);
    assert_eq!(app.cursor, 0);

    app.prev_match();
    assert_eq!(app.search_index, 1);
    assert_eq!(app.cursor, 2);
}

#[test]
fn search_is_case_insensitive_both_ways() {
    let mut app = App::new("/r".to_string());
    app.entries = vec![
        row("readme.md", "/r/readme.md", EntryType::File, 0),
        row("src", "/r/src", EntryType::Directory, 0),
        row("Reader.txt", "/r/Reader.txt", EntryType::File, 0),
    ];
    app.search_query = "READ".to_string();
    update_search_results(&mut app);
    assert_eq!(app.search_results, vec![0, 2]);
}

#[test]
fn empty_query_clears_results_and_leaves_cursor() {
    let mut app = App::new("/r".to_string());
    app.entries = vec![row("a", "/r/a", EntryType::File, 0)];
    app.cursor = 0;
    app.search_query = "a".to_string();
    update_search_results(&mut app);
    assert_eq!(app.search_results, vec![0]);

    app.search_query = String::new();
    update_search_results(&mut app);
    assert!(app.search_results.is_empty());
    assert_eq!(app.cursor, 0);
}

#[test]
fn target_dir_prefers_directory_then_parent_then_root() {
    let mut app = App::new("/r".to_string());
    assert_eq!(get_target_dir(&app), "/r");

    app.entries = vec![
        row("d", "/r/d", EntryType::Directory, 0),
        row("f", "/r/d/f.txt", EntryType::File, 1),
        row("top", "top", EntryType::File, 0),
    ];
    app.cursor = 0;
    assert_eq!(get_target_dir(&app), "/r/d");
    app.cursor = 1;
    assert_eq!(get_target_dir(&app), "/r/d");
    app.cursor = 2;
    assert_eq!(get_target_dir(&app), "/r");
}

#[test]
fn yank_and_cut_set_clipboard_and_status() {
    let mut app = App::new("/r".to_string());
    app.entries = vec![row("f.txt", "/r/f.txt", EntryType::File, 0)];
    app.cursor = 0;

    yank_entry(&mut app, 10);
    let clip = app.clipboard.clone().unwrap();
    assert_eq!(clip.path, "/r/f.txt");
    assert!(!clip.is_cut);
    assert_eq!(app.status_message.clone().unwrap().0, "Copied: f.txt");

    cut_entry(&mut app, 20);
    let clip2 = app.clipboard.clone().unwrap();
    assert!(clip2.is_cut);
    assert_eq!(app.status_message.clone().unwrap().0, "Cut: f.txt");
}

#[test]
fn toggle_preview_resets_scroll() {
    let mut app = App::new("/r".to_string());
    app.preview_scroll = 7;
    app.toggle_preview();
    assert!(app.show_preview);
    assert_eq!(app.preview_scroll, 0);
    app.scroll_preview_down();
    app.scroll_preview_down();
    assert_eq!(app.preview_scroll, 10);
    app.scroll_preview_up();
    assert_eq!(app.preview_scroll, 5);
    app.scroll_preview_up();
    app.scroll_preview_up();
    assert_eq!(app.preview_scroll, 0);
    app.toggle_preview();
    assert!(!app.show_preview);
}
