use treeview::entry::EntryType;
use treeview::flatten::{build_tree, build_tree_fully_expanded};
use treeview::node::FsNode;

fn file(name: &str, path: &str) -> FsNode {
    FsNode {
        name: name.to_string(),
        path: path.to_string(),
        kind: EntryType::File,
        is_executable: false,
        children: Vec::new(),
    }
}

fn dir(name: &str, path: &str, children: Vec<FsNode>) -> FsNode {
    FsNode {
        name: name.to_string(),
        path: path.to_string(),
        kind: EntryType::Directory,
        is_executable: false,
        children,
    }
}

fn names(entries: &[treeview::entry::FileEntry]) -> Vec<String> {
    entries.iter().map(|e| e.name.clone()).collect()
}

#[test]
fn flatten_orders_directories_first_then_case_insensitive() {
    let root = dir(
        "r",
        "/r",
        vec![
            file("b.txt", "/r/b.txt"),
            file("A.txt", "/r/A.txt"),
            dir("Z", "/r/Z", vec![]),
        ],
    );
    let out = build_tree(&root, &Vec::new(), false);
    assert_eq!(names(&out), vec!["Z", "A.txt", "b.txt"]);
    assert!(out.iter().all(|e| e.depth == 0));
}

#[test]
fn flatten_sorts_names_case_insensitively_within_kind() {
    let root = dir(
        "r",
        "/r",
        vec![
            file("delta", "/r/delta"),
            file("Alpha", "/r/Alpha"),
            file("charlie", "/r/charlie"),
            file("Bravo", "/r/Bravo"),
        ],
    );
    let out = build_tree(&root, &Vec::new(), false);
    assert_eq!(names(&out), vec!["Alpha", "Bravo", "charlie", "delta"]);
}

#[test]
fn expansion_round_trip_inserts_and_removes_children_run() {
    let root = dir(
        "r",
        "/r",
        vec![
            file("a.txt", "/r/a.txt"),
            dir(
                "D",
                "/r/D",
                vec![file("y.txt", "/r/D/y.txt"), file("x.txt", "/r/D/x.txt")],
            ),
        ],
    );
    let collapsed = build_tree(&root, &Vec::new(), false);
    assert_eq!(names(&collapsed), vec!["D", "a.txt"]);
    assert!(!collapsed[0].is_expanded);

    let expanded_set = vec!["/r/D".to_string()];
    let expanded = build_tree(&root, &expanded_set, false);
    assert_eq!(names(&expanded), vec!["D", "x.txt", "y.txt", "a.txt"]);
    assert!(expanded[0].is_expanded);
    assert_eq!(expanded[1].depth, 1);
    assert_eq!(expanded[2].depth, 1);
    assert_eq!(expanded[3].depth, 0);

    let collapsed_again = build_tree(&root, &Vec::new(), false);
    assert_eq!(names(&collapsed_again), names(&collapsed));
}

#[test]
fn hidden_files_filtered_unless_toggled() {
    let root = dir(
        "r",
        "/r",
        vec![file(".env", "/r/.env"), file("main.rs", "/r/main.rs")],
    );
    let without = build_tree(&root, &Vec::new(), false);
    assert_eq!(names(&without), vec!["main.rs"]);

    let with = build_tree(&root, &Vec::new(), true);
    assert_eq!(names(&with), vec![".env", "main.rs"]);
    assert!(with[0].is_hidden);
    assert!(!with[1].is_hidden);
}

#[test]
fn hidden_directory_subtree_is_skipped_entirely() {
    let root = dir(
        "r",
        "/r",
        vec![dir(
            ".git",
            "/r/.git",
            vec![file("config", "/r/.git/config")],
        )],
    );
    let out = build_tree(&root, &vec!["/r/.git".to_string()], false);
    assert!(out.is_empty());
}

#[test]
fn full_expansion_cap_truncates_and_reports() {
    let mut children = Vec::new();
    for i in 0..6000 {
        let name = format!("f{:05}", i);
        let path = format!("/r/{}", name);
        children.push(file(&name, &path));
    }
    let root = dir("r", "/r", children);
    let (out, truncated) = build_tree_fully_expanded(&root, false, 5000);
    assert_eq!(out.len(), 5000);
    assert!(truncated);

    let (all, truncated2) = build_tree_fully_expanded(&root, false, 6000);
    assert_eq!(all.len(), 6000);
    assert!(!truncated2);
}

#[test]
fn full_expansion_descends_without_expansion_set() {
    let root = dir(
        "r",
        "/r",
        vec![dir(
            "sub",
            "/r/sub",
            vec![file("leaf", "/r/sub/leaf")],
        )],
    );
    let (out, truncated) = build_tree_fully_expanded(&root, false, 5000);
    assert_eq!(names(&out), vec!["sub", "leaf"]);
    assert_eq!(out[0].depth, 0);
    assert!(out[0].is_expanded);
    assert_eq!(out[1].depth, 1);
    assert!(!truncated);
}

#[test]
fn symlink_entry_keeps_its_kind() {
    let mut link = file("ln", "/r/ln");
    link.kind = EntryType::Symlink;
    let root = dir("r", "/r", vec![link, file("a", "/r/a")]);
    let out = build_tree(&root, &Vec::new(), false);
    assert_eq!(names(&out), vec!["a", "ln"]);
    assert_eq!(out[1].entry_type, EntryType::Symlink);
}
