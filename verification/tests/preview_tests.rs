use treeview::preview::{
    build_dir_preview, build_text_preview, classify_file_content, format_permissions, format_size,
    is_binary_prefix, DirChild, PreviewContent,
};

#[test]
fn empty_file_classifies_empty() {
    let r = classify_file_content(0, &Vec::new(), &Vec::new());
    assert!(matches!(r, PreviewContent::Empty));
}

#[test]
fn oversized_file_classifies_too_large() {
    let r = classify_file_content(50 * 1024 + 1, &Vec::new(), &Vec::new());
    assert!(matches!(r, PreviewContent::TooLarge));
    let r2 = classify_file_content(50 * 1024, &vec![1u8], &vec!["x".to_string()]);
    assert!(matches!(r2, PreviewContent::Text(_)));
}

#[test]
fn nul_byte_in_prefix_classifies_binary() {
    let r = classify_file_content(4, &vec![1u8, 0u8, 2u8], &Vec::new());
    assert!(matches!(r, PreviewContent::Binary));
}

#[test]
fn nul_byte_past_check_window_is_ignored() {
    let mut bytes = vec![7u8; 513];
    bytes[512] = 0;
    assert!(!is_binary_prefix(&bytes));
    let mut bytes2 = vec![7u8; 512];
    bytes2[511] = 0;
    assert!(is_binary_prefix(&bytes2));
}

#[test]
fn text_preview_caps_lines_and_truncates_long_ones() {
    let mut lines = Vec::new();
    for i in 0..30 {
        lines.push(format!("line {}", i));
    }
    let long = "x".repeat(250);
    lines[3] = long;
    let r = build_text_preview(&lines);
    match r {
        PreviewContent::Text(shown) => {
            assert_eq!(shown.len(), 25);
            assert_eq!(shown[0], "line 0");
            let expected = format!("{}...", "x".repeat(200));
            assert_eq!(shown[3], expected);
            assert_eq!(shown[3].chars().count(), 203);
        }
        _ => panic!("expected text"),
    }
}

#[test]
fn no_lines_means_empty_preview() {
    let r = build_text_preview(&Vec::new());
    assert!(matches!(r, PreviewContent::Empty));
}

#[test]
fn dir_preview_sorts_directories_first_case_insensitive() {
    let children = vec![
        DirChild { name: "b.txt".to_string(), is_dir: false },
        DirChild { name: "A.txt".to_string(), is_dir: false },
        DirChild { name: "Z".to_string(), is_dir: true },
    ];
    match build_dir_preview(&children) {
        PreviewContent::Directory(rows) => {
            let names: Vec<&str> = rows.iter().map(|c| c.name.as_str()).collect();
            assert_eq!(names, vec!["Z", "A.txt", "b.txt"]);
        }
        _ => panic!("expected directory"),
    }
}

#[test]
fn dir_preview_of_no_children_is_empty() {
    let r = build_dir_preview(&Vec::new());
    assert!(matches!(r, PreviewContent::Empty));
}

#[test]
fn format_size_scales_with_one_decimal() {
    assert_eq!(format_size(0), "0 B");
    assert_eq!(format_size(999), "999 B");
    assert_eq!(format_size(1023), "1023 B");
    assert_eq!(format_size(1024), "1.0 KB");
    assert_eq!(format_size(1536), "1.5 KB");
    assert_eq!(format_size(10 * 1024), "10.0 KB");
    assert_eq!(format_size(1024 * 1024), "1.0 MB");
    assert_eq!(format_size(5 * 1024 * 1024 + 512 * 1024), "5.5 MB");
    assert_eq!(format_size(1024 * 1024 * 1024), "1.0 GB");
    assert_eq!(format_size(3 * 1024 * 1024 * 1024 + 700 * 1024 * 1024), "3.7 GB");
}

#[test]
fn format_permissions_octal_or_dashes() {
    assert_eq!(format_permissions(0), "---");
    assert_eq!(format_permissions(0o755), "755");
    assert_eq!(format_permissions(0o644), "644");
    assert_eq!(format_permissions(0o7), "7");
    assert_eq!(format_permissions(0o100644), "644");
}
