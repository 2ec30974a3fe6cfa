use download_dupes::classify::{
    checked_total_size, exact_match_groups, find_duplicates, numbered_groups,
};
use download_dupes::models::{DuplicateGroup, DuplicateType, FileInfo};
use download_dupes::names::{extract_base_name, is_numbered_duplicate};
use download_dupes::order::{names_le, sort_by_name};

fn file(name: &str, size: u64) -> FileInfo {
    FileInfo::new(name.to_string(), format!("/downloads/{}", name), size)
}

fn names_of(g: &DuplicateGroup) -> Vec<String> {
    g.files.iter().map(|f| f.name.clone()).collect()
}

fn roles_of(g: &DuplicateGroup) -> Vec<DuplicateType> {
    g.files.iter().map(|f| f.duplicate_type).collect()
}

#[test]
fn base_name_strips_marker_and_extension() {
    assert_eq!(extract_base_name("file (1).txt"), "file");
    assert_eq!(extract_base_name("report (12).pdf"), "report");
    assert_eq!(extract_base_name("report.pdf"), "report.pdf");
    assert_eq!(extract_base_name("note (abc).txt"), "note (abc).txt");
    assert_eq!(extract_base_name("a (1) (2).txt"), "a (1)");
    assert_eq!(extract_base_name("a (x) b (3)"), "a (x) b");
    assert_eq!(extract_base_name("a (1) (x)"), "a (1) (x)");
    assert_eq!(extract_base_name("a (7"), "a (7");
    assert_eq!(extract_base_name(""), "");
}

#[test]
fn empty_marker_is_kept() {
    assert_eq!(extract_base_name("a ().txt"), "a ().txt");
    assert!(!is_numbered_duplicate("a ().txt"));
    assert_eq!(extract_base_name("a ()"), "a ()");
}

#[test]
fn numbered_detection() {
    assert!(is_numbered_duplicate("report (1).pdf"));
    assert!(is_numbered_duplicate("file (10).pdf"));
    assert!(is_numbered_duplicate("x (0)"));
    assert!(!is_numbered_duplicate("report.pdf"));
    assert!(!is_numbered_duplicate("note (abc).txt"));
    assert!(!is_numbered_duplicate("report(1).pdf"));
    assert!(!is_numbered_duplicate("a (1) (x)"));
    assert!(!is_numbered_duplicate("a (12"));
    assert!(!is_numbered_duplicate(""));
}

#[test]
fn name_order_is_lexicographic() {
    assert!(names_le("file (10).pdf", "file (2).pdf"));
    assert!(!names_le("file (2).pdf", "file (10).pdf"));
    assert!(names_le("a", "a"));
    assert!(names_le("", "a"));
    assert!(!names_le("b", "a"));
    assert!(names_le("ab", "abc"));
}

#[test]
fn sort_by_name_orders_copies() {
    let v = vec![
        file("c (3)", 1).tag(DuplicateType::Numbered),
        file("c (1)", 1).tag(DuplicateType::Numbered),
        file("c (2)", 1).tag(DuplicateType::Numbered),
    ];
    let r = sort_by_name(v);
    let names: Vec<String> = r.iter().map(|f| f.name.clone()).collect();
    assert_eq!(names, vec!["c (1)", "c (2)", "c (3)"]);
}

#[test]
fn report_numbered_group() {
    let files = vec![
        file("report (2).pdf", 30),
        file("report.pdf", 10),
        file("report (1).pdf", 20),
    ];
    assert!(exact_match_groups(&files).is_empty());
    let groups = find_duplicates(&files);
    assert_eq!(groups.len(), 1);
    let g = &groups[0];
    // The base name drops the extension, so "report.pdf" keeps a key of its own.
    assert_eq!(g.original_name, "report");
    assert_eq!(names_of(g), vec!["report (1).pdf", "report (2).pdf"]);
    assert_eq!(roles_of(g), vec![DuplicateType::Numbered, DuplicateType::Numbered]);
    assert_eq!(g.total_size, 50);
}

#[test]
fn original_comes_first() {
    let files = vec![file("report (2)", 30), file("report", 10), file("report (1)", 20)];
    let groups = find_duplicates(&files);
    assert_eq!(groups.len(), 1);
    let g = &groups[0];
    assert_eq!(g.original_name, "report");
    assert_eq!(names_of(g), vec!["report", "report (1)", "report (2)"]);
    assert_eq!(
        roles_of(g),
        vec![DuplicateType::Original, DuplicateType::Numbered, DuplicateType::Numbered]
    );
    assert_eq!(g.total_size, 60);
}

#[test]
fn single_file_forms_no_group() {
    let files = vec![file("x.txt", 5)];
    assert!(find_duplicates(&files).is_empty());
}

#[test]
fn empty_directory_forms_no_group() {
    let files: Vec<FileInfo> = Vec::new();
    assert!(find_duplicates(&files).is_empty());
    assert_eq!(checked_total_size(&files), Some(0));
}

#[test]
fn non_digit_parenthetical_is_not_a_copy() {
    let files = vec![file("note.txt", 1), file("note (abc).txt", 2)];
    assert!(find_duplicates(&files).is_empty());
}

#[test]
fn two_digit_copies_sort_by_name() {
    let files = vec![file("file (10).pdf", 1), file("file (2).pdf", 2), file("file.pdf", 3)];
    let groups = find_duplicates(&files);
    assert_eq!(groups.len(), 1);
    assert_eq!(groups[0].original_name, "file");
    assert_eq!(names_of(&groups[0]), vec!["file (10).pdf", "file (2).pdf"]);
    assert_eq!(groups[0].total_size, 3);
    let files = vec![file("file (10)", 1), file("file (2)", 2), file("file", 3)];
    let groups = find_duplicates(&files);
    assert_eq!(names_of(&groups[0]), vec!["file", "file (10)", "file (2)"]);
}

#[test]
fn identical_names_form_exact_group() {
    let files = vec![file("a.txt", 4), file("b.txt", 1), file("a.txt", 6)];
    let groups = find_duplicates(&files);
    assert_eq!(groups.len(), 1);
    assert_eq!(groups[0].original_name, "a.txt");
    assert_eq!(roles_of(&groups[0]), vec![DuplicateType::Exact, DuplicateType::Exact]);
    assert_eq!(groups[0].files[0].size, 4);
    assert_eq!(groups[0].files[1].size, 6);
    assert_eq!(groups[0].total_size, 10);
}

#[test]
fn exact_match_is_case_sensitive() {
    let files = vec![file("A.txt", 1), file("a.txt", 1)];
    assert!(find_duplicates(&files).is_empty());
}

#[test]
fn empty_marker_forms_no_numbered_group() {
    // "a ().txt" keeps its whole name as base name, so it does not join "a".
    let files = vec![file("a ().txt", 1), file("a", 1)];
    assert_eq!(extract_base_name("a ().txt"), "a ().txt");
    assert!(numbered_groups(&files).is_empty());
}

#[test]
fn file_may_stand_in_both_kinds_of_group() {
    let files = vec![file("x (1)", 1), file("x (1)", 2), file("x", 4)];
    let groups = find_duplicates(&files);
    assert_eq!(groups.len(), 2);
    assert_eq!(groups[0].original_name, "x (1)");
    assert_eq!(groups[0].total_size, 3);
    assert_eq!(groups[1].original_name, "x");
    assert_eq!(names_of(&groups[1]), vec!["x", "x (1)", "x (1)"]);
    assert_eq!(groups[1].total_size, 7);
}

#[test]
fn classification_is_repeatable() {
    let files = vec![
        file("a (1).txt", 1),
        file("a.txt", 2),
        file("b.txt", 3),
        file("b.txt", 4),
        file("c (2)", 5),
    ];
    let first = find_duplicates(&files);
    let second = find_duplicates(&files);
    assert_eq!(first.len(), second.len());
    for g in &first {
        let h = second.iter().find(|h| h.original_name == g.original_name).unwrap();
        assert_eq!(names_of(g), names_of(h));
        assert_eq!(g.total_size, h.total_size);
    }
}

#[test]
fn total_size_overflow_is_detected() {
    let files = vec![file("a", u64::MAX), file("b", 1)];
    assert_eq!(checked_total_size(&files), None);
    let files = vec![file("a", u64::MAX - 1), file("b", 1)];
    assert_eq!(checked_total_size(&files), Some(u64::MAX));
}
