use download_dupes::file_manager::{reveal_command, reveal_command_for, Platform};
use download_dupes::grouping::{
    age_bucket, extension_key_of, file_extension, group_by_age, group_by_extension, group_by_keys,
};
use download_dupes::models::FileInfo;

fn file(name: &str) -> FileInfo {
    FileInfo::new(name.to_string(), format!("/d/{}", name), 1)
}

#[test]
fn extensions_as_path_reads_them() {
    assert_eq!(file_extension("a.pdf"), Some("pdf".to_string()));
    assert_eq!(file_extension("a.tar.gz"), Some("gz".to_string()));
    assert_eq!(file_extension(".bashrc"), None);
    assert_eq!(file_extension("README"), None);
    assert_eq!(file_extension("a."), Some(String::new()));
    assert_eq!(file_extension(".."), None);
    assert_eq!(file_extension("..a"), Some("a".to_string()));
}

#[test]
fn extension_keys_are_lowercase() {
    assert_eq!(extension_key_of("Photo.JPG"), "jpg");
    assert_eq!(extension_key_of("Makefile"), "unknown");
}

#[test]
fn age_buckets() {
    assert_eq!(age_bucket(Some(0)), "Today");
    assert_eq!(age_bucket(Some(86399)), "Today");
    assert_eq!(age_bucket(Some(86400)), "This Week");
    assert_eq!(age_bucket(Some(7 * 86400 - 1)), "This Week");
    assert_eq!(age_bucket(Some(7 * 86400)), "Older");
    assert_eq!(age_bucket(None), "Unknown");
}

#[test]
fn grouping_by_extension() {
    let files = vec![file("a.PDF"), file("b.txt"), file("c.pdf"), file("d")];
    let groups = group_by_extension(&files);
    assert_eq!(groups.len(), 3);
    let pdf = groups.iter().find(|g| g.key == "pdf").unwrap();
    let names: Vec<&str> = pdf.files.iter().map(|f| f.name.as_str()).collect();
    assert_eq!(names, vec!["a.PDF", "c.pdf"]);
    assert!(groups.iter().any(|g| g.key == "unknown" && g.files.len() == 1));
}

#[test]
fn grouping_by_age() {
    let files = vec![file("a"), file("b"), file("c")];
    let groups = group_by_age(&files, &vec![Some(10), None, Some(20)]);
    assert_eq!(groups.len(), 2);
    let today = groups.iter().find(|g| g.key == "Today").unwrap();
    assert_eq!(today.files.len(), 2);
    assert!(groups.iter().any(|g| g.key == "Unknown" && g.files[0].name == "b"));
}

#[test]
fn grouping_by_given_keys() {
    let files = vec![file("a"), file("b")];
    let groups = group_by_keys(&files, &vec!["k".to_string(), "k".to_string()]);
    assert_eq!(groups.len(), 1);
    assert_eq!(groups[0].files.len(), 2);
    assert!(group_by_keys(&Vec::new(), &Vec::new()).is_empty());
}

#[test]
fn linux_tries_file_managers_in_turn() {
    let c = reveal_command(Platform::Linux, 0, "/home/u/x.txt").unwrap();
    assert_eq!(c.program, "nautilus");
    assert_eq!(c.args, vec!["/home/u/x.txt"]);
    let c = reveal_command(Platform::Linux, 1, "/home/u/x.txt").unwrap();
    assert_eq!(c.program, "dolphin");
    assert_eq!(c.args, vec!["--select", "/home/u/x.txt"]);
    let c = reveal_command(Platform::Linux, 2, "/home/u/x.txt").unwrap();
    assert_eq!(c.program, "thunar");
    let c = reveal_command(Platform::Linux, 3, "/home/u/x.txt").unwrap();
    assert_eq!(c.program, "xdg-open");
    assert_eq!(c.args, vec!["/home/u"]);
    assert!(reveal_command(Platform::Linux, 4, "/home/u/x.txt").is_none());
}

#[test]
fn root_has_no_parent_so_root_is_opened() {
    let c = reveal_command_for(Platform::Linux, 3, "/", None).unwrap();
    assert_eq!(c.args, vec!["/"]);
}

#[test]
fn windows_and_macos_have_one_command() {
    let c = reveal_command(Platform::Windows, 0, "C:\\x.txt").unwrap();
    assert_eq!(c.program, "explorer");
    assert_eq!(c.args, vec!["/select,", "C:\\x.txt"]);
    assert!(reveal_command(Platform::Windows, 1, "C:\\x.txt").is_none());
    let c = reveal_command(Platform::MacOs, 0, "/x").unwrap();
    assert_eq!(c.program, "open");
    assert_eq!(c.args, vec!["-R", "/x"]);
    assert!(reveal_command(Platform::MacOs, 1, "/x").is_none());
    assert!(reveal_command(Platform::Other, 0, "/x").is_none());
}
