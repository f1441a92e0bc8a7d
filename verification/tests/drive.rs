use gws::drive::{
    build_metadata, choose_filename, determine_filename, download_dest, revision_dest, DriveCommand,
    DriveHelper,
};

#[test]
fn test_determine_filename_explicit() {
    assert_eq!(determine_filename("path/to/file.txt", Some("custom.txt")).unwrap(), "custom.txt");
}

#[test]
fn test_determine_filename_from_path() {
    assert_eq!(determine_filename("path/to/file.txt", None).unwrap(), "file.txt");
}

#[test]
fn test_determine_filename_invalid_path() {
    assert!(determine_filename("", None).is_err());
    assert!(determine_filename("/", None).is_err()); // Root has no filename component usually
}

#[test]
fn test_build_metadata_no_parent() {
    let meta = build_metadata("file.txt", None);
    assert_eq!(meta.at_key("name").as_str(), Some("file.txt"));
    assert!(meta.get("parents").is_none());
}

#[test]
fn test_build_metadata_with_parent() {
    let meta = build_metadata("file.txt", Some("folder123"));
    assert_eq!(meta.at_key("name").as_str(), Some("file.txt"));
    assert_eq!(meta.at_key("parents").as_array().unwrap()[0].as_str(), Some("folder123"));
}

#[test]
fn test_download_default_dest() {
    let file_id = "abc123";
    let default_dest = download_dest(file_id, None);
    assert_eq!(default_dest, "/tmp/abc123");
}

#[test]
fn test_revision_get_default_dest() {
    let file_id = "abc123";
    let revision_id = "rev456";
    let default_dest = revision_dest(file_id, revision_id, None);
    assert_eq!(default_dest, "/tmp/abc123-rev456");
}

#[test]
fn download_dest_given_path_wins() {
    assert_eq!(download_dest("abc123", Some("./report.pdf")), "./report.pdf");
    assert_eq!(revision_dest("abc123", "rev456", Some("./old.pdf")), "./old.pdf");
}

#[test]
fn determine_filename_trailing_parent_dir_is_invalid() {
    assert!(determine_filename("a/b/..", None).is_err());
    let e = determine_filename("", None).unwrap_err();
    assert_eq!(e.message(), "Invalid file path");
}

#[test]
fn drive_commands_are_known() {
    assert!(matches!(DriveHelper::command("+upload"), Some(DriveCommand::Upload)));
    assert!(matches!(DriveHelper::command("+download"), Some(DriveCommand::Download)));
    assert!(matches!(DriveHelper::command("+revision-get"), Some(DriveCommand::RevisionGet)));
    assert!(DriveHelper::command("upload").is_none());
}

#[test]
fn choose_filename_prefers_explicit_name() {
    assert_eq!(choose_filename(Some("a.txt"), Some("b.txt".to_string())).unwrap(), "a.txt");
    assert_eq!(choose_filename(None, Some("b.txt".to_string())).unwrap(), "b.txt");
    assert!(choose_filename(None, None).is_err());
}

#[test]
fn determine_filename_takes_last_segment_of_plain_path() {
    assert_eq!(determine_filename("a/b/report-2024_v1.pdf", None).unwrap(), "report-2024_v1.pdf");
    assert_eq!(determine_filename("./data.csv", None).unwrap(), "data.csv");
    assert_eq!(determine_filename("/tmp/../x", None).unwrap(), "x");
    assert_eq!(determine_filename("notes", None).unwrap(), "notes");
    assert_eq!(determine_filename("docs/My Report.pdf", None).unwrap(), "My Report.pdf");
    assert_eq!(determine_filename("r\u{e9}sum\u{e9}.pdf", None).unwrap(), "r\u{e9}sum\u{e9}.pdf");
    assert_eq!(determine_filename("dir/ notes.txt", None).unwrap(), " notes.txt");
}
