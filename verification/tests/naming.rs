use file_transfer::naming::{
    display_name, sanitize_thread_name, temp_zip_file_name, worker_thread_name, zip_content_disposition,
    zip_entry_action, zip_entry_name, zip_thread_name, ZipEntryAction,
};
use file_transfer::response::zip_download_headers;
use file_transfer::routing::{ZIP_STATUS, ZIP_TYPE};

#[test]
fn directory_download_uses_zip_response_headers() {
    let display = display_name("/docs");
    assert_eq!(display, "docs");
    assert_eq!(ZIP_STATUS, 200);
    assert_eq!(ZIP_TYPE, "application/zip");
    assert_eq!(zip_content_disposition(&display), "attachment; filename=\"docs.zip\"");
    let headers = zip_download_headers(&display);
    assert!(headers.iter().any(|h| h.name.eq_ignore_ascii_case("Content-Type") && h.value == "application/zip"));
    assert!(headers
        .iter()
        .any(|h| h.name.eq_ignore_ascii_case("Content-Disposition") && h.value == "attachment; filename=\"docs.zip\""));
}

#[test]
fn sanitize_thread_name_replaces_and_truncates() {
    assert_eq!(sanitize_thread_name("docs/sub dir"), "docs-sub-dir");
    assert_eq!(sanitize_thread_name("a_b-C9"), "a_b-C9");
    assert_eq!(sanitize_thread_name("é.x"), "--x");
    let long = "x".repeat(40);
    assert_eq!(sanitize_thread_name(&long), "x".repeat(32));
    assert_eq!(sanitize_thread_name(""), "");
    assert_eq!(zip_thread_name("my docs"), "zip-stream-my-docs");
}

#[test]
fn generated_names() {
    assert_eq!(worker_thread_name(3), "file-transfer-worker-3");
    assert_eq!(temp_zip_file_name(4242, 1700000000123456789), "file-transfer-zip-4242-1700000000123456789.tmp");
    assert_eq!(temp_zip_file_name(0, 0), "file-transfer-zip-0-0.tmp");
}

#[test]
fn zip_entries_are_named_below_their_prefix() {
    assert_eq!(zip_entry_name("", "a.txt"), "a.txt");
    assert_eq!(zip_entry_name("sub", "a.txt"), "sub/a.txt");
    assert!(matches!(zip_entry_action("sub", "d", true, false), ZipEntryAction::AddDirectory(n) if n == "sub/d"));
    assert!(matches!(zip_entry_action("", "f", false, true), ZipEntryAction::AddFile(n) if n == "f"));
    assert!(matches!(zip_entry_action("", "l", false, false), ZipEntryAction::Skip));
}

#[test]
fn display_name_drops_leading_slashes() {
    assert_eq!(display_name("///a/b/"), "a/b/");
    assert_eq!(display_name(""), "");
}
