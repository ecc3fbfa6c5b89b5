use file_transfer::response::{content_type_line, response_header, zip_disposition_line, zip_download_headers};
use file_transfer::routing::HeaderLine;

#[test]
fn content_type_line_holds_the_media_type() {
    let line = content_type_line("application/zip");
    assert_eq!((line.name.as_str(), line.value.as_str()), ("Content-Type", "application/zip"));
}

#[test]
fn zip_download_headers_name_the_archive() {
    let hs = zip_download_headers("docs");
    assert_eq!(hs.len(), 2);
    assert_eq!((hs[0].name.as_str(), hs[0].value.as_str()), ("Content-Type", "application/zip"));
    assert_eq!(
        (hs[1].name.as_str(), hs[1].value.as_str()),
        ("Content-Disposition", "attachment; filename=\"docs.zip\"")
    );
    let d = zip_disposition_line("a b");
    assert_eq!(d.value, "attachment; filename=\"a b.zip\"");
}

#[test]
fn response_header_converts_one_for_one() {
    let h = response_header(&content_type_line("application/zip")).unwrap();
    assert!(h.field.equiv("Content-Type"));
    assert_eq!(h.value.as_str(), "application/zip");
    let h = response_header(&zip_disposition_line("docs")).unwrap();
    assert!(h.field.equiv("Content-Disposition"));
    assert_eq!(h.value.as_str(), "attachment; filename=\"docs.zip\"");
    assert!(response_header(&zip_disposition_line("dökumente")).is_none());
    assert!(response_header(&HeaderLine::new("Naïve", "x")).is_none());
}
