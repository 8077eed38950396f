use my_drive::negotiate::{choose_representation, Representation};
use my_drive::path_guard::{DrivePath, PathError};
use my_drive::search::search_pattern;
use my_drive::size::{decimal_string, format_file_size};
use my_drive::uploads::{report_upload, report_uploads, upload_destination, UploadOutcome};

fn path(s: &str) -> DrivePath {
    DrivePath::from_absolute(s).unwrap()
}

#[test]
fn search_pattern_plain_query() {
    assert_eq!(search_pattern(&path("/data"), "rep"), "/data/**/rep*");
}

#[test]
fn search_pattern_takes_metacharacters_literally() {
    assert_eq!(search_pattern(&path("/data"), "a*b?[c]"), "/data/**/a[*]b[?][[]c[]]*");
    assert_eq!(search_pattern(&path("/my[dir]"), ""), "/my[[]dir[]]/**/*");
}

#[test]
fn upload_destinations() {
    let d = path("/data/up");
    assert!(upload_destination(&d, None).is_none());
    assert!(upload_destination(&d, Some("")).is_none());
    assert_eq!(upload_destination(&d, Some("a.txt")).unwrap().unwrap().to_path_string(), "/data/up/a.txt");
    assert_eq!(
        upload_destination(&d, Some("../evil")).unwrap().unwrap_err(),
        PathError::InvalidName("../evil".to_string())
    );
    assert!(upload_destination(&d, Some("..")).unwrap().is_err());
}

#[test]
fn upload_reports() {
    let ok = report_upload(&UploadOutcome { name: "a.txt".to_string(), failure: None });
    assert_eq!(ok.message, "File a.txt saved");
    assert!(!ok.is_error);
    let bad = report_upload(&UploadOutcome { name: "b.txt".to_string(), failure: Some("read-only".to_string()) });
    assert_eq!(bad.message, "File b.txt failed to save: read-only");
    assert!(bad.is_error);
}

#[test]
fn partial_upload_is_reported_per_file() {
    let outcomes = vec![
        UploadOutcome { name: "good.txt".to_string(), failure: None },
        UploadOutcome { name: "locked.txt".to_string(), failure: Some("Permission denied".to_string()) },
    ];
    let reports = report_uploads(&outcomes);
    assert_eq!(reports.len(), 2);
    assert_eq!(reports[0].message, "File good.txt saved");
    assert!(!reports[0].is_error);
    assert_eq!(reports[1].message, "File locked.txt failed to save: Permission denied");
    assert!(reports[1].is_error);
    assert!(report_uploads(&vec![]).is_empty());
}

#[test]
fn representation_choice() {
    assert_eq!(choose_representation(false, None), Representation::Html);
    assert_eq!(choose_representation(false, Some("text/html")), Representation::Html);
    assert_eq!(choose_representation(false, Some("application/json")), Representation::Json);
    assert_eq!(choose_representation(true, Some("application/json")), Representation::Html);
    assert_eq!(choose_representation(false, Some("json")), Representation::Json);
    assert_eq!(choose_representation(false, Some("jso")), Representation::Html);
    assert_eq!(choose_representation(false, Some("")), Representation::Html);
    assert_eq!(choose_representation(false, Some("text/html, application/JSON")), Representation::Html);
}

#[test]
fn file_sizes() {
    assert_eq!(format_file_size(0), "0 B");
    assert_eq!(format_file_size(1023), "1023 B");
    assert_eq!(format_file_size(1024), "1 kB");
    assert_eq!(format_file_size(2047), "1 kB");
    assert_eq!(format_file_size(1536 * 1024), "1 MB");
    assert_eq!(format_file_size(5 * 1024 * 1024 * 1024), "5 GB");
    assert_eq!(format_file_size(u64::MAX), "15 EB");
}

#[test]
fn decimal_strings() {
    assert_eq!(decimal_string(0), "0");
    assert_eq!(decimal_string(7), "7");
    assert_eq!(decimal_string(1234567890), "1234567890");
    assert_eq!(decimal_string(u64::MAX), "18446744073709551615");
}
