use file_format::Kind;
use my_drive::classify::{category_of, classify, Category, FileType};

#[test]
fn default_type() {
    let t = FileType::default();
    assert_eq!(t.mime, "application/octet-stream");
    assert_eq!(t.f_type, Category::Unknown);
    assert_eq!(t.f_type.name(), "unknown");
}

#[test]
fn unreadable_file_gets_default() {
    let t = classify(None);
    assert_eq!(t.mime, "application/octet-stream");
    assert_eq!(t.f_type, Category::Unknown);
}

#[test]
fn empty_file_gets_default() {
    let t = classify(Some(&[]));
    assert_eq!(t.mime, "application/octet-stream");
    assert_eq!(t.f_type, Category::Unknown);
}

#[test]
fn unrecognised_signature_gets_default() {
    let t = classify(Some(&[0x00, 0x13, 0x37, 0x42, 0x99]));
    assert_eq!(t.mime, "application/octet-stream");
    assert_eq!(t.f_type, Category::Unknown);
}

#[test]
fn png_is_an_image() {
    let head = b"\x89PNG\r\n\x1A\n\x00\x00\x00\x0DIHDR";
    let t = classify(Some(head));
    assert_eq!(t.mime, "image/png");
    assert_eq!(t.f_type, Category::Image);
    assert_eq!(t.f_type.name(), "image");
}

#[test]
fn zip_is_an_archive() {
    let head = b"PK\x03\x04\x14\x00\x00\x00\x00\x00";
    let t = classify(Some(head));
    assert_eq!(t.mime, "application/zip");
    assert_eq!(t.f_type, Category::Archive);
}

#[test]
fn kind_table() {
    assert_eq!(category_of(Kind::Executable), Category::App);
    assert_eq!(category_of(Kind::Compressed), Category::Archive);
    assert_eq!(category_of(Kind::Rom), Category::Archive);
    assert_eq!(category_of(Kind::Audio), Category::Audio);
    assert_eq!(category_of(Kind::Spreadsheet), Category::Document);
    assert_eq!(category_of(Kind::Other), Category::Document);
    assert_eq!(category_of(Kind::Font), Category::Font);
    assert_eq!(category_of(Kind::Image), Category::Image);
    assert_eq!(category_of(Kind::Ebook), Category::Text);
    assert_eq!(category_of(Kind::Subtitle), Category::Text);
    assert_eq!(category_of(Kind::Playlist), Category::Video);
    assert_eq!(category_of(Kind::Video), Category::Video);
}

#[test]
fn category_names() {
    assert_eq!(Category::App.name(), "app");
    assert_eq!(Category::Text.name(), "text");
    assert_eq!(Category::Video.name(), "video");
    assert_eq!(Category::Document.name(), "document");
}
