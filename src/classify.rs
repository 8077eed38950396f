//! Coarse file-type classification from a file's leading bytes.
use vstd::prelude::*;

verus! {

/// The broad category shown for a file.
#[derive(Debug, Clone, Copy, PartialEq, Eq, Structural)]
pub enum Category {
    App,
    Archive,
    Audio,
    Document,
    Font,
    Image,
    Text,
    Video,
    Unknown,
}

/// The name under which a category is shown.
pub open spec fn category_name(c: Category) -> Seq<char> {
    match c {
        Category::App => "app"@,
        Category::Archive => "archive"@,
        Category::Audio => "audio"@,
        Category::Document => "document"@,
        Category::Font => "font"@,
        Category::Image => "image"@,
        Category::Text => "text"@,
        Category::Video => "video"@,
        Category::Unknown => "unknown"@,
    }
}

impl Category {
    /// The name under which this category is shown.
    pub fn name(&self) -> (r: &'static str)
        ensures
            r@ == category_name(*self),
    {
        match self {
            Category::App => "app",
            Category::Archive => "archive",
            Category::Audio => "audio",
            Category::Document => "document",
            Category::Font => "font",
            Category::Image => "image",
            Category::Text => "text",
            Category::Video => "video",
            Category::Unknown => "unknown",
        }
    }
}

/// What a file was recognised as: its media type and category.
#[derive(Debug)]
pub struct FileType {
    pub mime: String,
    pub f_type: Category,
}

/// The media type given to files that could not be recognised.
pub open spec fn default_mime() -> Seq<char> {
    "application/octet-stream"@
}

impl FileType {
    /// A copy with the same media type and category.
    pub fn duplicate(&self) -> (r: FileType)
        ensures
            r == *self,
    {
        FileType { mime: self.mime.clone(), f_type: self.f_type }
    }
}

impl Default for FileType {
    /// `application/octet-stream`, of unknown category.
    fn default() -> (r: FileType)
        ensures
            r.mime@ == default_mime(),
            r.f_type == Category::Unknown,
    {
        FileType { mime: String::from_str("application/octet-stream"), f_type: Category::Unknown }
    }
}

/// file_format's `Kind`, a plain enum whose variants proofs may match on.
#[verifier::external_type_specification]
pub struct ExKind(file_format::Kind);

/// The kind that the format signature in `head` is recognised as.
pub uninterp spec fn sniffed_kind(head: Seq<u8>) -> file_format::Kind;

/// The media type that the format signature in `head` is recognised as.
pub uninterp spec fn sniffed_media_type(head: Seq<u8>) -> Seq<char>;

/// Relies on file_format::FileFormat::from_bytes and FileFormat::kind: the
/// kind of the format recognised in `head`, which depends on the bytes alone.
#[verifier::external_body]
fn sniff_kind(head: &[u8]) -> (r: file_format::Kind)
    ensures
        r == sniffed_kind(head@),
{
    file_format::FileFormat::from_bytes(head).kind()
}

/// Relies on file_format::FileFormat::from_bytes and FileFormat::media_type:
/// the media type of the format recognised in `head`, which depends on the
/// bytes alone.
#[verifier::external_body]
fn sniff_media_type(head: &[u8]) -> (r: String)
    ensures
        r@ == sniffed_media_type(head@),
{
    file_format::FileFormat::from_bytes(head).media_type().to_owned()
}

/// The category shown for each kind of format.
pub open spec fn kind_category(k: file_format::Kind) -> Category {
    match k {
        file_format::Kind::Executable => Category::App,
        file_format::Kind::Archive
        | file_format::Kind::Compressed
        | file_format::Kind::Disk
        | file_format::Kind::Database
        | file_format::Kind::Package
        | file_format::Kind::Rom => Category::Archive,
        file_format::Kind::Audio => Category::Audio,
        file_format::Kind::Geospatial
        | file_format::Kind::Spreadsheet
        | file_format::Kind::Formula
        | file_format::Kind::Diagram
        | file_format::Kind::Metadata
        | file_format::Kind::Presentation
        | file_format::Kind::Model
        | file_format::Kind::Other => Category::Document,
        file_format::Kind::Font => Category::Font,
        file_format::Kind::Image => Category::Image,
        file_format::Kind::Ebook
        | file_format::Kind::Document
        | file_format::Kind::Subtitle => Category::Text,
        file_format::Kind::Playlist | file_format::Kind::Video => Category::Video,
        _ => Category::Unknown,
    }
}

/// The category shown for a kind of format.
pub fn category_of(k: file_format::Kind) -> (r: Category)
    ensures
        r == kind_category(k),
{
    match k {
        file_format::Kind::Executable => Category::App,
        file_format::Kind::Archive
        | file_format::Kind::Compressed
        | file_format::Kind::Disk
        | file_format::Kind::Database
        | file_format::Kind::Package
        | file_format::Kind::Rom => Category::Archive,
        file_format::Kind::Audio => Category::Audio,
        file_format::Kind::Geospatial
        | file_format::Kind::Spreadsheet
        | file_format::Kind::Formula
        | file_format::Kind::Diagram
        | file_format::Kind::Metadata
        | file_format::Kind::Presentation
        | file_format::Kind::Model
        | file_format::Kind::Other => Category::Document,
        file_format::Kind::Font => Category::Font,
        file_format::Kind::Image => Category::Image,
        file_format::Kind::Ebook
        | file_format::Kind::Document
        | file_format::Kind::Subtitle => Category::Text,
        file_format::Kind::Playlist | file_format::Kind::Video => Category::Video,
        _ => Category::Unknown,
    }
}

pub open spec fn is_default_type(t: FileType) -> bool {
    t.mime@ == default_mime() && t.f_type == Category::Unknown
}

/// Whether `head` counts as recognised: it is not empty and its format has a
/// media type of its own.
pub open spec fn recognised(head: Seq<u8>) -> bool {
    head.len() > 0 && sniffed_media_type(head) != default_mime()
}

/// Classifies a file from its leading bytes, given as `None` when they could
/// not be read. An unreadable or empty file, or one whose signature is not
/// recognised, gets the default type; classification never fails.
pub fn classify(head: Option<&[u8]>) -> (r: FileType)
    ensures
        match head {
            Some(h) if recognised(h@) => {
                &&& r.mime@ == sniffed_media_type(h@)
                &&& r.f_type == kind_category(sniffed_kind(h@))
            },
            _ => is_default_type(r),
        },
{
    match head {
        None => FileType::default(),
        Some(h) => {
            if h.len() == 0 {
                return FileType::default();
            }
            let mime = sniff_media_type(h);
            let fallback = FileType::default();
            if mime == fallback.mime {
                return fallback;
            }
            FileType { mime, f_type: category_of(sniff_kind(h)) }
        },
    }
}

} // verus!
