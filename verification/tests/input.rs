use std::path::Path;

use rsvp::error::OrpError;
use rsvp::input::{extract_path, source_format, SourceFormat};

#[test]
fn formats_follow_extensions_ignoring_case() {
    assert_eq!(source_format("book.txt"), Some(SourceFormat::Text));
    assert_eq!(source_format("notes/README.MD"), Some(SourceFormat::Markdown));
    assert_eq!(source_format("a.Markdown"), Some(SourceFormat::Markdown));
    assert_eq!(source_format("/tmp/x.PdF"), Some(SourceFormat::Pdf));
    assert_eq!(source_format("novel.epub"), Some(SourceFormat::Epub));
    assert_eq!(source_format("archive.tar.gz"), None);
    assert_eq!(source_format(".txt"), None);
    assert_eq!(source_format("dir.txt/"), Some(SourceFormat::Text));
    assert_eq!(source_format("notes"), None);
}

#[test]
fn extension_agrees_with_std_path() {
    let cases = [
        "book.txt", "a/b/c.md", ".hidden", "..", "a/..", "x/.", "x./", "dir.txt/", "/", "",
        ".", "./", "a.b.c", "...", "a/.txt", "no_ext", "weird.", "c.TXT/.", "a//b.pdf",
    ];
    for case in cases {
        let expected = Path::new(case)
            .extension()
            .and_then(|e| e.to_str())
            .map(str::to_ascii_lowercase);
        let expected_format = match expected.as_deref() {
            Some("txt") => Some(SourceFormat::Text),
            Some("md") | Some("markdown") => Some(SourceFormat::Markdown),
            Some("pdf") => Some(SourceFormat::Pdf),
            Some("epub") => Some(SourceFormat::Epub),
            _ => None,
        };
        assert_eq!(source_format(case), expected_format, "path {case:?}");
    }
}

#[test]
fn extract_path_dispatches_on_the_extension() {
    assert_eq!(
        extract_path("notes.TXT", b"plain".to_vec()),
        Ok("plain".to_string())
    );
    assert_eq!(
        extract_path("notes.md", b"# Head".to_vec()),
        Ok("Head\n\n".to_string())
    );
    assert_eq!(
        extract_path("notes.docx", b"whatever".to_vec()),
        Err(OrpError::UnsupportedExtension {
            path: "notes.docx".into()
        })
    );
    assert_eq!(
        extract_path("x.pdf", b"nope".to_vec()),
        Err(OrpError::PdfExtract { path: "x.pdf".into() })
    );
    assert_eq!(
        extract_path("x.epub", b"nope".to_vec()),
        Err(OrpError::EpubExtract {
            path: "x.epub".into()
        })
    );
}
