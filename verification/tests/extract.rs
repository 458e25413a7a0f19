use std::io::{Cursor, Write};

use rsvp::error::OrpError;
use rsvp::extract::{
    extract_epub, extract_markdown, extract_pdf, extract_pdf_pages, extract_txt, join_pages, markdown_to_text,
    render_markdown_events, MarkdownEvent,
};

#[test]
fn markdown_extraction_skips_code_blocks_and_markup() {
    let text = markdown_to_text(
        "# Heading\n\nThis is **bold** text.\n\n```rust\nfn main() {}\n```\n\nAfter `inline` code.",
    );

    assert!(text.contains("Heading"));
    assert!(text.contains("This is bold text."));
    assert!(text.contains("After inline code."));
    assert!(!text.contains("fn main"));
    assert!(!text.contains("**"));
}

#[test]
fn markdown_text_layout() {
    assert_eq!(
        markdown_to_text("# Title\n\nOne\ntwo\n\n    indented code\n\nEnd"),
        "Title\n\nOne\ntwo\n\nEnd\n\n"
    );
}

#[test]
fn rendering_events_follows_breaks() {
    let events = vec![
        MarkdownEvent::Text("a".into()),
        MarkdownEvent::SoftBreak,
        MarkdownEvent::ParagraphEnd,
        MarkdownEvent::CodeBlockStart,
        MarkdownEvent::Text("hidden".into()),
        MarkdownEvent::ParagraphEnd,
        MarkdownEvent::CodeBlockEnd,
        MarkdownEvent::Code("x".into()),
        MarkdownEvent::HeadingEnd,
        MarkdownEvent::Other,
    ];
    assert_eq!(render_markdown_events(&events), "a\n\nx\n\n");
    assert_eq!(render_markdown_events(&[MarkdownEvent::ParagraphEnd]), "\n\n");
}

#[test]
fn txt_extraction_decodes_utf8() {
    assert_eq!(
        extract_txt("a.txt", "h\u{e9}llo".as_bytes().to_vec()),
        Ok("h\u{e9}llo".to_string())
    );
    assert_eq!(
        extract_txt("bad.txt", vec![0x66, 0xff, 0x6f]),
        Err(OrpError::InvalidUtf8 {
            path: "bad.txt".into()
        })
    );
    assert!(extract_markdown("bad.md", vec![0xc3]).is_err());
    assert_eq!(
        extract_markdown("a.md", b"*hi*".to_vec()),
        Ok("hi\n\n".to_string())
    );
}

#[test]
fn epub_pages_are_trimmed_and_joined() {
    let pages = vec![
        "  First page.\n".to_string(),
        " \n\t".to_string(),
        "Second".to_string(),
    ];
    assert_eq!(join_pages(&pages), "First page.\n\nSecond");
    assert_eq!(join_pages(&Vec::new()), "");
}

#[test]
fn pdf_extraction_reads_tiny_text_pdf() {
    let text = extract_pdf("fixture.pdf", &tiny_pdf()).unwrap();

    assert!(text.contains("Hello PDF text"));
}

#[test]
fn pdf_pages_are_read_one_by_one() {
    let (pages, error) = extract_pdf_pages("fixture.pdf", &tiny_pdf());
    assert_eq!(error, None);
    assert_eq!(pages.len(), 1);
    assert!(pages[0].contains("Hello PDF text"));
    assert_eq!(
        extract_pdf_pages("broken.pdf", b"not a pdf"),
        (
            Vec::new(),
            Some(OrpError::PdfExtract {
                path: "broken.pdf".into()
            })
        )
    );
}

#[test]
fn pdf_the_crate_panics_on_is_an_extraction_error() {
    let no_media_box = pdf_with_page("");
    assert_eq!(
        extract_pdf_pages("nobox.pdf", &no_media_box),
        (
            Vec::new(),
            Some(OrpError::PdfExtract {
                path: "nobox.pdf".into()
            })
        )
    );
    assert_eq!(
        extract_pdf("nobox.pdf", &no_media_box),
        Err(OrpError::PdfExtract {
            path: "nobox.pdf".into()
        })
    );
}

#[test]
fn broken_pdf_is_an_extraction_error() {
    assert_eq!(
        extract_pdf("broken.pdf", b"not a pdf"),
        Err(OrpError::PdfExtract {
            path: "broken.pdf".into()
        })
    );
}

#[test]
fn epub_extraction_reads_spine_order_text() {
    let text = extract_epub("fixture.epub", &tiny_epub()).unwrap();

    assert!(text.contains("First chapter text."));
    assert!(text.contains("Second chapter text."));
    assert!(
        text.find("First chapter text.").unwrap() < text.find("Second chapter text.").unwrap()
    );
    assert!(!text.contains("console.log"));
    assert!(!text.contains("display:none"));
}

#[test]
fn broken_epub_is_an_extraction_error() {
    assert_eq!(
        extract_epub("broken.epub", b"not a zip"),
        Err(OrpError::EpubExtract {
            path: "broken.epub".into()
        })
    );
}

fn tiny_pdf() -> Vec<u8> {
    pdf_with_page("/MediaBox [0 0 612 792] ")
}

/// A one-page PDF whose page dictionary holds `page_extra`.
fn pdf_with_page(page_extra: &str) -> Vec<u8> {
    let page = format!(
        "3 0 obj\n<< /Type /Page /Parent 2 0 R {page_extra}/Resources << /Font << /F1 4 0 R >> >> /Contents 5 0 R >>\nendobj\n"
    );
    let objects = [
        "1 0 obj\n<< /Type /Catalog /Pages 2 0 R >>\nendobj\n",
        "2 0 obj\n<< /Type /Pages /Kids [3 0 R] /Count 1 >>\nendobj\n",
        page.as_str(),
        "4 0 obj\n<< /Type /Font /Subtype /Type1 /BaseFont /Helvetica >>\nendobj\n",
    ];
    let stream = "BT /F1 24 Tf 100 700 Td (Hello PDF text) Tj ET\n";
    let stream_object = format!(
        "5 0 obj\n<< /Length {} >>\nstream\n{}endstream\nendobj\n",
        stream.len(),
        stream
    );

    let mut pdf = "%PDF-1.4\n".to_string();
    let mut offsets = Vec::new();
    for object in objects {
        offsets.push(pdf.len());
        pdf.push_str(object);
    }
    offsets.push(pdf.len());
    pdf.push_str(&stream_object);

    let xref = pdf.len();
    pdf.push_str("xref\n0 6\n0000000000 65535 f \n");
    for offset in offsets {
        pdf.push_str(&format!("{offset:010} 00000 n \n"));
    }
    pdf.push_str(&format!(
        "trailer\n<< /Size 6 /Root 1 0 R >>\nstartxref\n{xref}\n%%EOF\n"
    ));

    pdf.into_bytes()
}

fn tiny_epub() -> Vec<u8> {
    let mut cursor = Cursor::new(Vec::new());
    {
        let mut archive = zip::ZipWriter::new(&mut cursor);
        let options = zip::write::SimpleFileOptions::default()
            .compression_method(zip::CompressionMethod::Stored);

        write_zip_file(&mut archive, "mimetype", "application/epub+zip", options);
        write_zip_file(
            &mut archive,
            "META-INF/container.xml",
            r#"<?xml version="1.0" encoding="UTF-8"?>
<container version="1.0" xmlns="urn:oasis:names:tc:opendocument:xmlns:container">
  <rootfiles>
    <rootfile full-path="OEBPS/content.opf" media-type="application/oebps-package+xml"/>
  </rootfiles>
</container>"#,
            options,
        );
        write_zip_file(
            &mut archive,
            "OEBPS/content.opf",
            r#"<?xml version="1.0" encoding="UTF-8"?>
<package xmlns="http://www.idpf.org/2007/opf" version="2.0">
  <metadata xmlns:dc="http://purl.org/dc/elements/1.1/">
    <dc:title>Tiny EPUB</dc:title>
    <dc:creator>Test Author</dc:creator>
    <dc:language>en</dc:language>
  </metadata>
  <manifest>
    <item id="chapter-1" href="chapter1.xhtml" media-type="application/xhtml+xml"/>
    <item id="chapter-2" href="chapter2.xhtml" media-type="application/xhtml+xml"/>
  </manifest>
  <spine>
    <itemref idref="chapter-1"/>
    <itemref idref="chapter-2"/>
  </spine>
</package>"#,
            options,
        );
        write_zip_file(
            &mut archive,
            "OEBPS/chapter1.xhtml",
            r#"<?xml version="1.0" encoding="UTF-8"?>
<html xmlns="http://www.w3.org/1999/xhtml">
  <head><style>display:none</style></head>
  <body>
    <script>console.log('skip me')</script>
    <p>First chapter text.</p>
  </body>
</html>"#,
            options,
        );
        write_zip_file(
            &mut archive,
            "OEBPS/chapter2.xhtml",
            r#"<?xml version="1.0" encoding="UTF-8"?>
<html xmlns="http://www.w3.org/1999/xhtml">
  <body><p>Second chapter text.</p></body>
</html>"#,
            options,
        );
        archive.finish().unwrap();
    }

    cursor.into_inner()
}

fn write_zip_file<W: Write + std::io::Seek>(
    archive: &mut zip::ZipWriter<W>,
    name: &str,
    content: &str,
    options: zip::write::SimpleFileOptions,
) {
    archive.start_file(name, options).unwrap();
    archive.write_all(content.as_bytes()).unwrap();
}
