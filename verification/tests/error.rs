use rsvp::error::OrpError;

#[test]
fn error_messages() {
    let path = || "book.pdf".to_string();
    assert_eq!(
        OrpError::UnsupportedExtension { path: path() }.message(),
        "unsupported file extension for book.pdf"
    );
    assert_eq!(OrpError::ReadFile { path: path() }.message(), "failed to read book.pdf");
    assert_eq!(
        OrpError::InvalidUtf8 { path: path() }.message(),
        "book.pdf is not valid UTF-8 text"
    );
    assert_eq!(
        OrpError::PdfExtract { path: path() }.message(),
        "failed to extract text from PDF book.pdf"
    );
    assert_eq!(
        OrpError::EpubExtract { path: path() }.message(),
        "failed to extract text from EPUB book.pdf"
    );
    assert_eq!(
        OrpError::NoReadableText { path: path() }.message(),
        "no readable text found in book.pdf"
    );
    assert_eq!(
        OrpError::InvalidWpm {
            actual: 7,
            min: 100,
            max: 1000
        }
        .message(),
        "WPM must be between 100 and 1000; got 7"
    );
    assert_eq!(
        OrpError::InvalidWpm {
            actual: 65535,
            min: 0,
            max: 10
        }
        .message(),
        "WPM must be between 0 and 10; got 65535"
    );
    assert_eq!(OrpError::Terminal.message(), "terminal error");
    assert_eq!(OrpError::StreamDisconnected.message(), "text stream disconnected");
}
