use rsvp::extract::ExtractedDocument;
use rsvp::normalize::{normalize, normalize_text};

#[test]
fn collapses_whitespace_and_joins_hyphenated_lines() {
    let normalized = normalize_text("A hyphen-\nated   word.\n\nNext\t paragraph.");

    assert_eq!(normalized.text, "A hyphenated word.\n\nNext paragraph.");
    assert_eq!(normalized.paragraph_boundaries.len(), 1);
}

#[test]
fn boundaries_mark_byte_offsets_of_separators() {
    let normalized = normalize_text("Caf\u{e9} au lait\nsecond line\r\nthird");

    assert_eq!(normalized.text, "Caf\u{e9} au lait\n\nsecond line\n\nthird");
    let offsets: Vec<usize> = normalized
        .paragraph_boundaries
        .iter()
        .map(|b| b.byte_index)
        .collect();
    // "Café au lait" is 13 bytes (é takes two).
    assert_eq!(offsets, vec![13, 13 + 2 + 11]);
    for offset in offsets {
        assert_eq!(&normalized.text.as_bytes()[offset..offset + 2], b"\n\n");
    }
}

#[test]
fn hyphen_before_carriage_return_line_break_is_joined() {
    let normalized = normalize_text("well-  \r\n   known fact");
    assert_eq!(normalized.text, "wellknown fact");
    assert!(normalized.paragraph_boundaries.is_empty());
}

#[test]
fn hyphen_inside_a_line_is_kept() {
    let normalized = normalize_text("a well-known - fact");
    assert_eq!(normalized.text, "a well-known - fact");
}

#[test]
fn blank_input_normalizes_to_nothing() {
    let normalized = normalize_text(" \t\n\r\n  \n");
    assert_eq!(normalized.text, "");
    assert!(normalized.paragraph_boundaries.is_empty());
}

#[test]
fn normalize_uses_the_extracted_text() {
    let document = ExtractedDocument {
        text: "one\n\n\n two ".to_string(),
    };
    let normalized = normalize(&document);
    assert_eq!(normalized.text, "one\n\ntwo");
    assert_eq!(normalized.paragraph_boundaries.len(), 1);
    assert_eq!(normalized.paragraph_boundaries[0].byte_index, 3);
}

#[test]
fn normalizing_twice_changes_nothing() {
    let once = normalize_text("  A hyphen-\nated   word.\r\n\r\n\tNext\t paragraph -  \nend.\n");
    let twice = normalize_text(&once.text);
    assert_eq!(twice.text, once.text);
    assert_eq!(twice.paragraph_boundaries, once.paragraph_boundaries);
}

#[test]
fn normalized_paragraphs_hold_single_spaces_only() {
    let normalized = normalize_text("\t one \u{a0}\u{2003} two\t\tthree \n\n\n  four  ");
    assert_eq!(normalized.text, "one two three\n\nfour");
    for paragraph in normalized.text.split("\n\n") {
        assert!(!paragraph.is_empty());
        assert!(!paragraph.contains("  "));
        assert!(!paragraph.starts_with(' ') && !paragraph.ends_with(' '));
        assert!(paragraph.chars().all(|c| c == ' ' || !c.is_whitespace()));
    }
}

#[test]
fn paragraph_ending_in_hyphen_is_joined_on_a_second_pass() {
    let once = normalize_text("a-\u{b}\nb");
    assert_eq!(once.text, "a-\n\nb");
    let twice = normalize_text(&once.text);
    assert_eq!(twice.text, "a\n\nb");
}

#[test]
fn normalized_text_without_hyphen_line_ends_is_a_fixed_point() {
    let once = normalize_text("x - y\n\nw-\n\nend -");
    assert_eq!(once.text, "x - y\n\nw\n\nend -");
    assert!(!once.text.contains("-\n"));
    assert_eq!(normalize_text(&once.text), once);
}
