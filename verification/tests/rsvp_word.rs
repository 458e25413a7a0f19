use unicode_width::UnicodeWidthStr;
use rsvp::rsvp::{OrpMode, RsvpWord};
use rsvp::tokenize::Token;
use unicode_segmentation::UnicodeSegmentation;

#[test]
fn spritz_and_center_return_stable_grapheme_indexes() {
    let graphemes = "reading".graphemes(true).collect::<Vec<_>>();

    assert_eq!(OrpMode::Spritz.pivot_index(&graphemes), 2);
    assert_eq!(OrpMode::Center.pivot_index(&graphemes), 3);
}

#[test]
fn rsvp_word_splits_pivot_without_byte_indexing() {
    let token = Token {
        text: "cafe\u{301}".into(),
        paragraph_index: 0,
    };
    let word = RsvpWord::from_token(&token, OrpMode::Center);

    let (_, pivot, _) = word.pivot_parts();
    assert!(!pivot.is_empty());
}

#[test]
fn spritz_length_table() {
    let expect = [(0, 0), (1, 0), (2, 1), (5, 1), (6, 2), (9, 2), (10, 3), (13, 3), (14, 4), (40, 4)];
    for (n, pivot) in expect {
        let graphemes = vec!["x"; n];
        assert_eq!(OrpMode::Spritz.pivot_index(&graphemes), pivot, "length {n}");
    }
    let graphemes = vec!["x"; 8];
    assert_eq!(OrpMode::Center.pivot_index(&graphemes), 3);
}

#[test]
fn orp_mode_cycles_and_names() {
    assert_eq!(OrpMode::Spritz.next(), OrpMode::Center);
    assert_eq!(OrpMode::Center.next(), OrpMode::Spritz);
    assert_eq!(OrpMode::Spritz.next().next(), OrpMode::Spritz);
    assert_eq!(OrpMode::Spritz.label(), "Spritz");
    assert_eq!(OrpMode::Center.label(), "Center");
}

#[test]
fn word_widths_and_parts() {
    let token = Token {
        text: "reading,".into(),
        paragraph_index: 0,
    };
    let word = RsvpWord::from_token(&token, OrpMode::Spritz);
    assert_eq!(word.pivot_index, 2);
    assert_eq!(word.prefix_width, 2);
    assert_eq!(word.pivot_width, 1);
    assert_eq!(word.suffix_width, 5);
    assert_eq!(word.pivot_parts(), ("re", "a", "ding,"));
}

#[test]
fn wide_graphemes_are_measured_in_columns() {
    let token = Token {
        text: "\u{4e2d}\u{6587}\u{5b57}".into(),
        paragraph_index: 0,
    };
    let word = RsvpWord::from_token(&token, OrpMode::Center);
    assert_eq!(word.pivot_index, 1);
    assert_eq!(word.prefix_width, 2);
    assert_eq!(word.pivot_width, 2);
    assert_eq!(word.suffix_width, 2);
    assert_eq!(word.pivot_parts(), ("\u{4e2d}", "\u{6587}", "\u{5b57}"));
}

#[test]
fn combining_marks_stay_with_their_grapheme() {
    let token = Token {
        text: "cafe\u{301}s".into(),
        paragraph_index: 0,
    };
    let word = RsvpWord::from_token(&token, OrpMode::Center);
    assert_eq!(word.pivot_index, 2);
    assert_eq!(word.pivot_parts(), ("ca", "f", "e\u{301}s"));
    let word = RsvpWord {
        pivot_index: 3,
        ..word
    };
    assert_eq!(word.pivot_parts(), ("caf", "e\u{301}", "s"));
}

#[test]
fn pivot_past_the_end_selects_the_whole_text() {
    let word = RsvpWord {
        text: "ab".into(),
        pivot_index: 7,
        prefix_width: 0,
        pivot_width: 0,
        suffix_width: 0,
    };
    assert_eq!(word.pivot_parts(), ("", "ab", ""));
}

#[test]
fn pivot_parts_put_the_word_back_together() {
    for text in ["cafe\u{301}", "reading", "a", "extraordinarily", "\u{1f469}\u{200d}\u{1f4bb}ok"] {
        for mode in [OrpMode::Spritz, OrpMode::Center] {
            let token = Token {
                text: text.into(),
                paragraph_index: 0,
            };
            let word = RsvpWord::from_token(&token, mode);
            let count = text.graphemes(true).count();
            assert!(word.pivot_index < count);
            let (before, pivot, after) = word.pivot_parts();
            assert_eq!(format!("{before}{pivot}{after}"), text);
            assert_eq!(pivot, text.graphemes(true).nth(word.pivot_index).unwrap());
        }
    }
}

#[test]
fn text_width_measures_the_whole_text() {
    for text in ["", "abc", "\u{4e2d}\u{6587}", "cafe\u{301}", "\u{644}\u{627}"] {
        assert_eq!(rsvp::rsvp::text_width(text), text.width());
    }
    assert_eq!(rsvp::rsvp::text_width("\u{4e2d}x"), 3);
}
