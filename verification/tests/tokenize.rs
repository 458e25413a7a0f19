use rsvp::normalize::{normalize_text, NormalizedDocument};
use rsvp::tokenize::tokenize;

#[test]
fn keeps_punctuation_attached() {
    let document = NormalizedDocument {
        text: "Hello, don't stop. Well-known U.S. 3.14".into(),
        paragraph_boundaries: Vec::new(),
    };

    let words = tokenize(&document)
        .into_iter()
        .map(|token| token.text)
        .collect::<Vec<_>>();

    assert_eq!(
        words,
        vec!["Hello,", "don't", "stop.", "Well-known", "U.S.", "3.14"]
    );
}

#[test]
fn tokens_carry_paragraph_indexes_and_skip_unreadable_words() {
    let document = normalize_text("First para -- here.\n\n... ***\nThird one");
    let tokens = tokenize(&document);
    let pairs: Vec<(String, usize)> = tokens
        .into_iter()
        .map(|t| (t.text, t.paragraph_index))
        .collect();
    assert_eq!(
        pairs,
        vec![
            ("First".to_string(), 0),
            ("para".to_string(), 0),
            ("here.".to_string(), 0),
            ("Third".to_string(), 2),
            ("one".to_string(), 2),
        ]
    );
}

#[test]
fn triple_newline_splits_once_from_the_left() {
    let document = NormalizedDocument {
        text: "a\n\n\nb".into(),
        paragraph_boundaries: Vec::new(),
    };
    let tokens = tokenize(&document);
    assert_eq!(tokens.len(), 2);
    assert_eq!(tokens[0].paragraph_index, 0);
    assert_eq!(tokens[1].text, "b");
    assert_eq!(tokens[1].paragraph_index, 1);
}

#[test]
fn words_without_letters_or_digits_are_dropped() {
    let document = NormalizedDocument {
        text: "\u{e9}t\u{e9} \u{2014} \u{4e2d} -- 7 ... Z".into(),
        paragraph_boundaries: Vec::new(),
    };
    let texts: Vec<String> = tokenize(&document).into_iter().map(|t| t.text).collect();
    assert_eq!(texts, vec!["\u{e9}t\u{e9}", "\u{4e2d}", "7", "Z"]);
}
