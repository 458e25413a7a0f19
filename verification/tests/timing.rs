use std::time::Duration;

use rsvp::error::OrpError;
use rsvp::playback::{duration_for_token, duration_for_wpm, validate_wpm, MAX_WPM, MIN_WPM};
use rsvp::tokenize::Token;

#[test]
fn fixed_timing_uses_wpm() {
    assert_eq!(duration_for_wpm(300), Duration::from_millis(200));
}

#[test]
fn token_timing_adds_punctuation_pauses() {
    let plain = Token {
        text: "word".into(),
        paragraph_index: 0,
    };
    let comma = Token {
        text: "word,".into(),
        paragraph_index: 0,
    };
    let period = Token {
        text: "word.\"".into(),
        paragraph_index: 0,
    };

    assert_eq!(
        duration_for_token(&plain, None, 300),
        Duration::from_millis(200)
    );
    assert_eq!(
        duration_for_token(&comma, None, 300),
        Duration::from_millis(300)
    );
    assert_eq!(
        duration_for_token(&period, None, 300),
        Duration::from_millis(400)
    );
}

#[test]
fn token_timing_adds_paragraph_pause_after_token() {
    let token = Token {
        text: "word.".into(),
        paragraph_index: 0,
    };
    let next = Token {
        text: "Next".into(),
        paragraph_index: 1,
    };

    assert_eq!(
        duration_for_token(&token, Some(&next), 300),
        Duration::from_millis(500)
    );
}

#[test]
fn question_colon_and_closing_brackets() {
    let t = |text: &str| Token {
        text: text.into(),
        paragraph_index: 3,
    };
    assert_eq!(duration_for_token(&t("why?)"), None, 300), Duration::from_millis(400));
    assert_eq!(duration_for_token(&t("note:"), None, 300), Duration::from_millis(300));
    assert_eq!(duration_for_token(&t("end!\u{201d}"), None, 300), Duration::from_millis(400));
    assert_eq!(duration_for_token(&t("\"')"), None, 300), Duration::from_millis(200));
    let same_paragraph = t("x");
    assert_eq!(
        duration_for_token(&t("fine,"), Some(&same_paragraph), 300),
        Duration::from_millis(300)
    );
}

#[test]
fn zero_wpm_counts_as_one() {
    assert_eq!(duration_for_wpm(0), Duration::from_millis(60_000));
    assert_eq!(duration_for_wpm(1000), Duration::from_millis(60));
    assert_eq!(duration_for_wpm(7), Duration::from_millis(8571));
}

#[test]
fn wpm_bounds_are_checked() {
    assert!(validate_wpm(MIN_WPM).is_ok());
    assert!(validate_wpm(MAX_WPM).is_ok());
    assert!(validate_wpm(300).is_ok());
    assert_eq!(
        validate_wpm(99),
        Err(OrpError::InvalidWpm {
            actual: 99,
            min: 100,
            max: 1000
        })
    );
    assert!(validate_wpm(1001).is_err());
}

#[test]
fn pauses_stay_between_one_and_two_and_a_half_base_times() {
    let next_same = Token {
        text: "next".into(),
        paragraph_index: 3,
    };
    let next_para = Token {
        text: "next".into(),
        paragraph_index: 4,
    };
    for wpm in [100, 300, 333, 1000] {
        let base = duration_for_wpm(wpm);
        for text in ["word", "word,", "word.\"", "end!", "why?)", "a;"] {
            let token = Token {
                text: text.into(),
                paragraph_index: 3,
            };
            for next in [None, Some(&next_same), Some(&next_para)] {
                let d = duration_for_token(&token, next, wpm);
                assert!(base <= d && d <= base * 5 / 2, "{text} at {wpm}");
            }
            assert_eq!(
                duration_for_token(&token, Some(&next_same), wpm),
                duration_for_token(&token, None, wpm)
            );
        }
    }
}
