use std::sync::mpsc::sync_channel;

use rsvp::playback::{Playback, DEFAULT_WPM, WPM_STEP};
use rsvp::rsvp::OrpMode;
use rsvp::stream::{StreamChunk, StreamEvent};
use rsvp::tokenize::Token;
use rsvp::tui::{
    anchor_padding, centered_line_area, handle_key, status_line, KeyOutcome, ReaderKey, Rect,
};

#[test]
fn centered_line_area_uses_vertical_middle_row() {
    let area = Rect {
        x: 2,
        y: 3,
        width: 80,
        height: 21,
    };

    assert_eq!(
        centered_line_area(area),
        Rect {
            x: 2,
            y: 13,
            width: 80,
            height: 1
        }
    );
}

#[test]
fn anchor_padding_keeps_pivot_column_fixed() {
    let viewport_width = 100;

    assert_eq!(anchor_padding(viewport_width, 0), 50);
    assert_eq!(anchor_padding(viewport_width, 7), 43);
    assert_eq!(anchor_padding(viewport_width, 50), 0);
}

#[test]
fn degenerate_areas() {
    let empty = Rect { x: 0, y: 4, width: 0, height: 0 };
    assert_eq!(centered_line_area(empty).y, 4);
    assert_eq!(anchor_padding(0, 3), 0);
    assert_eq!(anchor_padding(7, 1), 2);
}

fn reader(words: &[&str]) -> Playback {
    let (sender, receiver) = sync_channel(4);
    let tokens = words
        .iter()
        .map(|w| Token {
            text: (*w).into(),
            paragraph_index: 0,
        })
        .collect();
    sender
        .send(StreamEvent::Chunk(StreamChunk {
            id: 0,
            start_word_index: 0,
            tokens,
            eof: true,
        }))
        .unwrap();
    Playback::from_stream(receiver, DEFAULT_WPM, OrpMode::Spritz).unwrap()
}

#[test]
fn keys_drive_the_playback() {
    let mut playback = reader(&["one", "two", "three"]);

    assert_eq!(
        handle_key(&mut playback, ReaderKey::PlayPause),
        KeyOutcome::Continue { reset_tick: true }
    );
    assert!(playback.is_playing());
    assert_eq!(
        handle_key(&mut playback, ReaderKey::PlayPause),
        KeyOutcome::Continue { reset_tick: false }
    );
    assert!(!playback.is_playing());

    assert_eq!(
        handle_key(&mut playback, ReaderKey::Next),
        KeyOutcome::Continue { reset_tick: true }
    );
    assert_eq!(playback.index(), 1);
    handle_key(&mut playback, ReaderKey::Previous);
    assert_eq!(playback.index(), 0);

    handle_key(&mut playback, ReaderKey::Faster);
    assert_eq!(playback.wpm(), DEFAULT_WPM + WPM_STEP);
    handle_key(&mut playback, ReaderKey::Slower);
    handle_key(&mut playback, ReaderKey::Slower);
    assert_eq!(playback.wpm(), DEFAULT_WPM - WPM_STEP);

    assert_eq!(
        handle_key(&mut playback, ReaderKey::CycleOrp),
        KeyOutcome::Continue { reset_tick: false }
    );
    assert_eq!(playback.orp_mode(), OrpMode::Center);

    assert_eq!(handle_key(&mut playback, ReaderKey::Restart), KeyOutcome::Restart);
    assert_eq!(handle_key(&mut playback, ReaderKey::Quit), KeyOutcome::Quit);
    assert_eq!(playback.index(), 0);
}

#[test]
fn status_line_shows_position_speed_mode_and_state() {
    let mut playback = reader(&["one", "two", "three"]);
    assert_eq!(
        status_line(&playback),
        "1/3 | 300 WPM | Spritz | paused | Space pause  arrows nav/speed  o ORP  r restart  q quit"
    );
    handle_key(&mut playback, ReaderKey::Next);
    handle_key(&mut playback, ReaderKey::CycleOrp);
    handle_key(&mut playback, ReaderKey::Faster);
    handle_key(&mut playback, ReaderKey::PlayPause);
    assert_eq!(
        status_line(&playback),
        "2/3 | 325 WPM | Center | playing | Space pause  arrows nav/speed  o ORP  r restart  q quit"
    );
    let empty = reader(&[]);
    assert!(status_line(&empty).starts_with("0/0 | 300 WPM"));
}
