use std::sync::mpsc::{sync_channel, Receiver, SyncSender};
use std::time::Duration;

use rsvp::error::OrpError;
use rsvp::playback::{duration_for_wpm, first_chunk_from, Playback, DEFAULT_WPM, MAX_WPM, WPM_STEP};
use rsvp::rsvp::OrpMode;
use rsvp::stream::{Polled, StreamChunk, StreamEvent};
use rsvp::tokenize::Token;

fn tokens() -> Vec<Token> {
    ["one", "two", "three"]
        .into_iter()
        .map(|text| Token {
            text: text.into(),
            paragraph_index: 0,
        })
        .collect()
}

fn token(text: &str, paragraph_index: usize) -> Token {
    Token {
        text: text.into(),
        paragraph_index,
    }
}

fn chunk(id: usize, start_word_index: usize, tokens: Vec<Token>, eof: bool) -> StreamChunk {
    StreamChunk {
        id,
        start_word_index,
        tokens,
        eof,
    }
}

/// A playback reading `first`, whose stream holds `queued` behind it.
fn streaming_playback(
    first: StreamChunk,
    queued: Vec<StreamChunk>,
) -> (Playback, SyncSender<StreamEvent>) {
    let (sender, receiver): (SyncSender<StreamEvent>, Receiver<StreamEvent>) = sync_channel(8);
    sender.send(StreamEvent::Chunk(first)).unwrap();
    for c in queued {
        sender.send(StreamEvent::Chunk(c)).unwrap();
    }
    let playback = Playback::from_stream(receiver, DEFAULT_WPM, OrpMode::Spritz).unwrap();
    (playback, sender)
}

fn closed_playback(tokens: Vec<Token>) -> Playback {
    let (playback, _sender) = streaming_playback(chunk(0, 0, tokens, true), Vec::new());
    playback
}

#[test]
fn playback_state_handles_controls_and_bounds() {
    let mut playback = closed_playback(tokens());

    assert!(!playback.is_playing());
    playback.toggle_playing();
    playback.tick();
    assert_eq!(playback.index(), 1);
    playback.previous();
    assert_eq!(playback.index(), 0);
    playback.decrease_wpm();
    assert_eq!(playback.wpm(), 275);
    for _ in 0..40 {
        playback.increase_wpm();
    }
    assert_eq!(playback.wpm(), MAX_WPM);
    playback.cycle_orp_mode();
    assert_eq!(playback.orp_mode(), OrpMode::Center);
}

#[test]
fn wpm_changes_apply_immediately() {
    let mut playback = closed_playback(tokens());

    assert_eq!(playback.current_duration(), duration_for_wpm(DEFAULT_WPM));

    playback.increase_wpm();

    assert_eq!(
        playback.current_duration(),
        duration_for_wpm(DEFAULT_WPM + WPM_STEP)
    );
}

#[test]
fn playback_pauses_at_end() {
    let mut playback = closed_playback(tokens());

    playback.toggle_playing();
    playback.tick();
    playback.tick();
    playback.tick();

    assert_eq!(playback.index(), 2);
    assert!(!playback.is_playing());
}

#[test]
fn streaming_playback_rotates_chunks_and_steps_back() {
    let (mut playback, _sender) = streaming_playback(
        chunk(0, 0, vec![token("one", 0)], false),
        vec![chunk(1, 1, vec![token("two", 0)], true)],
    );

    playback.poll_stream();
    playback.next();

    assert_eq!(playback.index(), 1);

    playback.previous();

    assert_eq!(playback.index(), 0);
}

#[test]
fn streaming_playback_pauses_at_unloaded_boundary() {
    let (mut playback, _sender) =
        streaming_playback(chunk(0, 0, vec![token("one", 0)], false), Vec::new());
    playback.toggle_playing();

    playback.next();

    assert!(playback.is_loading());
    assert!(!playback.is_playing());
    assert_eq!(playback.index(), 0);
}

#[test]
fn timing_uses_loaded_next_chunk_for_paragraph_pause() {
    let (mut playback, _sender) = streaming_playback(
        chunk(0, 0, vec![token("end.", 0)], false),
        vec![chunk(1, 1, vec![token("next", 1)], true)],
    );

    playback.poll_stream();

    assert_eq!(playback.current_duration(), Duration::from_millis(500));
}

#[test]
fn invalid_wpm_is_refused_before_reading() {
    let (_sender, receiver) = sync_channel::<StreamEvent>(1);
    match Playback::from_stream(receiver, 20, OrpMode::Spritz) {
        Err(OrpError::InvalidWpm { actual, .. }) => assert_eq!(actual, 20),
        _ => panic!("expected an invalid WPM error"),
    }
}

#[test]
fn failed_stream_reports_its_error() {
    let (sender, receiver) = sync_channel(1);
    sender
        .send(StreamEvent::Failed(OrpError::NoReadableText {
            path: "empty.txt".into(),
        }))
        .unwrap();
    match Playback::from_stream(receiver, 300, OrpMode::Spritz) {
        Err(OrpError::NoReadableText { path }) => assert_eq!(path, "empty.txt"),
        _ => panic!("expected the worker's error"),
    }
    let (sender, receiver) = sync_channel::<StreamEvent>(1);
    drop(sender);
    assert!(matches!(
        Playback::from_stream(receiver, 300, OrpMode::Spritz),
        Err(OrpError::StreamDisconnected)
    ));
}

#[test]
fn disconnect_while_prefetching_stops_playback() {
    let (sender, receiver) = sync_channel(2);
    sender
        .send(StreamEvent::Chunk(chunk(0, 0, vec![token("one", 0)], false)))
        .unwrap();
    drop(sender);
    let mut playback = Playback::from_stream(receiver, 300, OrpMode::Spritz).unwrap();
    assert_eq!(playback.stream_error(), Some("text stream disconnected"));
    playback.toggle_playing();
    assert!(!playback.is_playing());
}

#[test]
fn stepping_back_undoes_stepping_forward_within_a_chunk() {
    let mut playback = closed_playback(tokens());
    playback.next();
    playback.next();
    assert_eq!(playback.index(), 2);
    playback.previous();
    assert_eq!(playback.index(), 1);
    playback.previous();
    playback.previous();
    assert_eq!(playback.index(), 0);
    assert_eq!(playback.current().unwrap().text, "one");
}

#[test]
fn toggling_twice_restores_playing() {
    let mut playback = closed_playback(tokens());
    playback.toggle_playing();
    assert!(playback.is_playing());
    playback.toggle_playing();
    assert!(!playback.is_playing());
}

#[test]
fn speed_round_trip_and_floor() {
    let mut playback = closed_playback(tokens());
    playback.increase_wpm();
    playback.decrease_wpm();
    assert_eq!(playback.wpm(), DEFAULT_WPM);
    for _ in 0..20 {
        playback.decrease_wpm();
    }
    assert_eq!(playback.wpm(), 100);
}

#[test]
fn restart_resumes_at_the_first_word() {
    let mut playback = closed_playback(tokens());
    playback.next();
    playback.next();
    let (sender, receiver) = sync_channel(2);
    sender
        .send(StreamEvent::Chunk(chunk(0, 0, tokens(), true)))
        .unwrap();
    playback.restart(receiver);
    assert_eq!(playback.index(), 0);
    assert!(playback.is_playing());
    assert_eq!(playback.stream_error(), None);
}

#[test]
fn current_word_and_loaded_length() {
    let (playback, _sender) = streaming_playback(
        chunk(0, 0, tokens(), false),
        vec![chunk(1, 3, vec![token("four", 0)], true)],
    );
    let word = playback.current().unwrap();
    assert_eq!(word.text, "one");
    assert_eq!(word.pivot_index, 1);
    assert_eq!(playback.len(), 4);
    assert!(!playback.is_empty());
    assert!(!playback.is_at_end());
}

#[test]
fn stepping_forward_undoes_stepping_back_across_chunks() {
    let (mut playback, _sender) = streaming_playback(
        chunk(0, 0, vec![token("one", 0), token("two", 0)], false),
        vec![chunk(1, 2, vec![token("three", 0), token("four", 1)], true)],
    );
    playback.poll_stream();
    playback.next();
    playback.next();
    assert_eq!(playback.index(), 2);
    assert_eq!(playback.current().unwrap().text, "three");

    playback.previous();
    assert_eq!(playback.index(), 1);
    assert_eq!(playback.current().unwrap().text, "two");
    playback.next();
    assert_eq!(playback.index(), 2);
    assert_eq!(playback.current().unwrap().text, "three");
}

#[test]
fn first_receive_result_decides_the_start() {
    let c = chunk(0, 0, tokens(), true);
    assert_eq!(first_chunk_from(Some(StreamEvent::Chunk(c.clone()))), Ok(c.clone()));
    assert_eq!(
        first_chunk_from(Some(StreamEvent::Failed(OrpError::Terminal))),
        Err(OrpError::Terminal)
    );
    assert_eq!(first_chunk_from(None), Err(OrpError::StreamDisconnected));

    let (_sender, receiver) = sync_channel::<StreamEvent>(1);
    let playback = Playback::start_with(receiver, Some(StreamEvent::Chunk(c)), 300, OrpMode::Center)
        .unwrap();
    assert_eq!(playback.index(), 0);
    assert!(!playback.is_playing());
    assert_eq!(playback.len(), 3);
    assert_eq!(playback.current().unwrap().text, "one");

    let (_sender, receiver) = sync_channel::<StreamEvent>(1);
    assert_eq!(
        Playback::start_with(receiver, None, 300, OrpMode::Center).err(),
        Some(OrpError::StreamDisconnected)
    );
    let (_sender, receiver) = sync_channel::<StreamEvent>(1);
    assert_eq!(
        Playback::start_with(receiver, None, 50, OrpMode::Center).err(),
        Some(OrpError::InvalidWpm {
            actual: 50,
            min: 100,
            max: 1000
        })
    );
}

#[test]
fn polled_chunk_becomes_the_next_one() {
    let (mut playback, _sender) =
        streaming_playback(chunk(0, 0, vec![token("one", 0)], false), Vec::new());
    assert_eq!(playback.len(), 1);
    playback.take_polled(Polled::Empty);
    assert_eq!(playback.len(), 1);
    playback.take_polled(Polled::Event(StreamEvent::Chunk(chunk(
        1,
        1,
        vec![token("two", 0)],
        true,
    ))));
    assert_eq!(playback.len(), 2);
    playback.next();
    assert_eq!(playback.current().unwrap().text, "two");
    assert!(playback.is_at_end());

    let (mut playback, _sender) =
        streaming_playback(chunk(0, 0, vec![token("one", 0)], false), Vec::new());
    playback.take_polled(Polled::Disconnected);
    assert_eq!(playback.stream_error(), Some("text stream disconnected"));
    assert!(!playback.is_playing());
}

#[test]
fn restart_with_a_received_chunk_or_error() {
    let mut playback = closed_playback(tokens());
    playback.next();
    let (_sender, receiver) = sync_channel::<StreamEvent>(1);
    playback.restart_with(receiver, Some(StreamEvent::Chunk(chunk(0, 0, vec![token("again", 0)], true))));
    assert_eq!(playback.index(), 0);
    assert!(playback.is_playing());
    assert_eq!(playback.current().unwrap().text, "again");

    let (_sender, receiver) = sync_channel::<StreamEvent>(1);
    playback.restart_with(receiver, None);
    assert!(!playback.is_playing());
    assert_eq!(playback.stream_error(), Some("text stream disconnected"));
}

#[test]
fn restart_reads_the_new_channel_afterwards() {
    let (mut playback, old_sender) =
        streaming_playback(chunk(0, 0, vec![token("old", 0)], false), Vec::new());
    let (sender, receiver) = sync_channel(4);
    sender
        .send(StreamEvent::Chunk(chunk(0, 0, vec![token("new", 0)], false)))
        .unwrap();
    playback.restart(receiver);
    assert_eq!(playback.current().unwrap().text, "new");
    // The old channel's receiving end is gone with the restart.
    assert!(old_sender
        .send(StreamEvent::Chunk(chunk(1, 1, vec![token("stale", 0)], true)))
        .is_err());
    sender
        .send(StreamEvent::Chunk(chunk(1, 1, vec![token("fresh", 0)], true)))
        .unwrap();
    playback.poll_stream();
    playback.next();
    assert_eq!(playback.current().unwrap().text, "fresh");
    assert!(playback.is_at_end());
}
