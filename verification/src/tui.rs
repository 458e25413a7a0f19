use vstd::prelude::*;

use crate::playback::{
    decreased_wpm, increased_wpm, spec_step, spec_step_back, spec_toggle, Playback,
    PlaybackView,
};
use crate::error::{decimal, push_decimal};
use crate::rsvp::{spec_next_mode, OrpMode};
use crate::stream::Polled;

verus! {

/// A rectangle of terminal cells.
#[derive(Debug, Clone, Copy, PartialEq, Eq, Structural)]
pub struct Rect {
    pub x: u16,
    pub y: u16,
    pub width: u16,
    pub height: u16,
}

/// The one-row area, as wide as `area`, on its middle row (the upper one
/// of two middles).
pub fn centered_line_area(area: Rect) -> (line: Rect)
    requires
        area.y + (if area.height == 0 { 0 } else { area.height - 1 }) / 2 <= u16::MAX,
    ensures
        line.x == area.x,
        line.y == area.y + (if area.height == 0 { 0 } else { area.height - 1 }) / 2,
        line.width == area.width,
        line.height == 1,
{
    let offset = area.height.saturating_sub(1) / 2;
    Rect { x: area.x, y: area.y + offset, width: area.width, height: 1 }
}

/// The spaces needed before a word so that its pivot falls on the middle
/// column of a viewport `viewport_width` columns wide, given the width of
/// the text before the pivot.
pub fn anchor_padding(viewport_width: u16, prefix_width: usize) -> (padding: usize)
    ensures
        padding == if prefix_width <= viewport_width / 2 { viewport_width / 2 - prefix_width } else { 0 },
{
    let anchor_column = viewport_width as usize / 2;
    anchor_column.saturating_sub(prefix_width)
}

/// A key the reader acts on.
#[derive(Debug, Clone, Copy, PartialEq, Eq, Structural)]
pub enum ReaderKey {
    /// `q`
    Quit,
    /// Space
    PlayPause,
    /// Left
    Previous,
    /// Right
    Next,
    /// Up
    Faster,
    /// Down
    Slower,
    /// `o`
    CycleOrp,
    /// `r`
    Restart,
}

/// What the frontend does after a key.
#[derive(Debug, Clone, Copy, PartialEq, Eq, Structural)]
pub enum KeyOutcome {
    /// Leave the reader.
    Quit,
    /// Reload the document and restart the playback on the new stream.
    Restart,
    /// Keep reading; when `reset_tick` holds, the current word's display
    /// time starts over.
    Continue { reset_tick: bool },
}

/// Applies `key` to `playback`: play/pause, stepping and speed changes act
/// at once (and restart the current word's display time; play/pause only
/// when it starts playing), the ORP mode switches, and quitting and
/// restarting are left to the frontend.
pub fn handle_key(playback: &mut Playback, key: ReaderKey) -> (outcome: KeyOutcome)
    requires
        old(playback)@.wf(),
    ensures
        final(playback)@.wf(),
        final(playback).channel() == old(playback).channel(),
        match key {
            ReaderKey::Quit => outcome == KeyOutcome::Quit && final(playback)@ == old(playback)@,
            ReaderKey::Restart => outcome == KeyOutcome::Restart && final(playback)@ == old(playback)@,
            ReaderKey::PlayPause => final(playback)@ == spec_toggle(old(playback)@)
                && outcome == (KeyOutcome::Continue {
                    reset_tick: !old(playback)@.playing && final(playback)@.playing,
                }),
            ReaderKey::Previous => final(playback)@ == spec_step_back(old(playback)@)
                && outcome == (KeyOutcome::Continue { reset_tick: true }),
            ReaderKey::Next => (exists|p1: Polled, p2: Polled|
                final(playback)@ == #[trigger] spec_step(old(playback)@, p1, p2))
                && outcome == (KeyOutcome::Continue { reset_tick: true }),
            ReaderKey::Faster => final(playback)@ == (PlaybackView {
                wpm: increased_wpm(old(playback)@.wpm),
                ..old(playback)@
            }) && outcome == (KeyOutcome::Continue { reset_tick: true }),
            ReaderKey::Slower => final(playback)@ == (PlaybackView {
                wpm: decreased_wpm(old(playback)@.wpm),
                ..old(playback)@
            }) && outcome == (KeyOutcome::Continue { reset_tick: true }),
            ReaderKey::CycleOrp => final(playback)@ == (PlaybackView {
                orp_mode: spec_next_mode(old(playback)@.orp_mode),
                ..old(playback)@
            }) && outcome == (KeyOutcome::Continue { reset_tick: false }),
        },
{
    match key {
        ReaderKey::Quit => KeyOutcome::Quit,
        ReaderKey::Restart => KeyOutcome::Restart,
        ReaderKey::PlayPause => {
            let was_playing = playback.is_playing();
            playback.toggle_playing();
            let reset_tick = !was_playing && playback.is_playing();
            KeyOutcome::Continue { reset_tick }
        },
        ReaderKey::Previous => {
            playback.previous();
            KeyOutcome::Continue { reset_tick: true }
        },
        ReaderKey::Next => {
            playback.next();
            KeyOutcome::Continue { reset_tick: true }
        },
        ReaderKey::Faster => {
            playback.increase_wpm();
            KeyOutcome::Continue { reset_tick: true }
        },
        ReaderKey::Slower => {
            playback.decrease_wpm();
            KeyOutcome::Continue { reset_tick: true }
        },
        ReaderKey::CycleOrp => {
            playback.cycle_orp_mode();
            KeyOutcome::Continue { reset_tick: false }
        },
    }
}

/// The status line under the reader: the position as `n/total` (`0/0`
/// when there is no word), the speed, the ORP mode, whether it plays, and
/// the key help.
pub open spec fn status_text(v: PlaybackView) -> Seq<char> {
    let progress = if v.current.tokens@.len() == 0 {
        "0/0"@
    } else {
        decimal((v.position() + 1) as nat) + "/"@ + decimal(v.loaded_words() as nat)
    };
    let mode = match v.orp_mode {
        OrpMode::Spritz => "Spritz"@,
        OrpMode::Center => "Center"@,
    };
    let state = if v.playing { "playing"@ } else { "paused"@ };
    progress + " | "@ + decimal(v.wpm as nat) + " WPM | "@ + mode + " | "@ + state
        + " | Space pause  arrows nav/speed  o ORP  r restart  q quit"@
}

/// The status line for `playback` (see `status_text`).
pub fn status_line(playback: &Playback) -> (s: String)
    requires
        playback@.current.tokens@.len() > 0 ==> playback@.position() + 1 <= usize::MAX,
    ensures
        s@ == status_text(playback@),
{
    let mut s = String::new();
    if playback.is_empty() {
        s.append("0/0");
    } else {
        let index = playback.index();
        push_decimal(&mut s, (index + 1) as u64);
        s.append("/");
        push_decimal(&mut s, playback.len() as u64);
    }
    s.append(" | ");
    push_decimal(&mut s, playback.wpm() as u64);
    s.append(" WPM | ");
    s.append(playback.orp_mode().label());
    s.append(" | ");
    if playback.is_playing() {
        s.append("playing");
    } else {
        s.append("paused");
    }
    s.append(" | Space pause  arrows nav/speed  o ORP  r restart  q quit");
    proof {
        reveal_strlit("0/0");
        reveal_strlit("/");
        reveal_strlit(" | ");
        reveal_strlit(" WPM | ");
        reveal_strlit("Spritz");
        reveal_strlit("Center");
        reveal_strlit("playing");
        reveal_strlit("paused");
        reveal_strlit(" | Space pause  arrows nav/speed  o ORP  r restart  q quit");
        assert(s@ =~= status_text(playback@));
    }
    s
}

} // verus!
