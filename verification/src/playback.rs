use vstd::prelude::*;
use std::time::Duration;

use std::sync::mpsc::Receiver;

use crate::chars::chars_of;
use crate::error::{error_message, OrpError};
use crate::rsvp::{spec_next_mode, word_fields, OrpMode, RsvpWord};
use crate::stream::{receive, try_receive, Polled, StreamChunk, StreamEvent};
use crate::tokenize::Token;

verus! {

/// Reading speed used when none is given, in words per minute.
pub const DEFAULT_WPM: u16 = 300;

/// Slowest accepted reading speed.
pub const MIN_WPM: u16 = 100;

/// Fastest accepted reading speed.
pub const MAX_WPM: u16 = 1000;

/// How much one speed adjustment changes the speed.
pub const WPM_STEP: u16 = 25;

/// What `Duration::from_millis` returns for `ms`.
pub uninterp spec fn spec_duration_from_millis(ms: u64) -> Duration;

/// `Duration::from_millis`.
#[verifier::external_body]
pub(crate) fn duration_from_millis(ms: u64) -> (d: Duration)
    ensures
        d == spec_duration_from_millis(ms),
{
    Duration::from_millis(ms)
}

/// Accepts a speed within `MIN_WPM..=MAX_WPM`.
pub fn validate_wpm(wpm: u16) -> (res: Result<(), OrpError>)
    ensures
        res is Ok <==> MIN_WPM <= wpm <= MAX_WPM,
        res is Err ==> res == Err::<(), OrpError>(
            OrpError::InvalidWpm { actual: wpm, min: MIN_WPM, max: MAX_WPM },
        ),
{
    if MIN_WPM <= wpm && wpm <= MAX_WPM {
        Ok(())
    } else {
        Err(OrpError::InvalidWpm { actual: wpm, min: MIN_WPM, max: MAX_WPM })
    }
}

/// Milliseconds per word at `wpm` words per minute (a speed of 0 counts as 1).
pub open spec fn base_millis(wpm: u16) -> int {
    60_000int / (if wpm == 0 { 1int } else { wpm as int })
}

/// How long one word is shown at `wpm` words per minute.
pub fn duration_for_wpm(wpm: u16) -> (d: Duration)
    ensures
        d == spec_duration_from_millis(base_millis(wpm) as u64),
{
    let w: u64 = if wpm == 0 { 1 } else { wpm as u64 };
    duration_from_millis(60_000 / w)
}

/// Closing quotes and brackets, which do not end a sentence themselves.
pub open spec fn is_closing(c: char) -> bool {
    c == '"' || c == '\'' || c == ')' || c == ']' || c == '}' || c == '\u{201D}' || c == '\u{2019}'
}

/// The last character of `text` that is not a closing quote or bracket.
pub open spec fn trailing_punctuation(text: Seq<char>) -> Option<char>
    decreases text.len(),
{
    if text.len() == 0 {
        None
    } else if is_closing(text.last()) {
        trailing_punctuation(text.drop_last())
    } else {
        Some(text.last())
    }
}

/// The factor (numerator, denominator) by which a token's display time is
/// stretched: 5/2 before a paragraph break, 2 after `.`, `?` or `!`, 3/2
/// after `,`, `;` or `:`, else 1.
pub open spec fn spec_timing_ratio(
    text: Seq<char>,
    paragraph_index: int,
    next_paragraph_index: Option<int>,
) -> (int, int) {
    if next_paragraph_index matches Some(n) && n > paragraph_index {
        (5, 2)
    } else {
        match trailing_punctuation(text) {
            Some(c) => if c == '.' || c == '?' || c == '!' {
                (2, 1)
            } else if c == ',' || c == ';' || c == ':' {
                (3, 2)
            } else {
                (1, 1)
            },
            None => (1, 1),
        }
    }
}

/// Milliseconds a token is shown for, given the token that follows it.
pub open spec fn token_millis(token: Token, next_token: Option<Token>, wpm: u16) -> int {
    let ratio = spec_timing_ratio(
        token.text@,
        token.paragraph_index as int,
        match next_token {
            Some(t) => Some(t.paragraph_index as int),
            None => None,
        },
    );
    base_millis(wpm) * ratio.0 / ratio.1
}

fn trailing_reading_punctuation(text: &str) -> (res: Option<char>)
    ensures
        res == trailing_punctuation(text@),
{
    let chars = chars_of(text);
    let mut i = chars.len();
    assert(chars@.take(i as int) =~= chars@);
    while i > 0
        invariant
            i <= chars@.len(),
            trailing_punctuation(text@) == trailing_punctuation(chars@.take(i as int)),
        decreases i,
    {
        let c = chars[i - 1];
        proof {
            assert(chars@.take(i as int).drop_last() =~= chars@.take(i - 1));
        }
        if !(c == '"' || c == '\'' || c == ')' || c == ']' || c == '}' || c == '\u{201D}' || c
            == '\u{2019}') {
            return Some(c);
        }
        i -= 1;
    }
    None
}

fn timing_ratio(token: &Token, next_token: Option<&Token>) -> (ratio: (u64, u64))
    ensures
        ratio.0 as int == spec_timing_ratio(
            token.text@,
            token.paragraph_index as int,
            match next_token {
                Some(t) => Some(t.paragraph_index as int),
                None => None,
            },
        ).0,
        ratio.1 as int == spec_timing_ratio(
            token.text@,
            token.paragraph_index as int,
            match next_token {
                Some(t) => Some(t.paragraph_index as int),
                None => None,
            },
        ).1,
{
    if let Some(next) = next_token {
        if next.paragraph_index > token.paragraph_index {
            return (5, 2);
        }
    }
    match trailing_reading_punctuation(token.text.as_str()) {
        Some(c) => if c == '.' || c == '?' || c == '!' {
            (2, 1)
        } else if c == ',' || c == ';' || c == ':' {
            (3, 2)
        } else {
            (1, 1)
        },
        None => (1, 1),
    }
}

/// How long `token` is shown at `wpm` words per minute: the base time per
/// word stretched by the token's pause (see `spec_timing_ratio`).
pub fn duration_for_token(token: &Token, next_token: Option<&Token>, wpm: u16) -> (d: Duration)
    ensures
        d == spec_duration_from_millis(
            token_millis(
                *token,
                match next_token {
                    Some(t) => Some(*t),
                    None => None,
                },
                wpm,
            ) as u64,
        ),
{
    let w: u64 = if wpm == 0 { 1 } else { wpm as u64 };
    let base_ms = 60_000 / w;
    let (numerator, denominator) = timing_ratio(token, next_token);
    proof {
        assert(base_ms * numerator <= 60_000 * 5) by (nonlinear_arith)
            requires
                base_ms <= 60_000,
                numerator <= 5,
        ;
    }
    duration_from_millis(base_ms * numerator / denominator)
}


/// The reader's state: a window of up to three chunks (the one before, the
/// one being read, the one after), the position in the current chunk,
/// play/pause, speed, ORP mode and the loading status.
pub struct Playback {
    prev: Option<StreamChunk>,
    current: StreamChunk,
    next: Option<StreamChunk>,
    receiver: Receiver<StreamEvent>,
    local_index: usize,
    playing: bool,
    wpm: u16,
    orp_mode: OrpMode,
    stream_done: bool,
    loading: bool,
    error: Option<String>,
}

/// The abstract state of a `Playback`.
pub struct PlaybackView {
    pub prev: Option<StreamChunk>,
    pub current: StreamChunk,
    pub next: Option<StreamChunk>,
    pub local_index: usize,
    pub playing: bool,
    pub wpm: u16,
    pub orp_mode: OrpMode,
    pub stream_done: bool,
    pub loading: bool,
    pub error: Option<Seq<char>>,
}

impl View for Playback {
    type V = PlaybackView;

    closed spec fn view(&self) -> PlaybackView {
        PlaybackView {
            prev: self.prev,
            current: self.current,
            next: self.next,
            local_index: self.local_index,
            playing: self.playing,
            wpm: self.wpm,
            orp_mode: self.orp_mode,
            stream_done: self.stream_done,
            loading: self.loading,
            error: match self.error {
                Some(e) => Some(e@),
                None => None,
            },
        }
    }
}

impl PlaybackView {
    /// The speed is within bounds and the position is inside the current
    /// chunk (or at 0 when the chunk is empty).
    pub open spec fn wf(self) -> bool {
        &&& MIN_WPM <= self.wpm <= MAX_WPM
        &&& self.local_index == 0 || self.local_index < self.current.tokens@.len()
    }

    /// The token under the reading position.
    pub open spec fn current_token(self) -> Option<Token> {
        if self.local_index < self.current.tokens@.len() {
            Some(self.current.tokens@[self.local_index as int])
        } else {
            None
        }
    }

    /// The token after the reading position, from the current chunk or the
    /// first of the loaded next chunk.
    pub open spec fn next_token(self) -> Option<Token> {
        if self.local_index + 1 < self.current.tokens@.len() {
            Some(self.current.tokens@[self.local_index + 1])
        } else {
            match self.next {
                Some(c) => if c.tokens@.len() > 0 {
                    Some(c.tokens@[0])
                } else {
                    None
                },
                None => None,
            }
        }
    }

    /// The reader is on the last token of the whole document.
    pub open spec fn at_end(self) -> bool {
        self.stream_done && self.next is None && self.local_index + 1 >= self.current.tokens@.len()
    }

    /// How many words are loaded: up to the end of the next chunk if one is
    /// held, else of the current one (capped at `usize::MAX`).
    pub open spec fn loaded_words(self) -> int {
        let c = match self.next { Some(nc) => nc, None => self.current };
        let total = c.start_word_index + c.tokens@.len();
        if total <= usize::MAX { total } else { usize::MAX as int }
    }

    /// The position in the document: the current chunk's first word index
    /// plus the position inside the chunk.
    pub open spec fn position(self) -> int {
        self.current.start_word_index + self.local_index
    }
}

/// The first state after the first chunk `c` arrives.
pub open spec fn initial_view(c: StreamChunk, wpm: u16, orp_mode: OrpMode) -> PlaybackView {
    PlaybackView {
        prev: None,
        current: c,
        next: None,
        local_index: 0,
        playing: false,
        wpm,
        orp_mode,
        stream_done: c.eof,
        loading: false,
        error: None,
    }
}

/// What a blocking receive yields as the first chunk: the chunk, the
/// worker's error, or a disconnection.
pub open spec fn first_chunk_of(e: Option<StreamEvent>) -> Result<StreamChunk, OrpError> {
    match e {
        Some(StreamEvent::Chunk(c)) => Ok(c),
        Some(StreamEvent::Failed(err)) => Err(err),
        None => Err(OrpError::StreamDisconnected),
    }
}

/// The state after the channel was polled and `p` came back.
pub open spec fn after_poll(v: PlaybackView, p: Polled) -> PlaybackView {
    match p {
        Polled::Event(StreamEvent::Chunk(c)) => PlaybackView {
            loading: false,
            stream_done: v.stream_done || c.eof,
            next: Some(c),
            ..v
        },
        Polled::Event(StreamEvent::Failed(e)) => PlaybackView {
            error: Some(error_message(e)),
            playing: false,
            loading: false,
            ..v
        },
        Polled::Empty => v,
        Polled::Disconnected => PlaybackView {
            error: Some(error_message(OrpError::StreamDisconnected)),
            playing: false,
            loading: false,
            ..v
        },
    }
}

/// Prefetching the next chunk: the channel is polled only when no next
/// chunk is held, the stream is not finished and no error occurred.
pub open spec fn after_fill(v: PlaybackView, p: Polled) -> PlaybackView {
    if v.next is Some || v.stream_done || v.error is Some {
        v
    } else {
        after_poll(v, p)
    }
}

/// Moving into the next chunk: the current one becomes the previous one.
pub open spec fn rotate_forward(v: PlaybackView) -> PlaybackView {
    PlaybackView {
        prev: Some(v.current),
        current: v.next->0,
        next: None,
        local_index: 0,
        loading: false,
        ..v
    }
}

/// One step forward, where `p1` and `p2` are what the channel polls (if
/// any) return.
pub open spec fn spec_step(v: PlaybackView, p1: Polled, p2: Polled) -> PlaybackView {
    if v.error is Some {
        PlaybackView { playing: false, ..v }
    } else if v.local_index + 1 < v.current.tokens@.len() {
        PlaybackView { local_index: (v.local_index + 1) as usize, loading: false, ..v }
    } else if v.next is Some {
        after_fill(rotate_forward(v), p1)
    } else {
        let w = after_fill(v, p1);
        if w.next is Some {
            after_fill(rotate_forward(w), p2)
        } else if w.current.eof || w.stream_done {
            PlaybackView { playing: false, loading: false, ..w }
        } else {
            PlaybackView { playing: false, loading: true, ..w }
        }
    }
}

/// One step back; from the start of a chunk into the previous chunk, whose
/// last token becomes current (only one chunk back is kept).
pub open spec fn spec_step_back(v: PlaybackView) -> PlaybackView {
    let v1 = PlaybackView { loading: false, ..v };
    if v1.local_index > 0 {
        PlaybackView { local_index: (v1.local_index - 1) as usize, ..v1 }
    } else if v1.prev is Some {
        let c = v1.prev->0;
        PlaybackView {
            prev: None,
            current: c,
            next: Some(v1.current),
            local_index: if c.tokens@.len() > 0 { (c.tokens@.len() - 1) as usize } else { 0 },
            ..v1
        }
    } else {
        v1
    }
}

/// Play/pause; an error or the end of the document forces a pause.
pub open spec fn spec_toggle(v: PlaybackView) -> PlaybackView {
    if v.error is Some || v.at_end() {
        PlaybackView { playing: false, ..v }
    } else {
        PlaybackView { playing: !v.playing, loading: if !v.playing { false } else { v.loading }, ..v }
    }
}

/// `wpm` brought into `MIN_WPM..=MAX_WPM`.
pub open spec fn clamp_wpm(wpm: int) -> u16 {
    if wpm < MIN_WPM { MIN_WPM } else if wpm > MAX_WPM { MAX_WPM } else { wpm as u16 }
}

/// The speed after one increase.
pub open spec fn increased_wpm(wpm: u16) -> u16 {
    clamp_wpm(wpm + WPM_STEP)
}

/// The speed after one decrease.
pub open spec fn decreased_wpm(wpm: u16) -> u16 {
    clamp_wpm(wpm - WPM_STEP)
}

/// The state right after starting over on a fresh stream whose first
/// receive gave `first`: reading resumes at once at its first chunk, or
/// stops with the error it stands for.
pub open spec fn restart_start(v: PlaybackView, first: Option<StreamEvent>) -> PlaybackView {
    let base = PlaybackView {
        prev: None,
        next: None,
        local_index: 0,
        playing: false,
        stream_done: false,
        loading: true,
        error: None,
        ..v
    };
    match first_chunk_of(first) {
        Ok(c) => PlaybackView { current: c, loading: false, playing: true, ..base },
        Err(e) => PlaybackView { error: Some(error_message(e)), playing: false, ..base },
    }
}

/// Starting over on a fresh stream whose first receive gave `first` and
/// whose prefetch poll gave `p`.
pub open spec fn spec_restart(v: PlaybackView, first: Option<StreamEvent>, p: Polled) -> PlaybackView {
    after_fill(restart_start(v, first), p)
}

/// The state right after the first receive gave `first`, before any
/// prefetch.
pub open spec fn start_view(first: Option<StreamEvent>, wpm: u16, orp_mode: OrpMode) -> Result<PlaybackView, OrpError> {
    match first_chunk_of(first) {
        Ok(c) => Ok(initial_view(c, wpm, orp_mode)),
        Err(e) => Err(e),
    }
}

/// How starting a stream ends, given the first receive's result `first`
/// and the prefetch poll's result `p`.
pub open spec fn start_outcome(first: Option<StreamEvent>, p: Polled, wpm: u16, orp_mode: OrpMode) -> Result<PlaybackView, OrpError> {
    match first_chunk_of(first) {
        Ok(c) => Ok(after_fill(initial_view(c, wpm, orp_mode), p)),
        Err(e) => Err(e),
    }
}

/// The abstract state of a started playback, or the error.
pub open spec fn result_view(res: Result<Playback, OrpError>) -> Result<PlaybackView, OrpError> {
    match res {
        Ok(pb) => Ok(pb@),
        Err(e) => Err(e),
    }
}

/// The first chunk that a receive's result `first` holds, or the error it
/// stands for (a closed channel is `StreamDisconnected`).
pub fn first_chunk_from(first: Option<StreamEvent>) -> (res: Result<StreamChunk, OrpError>)
    ensures
        res == first_chunk_of(first),
{
    match first {
        Some(StreamEvent::Chunk(chunk)) => Ok(chunk),
        Some(StreamEvent::Failed(error)) => Err(error),
        None => Err(OrpError::StreamDisconnected),
    }
}

impl Playback {
    /// The channel the playback reads its chunks from.
    pub closed spec fn channel(&self) -> Receiver<StreamEvent> {
        self.receiver
    }

    /// Starts reading a stream at `wpm` words per minute: waits for the first
    /// chunk, then prefetches the next one if it is already there.
    pub fn from_stream(receiver: Receiver<StreamEvent>, wpm: u16, orp_mode: OrpMode) -> (res: Result<Self, OrpError>)
        ensures
            !(MIN_WPM <= wpm <= MAX_WPM) ==> res == Err::<Self, OrpError>(
                OrpError::InvalidWpm { actual: wpm, min: MIN_WPM, max: MAX_WPM },
            ),
            MIN_WPM <= wpm <= MAX_WPM ==> exists|first: Option<StreamEvent>, p: Polled|
                #[trigger] start_outcome(first, p, wpm, orp_mode) == result_view(res),
            res matches Ok(pb) ==> pb@.wf() && pb.channel() == receiver,
    {
        if let Err(e) = validate_wpm(wpm) {
            return Err(e);
        }
        let first = receive(&receiver);
        let ghost g = first;
        let mut playback = match Self::start_with(receiver, first, wpm, orp_mode) {
            Ok(pb) => pb,
            Err(e) => {
                assert(start_outcome(g, Polled::Empty, wpm, orp_mode) == result_view(Err::<Self, OrpError>(e)));
                return Err(e);
            },
        };
        let Ghost(p) = playback.fill_next_nonblocking();
        assert(start_outcome(g, p, wpm, orp_mode) == result_view(Ok::<Self, OrpError>(playback)));
        Ok(playback)
    }

    /// Starts reading `receiver`'s stream given what its first receive gave,
    /// `first`, without prefetching: the chunk it holds becomes current and
    /// reading is paused at its first word; an error or a closed channel is
    /// returned. An invalid `wpm` is refused first.
    pub fn start_with(receiver: Receiver<StreamEvent>, first: Option<StreamEvent>, wpm: u16, orp_mode: OrpMode) -> (res: Result<Self, OrpError>)
        ensures
            !(MIN_WPM <= wpm <= MAX_WPM) ==> res == Err::<Self, OrpError>(
                OrpError::InvalidWpm { actual: wpm, min: MIN_WPM, max: MAX_WPM },
            ),
            MIN_WPM <= wpm <= MAX_WPM ==> result_view(res) == start_view(first, wpm, orp_mode),
            res matches Ok(pb) ==> pb@.wf() && pb.channel() == receiver,
    {
        if let Err(e) = validate_wpm(wpm) {
            return Err(e);
        }
        let current = match first_chunk_from(first) {
            Ok(c) => c,
            Err(e) => return Err(e),
        };
        let stream_done = current.eof;
        let playback = Playback {
            prev: None,
            current,
            next: None,
            receiver,
            local_index: 0,
            playing: false,
            wpm,
            orp_mode,
            stream_done,
            loading: false,
            error: None,
        };
        proof {
            vstd::std_specs::vec::axiom_spec_len(&playback.current.tokens);
        }
        Ok(playback)
    }

    /// The display word under the reading position.
    pub fn current(&self) -> (word: Option<RsvpWord>)
        requires
            self@.current_token() matches Some(t) ==> t.text@.len() > 0,
        ensures
            match self@.current_token() {
                None => word is None,
                Some(t) => word matches Some(w) && w.text@ == t.text@
                    && w.pivot_index as nat == word_fields(t.text@, self@.orp_mode).0
                    && w.prefix_width as int == word_fields(t.text@, self@.orp_mode).1
                    && w.pivot_width as int == word_fields(t.text@, self@.orp_mode).2
                    && w.suffix_width as int == word_fields(t.text@, self@.orp_mode).3,
            },
    {
        match self.current_token() {
            Some(token) => Some(RsvpWord::from_token(token, self.orp_mode)),
            None => None,
        }
    }

    /// How long the current word stays on screen; 200 ms when there is none.
    pub fn current_duration(&self) -> (d: Duration)
        ensures
            d == match self@.current_token() {
                Some(t) => spec_duration_from_millis(token_millis(t, self@.next_token(), self@.wpm) as u64),
                None => spec_duration_from_millis(200),
            },
    {
        match self.current_token() {
            Some(token) => duration_for_token(token, self.next_token(), self.wpm),
            None => duration_from_millis(200),
        }
    }

    /// The position in the whole document.
    pub fn index(&self) -> (i: usize)
        requires
            self@.position() <= usize::MAX,
        ensures
            i == self@.position(),
    {
        self.current.start_word_index + self.local_index
    }

    /// The position in the whole document, when it fits in a `usize`.
    pub fn checked_index(&self) -> (i: Option<usize>)
        ensures
            self@.position() <= usize::MAX ==> i == Some(self@.position() as usize),
            self@.position() > usize::MAX ==> i is None,
    {
        self.current.start_word_index.checked_add(self.local_index)
    }

    /// How many words are loaded so far: up to the end of the next chunk if
    /// one is held, else of the current one (capped at `usize::MAX`).
    pub fn len(&self) -> (n: usize)
        ensures
            n == self@.loaded_words(),
    {
        let chunk = match &self.next {
            Some(c) => c,
            None => &self.current,
        };
        chunk.start_word_index.saturating_add(chunk.tokens.len())
    }

    /// The current chunk holds no token.
    pub fn is_empty(&self) -> (res: bool)
        ensures
            res == (self@.current.tokens@.len() == 0),
    {
        self.current.tokens.len() == 0
    }

    pub fn is_playing(&self) -> (res: bool)
        ensures
            res == self@.playing,
    {
        self.playing
    }

    /// Reading stopped at a chunk that has not arrived yet.
    pub fn is_loading(&self) -> (res: bool)
        ensures
            res == self@.loading,
    {
        self.loading
    }

    /// The message of the error that stopped loading, if any.
    pub fn stream_error(&self) -> (res: Option<&str>)
        ensures
            match self@.error {
                Some(e) => res matches Some(m) && m@ == e,
                None => res is None,
            },
    {
        match &self.error {
            Some(e) => Some(e.as_str()),
            None => None,
        }
    }

    pub fn is_at_end(&self) -> (res: bool)
        requires
            self@.wf(),
        ensures
            res == self@.at_end(),
    {
        let n = self.current.tokens.len();
        self.stream_done && self.next.is_none() && self.local_index + 1 >= n
    }

    pub fn wpm(&self) -> (res: u16)
        ensures
            res == self@.wpm,
    {
        self.wpm
    }

    pub fn orp_mode(&self) -> (res: OrpMode)
        ensures
            res == self@.orp_mode,
    {
        self.orp_mode
    }

    /// Takes in the next chunk if it has arrived and none is held.
    pub fn poll_stream(&mut self)
        requires
            old(self)@.wf(),
        ensures
            final(self).channel() == old(self).channel(),
            final(self)@.wf(),
            exists|p: Polled| final(self)@ == #[trigger] after_fill(old(self)@, p),
    {
        if self.next.is_none() {
            let Ghost(p) = self.fill_next_nonblocking();
            assert(self@ == after_fill(old(self)@, p));
        } else {
            assert(self@ == after_fill(old(self)@, Polled::Empty));
        }
    }

    /// Play/pause. An error or the end of the document pauses instead.
    pub fn toggle_playing(&mut self)
        requires
            old(self)@.wf(),
        ensures
            final(self).channel() == old(self).channel(),
            final(self)@ == spec_toggle(old(self)@),
            final(self)@.wf(),
    {
        if self.error.is_some() || self.is_at_end() {
            self.playing = false;
            return;
        }
        self.playing = !self.playing;
        if self.playing {
            self.loading = false;
        }
    }

    /// Starts over on a fresh stream of the same document and resumes
    /// reading at its first word.
    pub fn restart(&mut self, receiver: Receiver<StreamEvent>)
        requires
            old(self)@.wf(),
        ensures
            final(self)@.wf(),
            exists|first: Option<StreamEvent>, p: Polled|
                final(self)@ == #[trigger] spec_restart(old(self)@, first, p),
            final(self).channel() == receiver,
    {
        let first = receive(&receiver);
        let ghost g = first;
        self.restart_with(receiver, first);
        let Ghost(p) = self.fill_next_nonblocking();
        assert(self@ == spec_restart(old(self)@, g, p));
    }

    /// Starts over on `receiver`'s stream given what its first receive
    /// gave, `first`, without prefetching (see `restart_start`).
    pub fn restart_with(&mut self, receiver: Receiver<StreamEvent>, first: Option<StreamEvent>)
        requires
            old(self)@.wf(),
        ensures
            final(self)@ == restart_start(old(self)@, first),
            final(self)@.wf(),
            final(self).channel() == receiver,
    {
        self.receiver = receiver;
        self.prev = None;
        self.next = None;
        self.local_index = 0;
        self.playing = false;
        self.stream_done = false;
        self.loading = true;
        self.error = None;
        match first_chunk_from(first) {
            Ok(chunk) => {
                self.current = chunk;
                self.loading = false;
                self.playing = true;
            },
            Err(error) => {
                self.error = Some(error.message());
                self.playing = false;
            },
        }
    }

    /// One word back; from a chunk's first word into the previous chunk.
    pub fn previous(&mut self)
        requires
            old(self)@.wf(),
        ensures
            final(self).channel() == old(self).channel(),
            final(self)@ == spec_step_back(old(self)@),
            final(self)@.wf(),
    {
        self.loading = false;
        if self.local_index > 0 {
            self.local_index -= 1;
            return;
        }
        if self.prev.is_some() {
            let mut chunk = self.prev.take().unwrap();
            std::mem::swap(&mut self.current, &mut chunk);
            self.next = Some(chunk);
            self.local_index = self.current.tokens.len().saturating_sub(1);
        }
    }

    /// One word forward. At the end of the current chunk, moves into the
    /// next one if it has arrived; at the end of the document, or before a
    /// chunk that is still loading, pauses instead.
    pub fn next(&mut self)
        requires
            old(self)@.wf(),
        ensures
            final(self).channel() == old(self).channel(),
            final(self)@.wf(),
            exists|p1: Polled, p2: Polled| final(self)@ == #[trigger] spec_step(old(self)@, p1, p2),
    {
        if self.error.is_some() {
            self.playing = false;
            assert(self@ == spec_step(old(self)@, Polled::Empty, Polled::Empty));
            return;
        }
        let n = self.current.tokens.len();
        if self.local_index + 1 < n {
            self.local_index += 1;
            self.loading = false;
            assert(self@ == spec_step(old(self)@, Polled::Empty, Polled::Empty));
            return;
        }
        if self.next.is_some() {
            self.advance_chunk();
            let Ghost(p1) = self.fill_next_nonblocking();
            assert(self@ == spec_step(old(self)@, p1, Polled::Empty));
            return;
        }
        let Ghost(p1) = self.fill_next_nonblocking();
        let ghost w = self@;
        if self.next.is_some() {
            self.advance_chunk();
            let Ghost(p2) = self.fill_next_nonblocking();
            assert(self@ == spec_step(old(self)@, p1, p2));
        } else if self.current.eof || self.stream_done {
            self.playing = false;
            self.loading = false;
            assert(self@ == spec_step(old(self)@, p1, Polled::Empty));
        } else {
            self.playing = false;
            self.loading = true;
            assert(self@ == spec_step(old(self)@, p1, Polled::Empty));
        }
    }

    /// Moves into the held next chunk.
    fn advance_chunk(&mut self)
        requires
            old(self)@.next is Some,
        ensures
            final(self).channel() == old(self).channel(),
            final(self)@ == rotate_forward(old(self)@),
    {
        let mut chunk = self.next.take().unwrap();
        std::mem::swap(&mut self.current, &mut chunk);
        self.prev = Some(chunk);
        self.local_index = 0;
        self.loading = false;
    }

    /// Advances by one word while playing; does nothing while paused.
    pub fn tick(&mut self)
        requires
            old(self)@.wf(),
        ensures
            final(self).channel() == old(self).channel(),
            final(self)@.wf(),
            !old(self)@.playing ==> final(self)@ == old(self)@,
            old(self)@.playing ==> exists|p1: Polled, p2: Polled|
                final(self)@ == #[trigger] spec_step(old(self)@, p1, p2),
    {
        if self.playing {
            self.next();
        }
    }

    /// Speeds up by `WPM_STEP`, up to `MAX_WPM`.
    pub fn increase_wpm(&mut self)
        requires
            old(self)@.wf(),
        ensures
            final(self).channel() == old(self).channel(),
            final(self)@ == (PlaybackView { wpm: increased_wpm(old(self)@.wpm), ..old(self)@ }),
            final(self)@.wf(),
    {
        self.set_wpm(self.wpm.saturating_add(WPM_STEP).min(MAX_WPM));
    }

    /// Slows down by `WPM_STEP`, down to `MIN_WPM`.
    pub fn decrease_wpm(&mut self)
        requires
            old(self)@.wf(),
        ensures
            final(self).channel() == old(self).channel(),
            final(self)@ == (PlaybackView { wpm: decreased_wpm(old(self)@.wpm), ..old(self)@ }),
            final(self)@.wf(),
    {
        self.set_wpm(self.wpm.saturating_sub(WPM_STEP).max(MIN_WPM));
    }

    /// Switches to the other ORP mode.
    pub fn cycle_orp_mode(&mut self)
        ensures
            final(self).channel() == old(self).channel(),
            final(self)@ == (PlaybackView { orp_mode: spec_next_mode(old(self)@.orp_mode), ..old(self)@ }),
    {
        self.orp_mode = self.orp_mode.next();
    }

    fn set_wpm(&mut self, wpm: u16)
        ensures
            final(self).channel() == old(self).channel(),
            final(self)@ == (PlaybackView { wpm: clamp_wpm(wpm as int), ..old(self)@ }),
    {
        self.wpm = if wpm < MIN_WPM {
            MIN_WPM
        } else if wpm > MAX_WPM {
            MAX_WPM
        } else {
            wpm
        };
    }

    /// The token under the reading position.
    pub fn current_token(&self) -> (t: Option<&Token>)
        ensures
            match self@.current_token() {
                Some(ct) => t matches Some(r) && *r == ct,
                None => t is None,
            },
    {
        if self.local_index < self.current.tokens.len() {
            Some(&self.current.tokens[self.local_index])
        } else {
            None
        }
    }

    fn next_token(&self) -> (t: Option<&Token>)
        ensures
            match self@.next_token() {
                Some(nt) => t matches Some(r) && *r == nt,
                None => t is None,
            },
    {
        let n = self.current.tokens.len();
        if self.local_index < usize::MAX && self.local_index + 1 < n {
            return Some(&self.current.tokens[self.local_index + 1]);
        }
        match &self.next {
            Some(chunk) => {
                if chunk.tokens.len() > 0 {
                    let t = &chunk.tokens[0];
                    assert(self@.next == Some(*chunk));
                    Some(t)
                } else {
                    None
                }
            },
            None => None,
        }
    }

    /// Polls the channel for the next chunk unless one is held, the stream
    /// is finished or an error occurred.
    fn fill_next_nonblocking(&mut self) -> (p: Ghost<Polled>)
        ensures
            final(self).channel() == old(self).channel(),
            final(self)@ == after_fill(old(self)@, p@),
    {
        if self.next.is_some() || self.stream_done || self.error.is_some() {
            return Ghost(Polled::Empty);
        }
        let polled = try_receive(&self.receiver);
        let ghost g = polled;
        self.take_polled(polled);
        Ghost(g)
    }

    /// Takes in what a poll of the channel found, `p`: a chunk becomes the
    /// next one (and marks the stream done when it is the last), a failure
    /// or a closed channel stops playback with its message, and an empty
    /// channel changes nothing.
    pub fn take_polled(&mut self, p: Polled)
        ensures
            final(self).channel() == old(self).channel(),
            final(self)@ == after_poll(old(self)@, p),
    {
        match p {
            Polled::Event(StreamEvent::Chunk(chunk)) => {
                self.loading = false;
                if chunk.eof {
                    self.stream_done = true;
                }
                self.next = Some(chunk);
            },
            Polled::Event(StreamEvent::Failed(error)) => {
                self.error = Some(error.message());
                self.playing = false;
                self.loading = false;
            },
            Polled::Empty => {},
            Polled::Disconnected => {
                self.error = Some(OrpError::StreamDisconnected.message());
                self.playing = false;
                self.loading = false;
            },
        }
    }
}


/// Stepping back undoes a step forward that moved: the reader returns to
/// the same chunk and the same position in it.
pub proof fn law_step_back_undoes_step(v: PlaybackView, p1: Polled, p2: Polled)
    requires
        v.wf(),
        spec_step(v, p1, p2).current != v.current || spec_step(v, p1, p2).local_index
            != v.local_index,
    ensures
        spec_step_back(spec_step(v, p1, p2)).current == v.current,
        spec_step_back(spec_step(v, p1, p2)).local_index == v.local_index,
{
    let w = spec_step(v, p1, p2);
    let b = spec_step_back(w);
    vstd::std_specs::vec::axiom_spec_len(&v.current.tokens);
    if v.error is None && v.local_index + 1 >= v.current.tokens@.len() {
        let n = v.current.tokens@.len();
        assert(v.local_index == if n > 0 { (n - 1) as usize } else { 0 });
        if v.next is Some {
            assert(w.prev == Some(v.current) && w.local_index == 0);
            assert(b.current == v.current);
        } else {
            let w0 = after_fill(v, p1);
            assert(w0.current == v.current && w0.local_index == v.local_index);
            if w0.next is Some {
                assert(w.prev == Some(v.current) && w.local_index == 0);
                assert(b.current == v.current);
            } else {
                assert(w.current == v.current && w.local_index == v.local_index);
            }
        }
    } else if v.error is None {
        assert(b.current == v.current);
        assert(b.local_index == v.local_index);
    }
}

/// `text` ends in `c`, give or take closing quotes and brackets after it.
pub open spec fn ends_with_mark(text: Seq<char>, c: char) -> bool {
    exists|k: int|
        0 <= k < text.len() && #[trigger] text[k] == c && forall|j: int| k < j < text.len() ==> is_closing(
            #[trigger] text[j],
        )
}

/// A mark that is not a closing quote or bracket, followed only by closing
/// ones, is the trailing punctuation.
pub proof fn lemma_trailing_mark(text: Seq<char>, c: char)
    requires
        ends_with_mark(text, c),
        !is_closing(c),
    ensures
        trailing_punctuation(text) == Some(c),
    decreases text.len(),
{
    let k = choose|k: int|
        0 <= k < text.len() && #[trigger] text[k] == c && forall|j: int| k < j < text.len() ==> is_closing(
            #[trigger] text[j],
        );
    if k < text.len() - 1 {
        let t = text.drop_last();
        assert(is_closing(text[text.len() - 1]));
        assert(t[k] == c);
        assert forall|j: int| k < j < t.len() implies is_closing(#[trigger] t[j]) by {
            assert(t[j] == text[j]);
        }
        assert(ends_with_mark(t, c));
        lemma_trailing_mark(t, c);
    }
}

/// How long a word is shown, by its punctuation: 2.5 times the base time
/// when the next token starts a later paragraph; otherwise twice the base
/// time after `.`, `?` or `!`, one and a half times after `,`, `;` or `:`
/// (closing quotes and brackets after the mark do not matter), and the
/// base time after a letter or digit.
pub proof fn law_punctuation_pauses(token: Token, next_token: Option<Token>, wpm: u16)
    ensures
        ({
            let no_break = match next_token {
                Some(n) => n.paragraph_index <= token.paragraph_index,
                None => true,
            };
            let b = base_millis(wpm);
            let t = token.text@;
            let m = token_millis(token, next_token, wpm);
            &&& !no_break ==> m == b * 5 / 2
            &&& no_break && (ends_with_mark(t, '.') || ends_with_mark(t, '?') || ends_with_mark(t, '!')) ==> m == b * 2
            &&& no_break && (ends_with_mark(t, ',') || ends_with_mark(t, ';') || ends_with_mark(t, ':')) ==> m == b * 3 / 2
            &&& no_break && t.len() > 0 && (('a' <= t.last() <= 'z') || ('A' <= t.last() <= 'Z') || ('0' <= t.last() <= '9')) ==> m == b
        }),
{
    let t = token.text@;
    if ends_with_mark(t, '.') { lemma_trailing_mark(t, '.'); }
    if ends_with_mark(t, '?') { lemma_trailing_mark(t, '?'); }
    if ends_with_mark(t, '!') { lemma_trailing_mark(t, '!'); }
    if ends_with_mark(t, ',') { lemma_trailing_mark(t, ','); }
    if ends_with_mark(t, ';') { lemma_trailing_mark(t, ';'); }
    if ends_with_mark(t, ':') { lemma_trailing_mark(t, ':'); }
    let b = base_millis(wpm);
    assert(b * 2 / 1 == b * 2);
    assert(b * 1 / 1 == b);
}

/// Pauses only lengthen a word: a token is shown at least the base time of
/// its speed and at most two and a half times that; and a following token
/// in the same (or an earlier) paragraph adds no paragraph pause, so the
/// time is as if no token followed.
pub proof fn law_pause_bounds(token: Token, next_token: Option<Token>, wpm: u16)
    ensures
        base_millis(wpm) <= token_millis(token, next_token, wpm) <= base_millis(wpm) * 5 / 2,
        (next_token matches Some(n) && n.paragraph_index <= token.paragraph_index)
            ==> token_millis(token, next_token, wpm) == token_millis(token, None, wpm),
{
    let b = base_millis(wpm);
    assert(b >= 0);
    assert(b * 2 / 1 <= b * 5 / 2);
    assert(b <= b * 3 / 2 <= b * 5 / 2);
}

/// Where chunks follow each other without gaps and none is empty, a step
/// forward moves exactly one word on, or stays and pauses; within a chunk
/// it always moves on; speed and ORP mode are kept.
pub proof fn law_step_moves_one_word(v: PlaybackView, p1: Polled, p2: Polled)
    requires
        v.wf(),
        v.error is None,
        v.current.tokens@.len() > 0,
        v.next matches Some(c) ==> c.tokens@.len() > 0 && c.start_word_index == v.current.start_word_index + v.current.tokens@.len(),
        p1 matches Polled::Event(StreamEvent::Chunk(c)) ==> c.tokens@.len() > 0 && c.start_word_index == v.current.start_word_index + v.current.tokens@.len(),
    ensures
        spec_step(v, p1, p2).position() == v.position() + 1
            || (spec_step(v, p1, p2).position() == v.position() && !spec_step(v, p1, p2).playing),
        v.local_index + 1 < v.current.tokens@.len() ==> spec_step(v, p1, p2).position() == v.position() + 1,
        spec_step(v, p1, p2).wpm == v.wpm,
        spec_step(v, p1, p2).orp_mode == v.orp_mode,
{
    vstd::std_specs::vec::axiom_spec_len(&v.current.tokens);
    let w = spec_step(v, p1, p2);
    if v.local_index + 1 >= v.current.tokens@.len() {
        assert(v.local_index + 1 == v.current.tokens@.len());
        if v.next is Some {
            let r = rotate_forward(v);
            assert(after_fill(r, p1).current == r.current && after_fill(r, p1).local_index == 0);
        } else {
            let u = after_fill(v, p1);
            if u.next is Some {
                let r = rotate_forward(u);
                assert(after_fill(r, p2).current == r.current && after_fill(r, p2).local_index == 0);
            }
        }
    }
}

/// A step forward undoes a step back that moved: the reader returns to the
/// same chunk and the same position in it.
pub proof fn law_step_undoes_step_back(v: PlaybackView, p1: Polled, p2: Polled)
    requires
        v.wf(),
        v.error is None,
        spec_step_back(v).current != v.current || spec_step_back(v).local_index != v.local_index,
    ensures
        spec_step(spec_step_back(v), p1, p2).current == v.current,
        spec_step(spec_step_back(v), p1, p2).local_index == v.local_index,
{
    let b = spec_step_back(v);
    vstd::std_specs::vec::axiom_spec_len(&v.current.tokens);
    if v.local_index > 0 {
        assert(b.local_index + 1 < b.current.tokens@.len());
    } else {
        let c = v.prev->0;
        vstd::std_specs::vec::axiom_spec_len(&c.tokens);
        assert(b.current == c && b.next == Some(v.current));
        assert(!(b.local_index + 1 < b.current.tokens@.len()));
        let r = rotate_forward(b);
        assert(r.current == v.current && r.local_index == 0);
        assert(after_fill(r, p1).current == r.current);
        assert(after_fill(r, p1).local_index == r.local_index);
    }
}

/// Reaching the end pauses on the final token: a step from the last token
/// of a fully loaded document stays there and stops playing.
pub proof fn law_end_pauses(v: PlaybackView, p1: Polled, p2: Polled)
    requires
        v.wf(),
        v.at_end(),
    ensures
        !spec_step(v, p1, p2).playing,
        spec_step(v, p1, p2).current == v.current,
        spec_step(v, p1, p2).local_index == v.local_index,
{
}

/// Play/pause twice restores the playing flag, unless an error or the end
/// of the document forces a pause.
pub proof fn law_toggle_twice(v: PlaybackView)
    requires
        v.error is None,
        !v.at_end(),
    ensures
        spec_toggle(spec_toggle(v)).playing == v.playing,
{
}

/// Speeding up and then slowing down (or the other way round) returns to
/// the same speed when the first change was not cut off by a bound.
pub proof fn law_speed_round_trip(wpm: u16)
    ensures
        MIN_WPM <= wpm <= MAX_WPM - WPM_STEP ==> decreased_wpm(increased_wpm(wpm)) == wpm,
        MIN_WPM + WPM_STEP <= wpm <= MAX_WPM ==> increased_wpm(decreased_wpm(wpm)) == wpm,
{
}

/// The speed never leaves `MIN_WPM..=MAX_WPM`.
pub proof fn law_speed_bounds(wpm: u16)
    ensures
        MIN_WPM <= increased_wpm(wpm) <= MAX_WPM,
        MIN_WPM <= decreased_wpm(wpm) <= MAX_WPM,
{
}

/// Cycling the ORP mode twice gives back the mode it started from.
pub proof fn law_orp_cycle_twice(mode: OrpMode)
    ensures
        spec_next_mode(spec_next_mode(mode)) == mode,
{
}

/// A restart whose stream delivers a first chunk resumes reading at that
/// chunk's first word, with nothing behind it; it plays unless the
/// prefetch found an error.
pub proof fn law_restart_from_first_chunk(v: PlaybackView, first: Option<StreamEvent>, p: Polled)
    requires
        first_chunk_of(first) is Ok,
    ensures
        spec_restart(v, first, p).current == first_chunk_of(first)->Ok_0,
        spec_restart(v, first, p).local_index == 0,
        spec_restart(v, first, p).prev is None,
        spec_restart(v, first, p).error is None ==> spec_restart(v, first, p).playing,
{
}

} // verus!
