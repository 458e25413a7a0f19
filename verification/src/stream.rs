use vstd::prelude::*;
use std::sync::mpsc::{Receiver, TryRecvError};
use std::time::Duration;

use vstd::string::StringExecFns;

use crate::chars::{chars_of, is_whitespace, is_ws};
use crate::error::{decimal, push_decimal, OrpError};
use crate::playback::{duration_from_millis, spec_duration_from_millis};
use crate::normalize::{normalize_text, normalized_text, paragraphs};
use crate::tokenize::{law_tokens_follow_paragraphs, lemma_paragraph_tokens_index, lemma_token_count_bound, paragraph_tokens, text_tokens, tokenize, tokens_match, Token};

verus! {

/// A run of consecutive tokens of a document, numbered in emission order.
#[derive(Debug, Clone, PartialEq, Eq)]
pub struct StreamChunk {
    pub id: usize,
    pub start_word_index: usize,
    pub tokens: Vec<Token>,
    pub eof: bool,
}

/// What a loading worker reports: the next chunk, or why loading stopped.
#[derive(Debug)]
pub enum StreamEvent {
    Chunk(StreamChunk),
    Failed(OrpError),
}

/// What a non-blocking look at the channel found.
#[derive(Debug)]
pub enum Polled {
    Event(StreamEvent),
    Empty,
    Disconnected,
}

#[verifier::external_type_specification]
#[verifier::external_body]
#[verifier::reject_recursive_types(T)]
pub struct ExReceiver<T>(Receiver<T>);

/// `Receiver::try_recv`: what the channel holds right now. Nothing is
/// stated of the result: it depends on the loading worker's progress.
#[verifier::external_body]
pub(crate) fn try_receive(receiver: &Receiver<StreamEvent>) -> (p: Polled) {
    match receiver.try_recv() {
        Ok(event) => Polled::Event(event),
        Err(TryRecvError::Empty) => Polled::Empty,
        Err(TryRecvError::Disconnected) => Polled::Disconnected,
    }
}

/// `Receiver::recv`: waits for the next event; `None` when the worker has
/// gone. Nothing is stated of the result: it depends on the worker.
#[verifier::external_body]
pub(crate) fn receive(receiver: &Receiver<StreamEvent>) -> (e: Option<StreamEvent>) {
    receiver.recv().ok()
}


/// How many tokens a chunk holds (the last chunk may hold fewer).
pub const TARGET_CHUNK_TOKENS: usize = 1_500;

/// Normalizes and tokenizes one piece of a document whose earlier pieces
/// used paragraph indexes below `next_paragraph_index`: the piece's
/// paragraph indexes are shifted past them, and `next_paragraph_index`
/// moves past the piece's last paragraph that yielded a token.
pub fn normalize_and_tokenize(text: &str, next_paragraph_index: &mut usize) -> (tokens: Vec<Token>)
    requires
        *old(next_paragraph_index) + text@.len() < usize::MAX,
    ensures
        tokens@.len() == text_tokens(normalized_text(text@)).len(),
        forall|k: int| 0 <= k < tokens@.len() ==> {
            &&& (#[trigger] tokens@[k]).text@ == text_tokens(normalized_text(text@))[k].0
            &&& tokens@[k].paragraph_index == text_tokens(normalized_text(text@))[k].1 + *old(next_paragraph_index)
        },
        tokens@.len() == 0 ==> *final(next_paragraph_index) == *old(next_paragraph_index),
        tokens@.len() > 0 ==> *final(next_paragraph_index) == tokens@.last().paragraph_index + 1,
{
    let normalized = normalize_text(text);
    let mut tokens = tokenize(&normalized);
    proof {
        law_tokens_follow_paragraphs(text@);
        lemma_paragraph_tokens_index(paragraphs(text@));
    }
    if tokens.len() == 0 {
        return tokens;
    }
    let ghost spec = text_tokens(normalized_text(text@));
    let base = *next_paragraph_index;
    let mut k: usize = 0;
    while k < tokens.len()
        invariant
            k <= tokens@.len(),
            tokens@.len() == spec.len(),
            base == *old(next_paragraph_index),
            base + text@.len() < usize::MAX,
            forall|m: int| 0 <= m < spec.len() ==> 0 <= (#[trigger] spec[m]).1 <= text@.len(),
            forall|m: int| 0 <= m < tokens@.len() ==> (#[trigger] tokens@[m]).text@ == spec[m].0,
            forall|m: int| 0 <= m < k ==> (#[trigger] tokens@[m]).paragraph_index == spec[m].1 + base,
            forall|m: int| k <= m < tokens@.len() ==> (#[trigger] tokens@[m]).paragraph_index == spec[m].1,
        decreases tokens@.len() - k,
    {
        let t = &tokens[k];
        let shifted = Token { text: t.text.clone(), paragraph_index: t.paragraph_index + base };
        tokens.set(k, shifted);
        k += 1;
    }
    let last = tokens[tokens.len() - 1].paragraph_index;
    *next_paragraph_index = last + 1;
    tokens
}

/// Gathers tokens into chunks of `TARGET_CHUNK_TOKENS`, numbering the
/// chunks and tracking each chunk's first word index.
pub struct ChunkBuilder {
    pending: Vec<Token>,
    chunk_id: usize,
    start_word_index: usize,
    next_paragraph_index: usize,
}

/// The tokens `ts` are, one for one, the specified tokens `spec` with
/// their paragraph indexes moved up by `base`.
pub open spec fn tokens_from(ts: Seq<Token>, spec: Seq<(Seq<char>, int)>, base: int) -> bool {
    &&& ts.len() == spec.len()
    &&& forall|k: int| 0 <= k < ts.len() ==> (#[trigger] ts[k]).text@ == spec[k].0
        && ts[k].paragraph_index == spec[k].1 + base
}

/// A chunk with the given fields.
pub open spec fn chunk_is(c: StreamChunk, id: int, start: int, tokens: Seq<Token>, eof: bool) -> bool {
    c.id == id && c.start_word_index == start && c.tokens@ == tokens && c.eof == eof
}

impl ChunkBuilder {
    /// The tokens not yet emitted.
    pub closed spec fn pending_tokens(&self) -> Seq<Token> {
        self.pending@
    }

    /// The number the next chunk gets.
    pub closed spec fn next_chunk_id(&self) -> usize {
        self.chunk_id
    }

    /// The word index the next chunk starts at.
    pub closed spec fn next_start(&self) -> usize {
        self.start_word_index
    }

    /// The paragraph index the next piece of text starts at.
    pub closed spec fn paragraph_base(&self) -> usize {
        self.next_paragraph_index
    }

    /// At most a chunk's worth of tokens wait, at least one once a chunk
    /// was emitted (the last chunk is always held back until `finish`), and
    /// every emitted chunk so far was full.
    pub open spec fn wf(&self) -> bool {
        &&& self.pending_tokens().len() <= TARGET_CHUNK_TOKENS
        &&& self.next_chunk_id() > 0 ==> self.pending_tokens().len() > 0
        &&& self.next_start() == self.next_chunk_id() * TARGET_CHUNK_TOKENS
        &&& self.next_start() + self.pending_tokens().len() <= usize::MAX
    }

    pub fn new() -> (b: Self)
        ensures
            b.wf(),
            b.pending_tokens() == Seq::<Token>::empty(),
            b.next_chunk_id() == 0,
            b.next_start() == 0,
            b.paragraph_base() == 0,
    {
        ChunkBuilder { pending: Vec::new(), chunk_id: 0, start_word_index: 0, next_paragraph_index: 0 }
    }

    /// How many tokens wait to be emitted.
    pub fn pending_len(&self) -> (n: usize)
        ensures
            n == self.pending_tokens().len(),
    {
        self.pending.len()
    }

    pub fn chunk_id(&self) -> (id: usize)
        ensures
            id == self.next_chunk_id(),
    {
        self.chunk_id
    }

    pub fn next_paragraph_index(&self) -> (i: usize)
        ensures
            i == self.paragraph_base(),
    {
        self.next_paragraph_index
    }

    pub fn start_word_index(&self) -> (i: usize)
        ensures
            i == self.next_start(),
    {
        self.start_word_index
    }

    /// Normalizes and tokenizes the next piece of the document, continuing
    /// its paragraph numbering (see `normalize_and_tokenize`).
    pub fn tokenize_piece(&mut self, text: &str) -> (tokens: Vec<Token>)
        requires
            old(self).paragraph_base() + text@.len() < usize::MAX,
        ensures
            final(self).pending_tokens() == old(self).pending_tokens(),
            final(self).next_chunk_id() == old(self).next_chunk_id(),
            final(self).next_start() == old(self).next_start(),
            tokens@.len() == text_tokens(normalized_text(text@)).len(),
            forall|k: int| 0 <= k < tokens@.len() ==> {
                &&& (#[trigger] tokens@[k]).text@ == text_tokens(normalized_text(text@))[k].0
                &&& tokens@[k].paragraph_index == text_tokens(normalized_text(text@))[k].1 + old(self).paragraph_base()
            },
            tokens@.len() == 0 ==> final(self).paragraph_base() == old(self).paragraph_base(),
            tokens@.len() > 0 ==> final(self).paragraph_base() == tokens@.last().paragraph_index + 1,
    {
        normalize_and_tokenize(text, &mut self.next_paragraph_index)
    }

    /// Makes a chunk of `tokens` (none when there are no tokens) and
    /// advances the chunk number and the word index.
    fn emit(&mut self, tokens: Vec<Token>, eof: bool) -> (chunk: Option<StreamChunk>)
        requires
            old(self).start_word_index + tokens@.len() <= usize::MAX,
            old(self).chunk_id < usize::MAX,
        ensures
            tokens@.len() == 0 ==> chunk is None && *final(self) == *old(self),
            tokens@.len() > 0 ==> (chunk matches Some(c) && chunk_is(c, old(self).chunk_id as int, old(self).start_word_index as int, tokens@, eof)),
            tokens@.len() > 0 ==> final(self).chunk_id == old(self).chunk_id + 1,
            tokens@.len() > 0 ==> final(self).start_word_index == old(self).start_word_index + tokens@.len(),
            final(self).pending == old(self).pending,
            final(self).next_paragraph_index == old(self).next_paragraph_index,
    {
        if tokens.len() == 0 {
            return None;
        }
        let chunk = StreamChunk { id: self.chunk_id, start_word_index: self.start_word_index, tokens, eof };
        self.start_word_index += chunk.tokens.len();
        self.chunk_id += 1;
        Some(chunk)
    }

    /// Adds `tokens` to the pending ones and emits full chunks, in order,
    /// while more than `TARGET_CHUNK_TOKENS` tokens wait: between one and
    /// `TARGET_CHUNK_TOKENS` tokens stay pending, so that the document's last
    /// chunk is the one `finish` emits.
    pub fn push_tokens(&mut self, tokens: Vec<Token>) -> (chunks: Vec<StreamChunk>)
        requires
            old(self).wf(),
            old(self).next_start() + old(self).pending_tokens().len() + tokens@.len() <= usize::MAX,
        ensures
            final(self).wf(),
            final(self).paragraph_base() == old(self).paragraph_base(),
            ({
                let all = old(self).pending_tokens() + tokens@;
                let q = chunks@.len();
                &&& q == if all.len() == 0 { 0 } else { (all.len() - 1) as int / (TARGET_CHUNK_TOKENS as int) }
                &&& forall|i: int| 0 <= i < q ==> chunk_is(
                    #[trigger] chunks@[i],
                    old(self).next_chunk_id() + i,
                    old(self).next_start() + i * TARGET_CHUNK_TOKENS,
                    all.subrange(i * TARGET_CHUNK_TOKENS, (i + 1) * TARGET_CHUNK_TOKENS),
                    false,
                )
                &&& final(self).pending_tokens() == all.skip(q * TARGET_CHUNK_TOKENS)
                &&& final(self).next_chunk_id() == old(self).next_chunk_id() + q
                &&& final(self).next_start() == old(self).next_start() + q * TARGET_CHUNK_TOKENS
            }),
    {
        let mut chunks: Vec<StreamChunk> = Vec::new();
        let ghost all = self.pending@ + tokens@;
        let ghost id0 = self.chunk_id;
        let ghost start0 = self.start_word_index;
        let mut tokens = tokens;
        self.pending.append(&mut tokens);
        assert(self.pending@ == all);
        while self.pending.len() > TARGET_CHUNK_TOKENS
            invariant
                chunks@.len() * TARGET_CHUNK_TOKENS < all.len() || (chunks@.len() == 0 && all.len() == 0),
                self.pending@ == all.skip(chunks@.len() * TARGET_CHUNK_TOKENS),
                self.chunk_id == id0 + chunks@.len(),
                self.next_paragraph_index == old(self).next_paragraph_index,
                self.start_word_index == start0 + chunks@.len() * TARGET_CHUNK_TOKENS,
                start0 == id0 * TARGET_CHUNK_TOKENS,
                start0 + all.len() <= usize::MAX,
                id0 > 0 ==> all.len() > 0,
                forall|i: int| 0 <= i < chunks@.len() ==> chunk_is(
                    #[trigger] chunks@[i],
                    id0 + i,
                    start0 + i * TARGET_CHUNK_TOKENS,
                    all.subrange(i * TARGET_CHUNK_TOKENS, (i + 1) * TARGET_CHUNK_TOKENS),
                    false,
                ),
            decreases self.pending@.len(),
        {
            let ghost before = chunks@.len();
            let rest = self.pending.split_off(TARGET_CHUNK_TOKENS);
            let mut chunk_tokens = rest;
            std::mem::swap(&mut self.pending, &mut chunk_tokens);
            proof {
                assert(chunk_tokens@ =~= all.subrange(before * TARGET_CHUNK_TOKENS, (before + 1) * TARGET_CHUNK_TOKENS));
                assert(self.pending@ =~= all.skip((before + 1) * TARGET_CHUNK_TOKENS));
                assert(self.chunk_id * TARGET_CHUNK_TOKENS == self.start_word_index);
            }
            let c = self.emit(chunk_tokens, false);
            chunks.push(c.unwrap());
        }
        proof {
            let q = chunks@.len();
            if all.len() > 0 {
                assert(q == (all.len() - 1) as int / (TARGET_CHUNK_TOKENS as int)) by (nonlinear_arith)
                    requires
                        q * 1500 < all.len(),
                        all.len() - q * 1500 <= 1500,
                ;
            }
        }
        chunks
    }

    /// Normalizes and tokenizes the next piece of the document, continuing
    /// its paragraph numbering (see `tokenize_piece`), and adds the tokens
    /// to the pending ones (see `push_tokens`), returning the full chunks
    /// that are ready to send.
    pub fn push_piece(&mut self, text: &str) -> (chunks: Vec<StreamChunk>)
        requires
            old(self).wf(),
            old(self).paragraph_base() + text@.len() < usize::MAX,
            old(self).next_start() + old(self).pending_tokens().len() + text@.len() <= usize::MAX,
        ensures
            final(self).wf(),
            ({
                let ts = text_tokens(normalized_text(text@));
                let pl = old(self).pending_tokens().len() as int;
                let out = chunk_tokens(chunks@) + final(self).pending_tokens();
                &&& out.len() == pl + ts.len()
                &&& out.take(pl) == old(self).pending_tokens()
                &&& tokens_from(out.skip(pl), ts, old(self).paragraph_base() as int)
                &&& forall|i: int| 0 <= i < chunks@.len() ==> {
                    &&& (#[trigger] chunks@[i]).id == old(self).next_chunk_id() + i
                    &&& chunks@[i].start_word_index == old(self).next_start() + i * TARGET_CHUNK_TOKENS
                    &&& !chunks@[i].eof
                }
                &&& final(self).next_chunk_id() == old(self).next_chunk_id() + chunks@.len()
                &&& final(self).next_start() == old(self).next_start() + chunks@.len() * TARGET_CHUNK_TOKENS
                &&& ts.len() == 0 ==> final(self).paragraph_base() == old(self).paragraph_base()
                &&& ts.len() > 0 ==> final(self).paragraph_base() == ts.last().1 + old(self).paragraph_base() + 1
            }),
    {
        let ghost pending0 = self.pending_tokens();
        let tokens = self.tokenize_piece(text);
        proof {
            lemma_token_count_bound(text@);
        }
        let ghost all = pending0 + tokens@;
        let chunks = self.push_tokens(tokens);
        proof {
            let q = chunks@.len();
            assert forall|i: int| 0 <= i < q implies (#[trigger] chunks@[i]).tokens@ == all.subrange(
                i * TARGET_CHUNK_TOKENS,
                (i + 1) * TARGET_CHUNK_TOKENS,
            ) by {
                assert(chunk_is(chunks@[i], old(self).next_chunk_id() + i, old(self).next_start() + i * TARGET_CHUNK_TOKENS, all.subrange(i * TARGET_CHUNK_TOKENS, (i + 1) * TARGET_CHUNK_TOKENS), false));
            }
            if all.len() > 0 {
                assert(q * 1500 <= all.len()) by (nonlinear_arith)
                    requires
                        q == (all.len() - 1) as int / 1500,
                        all.len() > 0,
                ;
            }
            law_chunks_keep_tokens(chunks@, all, self.pending_tokens());
            let out = chunk_tokens(chunks@) + self.pending_tokens();
            assert(out.take(pending0.len() as int) =~= pending0);
            assert(out.skip(pending0.len() as int) =~= tokens@);
        }
        chunks
    }

    /// Emits the pending tokens as the document's final chunk. A document
    /// that gave no token at all has no readable text.
    pub fn finish(&mut self, path: &str) -> (res: Result<StreamChunk, OrpError>)
        requires
            old(self).wf(),
        ensures
            old(self).pending_tokens().len() == 0 ==> (res matches Err(OrpError::NoReadableText { path: p }) && p@ == path@),
            old(self).pending_tokens().len() > 0 ==> (res matches Ok(c) && chunk_is(c, old(self).next_chunk_id() as int, old(self).next_start() as int, old(self).pending_tokens(), true)),
            final(self).pending_tokens().len() == 0,
    {
        if self.pending.len() == 0 {
            return Err(OrpError::NoReadableText { path: String::from_str(path) });
        }
        let mut tokens: Vec<Token> = Vec::new();
        std::mem::swap(&mut self.pending, &mut tokens);
        assert(self.chunk_id < usize::MAX) by (nonlinear_arith)
            requires
                self.start_word_index == self.chunk_id * 1500,
                self.start_word_index + 1 <= usize::MAX,
        ;
        Ok(self.emit(tokens, true).unwrap())
    }

}

/// The tokens of `chunks`, in order.
pub open spec fn chunk_tokens(chunks: Seq<StreamChunk>) -> Seq<Token> {
    chunks.map_values(|c: StreamChunk| c.tokens@).flatten()
}

/// Chunking keeps every token once and in order: when chunk `i` holds the
/// `i`-th run of `TARGET_CHUNK_TOKENS` tokens of `all` (as `push_tokens`
/// emits them) and `rest` is what is left pending, the chunks' tokens
/// followed by `rest` are `all`.
pub proof fn law_chunks_keep_tokens(chunks: Seq<StreamChunk>, all: Seq<Token>, rest: Seq<Token>)
    requires
        chunks.len() * TARGET_CHUNK_TOKENS <= all.len(),
        forall|i: int| 0 <= i < chunks.len() ==> (#[trigger] chunks[i]).tokens@ == all.subrange(
            i * TARGET_CHUNK_TOKENS,
            (i + 1) * TARGET_CHUNK_TOKENS,
        ),
        rest == all.skip(chunks.len() * TARGET_CHUNK_TOKENS),
    ensures
        chunk_tokens(chunks) + rest == all,
    decreases chunks.len(),
{
    let t = TARGET_CHUNK_TOKENS as int;
    let q = chunks.len() as int;
    if q == 0 {
        assert(chunks.map_values(|c: StreamChunk| c.tokens@) =~= Seq::<Seq<Token>>::empty());
        assert(chunk_tokens(chunks) =~= Seq::<Token>::empty());
        assert(rest =~= all);
    } else {
        let front = chunks.drop_last();
        assert((q - 1) * t <= q * t) by (nonlinear_arith)
            requires q >= 1, t >= 0;
        assert forall|i: int| 0 <= i < front.len() implies (#[trigger] front[i]).tokens@ == all.subrange(i * t, (i + 1) * t) by {
            assert(front[i] == chunks[i]);
        }
        law_chunks_keep_tokens(front, all, all.skip((q - 1) * t));
        let views = chunks.map_values(|c: StreamChunk| c.tokens@);
        assert(views =~= front.map_values(|c: StreamChunk| c.tokens@).push(chunks[q - 1].tokens@));
        front.map_values(|c: StreamChunk| c.tokens@).lemma_flatten_push(chunks[q - 1].tokens@);
        assert(q * t == (q - 1) * t + t) by (nonlinear_arith);
        assert(chunks[q - 1].tokens@ + rest =~= all.skip((q - 1) * t));
        assert(chunk_tokens(chunks) + rest =~= all);
    }
}

/// Whether a line of a plain-text file ends the current group: a blank
/// line ends a paragraph, and a full chunk's worth of pending tokens is
/// sent without waiting for one.
pub fn ends_text_group(line: &str, builder: &ChunkBuilder) -> (res: bool)
    ensures
        res == ((forall|i: int| 0 <= i < line@.len() ==> is_ws(#[trigger] line@[i])) || builder.pending_tokens().len() >= TARGET_CHUNK_TOKENS),
{
    if builder.pending_len() >= TARGET_CHUNK_TOKENS {
        return true;
    }
    let cs = chars_of(line);
    let mut i: usize = 0;
    while i < cs.len()
        invariant
            i <= cs@.len(),
            cs@ == line@,
            builder.pending_tokens().len() < TARGET_CHUNK_TOKENS,
            forall|j: int| 0 <= j < i ==> is_ws(#[trigger] line@[j]),
        decreases cs@.len() - i,
    {
        if !is_whitespace(cs[i]) {
            assert(!is_ws(line@[i as int]));
            return false;
        }
        i += 1;
    }
    true
}


/// How long the loading worker spent on each stage.
#[derive(Debug, Clone, Copy, PartialEq, Eq)]
pub struct StreamTimings {
    pub source_format: &'static str,
    pub document_load: Duration,
    pub page_extraction: Duration,
    pub normalize_tokenize: Duration,
    pub time_to_first_chunk: Option<Duration>,
    pub worker_elapsed: Duration,
    pub send_wait: Duration,
    pub pages_extracted: usize,
    pub chunks_emitted: usize,
}

impl Default for StreamTimings {
    fn default() -> (t: Self)
        ensures
            t.source_format@ == Seq::<char>::empty(),
            t.document_load == spec_duration_from_millis(0),
            t.page_extraction == spec_duration_from_millis(0),
            t.normalize_tokenize == spec_duration_from_millis(0),
            t.time_to_first_chunk is None,
            t.worker_elapsed == spec_duration_from_millis(0),
            t.send_wait == spec_duration_from_millis(0),
            t.pages_extracted == 0,
            t.chunks_emitted == 0,
    {
        let empty = "";
        proof {
            reveal_strlit("");
        }
        StreamTimings {
            source_format: empty,
            document_load: duration_from_millis(0),
            page_extraction: duration_from_millis(0),
            normalize_tokenize: duration_from_millis(0),
            time_to_first_chunk: None,
            worker_elapsed: duration_from_millis(0),
            send_wait: duration_from_millis(0),
            pages_extracted: 0,
            chunks_emitted: 0,
        }
    }
}

/// What `Duration::saturating_sub` returns for `a` and `b`.
pub uninterp spec fn spec_duration_saturating_sub(a: Duration, b: Duration) -> Duration;

/// `Duration::saturating_sub`.
#[verifier::external_body]
fn duration_saturating_sub(a: Duration, b: Duration) -> (d: Duration)
    ensures
        d == spec_duration_saturating_sub(a, b),
{
    a.saturating_sub(b)
}

/// What `format!("{:?}", d)` writes for the duration `d`.
pub uninterp spec fn spec_duration_debug(d: Duration) -> Seq<char>;

/// The `Debug` text of a duration (`format!("{:?}", d)`).
#[verifier::external_body]
fn duration_debug(d: Duration) -> (s: String)
    ensures
        s@ == spec_duration_debug(d),
{
    format!("{:?}", d)
}

/// The `Debug` text of an optional duration: `None`, or `Some(..)` around
/// the duration's text.
pub open spec fn optional_duration_text(d: Option<Duration>) -> Seq<char> {
    match d {
        Some(x) => "Some("@ + spec_duration_debug(x) + ")"@,
        None => "None"@,
    }
}

/// The one-line timings report for `t`. The active processing time is the
/// worker's elapsed time less the time it waited to send chunks (zero when
/// it waited longer).
pub open spec fn timings_text(t: StreamTimings) -> Seq<char> {
    "timings: format "@ + t.source_format@
        + ", document load/extract "@ + spec_duration_debug(t.document_load)
        + ", page extraction "@ + spec_duration_debug(t.page_extraction)
        + " over "@ + decimal(t.pages_extracted as nat)
        + " page(s), normalize/tokenize "@ + spec_duration_debug(t.normalize_tokenize)
        + ", first chunk "@ + optional_duration_text(t.time_to_first_chunk)
        + ", worker elapsed "@ + spec_duration_debug(t.worker_elapsed)
        + ", active processing "@ + spec_duration_debug(
            spec_duration_saturating_sub(t.worker_elapsed, t.send_wait),
        )
        + ", send wait "@ + spec_duration_debug(t.send_wait)
        + ", chunks "@ + decimal(t.chunks_emitted as nat)
}

/// Appends the `Debug` text of `d` to `out`.
fn push_duration(out: &mut String, d: Duration)
    ensures
        final(out)@ == old(out)@ + spec_duration_debug(d),
{
    let text = duration_debug(d);
    out.append(text.as_str());
}

/// The one-line timings report (see `timings_text`).
pub fn format_timings(timings: &StreamTimings) -> (s: String)
    ensures
        s@ == timings_text(*timings),
{
    let t = timings;
    let processing = duration_saturating_sub(t.worker_elapsed, t.send_wait);
    let mut s = String::from_str("timings: format ");
    s.append(t.source_format);
    s.append(", document load/extract ");
    push_duration(&mut s, t.document_load);
    s.append(", page extraction ");
    push_duration(&mut s, t.page_extraction);
    s.append(" over ");
    push_decimal(&mut s, t.pages_extracted as u64);
    s.append(" page(s), normalize/tokenize ");
    push_duration(&mut s, t.normalize_tokenize);
    s.append(", first chunk ");
    match t.time_to_first_chunk {
        Some(d) => {
            s.append("Some(");
            push_duration(&mut s, d);
            s.append(")");
        },
        None => {
            s.append("None");
        },
    }
    s.append(", worker elapsed ");
    push_duration(&mut s, t.worker_elapsed);
    s.append(", active processing ");
    push_duration(&mut s, processing);
    s.append(", send wait ");
    push_duration(&mut s, t.send_wait);
    s.append(", chunks ");
    push_decimal(&mut s, t.chunks_emitted as u64);
    proof {
        reveal_strlit("timings: format ");
        reveal_strlit(", document load/extract ");
        reveal_strlit(", page extraction ");
        reveal_strlit(" over ");
        reveal_strlit(" page(s), normalize/tokenize ");
        reveal_strlit(", first chunk ");
        reveal_strlit("Some(");
        reveal_strlit(")");
        reveal_strlit("None");
        reveal_strlit(", worker elapsed ");
        reveal_strlit(", active processing ");
        reveal_strlit(", send wait ");
        reveal_strlit(", chunks ");
        assert(s@ =~= timings_text(*timings));
    }
    s
}

} // verus!
