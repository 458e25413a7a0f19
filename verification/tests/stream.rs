use std::time::Duration;

use rsvp::error::OrpError;
use rsvp::stream::{
    ends_text_group, format_timings, normalize_and_tokenize, ChunkBuilder, StreamTimings,
    TARGET_CHUNK_TOKENS,
};
use rsvp::tokenize::Token;

fn words(n: usize) -> Vec<Token> {
    (0..n)
        .map(|i| Token {
            text: format!("word{i}"),
            paragraph_index: 0,
        })
        .collect()
}

#[test]
fn builder_emits_full_chunks_then_a_final_one() {
    let mut builder = ChunkBuilder::new();
    let first = builder.push_tokens(words(1_601));
    assert_eq!(first.len(), 1);
    assert_eq!(first[0].id, 0);
    assert_eq!(first[0].start_word_index, 0);
    assert_eq!(first[0].tokens.len(), TARGET_CHUNK_TOKENS);
    assert!(!first[0].eof);
    assert_eq!(builder.pending_len(), 101);

    let last = builder.finish("doc.txt").unwrap();
    assert_eq!(last.id, 1);
    assert_eq!(last.start_word_index, TARGET_CHUNK_TOKENS);
    assert_eq!(last.tokens.len(), 101);
    assert_eq!(last.tokens[0].text, "word1500");
    assert!(last.eof);
}

#[test]
fn builder_splits_large_batches_in_order() {
    let mut builder = ChunkBuilder::new();
    builder.push_tokens(words(1_000));
    let chunks = builder.push_tokens(words(3_500));
    assert_eq!(chunks.len(), 2);
    assert_eq!(chunks[1].id, 1);
    assert_eq!(chunks[1].start_word_index, 1_500);
    assert_eq!(builder.pending_len(), 1_500);
    assert_eq!(builder.chunk_id(), 2);
    assert_eq!(builder.start_word_index(), 3_000);
    assert!(builder.push_tokens(Vec::new()).is_empty());
    let last = builder.finish("doc.txt").unwrap();
    assert_eq!(last.id, 2);
    assert_eq!(last.start_word_index, 3_000);
    assert_eq!(last.tokens.len(), 1_500);
    assert!(last.eof);
}

#[test]
fn empty_document_has_no_readable_text() {
    let mut builder = ChunkBuilder::new();
    let tokens = builder.tokenize_piece("\n\n");
    assert!(tokens.is_empty());
    assert!(builder.push_tokens(tokens).is_empty());
    assert_eq!(
        builder.finish("empty.txt"),
        Err(OrpError::NoReadableText {
            path: "empty.txt".into()
        })
    );
}

#[test]
fn full_final_chunk_is_held_back_and_ends_the_stream() {
    let mut builder = ChunkBuilder::new();
    assert!(builder.push_tokens(words(1_500)).is_empty());
    let last = builder.finish("doc.txt").unwrap();
    assert_eq!(last.id, 0);
    assert_eq!(last.tokens.len(), TARGET_CHUNK_TOKENS);
    assert!(last.eof);
    assert_eq!(builder.pending_len(), 0);
}

#[test]
fn text_of_exactly_two_chunks_ends_with_an_eof_chunk() {
    let text: Vec<String> = (0..3_000).map(|i| format!("word{i}")).collect();
    let mut builder = ChunkBuilder::new();
    let sent = builder.push_piece(&text.join(" "));
    assert_eq!(sent.len(), 1);
    assert_eq!(sent[0].id, 0);
    assert!(!sent[0].eof);
    let last = builder.finish("doc.txt").unwrap();
    assert_eq!(last.id, 1);
    assert_eq!(last.start_word_index, TARGET_CHUNK_TOKENS);
    assert_eq!(last.tokens.len(), TARGET_CHUNK_TOKENS);
    assert_eq!(last.tokens[TARGET_CHUNK_TOKENS - 1].text, "word2999");
    assert!(last.eof);
}

#[test]
fn pieces_continue_paragraphs_and_words() {
    let mut builder = ChunkBuilder::new();
    assert!(builder.push_piece("one two\n\nthree").is_empty());
    assert!(builder.push_piece("  \n ").is_empty());
    assert!(builder.push_piece("four").is_empty());
    assert_eq!(builder.pending_len(), 4);
    assert_eq!(builder.next_paragraph_index(), 3);
    let last = builder.finish("doc.txt").unwrap();
    let seen: Vec<(String, usize)> = last
        .tokens
        .into_iter()
        .map(|t| (t.text, t.paragraph_index))
        .collect();
    assert_eq!(
        seen,
        vec![
            ("one".to_string(), 0),
            ("two".to_string(), 0),
            ("three".to_string(), 1),
            ("four".to_string(), 2)
        ]
    );
}

#[test]
fn paragraph_numbering_continues_across_pieces() {
    let mut next = 5;
    let tokens = normalize_and_tokenize("one two\n\nthree", &mut next);
    let indexes: Vec<usize> = tokens.iter().map(|t| t.paragraph_index).collect();
    assert_eq!(indexes, vec![5, 5, 6]);
    assert_eq!(next, 7);
    let tokens = normalize_and_tokenize("  \n ", &mut next);
    assert!(tokens.is_empty());
    assert_eq!(next, 7);

    let mut builder = ChunkBuilder::new();
    let a = builder.tokenize_piece("first page");
    let b = builder.tokenize_piece("second\npage");
    assert_eq!(a[1].paragraph_index, 0);
    assert_eq!(b[0].paragraph_index, 1);
    assert_eq!(b[1].paragraph_index, 2);
}

#[test]
fn blank_lines_end_text_groups() {
    let builder = ChunkBuilder::new();
    assert!(ends_text_group("\n", &builder));
    assert!(ends_text_group(" \t\r\n", &builder));
    assert!(!ends_text_group("text\n", &builder));

    let mut builder = ChunkBuilder::new();
    builder.push_tokens(words(1_499));
    assert!(!ends_text_group("more\n", &builder));
}

#[test]
fn timings_report() {
    let mut timings = StreamTimings::default();
    assert_eq!(timings.source_format, "");
    assert_eq!(timings.worker_elapsed, Duration::ZERO);
    timings.source_format = "text";
    timings.worker_elapsed = Duration::from_millis(30);
    timings.send_wait = Duration::from_millis(50);
    timings.chunks_emitted = 2;
    let report = format_timings(&timings);
    assert!(report.starts_with("timings: format text, "));
    assert!(report.contains("active processing 0ns"));
    assert!(report.ends_with("chunks 2"));
    timings.send_wait = Duration::from_millis(10);
    assert!(format_timings(&timings).contains("active processing 20ms"));
}

#[test]
fn chunks_and_pending_tokens_keep_every_token_in_order() {
    let mut builder = ChunkBuilder::new();
    let mut seen: Vec<String> = Vec::new();
    for batch in [700, 1_000, 2_000, 3] {
        let start = builder.start_word_index() + builder.pending_len();
        let batch_tokens: Vec<Token> = (start..start + batch)
            .map(|i| Token {
                text: format!("word{i}"),
                paragraph_index: 0,
            })
            .collect();
        for chunk in builder.push_tokens(batch_tokens) {
            assert_eq!(chunk.start_word_index, seen.len());
            assert_eq!(chunk.tokens.len(), TARGET_CHUNK_TOKENS);
            seen.extend(chunk.tokens.into_iter().map(|t| t.text));
        }
    }
    let last = builder.finish("doc.txt").unwrap();
    assert_eq!(last.start_word_index, seen.len());
    seen.extend(last.tokens.into_iter().map(|t| t.text));
    let expected: Vec<String> = (0..3_703).map(|i| format!("word{i}")).collect();
    assert_eq!(seen, expected);
}

#[test]
fn timings_report_template() {
    let mut timings = StreamTimings::default();
    assert_eq!(
        format_timings(&timings),
        "timings: format , document load/extract 0ns, page extraction 0ns over 0 page(s), normalize/tokenize 0ns, first chunk None, worker elapsed 0ns, active processing 0ns, send wait 0ns, chunks 0"
    );
    timings.source_format = "pdf";
    timings.document_load = Duration::from_millis(3);
    timings.page_extraction = Duration::from_micros(1_500);
    timings.pages_extracted = 12;
    timings.normalize_tokenize = Duration::from_millis(7);
    timings.time_to_first_chunk = Some(Duration::from_millis(9));
    timings.worker_elapsed = Duration::from_millis(40);
    timings.send_wait = Duration::from_millis(15);
    timings.chunks_emitted = 1_234;
    assert_eq!(
        format_timings(&timings),
        "timings: format pdf, document load/extract 3ms, page extraction 1.5ms over 12 page(s), normalize/tokenize 7ms, first chunk Some(9ms), worker elapsed 40ms, active processing 25ms, send wait 15ms, chunks 1234"
    );
}
