# rsvp

A terminal RSVP reader: it shows prose one word at a time, with the optimal
recognition point (ORP) of each word highlighted and anchored in the middle
of the screen.

The library under `src/` is written in Verus. Its functions carry contracts
that Verus proves, except the small `#[verifier::external_body]` wrappers
around calls into std and into the outside crates (pulldown-cmark,
pdf-extract, epub-parser, unicode-segmentation, unicode-width): their
contracts are trusted, and each one's doc comment says what it claims.
The PDF calls run on a scoped thread (crossbeam-utils), so that a panic of
pdf-extract comes back as an extraction error.

- `input`, `extract`: choosing a format by file extension, decoding text
  files, rendering Markdown to prose, PDF and EPUB text extraction.
- `normalize`: joining hyphenated line breaks, collapsing whitespace,
  paragraph boundaries.
- `tokenize`: readable words with their paragraph index.
- `rsvp`: ORP modes, pivot choice over grapheme clusters, display widths.
- `playback`: timing per word and the reading state machine over streamed
  chunks.
- `stream`: chunking of tokens for streaming, and the timing report (its
  template is an open spec function, `timings_text`; only the `Debug`
  text of a `Duration` comes from a trusted wrapper).
- `tui`: layout arithmetic, key handling and the status line of the
  terminal frontend.
- `chars`, `error`: character classes, joining, error messages.

The public proof functions named `law_...` state properties that span
several calls: stepping back and forth, speed bounds, idempotent
normalization, chunking that keeps every token, and more.

`app/` holds the program around the library: command-line handling, file
reading, the loading thread and the Ratatui/crossterm frontend.
