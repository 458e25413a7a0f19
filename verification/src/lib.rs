//! Core of a terminal RSVP (rapid serial visual presentation) reader:
//! document text extraction and cleanup, tokenization, optimal recognition
//! point modelling, reading-speed timing, chunked streaming and the
//! playback state machine.

pub mod chars;
pub mod error;
pub mod extract;
pub mod input;
pub mod normalize;
pub mod playback;
pub mod rsvp;
pub mod stream;
pub mod tokenize;
pub mod tui;

pub use error::{OrpError, Result};
