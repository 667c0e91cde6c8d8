//! A verified core for a five-letter word-guessing game: a scorer that
//! grades a guess against the answer with duplicate-letter-aware feedback,
//! and a simulator that drives guess/feedback rounds against a dictionary
//! of allowed words until the answer is found or the turn limit runs out.

pub mod algorithms;
pub mod game;
pub mod scoring;
pub mod words;

pub use game::{Guess, GuessOutcome, Guesser, PlayError, Wordle, MAX_TURNS};
pub use scoring::{Correctness, WORD_LEN};
pub use words::DictError;
