//! Streaming validation of FASTA nucleotide files against viral genome
//! submission rules.
//!
//! - `report`: output rows and diagnostics, with their mathematical views.
//! - `seqid`: identifier extraction from a defline and the identifier rules.
//! - `rules`: length, ambiguous-base and uniqueness rules; the alphabet.
//! - `model`: the scanner as a state machine over bytes (`step`, `run`).
//! - `scanner`: the executable scanner, proved to follow the model.
//! - `laws`: chunk invariance, determinism, record counting, clean inputs.
//! - `source`: the reading mode that a file name selects.
pub mod report;
pub mod seqid;
pub mod rules;
pub mod model;
pub mod scanner;
pub mod laws;
pub mod source;
