//! Autoregressive text generation: prompt preparation, greedy decoding and
//! sampling, beam search, and the token filters they share.
//!
//! The language model and the tokenizer are collaborators of the caller, and
//! so is all arithmetic on scores. The library decides what is fed to them
//! and what is done with their answers: which tokens are masked out, which
//! token each row gets, which hypotheses are finished and kept, which beams
//! go on, when decoding ends and what is returned. Every decision is stated
//! in a contract and proved.
//!
//! A run starts with a [`generators::LanguageGenerator`] or with
//! [`generation::start_generation`], which give a decoder: a
//! [`no_beam_search::NoBeamSearch`] or a [`beam_search::BeamSearch`]. The
//! caller then runs the model step by step and hands its scores to the
//! decoder until the decoder says that the run is over.
//!
//! Scores are held as [`number::Number`]: integers whose order is the order
//! of the numbers they stand for.

pub mod beam_hypotheses;
pub mod beam_search;
pub mod config;
pub mod error;
pub mod filters;
pub mod generation;
pub mod generators;
pub mod keywords;
pub mod matrix;
pub mod no_beam_search;
pub mod number;
pub mod penalty;
pub mod prompt;
pub mod ranking;
