//! A small library for listing sandboxed applications, formatting them into
//! fixed-width display rows, and building the command line that launches the
//! one a user picked.
//!
//! The pipeline has three verified stages: formatting raw inventory lines
//! into display rows paired with their identifiers (`format`, `entry`),
//! assembling the input handed to an interactive fuzzy-finder
//! (`pipeline`), and resolving the chosen row back to the identifier that
//! launches it (`entry`; `extract` re-parses a bare row as a fallback).
//! Text primitives (whitespace tokenisation, trimming) live in `text`.

pub mod entry;
pub mod extract;
pub mod format;
pub mod pipeline;
pub mod text;
