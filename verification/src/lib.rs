//! Passphrase generation from a dictionary word list.
//!
//! The pipeline: resolve a [`config::Config`], split the loaded dictionary
//! text into lines, keep the lines whose length lies within the configured
//! bounds, draw a sample of distinct words uniformly at random, and join the
//! sample into one output line per repetition.

pub mod config;
pub mod phrase;
pub mod sample;
pub mod words;
