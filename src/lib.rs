//! Passphrase generation from frequency-filtered part-of-speech word lists.
//!
//! `builder` turns dictionary index files and a frequency corpus into word
//! lists, `words` reads the cached lists back, `cache` names the cached files
//! and decides when to rebuild them, and `generator` draws passphrases.
pub mod builder;
pub mod cache;
pub mod generator;
pub mod number;
pub mod text;
pub mod words;
