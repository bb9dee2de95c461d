//! Encrypted, chunked backup archives: the envelope codec, the chunker with
//! its manifest, the reassembler that verifies what it joins, and the
//! retention rules, with their contracts.

pub mod backup;
pub mod command;
pub mod config;
pub mod crypto;
pub mod error;
pub mod git;
pub mod hash;
pub mod hex;
pub mod listing;
pub mod names;
pub mod paths;
pub mod restore;
pub mod retention;
pub mod schedule;
pub mod text;
