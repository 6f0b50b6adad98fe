//! A library for hiding and retrieving text messages in the chunk stream of a
//! PNG file.
//!
//! The PNG container format is modelled in three layers: [`chunk_type`] holds
//! the validated 4-byte type code with its property bits, [`chunk`] holds one
//! length-prefixed, checksummed record, and [`png`] holds the ordered chunk
//! stream with signature validation, lookup, insertion before the terminator,
//! removal and re-serialization. [`commands`] combines them into the four
//! byte-level operations a command-line front end needs.

pub mod chunk;
pub mod chunk_type;
pub mod commands;
pub mod error;
pub mod png;
pub mod text;
