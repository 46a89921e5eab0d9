//! Dialogue-anchored clip resolution.
//!
//! The library parses a SubRip subtitle track into timed entries and resolves
//! free-text quotes to the time range they denote, so a clip can be cut around
//! dialogue instead of hand-typed timestamps. Times are held as integer
//! milliseconds from the start of the track.
//!
//! `srt` parses tracks, `resolve` finds quotes and derives padded clip
//! ranges, `names` handles titles, file names and transcoder filter strings,
//! `config` knows where the external tools and the settings live, and `text`
//! holds the character-level groundwork they share.

pub mod config;
pub mod names;
pub mod resolve;
pub mod srt;
pub mod text;
