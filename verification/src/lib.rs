//! A self-describing bundle of files appended to the tail of a carrier
//! stream, together with the settings and script text that surround it.
//!
//! The bundle is a run of entries, each a path and its contents behind
//! 32-bit big-endian lengths, closed by a fixed twelve-byte footer that
//! records where the first entry begins and how many entries there are.
//! A reader needs no knowledge of what precedes the bundle: it reads the
//! footer from the end of the stream and walks forward from the recorded
//! offset.

pub mod wire;
pub mod entry;
pub mod format;
pub mod encoder;
pub mod decoder;
pub mod laws;
pub mod text;
pub mod settings;
pub mod script;
pub mod manifest;
