//! Builds an `m3u8` playlist for a single album directory.
//!
//! The library classifies directory entries by a fixed audio-extension set,
//! derives each track's order from a leading decimal run in its file name or,
//! failing that, from a `track` tag found in the container metadata, sorts the
//! collected tracks by order, and renders the playlist text. File names and
//! tag strings are handled as UTF-8 byte strings; all classification and
//! parsing is byte-level and ASCII-only by design.
//!
//! Directory enumeration, the demuxer call that reads container metadata, and
//! the final file write are input/output and live with the caller; the
//! [`scan::Scanner`] state machine hands out exactly what the caller must do
//! for each directory entry.

pub mod classify;
pub mod digits;
pub mod playlist;
pub mod scan;
pub mod sorting;
pub mod tags;
pub mod track;
