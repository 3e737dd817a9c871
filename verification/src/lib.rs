//! Verified core of a small desktop music player: the track model, path
//! handling, folder-scan merging, playlist ordering (shuffle / repeat),
//! watched-folder bookkeeping, skin presets, the visualizer sample window
//! and the text shown in the "now playing" line.

mod text;
pub mod sort;
pub mod paths;
pub mod time;
pub mod library;
mod random;
pub mod playlist;
pub mod ui;
pub mod config;
pub mod skin;
pub mod audio;

pub use text::{chars_of, string_of};
