//! Core logic of a graphical front-end for a command-line media downloader:
//! the subprocess progress protocol (sentinel-prefixed JSON events and
//! out-of-band signal lines), the download session state machine, the
//! argument builder for the downloader binary, and the release helpers.
//!
//! Everything here is pure: the surrounding binary does the process
//! spawning, file handling and rendering, and hands plain values in.

pub mod app;
pub mod command;
pub mod download_queue;
pub mod error;
pub mod json;
pub mod media_options;
pub mod num;
pub mod progress;
pub mod release;
pub mod render;
pub mod sponsorblock;
pub mod text;
