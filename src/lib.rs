//! Clipboard exchange between machines that share one synchronised directory.
//!
//! Each instance publishes its clipboard text as a file named
//! `clipboard-<owner>-<timestamp>.tmp` and adopts the newest file of the
//! owners it listens to. The library decides; the caller performs the I/O.
pub mod config;
pub mod file_handlers;
pub mod keyboard;
pub mod laws;
pub mod naming;
pub mod text;
pub mod utils;
