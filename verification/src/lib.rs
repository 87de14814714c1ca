//! Verified core of a batch media downloader: a line-oriented progress
//! parser, a bounded-concurrency batch coordinator with cooperative
//! cancellation, and the pure helpers around them (playlist output parsing,
//! settings validation, tool invocation arguments).

pub mod batch;
pub mod binaries;
pub mod downloader;
pub mod playlist;
pub mod progress;
pub mod settings;
pub mod text;
