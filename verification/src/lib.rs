//! The rules of a yt-dlp download server.

pub mod clock;
pub mod config;
pub mod download;
pub mod formats;
pub mod handles;
pub mod ids;
pub mod job;
pub mod keys;
pub mod lists;
pub mod number;
pub mod process;
pub mod routes;
pub mod setup;
pub mod size;
pub mod text;
pub mod url_test;
