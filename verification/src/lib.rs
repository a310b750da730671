//! Core of reel2mp3: link staging, the download queue, yt-dlp output parsing
//! and the text shown on screen, with their contracts.

pub mod text;
pub mod link;
pub mod job;
pub mod graph;
pub mod app;
pub mod laws;
pub mod view;
pub mod cli;
