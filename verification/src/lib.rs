//! Reelcast: a small media server that indexes video files and hands them to VLC.
//!
//! This crate holds the server's logic: playlist rendering, file-name parsing,
//! URL building, the media cache and the player-session registry.

pub mod cache;
pub mod config;
pub mod error;
pub mod media;
pub mod paths;
pub mod qr;
pub mod scanner;
pub mod serve;
pub mod sessions;
pub mod text;
pub mod vlc;
