//! The decisions of a small always-on service that keeps video parts as
//! Telegram documents and serves them back over HTTP.

pub mod access;
pub mod auth;
pub mod config;
pub mod files;
pub mod login;
pub mod names;
pub mod number;
pub mod peers;
pub mod playback;
pub mod range;
pub mod registry;
pub mod reply;
pub mod request;
pub mod segment;
pub mod stream;
pub mod text;
pub mod upload;
