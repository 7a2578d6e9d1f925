//! A notifier for new GitHub releases.

pub mod config;
pub mod config_writeback;
pub mod daemon_laws;
pub mod document;
pub mod files;
pub mod github;
pub mod ip;
pub mod laws;
pub mod notify;
pub mod patterns;
pub mod schedule;
pub mod scheduler;
pub mod state;
pub mod string_map;
pub mod text;
pub mod text_laws;
pub mod time;
pub mod ui;
pub mod web_laws;
