//! The web interface.

pub mod auth;
pub mod handlers;
pub mod headers;
