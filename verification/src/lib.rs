//! Verified core of a command-line client for the OpenRouter HTTP API.
pub mod text;
pub mod stream;
pub mod models;
pub mod chat;
