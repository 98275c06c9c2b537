//! The chat server: requests, replies and streamed text.
pub mod json;
pub mod laws;
pub mod http;
pub mod args;
pub mod chat;
pub mod streaming;
