//! Verified core of a streaming mixture-of-experts inference stack.

pub mod bytes;
pub mod gguf;
pub mod text;
pub mod words;
pub mod stream;
pub mod fp;
pub mod narrow;
pub mod quant;
pub mod engine;
pub mod serve;
