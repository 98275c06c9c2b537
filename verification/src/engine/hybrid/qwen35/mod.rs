//! The Qwen 3.5 family.
pub mod laws;
pub mod layer;
pub mod runtime;
pub mod rollback;
pub mod forward;
pub mod generate;
pub mod draft;
