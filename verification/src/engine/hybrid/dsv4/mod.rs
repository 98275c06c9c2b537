//! The DeepSeek V4 family.
pub mod lanes;
pub mod laws;
pub mod layer;
pub mod runtime;
pub mod forward;
