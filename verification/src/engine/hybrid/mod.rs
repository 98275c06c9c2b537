//! Models whose routed experts may lie on several devices: the DeepSeek V4 and Qwen 3.5 families.
pub mod select;
pub mod dsv4;
pub mod plan;
pub mod groups;
pub mod kernels;
pub mod laws;
pub mod rule_laws;
pub mod shape;
pub mod moe;
pub mod qwen35;
