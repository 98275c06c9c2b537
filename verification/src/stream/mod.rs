//! Expert streaming: read plans and the bounded read pipeline.
pub mod bracket;
pub mod buffer;
pub mod experts;
pub mod fetch;
pub mod laws;
pub mod order;
pub mod pipeline;
pub mod plan;
pub mod sample;

pub use experts::expert_reads;
pub use plan::{plan_from_str, plan_to_string, Read};
