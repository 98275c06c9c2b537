//! Kimi K3: recurrent delta attention and gated latent attention, attention residuals, and a
//! mixture of experts in a latent space.
pub mod batch;
pub mod compare;
pub mod compute;
pub mod dense;
pub mod dims;
pub mod forward;
pub mod kda;
pub mod kernels;
pub mod layer;
pub mod laws;
pub mod mla;
pub mod moe;
pub mod rule_laws;
pub mod runtime;
pub mod trace;
pub mod weights;
