//! Quantized block formats, their codecs and the integer side of their dot products.
pub mod blocks;
pub mod scales;
pub mod pack;
pub mod codebook_laws;
pub mod dots;
pub mod iq;
pub mod iq_blocks;
pub mod laws;
pub mod layout_laws;
pub mod imatrix;
pub mod recipe;
pub mod iq_encode;
pub mod row_blocks;
pub mod rows;
pub mod carry;
pub mod rewrite;
pub mod shard;
pub mod q8row;
pub mod unpack;
