//! GGUF container: the header model, its reader and its writer.
//!
//! Only the header is ever held in memory: tensor data is addressed by
//! (offset, size) and streamed later.
pub mod encode;
pub mod error;
pub mod grammar;
pub mod laws;
pub mod model;
pub mod parse;
pub mod prefix;
pub mod shards;
pub mod tensor;
pub mod value;
pub mod writer;

pub use error::Error;
pub use parse::Gguf;
pub use shards::{split_shard_names, split_shards};
pub use tensor::{TensorInfo, TensorType};
pub use value::{Metadata, Value};
