//! Forward passes of the model families: what is launched, in which order, and on what.
pub mod experts;
pub mod program;
pub mod k3;
pub mod hybrid;
