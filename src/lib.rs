//! Execution substrate of a dataflow engine: the stream element protocol,
//! the operators that consume it, and the receivers that feed blocks.

pub mod binary;
pub mod element;
pub mod expr;
pub mod float32;
pub mod fold_batch;
pub mod network;
pub mod operator;
pub mod record;
pub mod window;
