//! Reading and writing the PNG chunk stream: type codes, checksummed chunks,
//! and the container that holds them in file order.

pub mod args;
pub mod chunk;
pub mod chunk_type;
pub mod commands;
pub mod error;
pub mod png;
pub mod text;
