//! Command-line model and verified planning logic of a kernel benchmark tool.

pub mod argument;
pub mod config;
pub mod text;
pub mod dgemm;
pub mod spmv;
pub mod bench;
