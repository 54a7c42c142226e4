//! The integer and bit-level parts of the device kernels.
//!
//! Floating-point numbers are held as their bit patterns. A function that stands for a kernel
//! does the work of one block of its grid, whose coordinates come first among its arguments,
//! or of the whole grid where it has no such arguments.

pub mod attention;
pub mod attention_laws;
pub mod bitonic;
pub mod bitonic_laws;
pub mod choice_laws;
pub mod dequant;
pub mod embed;
pub mod float;
pub mod fp8;
pub mod hc;
pub mod indexer;
pub mod indexer_laws;
pub mod kv_cache;
pub mod matmul;
pub mod moe;
pub mod moe_laws;
pub mod number_laws;
pub mod place_laws;
pub mod quantize;
pub mod quantize_laws;
pub mod reduce;
pub mod rope;
pub mod scores;
pub mod streams;
pub mod utils;
