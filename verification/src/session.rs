//! A decoding session: positions, cache counters, and the plan of device operations for
//! every token.
//!
//! The first two layers attend to a sliding window only. From the third on, layers keep
//! compressed rows besides it: one row for every four tokens in even layers, which also have
//! an indexer that picks the rows to attend to, and one for every 128 tokens in odd layers.

pub mod agree;
pub mod bounds;
pub mod chunk_token;
pub mod compressor;
pub mod decode;
pub mod forward;
pub mod forward_first;
pub mod forward_later;
pub mod forward_laws;
pub mod forward_layer;
pub mod forward_parts;
pub mod fresh_laws;
pub mod laws;
pub mod layer;
pub mod meaning;
pub mod need_laws;
pub mod prefill;
pub mod prompt_laws;
pub mod reads;
pub mod results;
pub mod ring;
pub mod state;
pub mod step;
pub mod table_laws;
pub mod widen;
