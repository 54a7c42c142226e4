//! Host side of an inference engine for a mixture-of-experts language model with
//! compressed attention caches.
//!
//! The library reads the weight file, builds the tokenizer, keeps the position and
//! cache bookkeeping of a decoding session, plans every device operation of a forward
//! pass, and holds the integer and bit-level parts of the device kernels.

pub mod bytes;
pub mod chat;
pub mod chat_laws;
pub mod decode_laws;
pub mod engine;
pub mod engine_laws;
pub mod gguf;
pub mod gguf_laws;
pub mod kernels;
pub mod merge_laws;
pub mod model;
pub mod model_laws;
pub mod pow2;
pub mod session;
pub mod text;
pub mod tokenizer;
pub mod tokenizer_laws;
