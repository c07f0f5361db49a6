//! A personal memory store with semantic retrieval: callers submit short text
//! notes, each note carries a fixed-point vector embedding, and similarity
//! queries rank stored notes against a query embedding. A profile of the
//! stored notes can be synthesized through an external text-generation
//! service; this crate holds the engine logic, while transport and inference
//! calls live outside it.

pub mod aggregate;
pub mod config;
pub mod embeddings;
pub mod engine;
pub mod math;
pub mod models;
pub mod ollama;
pub mod profile;
pub mod ranking;
pub mod store;
pub mod textfmt;
