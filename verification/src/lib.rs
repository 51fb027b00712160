//! Core library of a retrieval-augmented generation (RAG) assistant.
//!
//! The library ingests documents into named collections, splits them into
//! bounded-size chunks, stores optional embedding vectors as byte blobs, and
//! answers queries by ranking chunks either semantically (by scores computed
//! from stored vectors) or lexically (by token overlap).  Everything here is
//! pure logic over plain values; file access, databases, the embedding model
//! and the language-model client live outside and talk to this crate through
//! plain data.

pub mod api;
pub mod chunker;
pub mod codec;
pub mod config;
pub mod docs;
pub mod embeddings;
pub mod gemini;
pub mod laws;
pub mod model;
pub mod pdf;
pub mod quota;
pub mod rag;
pub mod repo;
pub mod search;
pub mod templates;
pub mod text;
