//! A protocol-translation bridge between two LLM wire protocols: the
//! "Responses" API (typed input items, named server-sent events) and the
//! "Chat Completions" API (role-tagged messages, incremental JSON deltas).
//!
//! The library holds the verified core: the JSON tree model, the SSE line
//! parser, the request transcoders in both directions, the streaming and
//! unary response transcoders, and the dispatcher's pure decisions.  An
//! unverified shell around it does the network and file I/O.

pub mod config;
pub mod content;
pub mod dispatch;
pub mod errors;
pub mod json;
pub mod outside;
pub mod sse;
pub mod stream;
pub mod text;
pub mod to_chat;
pub mod to_responses;
pub mod tools;
pub mod unary;

pub use json::Json;
