//! Verified core of a low-latency HLS ingest server.

pub mod auth;
pub mod buffer;
pub mod config;
pub mod digest;
pub mod float;
pub mod http;
pub mod number;
pub mod order;
pub mod session;
pub mod storage;
pub mod streaming;
pub mod table;
pub mod text;
pub mod time;
pub mod writer;
