//! Chess position analysis: board sessions, the dialogue with a UCI engine,
//! an analysis cache and the server and agent decisions around them.

pub mod text;
pub mod error;
pub mod fen;
pub mod position;
pub mod pv_explain;
pub mod cache;
pub mod board;
pub mod options;
pub mod path;
pub mod engine;
pub mod handshake;
pub mod search;
pub mod config;
pub mod server;
pub mod agent;
