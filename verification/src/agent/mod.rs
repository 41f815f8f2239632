//! The agent: a dialogue with a language model that may call the server's tools.

pub mod dialog;
pub mod message;
pub mod tool;
pub mod turn;
pub mod launch;
