//! A careful coding agent's verified core: the imported subscription and its stored credentials,
//! the chat client that spends them, and the turn that drives the model.

pub mod agent;
pub mod aichat;
pub mod json;
pub mod label;
pub mod skus;
pub mod text;
