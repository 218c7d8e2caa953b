//! Verified core of the Waku OpenCode 2 wire layer.
pub mod api;
pub mod computer_use;
pub mod hub;
pub mod json;
pub mod order;
pub mod reader;
pub mod service;
pub mod sse;
pub mod text;
pub mod wire;
