//! Auth2API: a local OpenAI-compatible front end for a ChatGPT login.
//!
//! This crate holds the logic: what the local API answers, the request and
//! response translation between Chat Completions and Responses, the upstream
//! event decoding, the login's OAuth pieces, the API-key rules, who may reach
//! the server, the usage accounting, and the small renderings the command
//! line and the desktop window show.

pub mod api;
pub mod auth;
pub mod config;
pub mod json;
pub mod keys;
pub mod net;
pub mod order;
pub mod panel;
pub mod platform;
pub mod render;
pub mod sse;
pub mod stats;
pub mod stream;
pub mod text;
pub mod translate;
pub mod upstream;
