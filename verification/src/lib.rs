//! A terminal chat client core: a UTF-8-safe paged text buffer with cursor
//! handling, and the protocol pieces that talk to large-language-model
//! providers (HTTP/1.1 request framing, chunked-body decoding, and
//! Server-Sent-Event stream parsing).
pub mod config;
pub mod http;
pub mod json;
pub mod message;
pub mod session;
pub mod sse;
pub mod store;
pub mod text;
