//! Connection management for a pool of WebSocket connections.

pub mod api;
pub mod common;
pub mod connection;
pub mod emitter;
pub mod exchange;
pub mod failure;
pub mod follow_laws;
pub mod handshake;
pub mod inflate;
pub mod json;
pub mod laws;
pub mod lifecycle;
pub mod models;
pub mod options;
pub mod pool_laws;
pub mod release_laws;
pub mod reply_laws;
pub mod setup_laws;
pub mod stream;
pub mod stream_laws;
pub mod stream_setup;
pub mod streams;
pub mod string_map;
pub mod subscription;
pub mod text;
pub mod text_laws;
pub mod view_laws;
