//! An intercepting HTTP(S) proxy engine: header handling, rule evaluation,
//! the request pipeline, the leaf-certificate cache, the replay reader for
//! peeked tunnel bytes, and WebSocket message filtering.

pub mod action;
pub mod authority;
pub mod cache;
pub mod headers;
pub mod names;
pub mod pipeline;
pub mod rewind;
pub mod rules;
pub mod text;
pub mod tunnel;
pub mod websocket;
