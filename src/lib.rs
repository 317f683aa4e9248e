//! A forwarding gateway core: bearer authentication, header mapping,
//! redirect rewriting and CORS stamping, each stated over plain values.

pub mod text;
pub mod auth;
pub mod headers;
pub mod proxy;
pub mod cors;
pub mod handler;
pub mod config;
