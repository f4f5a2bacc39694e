//! The decision core of a DNS gateway that is configured by a Corefile: the
//! configuration grammar, the plugin chain, caching, forwarding, error folding,
//! hot reload and the framing of answers. It performs no input or output. What
//! it promises as a whole stands in [`laws`].

pub mod config;
pub mod dns_server;
pub mod duration;
pub mod laws;
pub mod metrics;
pub mod outside;
pub mod plugin;
pub mod text;
pub mod types;
pub mod wire;
