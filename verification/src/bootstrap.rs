//! The embedded bootstrap service: configuration, counters, lifecycle and
//! port selection.

pub mod config;
pub mod dht;
pub mod relay;
pub mod service;
pub mod stats;
