//! Decoder core for a line-oriented debug-telemetry protocol: a target
//! device streams ASCII diagnostic lines; this library frames the byte
//! stream into lines, parses a small declarative mini-language, keeps a
//! registry of named scopes, and appends clamped numeric samples into
//! bounded rolling histories.
pub mod color;
pub mod config;
pub mod framer;
pub mod laws;
pub mod line;
pub mod num;
pub mod numparse;
pub mod parser;
pub mod registry;
pub mod scope;
pub mod strutil;
