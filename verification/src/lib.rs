//! Linux system telemetry: parsers for `/proc` and `/sys` content, interval
//! metrics derived from consecutive samples, and the decisions of the HTTP API.

pub mod api;
pub mod cli;
pub mod config;
pub mod sampling;
pub mod system;
pub mod text;

pub use config::PathsConfig;
pub use system::paths::SystemPaths;
