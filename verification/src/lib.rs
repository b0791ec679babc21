//! A verified bootstrap core for a process that hosts two cooperating
//! subsystems.
//!
//! The crate covers the two hard parts of such a process's startup:
//!
//! - layered configuration resolution: a key-value file source merged with
//!   environment-variable overrides under a fixed precedence, validated into
//!   a typed record ([`app_config::AppConfig`]) or rejected with a specific
//!   [`app_config::ConfigError`];
//! - supervised launching: an ordered registry of subsystem descriptors, a
//!   bootstrap state machine that refuses to hand out launches until the
//!   configuration is loaded, and a final report that accounts for every
//!   descriptor's outcome ([`supervisor::Supervisor`]).
//!
//! All I/O stays with the embedding process: it hands in the file text and
//! the environment entries as plain values, performs the launches the
//! supervisor hands out, and returns the outcomes.
//!
//! [`num`] holds the exact decimal representation used for the version
//! field, since the configuration sources write it as a decimal literal.

pub mod app_config;
pub mod num;
pub mod parse;
pub mod supervisor;
