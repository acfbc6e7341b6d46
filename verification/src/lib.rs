//! Regex-based environment switching for configuration files: the verified core.

pub mod commands;
pub mod config;
pub mod error;
pub mod replacer;
pub mod text;

pub use config::ConfigLoader;
pub use error::KoseiError;
