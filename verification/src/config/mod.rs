//! The configuration file: its data model, its validation and the regex
//! literals it holds.

pub mod compiled_regex;
pub mod loader;
pub mod regex;

pub use loader::{Config, ConfigLoader, Environment, Replacement};
