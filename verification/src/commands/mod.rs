//! The decisions of the `init`, `migrate` and `switch` commands; the program
//! around the library performs the file-system work they ask for.

pub mod init;
pub mod migrate;
pub mod switch;

pub use switch::{Switch, SwitchAction, SwitchEvent, SwitchPhase, SwitchReport};
