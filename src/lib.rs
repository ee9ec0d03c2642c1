//! A line-editing shell engine for small devices: a fixed-capacity edit
//! buffer driven byte by byte, command history, autocompletion, a command
//! registry, and the echo that keeps a serial terminal in step with the
//! buffer.
use vstd::prelude::*;

pub mod autocomplete;
pub mod control;
pub mod editor;
pub mod error;
pub mod history;
pub mod line;
pub mod mylog;
pub mod pwmin;
pub mod registry;
pub mod shell;
pub mod terminal;

pub use autocomplete::{Autocomplete, StaticAutocomplete};
pub use error::{Input, ShellError, ShellResult};
pub use history::{History, LRUHistory};
pub use mylog::MyLogger;
pub use pwmin::{pwmin_register_cmd, PwmInError, PwmInfo};
pub use registry::SevenShellEnv;
pub use shell::{AShell, Environment};

verus! {

} // verus!
