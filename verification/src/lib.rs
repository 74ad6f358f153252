//! Walkman: a YAML-driven integration test runner for bare-metal operating
//! systems driven over a serial console.
pub mod config;
pub mod engine;
pub mod progress;
pub mod reporter;
pub mod suite;
pub mod text;
pub mod traits;

use vstd::prelude::*;

verus! {

/// Command-line options of the runner.
pub struct Cli {
    /// A test file, or a directory of test files.
    pub path: String,
    /// Flat console output in place of the dynamic terminal interface.
    pub nui: bool,
    /// Show the raw serial output of the steps that succeed.
    pub verbose: bool,
}

/// ANSI escape that switches the terminal to green.
pub const GREEN: &'static str = "\x1b[32m";

/// ANSI escape that switches the terminal to red.
pub const RED: &'static str = "\x1b[31m";

/// ANSI escape that switches the terminal to grey.
pub const GREY: &'static str = "\x1b[90m";

/// ANSI escape that restores the terminal's colours.
pub const RESET: &'static str = "\x1b[0m";

} // verus!
