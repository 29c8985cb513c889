//! What the viewer is told on the command line.

use crate::colors::TerminalColorMode;
use vstd::prelude::*;

verus! {

/// What every use of the viewer takes.
#[derive(Debug, Clone)]
pub struct CommonArgs {
    pub flamegraph_enable: bool,
    pub flamegraph_save_file: Option<String>,
    pub log_enable: bool,
    pub log_save_path: Option<String>,
    pub log_console: bool,
}

impl Default for CommonArgs {
    fn default() -> (r: CommonArgs)
        ensures
            r == (CommonArgs {
                flamegraph_enable: false,
                flamegraph_save_file: None,
                log_enable: false,
                log_save_path: None,
                log_console: false,
            }),
    {
        CommonArgs {
            flamegraph_enable: false,
            flamegraph_save_file: None,
            log_enable: false,
            log_save_path: None,
            log_console: false,
        }
    }
}

/// What is to be done.
#[derive(Debug, Clone, Copy, PartialEq, Eq, Structural)]
pub enum Commands {
    /// Show the log.
    Run,
}

/// The command line.
#[derive(Debug, Clone)]
pub struct Args {
    pub common: CommonArgs,
    pub command: Option<Commands>,
}

/// The command line and the terminal that the viewer runs in.
pub struct RunOptions {
    pub args: Args,
    pub color_mode: TerminalColorMode,
}

} // verus!
