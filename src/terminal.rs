//! Terminal sizes and failures of the pseudo-terminal front end.
use vstd::prelude::*;

verus! {

/// Failures of a pseudo-terminal session, each carried as its message.
#[derive(Debug)]
pub enum TerminalError {
    Pty(String),
    Io(String),
    Lock,
}

/// Rows and columns of a terminal.
#[derive(Debug, Clone, Copy, PartialEq, Eq, Structural)]
pub struct TerminalSize {
    pub rows: u16,
    pub cols: u16,
}

impl Default for TerminalSize {
    /// The classic 24 by 80.
    fn default() -> (r: Self)
        ensures
            r.rows == 24,
            r.cols == 80,
    {
        TerminalSize { rows: 24, cols: 80 }
    }
}

} // verus!
