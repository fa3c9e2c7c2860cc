//! Positions, ranges and diagnostics shared by the tool front ends.
use vstd::prelude::*;

verus! {

/// Errors of the tool front ends, each with its message.
#[derive(Debug)]
pub enum AxiomError {
    Io(String),
    Config(String),
    Toolchain(String),
    Parser(String),
    Git(String),
    Terminal(String),
    Other(String),
}

/// A zero-based line and column in a source file.
#[derive(Debug, Clone, Copy, PartialEq, Eq, Structural)]
pub struct Position {
    pub line: u32,
    pub column: u32,
}

impl Position {
    pub fn new(line: u32, column: u32) -> (r: Self)
        ensures
            r.line == line,
            r.column == column,
    {
        Position { line, column }
    }
}

/// The text between two positions.
#[derive(Debug, Clone, Copy, PartialEq, Eq, Structural)]
pub struct Range {
    pub start: Position,
    pub end: Position,
}

impl Range {
    pub fn new(start: Position, end: Position) -> (r: Self)
        ensures
            r.start == start,
            r.end == end,
    {
        Range { start, end }
    }
}

/// A range in a file.
#[derive(Debug, Clone, PartialEq, Eq)]
pub struct Location {
    pub path: String,
    pub range: Range,
}

impl Location {
    pub fn new(path: String, range: Range) -> (r: Self)
        ensures
            r.path == path,
            r.range == range,
    {
        Location { path, range }
    }
}

#[derive(Debug, Clone, Copy, PartialEq, Eq, Structural)]
pub enum Severity {
    Error,
    Warning,
    Note,
}

/// A message from a tool, with its severity and where it points, if anywhere.
#[derive(Debug, Clone, PartialEq, Eq)]
pub struct Diagnostic {
    pub severity: Severity,
    pub message: String,
    pub location: Option<Location>,
}

impl Diagnostic {
    /// An error with no location.
    pub fn error(message: &str) -> (r: Self)
        ensures
            r.severity == Severity::Error,
            r.message@ == message@,
            r.location is None,
    {
        Diagnostic { severity: Severity::Error, message: String::from_str(message), location: None }
    }

    /// A warning with no location.
    pub fn warning(message: &str) -> (r: Self)
        ensures
            r.severity == Severity::Warning,
            r.message@ == message@,
            r.location is None,
    {
        Diagnostic { severity: Severity::Warning, message: String::from_str(message), location: None }
    }

    /// This diagnostic pointing at `location`.
    pub fn with_location(self, location: Location) -> (r: Self)
        ensures
            r.severity == self.severity,
            r.message == self.message,
            r.location == Some(location),
    {
        Diagnostic { location: Some(location), ..self }
    }
}

} // verus!
