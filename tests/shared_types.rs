use axiom_compliance::types::{Diagnostic, Location, Position, Range, Severity};

#[test]
fn test_position() {
    let pos = Position::new(10, 5);
    assert_eq!(pos.line, 10);
    assert_eq!(pos.column, 5);
}

#[test]
fn test_range() {
    let start = Position::new(0, 0);
    let end = Position::new(10, 20);
    let range = Range::new(start, end);
    assert_eq!(range.start, start);
    assert_eq!(range.end, end);
}

#[test]
fn test_diagnostic() {
    let diag = Diagnostic::error("test error");
    assert_eq!(diag.severity, Severity::Error);
    assert_eq!(diag.message, "test error");
    assert!(diag.location.is_none());
}

#[test]
fn diagnostic_with_location() {
    let loc = Location::new("a.c".to_string(), Range::new(Position::new(1, 2), Position::new(1, 8)));
    let diag = Diagnostic::warning("w").with_location(loc.clone());
    assert_eq!(diag.severity, Severity::Warning);
    assert_eq!(diag.location, Some(loc));
}

use axiom_compliance::logging::{millis_of, LogEntry, LogLevel};
use axiom_compliance::time::Timestamp;

#[test]
fn log_entries_and_times() {
    let e = LogEntry::new(LogLevel::Warn, "build", "slow link");
    assert_eq!(e.level, LogLevel::Warn);
    assert_eq!(e.source, "build");
    assert_eq!(e.message, "slow link");
    assert!(e.timestamp > 0);
    assert_eq!(LogLevel::Error.label(), "ERROR");
    assert_eq!(millis_of(Timestamp { secs: 2, nanos: 345_678_901 }), 2345);
    assert_eq!(millis_of(Timestamp { secs: -5, nanos: 0 }), 0);
    let t = Timestamp { secs: 1431648000, nanos: 0 };
    assert_eq!(t.to_rfc3339(), Some("2015-05-15T00:00:00+00:00".to_string()));
}
