//! Log entries that the application shows as it works.
use vstd::prelude::*;

use crate::time::{now_utc, Timestamp};

verus! {

#[derive(Debug, Clone, Copy, PartialEq, Eq, Structural)]
pub enum LogLevel {
    Debug,
    Info,
    Warn,
    Error,
}

impl LogLevel {
    /// The name of the level as log lines show it.
    pub fn label(&self) -> (r: &'static str)
        ensures
            r@ == match *self {
                LogLevel::Debug => "DEBUG"@,
                LogLevel::Info => "INFO"@,
                LogLevel::Warn => "WARN"@,
                LogLevel::Error => "ERROR"@,
            },
    {
        match self {
            LogLevel::Debug => "DEBUG",
            LogLevel::Info => "INFO",
            LogLevel::Warn => "WARN",
            LogLevel::Error => "ERROR",
        }
    }
}

/// One log entry; its time is in milliseconds since the Unix epoch.
#[derive(Debug, Clone)]
pub struct LogEntry {
    pub level: LogLevel,
    pub message: String,
    pub source: String,
    pub timestamp: u64,
}

/// Milliseconds since the Unix epoch of a point in time, zero before the
/// epoch, kept to 64 bits.
pub open spec fn epoch_millis(t: Timestamp) -> u64 {
    if t.secs < 0 {
        0
    } else {
        ((t.secs as int * 1000 + t.nanos as int / 1_000_000) % 0x1_0000_0000_0000_0000) as u64
    }
}

/// Milliseconds since the Unix epoch of `t`.
pub fn millis_of(t: Timestamp) -> (r: u64)
    ensures
        r == epoch_millis(t),
{
    if t.secs < 0 {
        0
    } else {
        let v: u128 = (t.secs as u128) * 1000 + (t.nanos / 1_000_000) as u128;
        (v % 0x1_0000_0000_0000_0000u128) as u64
    }
}

impl LogEntry {
    /// An entry made now.
    pub fn new(level: LogLevel, source: &str, message: &str) -> (r: Self)
        ensures
            r.level == level,
            r.source@ == source@,
            r.message@ == message@,
    {
        let t = now_utc();
        LogEntry {
            level,
            message: String::from_str(message),
            source: String::from_str(source),
            timestamp: millis_of(t),
        }
    }
}

} // verus!
