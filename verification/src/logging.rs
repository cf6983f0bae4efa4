//! Kernel log levels and the level filter.
use vstd::prelude::*;

verus! {

/// Log levels; a higher rank is more severe.
#[derive(Clone, Copy, PartialEq, Eq, Structural)]
pub enum Level {
    Trace,
    Debug,
    Info,
    Warn,
    Error,
    Fatal,
}

/// Severity rank of a level (Trace = 0 up to Fatal = 5).
pub open spec fn level_rank(l: Level) -> u8 {
    match l {
        Level::Trace => 0,
        Level::Debug => 1,
        Level::Info => 2,
        Level::Warn => 3,
        Level::Error => 4,
        Level::Fatal => 5,
    }
}

/// The fixed-width label printed for a level.
pub open spec fn level_label(l: Level) -> &'static str {
    match l {
        Level::Trace => "TRACE",
        Level::Debug => "DEBUG",
        Level::Info => "INFO ",
        Level::Warn => "WARN ",
        Level::Error => "ERROR",
        Level::Fatal => "FATAL",
    }
}

impl Level {
    pub fn as_str(self) -> (r: &'static str)
        ensures
            r@ == level_label(self)@,
    {
        match self {
            Level::Trace => "TRACE",
            Level::Debug => "DEBUG",
            Level::Info => "INFO ",
            Level::Warn => "WARN ",
            Level::Error => "ERROR",
            Level::Fatal => "FATAL",
        }
    }

    pub fn rank(self) -> (r: u8)
        ensures
            r == level_rank(self),
    {
        match self {
            Level::Trace => 0,
            Level::Debug => 1,
            Level::Info => 2,
            Level::Warn => 3,
            Level::Error => 4,
            Level::Fatal => 5,
        }
    }
}

/// Whether a message of `level` is printed when `max_level` is the
/// configured threshold: only levels at least as severe pass.
pub fn is_logged(level: Level, max_level: Level) -> (r: bool)
    ensures
        r == (level_rank(level) >= level_rank(max_level)),
{
    level.rank() >= max_level.rank()
}

} // verus!
