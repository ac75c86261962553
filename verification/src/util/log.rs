use vstd::prelude::*;

verus! {

/// Log levels for messages, from most to least verbose.
#[derive(Debug, Clone, Copy, PartialEq, Eq, PartialOrd, Ord, Hash, Structural)]
pub enum LogLevel {
    /// Extremely verbose (per-packet, per-frame).
    Trace,
    /// Debugging information.
    Debug,
    /// Informational messages (default).
    Info,
    /// Potential issues that don't prevent operation.
    Warning,
    /// Errors that may cause degraded output.
    Error,
    /// Fatal errors that prevent further processing.
    Fatal,
    /// Suppress all output.
    Quiet,
}

impl LogLevel {
    /// The level's rank: 0 for `Trace` up to 6 for `Quiet`.
    pub open spec fn rank(self) -> u8 {
        match self {
            LogLevel::Trace => 0,
            LogLevel::Debug => 1,
            LogLevel::Info => 2,
            LogLevel::Warning => 3,
            LogLevel::Error => 4,
            LogLevel::Fatal => 5,
            LogLevel::Quiet => 6,
        }
    }

    /// The level's rank as stored in a global setting.
    pub fn to_u8(self) -> (r: u8)
        ensures r == self.rank(),
    {
        match self {
            LogLevel::Trace => 0,
            LogLevel::Debug => 1,
            LogLevel::Info => 2,
            LogLevel::Warning => 3,
            LogLevel::Error => 4,
            LogLevel::Fatal => 5,
            LogLevel::Quiet => 6,
        }
    }

    /// The level of a stored rank; ranks above 5 mean `Quiet`.
    pub fn from_u8(v: u8) -> (r: LogLevel)
        ensures
            v <= 6 ==> r.rank() == v,
            v > 6 ==> r == LogLevel::Quiet,
    {
        match v {
            0 => LogLevel::Trace,
            1 => LogLevel::Debug,
            2 => LogLevel::Info,
            3 => LogLevel::Warning,
            4 => LogLevel::Error,
            5 => LogLevel::Fatal,
            _ => LogLevel::Quiet,
        }
    }
}

/// The level in force before any is set.
pub fn default_log_level() -> (r: LogLevel)
    ensures r == LogLevel::Info,
{
    LogLevel::Info
}

/// Whether a message at `level` passes the filter `threshold`: it does
/// unless its level ranks below the threshold.
pub fn passes_filter(level: LogLevel, threshold: LogLevel) -> (r: bool)
    ensures r == (level.rank() >= threshold.rank()),
{
    level.to_u8() >= threshold.to_u8()
}

/// Storing a level and reading it back gives that level.
pub proof fn law_rank_roundtrip(l: LogLevel, m: LogLevel)
    ensures l.rank() == m.rank() ==> l == m, l.rank() <= 6,
{
}

} // verus!
