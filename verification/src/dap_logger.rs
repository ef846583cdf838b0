//! The diagnostic logger's decisions: which records are forwarded to the
//! client, and the exact text of the output event each one becomes.  The
//! process-wide installation and the write to the transport live outside the
//! library.

use vstd::prelude::*;

verus! {

use vstd::string::StringExecFns;

/// A diagnostic severity, gravest first.
#[derive(Clone, Copy, Debug, PartialEq, Eq, Structural)]
pub enum LogLevel {
    Error,
    Warn,
    Info,
    Debug,
    Trace,
}

impl LogLevel {
    /// Rank of a level: lower is graver.
    pub open spec fn severity(self) -> int {
        match self {
            LogLevel::Error => 1,
            LogLevel::Warn => 2,
            LogLevel::Info => 3,
            LogLevel::Debug => 4,
            LogLevel::Trace => 5,
        }
    }

    /// The level's display name.
    pub open spec fn label(self) -> Seq<char> {
        match self {
            LogLevel::Error => "ERROR"@,
            LogLevel::Warn => "WARN"@,
            LogLevel::Info => "INFO"@,
            LogLevel::Debug => "DEBUG"@,
            LogLevel::Trace => "TRACE"@,
        }
    }

    /// The level's display name.
    pub fn label_str(&self) -> (r: &'static str)
        ensures
            r@ == self.label(),
    {
        match self {
            LogLevel::Error => "ERROR",
            LogLevel::Warn => "WARN",
            LogLevel::Info => "INFO",
            LogLevel::Debug => "DEBUG",
            LogLevel::Trace => "TRACE",
        }
    }
}

/// The logger's settings: records above this level are dropped.
pub struct DapLogger {
    pub max_level: LogLevel,
}

/// The logger the adapter installs: diagnostics at info level and graver are
/// forwarded to the client.
pub fn init() -> (r: DapLogger)
    ensures
        r.max_level == LogLevel::Info,
{
    DapLogger { max_level: LogLevel::Info }
}

impl DapLogger {
    /// Whether a record of the given level is forwarded.
    pub fn enabled(&self, level: &LogLevel) -> (r: bool)
        ensures
            r == (level.severity() <= self.max_level.severity()),
    {
        let s: u8 = match level {
            LogLevel::Error => 1,
            LogLevel::Warn => 2,
            LogLevel::Info => 3,
            LogLevel::Debug => 4,
            LogLevel::Trace => 5,
        };
        let m: u8 = match self.max_level {
            LogLevel::Error => 1,
            LogLevel::Warn => 2,
            LogLevel::Info => 3,
            LogLevel::Debug => 4,
            LogLevel::Trace => 5,
        };
        s <= m
    }

    /// The text of the output event a record becomes.
    pub fn format(&self, level: &LogLevel, msg: &str) -> (r: String)
        ensures
            r@ == "["@ + level.label() + "] "@ + msg@ + "\n"@,
    {
        let mut out = String::new();
        out.append("[");
        out.append(level.label_str());
        out.append("] ");
        out.append(msg);
        out.append("\n");
        assert(out@ =~= "["@ + level.label() + "] "@ + msg@ + "\n"@);
        out
    }
}

} // verus!
