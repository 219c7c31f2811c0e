//! Log levels, the level filter, and the layout of a log line.
//!
//! Writing the line (to the terminal, a file or syslog) is left to the caller.
use vstd::prelude::*;

use crate::text::{chars_eq_str, chars_of, push_str, string_from_str};

verus! {

#[derive(Debug, Clone, Copy, PartialEq, Eq, PartialOrd, Ord, Structural)]
pub enum LogLevel {
    Debug,
    Info,
    Warn,
    Error,
}

/// The severity of a level, from 0 (debug) to 3 (error).
pub open spec fn level_rank(l: LogLevel) -> u8 {
    match l {
        LogLevel::Debug => 0,
        LogLevel::Info => 1,
        LogLevel::Warn => 2,
        LogLevel::Error => 3,
    }
}

/// The level of a severity; every value above 2 is `Error`.
pub open spec fn level_of_rank(v: u8) -> LogLevel {
    if v == 0 {
        LogLevel::Debug
    } else if v == 1 {
        LogLevel::Info
    } else if v == 2 {
        LogLevel::Warn
    } else {
        LogLevel::Error
    }
}

/// The tag that a log line carries for a level.
pub open spec fn level_tag(l: LogLevel) -> Seq<char> {
    match l {
        LogLevel::Debug => "[DEBUG]"@,
        LogLevel::Info => "[INFO ]"@,
        LogLevel::Warn => "[WARN ]"@,
        LogLevel::Error => "[ERROR]"@,
    }
}

/// The level that a configuration names: `debug`, `warn` or `warning`, `error`;
/// anything else is `info`.
pub open spec fn level_of_config(s: Seq<char>) -> LogLevel {
    if s == "debug"@ {
        LogLevel::Debug
    } else if s == "warn"@ || s == "warning"@ {
        LogLevel::Warn
    } else if s == "error"@ {
        LogLevel::Error
    } else {
        LogLevel::Info
    }
}

impl LogLevel {
    /// The severity of the level.
    pub fn rank(&self) -> (r: u8)
        ensures
            r == level_rank(*self),
    {
        match self {
            LogLevel::Debug => 0,
            LogLevel::Info => 1,
            LogLevel::Warn => 2,
            LogLevel::Error => 3,
        }
    }

    /// The level of a severity; every value above 2 is `Error`.
    pub fn from_u8(val: u8) -> (l: LogLevel)
        ensures
            l == level_of_rank(val),
    {
        match val {
            0 => LogLevel::Debug,
            1 => LogLevel::Info,
            2 => LogLevel::Warn,
            _ => LogLevel::Error,
        }
    }

    /// The tag of the level in a log line.
    pub fn as_str(&self) -> (s: &'static str)
        ensures
            s@ == level_tag(*self),
    {
        match self {
            LogLevel::Debug => "[DEBUG]",
            LogLevel::Info => "[INFO ]",
            LogLevel::Warn => "[WARN ]",
            LogLevel::Error => "[ERROR]",
        }
    }

    /// The level that a configuration value names.
    pub fn from_config_name(s: &str) -> (l: LogLevel)
        ensures
            l == level_of_config(s@),
    {
        let c = chars_of(s);
        if chars_eq_str(c.as_slice(), "debug") {
            LogLevel::Debug
        } else if chars_eq_str(c.as_slice(), "warn") || chars_eq_str(c.as_slice(), "warning") {
            LogLevel::Warn
        } else if chars_eq_str(c.as_slice(), "error") {
            LogLevel::Error
        } else {
            LogLevel::Info
        }
    }
}

/// The level filter: messages below the current level are dropped.
pub struct Logger {
    level: LogLevel,
}

/// A log line: time, level tag and message, separated by single spaces.
pub open spec fn log_line(time: Seq<char>, level: LogLevel, msg: Seq<char>) -> Seq<char> {
    time + seq![' '] + level_tag(level) + seq![' '] + msg
}

impl Logger {
    pub closed spec fn level(&self) -> LogLevel {
        self.level
    }

    /// A filter that lets `Info` and above through.
    pub fn new() -> (r: Self)
        ensures
            r.level() == LogLevel::Info,
    {
        Logger { level: LogLevel::Info }
    }

    pub fn set_level(&mut self, level: LogLevel)
        ensures
            final(self).level() == level,
    {
        self.level = level;
    }

    pub fn get_level(&self) -> (l: LogLevel)
        ensures
            l == self.level(),
    {
        self.level
    }

    /// Whether a message of `level` passes the filter.
    pub fn should_log(&self, level: LogLevel) -> (r: bool)
        ensures
            r == (level_rank(level) >= level_rank(self.level())),
    {
        level.rank() >= self.level.rank()
    }

    /// The line to write for a message of `level` at `time`, or `None` when the
    /// filter drops it.
    pub fn log(&self, level: LogLevel, time: &str, msg: &str) -> (r: Option<String>)
        ensures
            match r {
                Some(line) => level_rank(level) >= level_rank(self.level()) && line@ == log_line(time@, level, msg@),
                None => level_rank(level) < level_rank(self.level()),
            },
    {
        if !self.should_log(level) {
            return None;
        }
        let mut out = string_from_str(time);
        out.push(' ');
        push_str(&mut out, level.as_str());
        out.push(' ');
        push_str(&mut out, msg);
        Some(out)
    }
}

impl Default for Logger {
    fn default() -> (r: Self)
        ensures
            r.level() == LogLevel::Info,
    {
        Logger::new()
    }
}

/// The line for a debug message, if the filter lets it through.
pub fn log_debug(logger: &Logger, time: &str, msg: &str) -> (r: Option<String>)
    ensures
        match r {
            Some(line) => level_rank(logger.level()) == 0 && line@ == log_line(time@, LogLevel::Debug, msg@),
            None => level_rank(logger.level()) > 0,
        },
{
    logger.log(LogLevel::Debug, time, msg)
}

/// The line for an informational message, if the filter lets it through.
pub fn log_info(logger: &Logger, time: &str, msg: &str) -> (r: Option<String>)
    ensures
        match r {
            Some(line) => level_rank(logger.level()) <= 1 && line@ == log_line(time@, LogLevel::Info, msg@),
            None => level_rank(logger.level()) > 1,
        },
{
    logger.log(LogLevel::Info, time, msg)
}

/// The line for a warning, if the filter lets it through.
pub fn log_warn(logger: &Logger, time: &str, msg: &str) -> (r: Option<String>)
    ensures
        match r {
            Some(line) => level_rank(logger.level()) <= 2 && line@ == log_line(time@, LogLevel::Warn, msg@),
            None => level_rank(logger.level()) > 2,
        },
{
    logger.log(LogLevel::Warn, time, msg)
}

/// The line for an error, which every filter lets through.
pub fn log_error(logger: &Logger, time: &str, msg: &str) -> (r: Option<String>)
    ensures
        r matches Some(line) && line@ == log_line(time@, LogLevel::Error, msg@),
{
    logger.log(LogLevel::Error, time, msg)
}

/// What a level filter lets through only grows with severity: a message that
/// passes passes at every higher level too.
pub proof fn lemma_filter_monotone(current: LogLevel, a: LogLevel, b: LogLevel)
    requires
        level_rank(a) <= level_rank(b),
        level_rank(a) >= level_rank(current),
    ensures
        level_rank(b) >= level_rank(current),
{
}

/// Reading a level back from its severity gives the same level.
pub proof fn lemma_level_rank_roundtrip(l: LogLevel)
    ensures
        level_of_rank(level_rank(l)) == l,
{
}

} // verus!
