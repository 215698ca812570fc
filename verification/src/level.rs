use vstd::prelude::*;
use vstd::string::*;
use crate::text::{chars_of, lower, same_chars, to_lower_ascii};

verus! {

/// Log level, ordered by priority from lowest to highest.
#[derive(Debug, Clone, Copy, PartialEq, Eq, Structural, PartialOrd, Ord, Hash)]
pub enum LogLevel {
    /// Tracing level, lowest priority
    Trace,
    /// Debug level
    Debug,
    /// Info level
    Info,
    /// Warning level
    Warn,
    /// Error level
    Error,
    /// Critical level, highest priority
    Critical,
}

/// The priority of a level: its position in the order of the variants.
pub open spec fn rank(level: LogLevel) -> int {
    match level {
        LogLevel::Trace => 0,
        LogLevel::Debug => 1,
        LogLevel::Info => 2,
        LogLevel::Warn => 3,
        LogLevel::Error => 4,
        LogLevel::Critical => 5,
    }
}

/// The upper-case name of a level, as it is printed in log lines.
pub open spec fn level_name(level: LogLevel) -> Seq<char> {
    match level {
        LogLevel::Trace => seq!['T', 'R', 'A', 'C', 'E'],
        LogLevel::Debug => seq!['D', 'E', 'B', 'U', 'G'],
        LogLevel::Info => seq!['I', 'N', 'F', 'O'],
        LogLevel::Warn => seq!['W', 'A', 'R', 'N'],
        LogLevel::Error => seq!['E', 'R', 'R', 'O', 'R'],
        LogLevel::Critical => seq!['C', 'R', 'I', 'T', 'I', 'C', 'A', 'L'],
    }
}

/// The one-letter name of a level.
pub open spec fn short_level_name(level: LogLevel) -> Seq<char> {
    match level {
        LogLevel::Trace => seq!['T'],
        LogLevel::Debug => seq!['D'],
        LogLevel::Info => seq!['I'],
        LogLevel::Warn => seq!['W'],
        LogLevel::Error => seq!['E'],
        LogLevel::Critical => seq!['C'],
    }
}

/// The level whose name is `s` once ASCII letters are lower-cased.
///
/// std's `to_lowercase` maps more characters than ASCII, but the only
/// non-ASCII character that it maps to a single ASCII letter is the Kelvin
/// sign (to `k`), which no level name holds; so comparing the ASCII
/// lower-case form with the names accepts exactly the same strings.
pub open spec fn level_from_name(s: Seq<char>) -> Option<LogLevel> {
    let l = lower(s);
    if l == seq!['t', 'r', 'a', 'c', 'e'] {
        Some(LogLevel::Trace)
    } else if l == seq!['d', 'e', 'b', 'u', 'g'] {
        Some(LogLevel::Debug)
    } else if l == seq!['i', 'n', 'f', 'o'] {
        Some(LogLevel::Info)
    } else if l == seq!['w', 'a', 'r', 'n'] {
        Some(LogLevel::Warn)
    } else if l == seq!['e', 'r', 'r', 'o', 'r'] {
        Some(LogLevel::Error)
    } else if l == seq!['c', 'r', 'i', 't', 'i', 'c', 'a', 'l'] {
        Some(LogLevel::Critical)
    } else {
        None
    }
}

impl LogLevel {
    /// The upper-case name of the level (`"DEBUG"`, `"INFO"`, ...), as a log
    /// line shows it.
    pub fn name(&self) -> (r: &'static str)
        ensures
            r@ == level_name(*self),
    {
        match self {
            LogLevel::Trace => {
                proof {
                    reveal_strlit("TRACE");
                }
                "TRACE"
            },
            LogLevel::Debug => {
                proof {
                    reveal_strlit("DEBUG");
                }
                "DEBUG"
            },
            LogLevel::Info => {
                proof {
                    reveal_strlit("INFO");
                }
                "INFO"
            },
            LogLevel::Warn => {
                proof {
                    reveal_strlit("WARN");
                }
                "WARN"
            },
            LogLevel::Error => {
                proof {
                    reveal_strlit("ERROR");
                }
                "ERROR"
            },
            LogLevel::Critical => {
                proof {
                    reveal_strlit("CRITICAL");
                }
                "CRITICAL"
            },
        }
    }

    /// The name of the level as an owned string (what `Display` prints).
    pub fn to_string(&self) -> (r: String)
        ensures
            r@ == level_name(*self),
    {
        String::from_str(self.name())
    }

    /// The one-letter name of the level (`"D"`, `"I"`, ...).
    pub fn short_name(&self) -> (r: &'static str)
        ensures
            r@ == short_level_name(*self),
    {
        match self {
            LogLevel::Trace => {
                proof {
                    reveal_strlit("T");
                }
                "T"
            },
            LogLevel::Debug => {
                proof {
                    reveal_strlit("D");
                }
                "D"
            },
            LogLevel::Info => {
                proof {
                    reveal_strlit("I");
                }
                "I"
            },
            LogLevel::Warn => {
                proof {
                    reveal_strlit("W");
                }
                "W"
            },
            LogLevel::Error => {
                proof {
                    reveal_strlit("E");
                }
                "E"
            },
            LogLevel::Critical => {
                proof {
                    reveal_strlit("C");
                }
                "C"
            },
        }
    }

    /// Parses a level name, ignoring case: `trace`, `debug`, `info`, `warn`,
    /// `error` or `critical`. Any other string is refused with `Err(())`.
    pub fn parse(s: &str) -> (r: Result<LogLevel, ()>)
        ensures
            match level_from_name(s@) {
                Some(l) => r == Ok::<LogLevel, ()>(l),
                None => r is Err,
            },
    {
        let l = to_lower_ascii(s);
        let trace = chars_of("trace");
        let debug = chars_of("debug");
        let info = chars_of("info");
        let warn = chars_of("warn");
        let error = chars_of("error");
        let critical = chars_of("critical");
        proof {
            reveal_strlit("trace");
            reveal_strlit("debug");
            reveal_strlit("info");
            reveal_strlit("warn");
            reveal_strlit("error");
            reveal_strlit("critical");
            assert(trace@ =~= seq!['t', 'r', 'a', 'c', 'e']);
            assert(debug@ =~= seq!['d', 'e', 'b', 'u', 'g']);
            assert(info@ =~= seq!['i', 'n', 'f', 'o']);
            assert(warn@ =~= seq!['w', 'a', 'r', 'n']);
            assert(error@ =~= seq!['e', 'r', 'r', 'o', 'r']);
            assert(critical@ =~= seq!['c', 'r', 'i', 't', 'i', 'c', 'a', 'l']);
        }
        if same_chars(&l, &trace) {
            Ok(LogLevel::Trace)
        } else if same_chars(&l, &debug) {
            Ok(LogLevel::Debug)
        } else if same_chars(&l, &info) {
            Ok(LogLevel::Info)
        } else if same_chars(&l, &warn) {
            Ok(LogLevel::Warn)
        } else if same_chars(&l, &error) {
            Ok(LogLevel::Error)
        } else if same_chars(&l, &critical) {
            Ok(LogLevel::Critical)
        } else {
            Err(())
        }
    }

    /// The numeric priority of the level (`Trace` is 0, `Critical` is 5).
    pub fn priority(&self) -> (r: u8)
        ensures
            r == rank(*self),
    {
        match self {
            LogLevel::Trace => 0,
            LogLevel::Debug => 1,
            LogLevel::Info => 2,
            LogLevel::Warn => 3,
            LogLevel::Error => 4,
            LogLevel::Critical => 5,
        }
    }

    /// Whether a threshold of `self` lets a message at `level` through:
    /// true exactly when `level` is at least as high as `self`.
    pub fn should_log(&self, level: LogLevel) -> (r: bool)
        ensures
            r == (rank(level) >= rank(*self)),
    {
        level.priority() >= self.priority()
    }
}

impl std::str::FromStr for LogLevel {
    type Err = ();

    /// Parses a level name, ignoring case, as `LogLevel::parse` does.
    fn from_str(s: &str) -> (r: Result<Self, Self::Err>)
        ensures
            match level_from_name(s@) {
                Some(l) => r == Ok::<LogLevel, ()>(l),
                None => r is Err,
            },
    {
        LogLevel::parse(s)
    }
}

/// Reading back the printed name of a level gives the level again.
pub proof fn law_parse_name(level: LogLevel)
    ensures
        level_from_name(level_name(level)) == Some(level),
{
    let n = level_name(level);
    match level {
        LogLevel::Trace => {
            assert(lower(n) =~= seq!['t', 'r', 'a', 'c', 'e']);
        },
        LogLevel::Debug => {
            assert(lower(n) =~= seq!['d', 'e', 'b', 'u', 'g']);
        },
        LogLevel::Info => {
            assert(lower(n) =~= seq!['i', 'n', 'f', 'o']);
        },
        LogLevel::Warn => {
            assert(lower(n) =~= seq!['w', 'a', 'r', 'n']);
        },
        LogLevel::Error => {
            assert(lower(n) =~= seq!['e', 'r', 'r', 'o', 'r']);
        },
        LogLevel::Critical => {
            assert(lower(n) =~= seq!['c', 'r', 'i', 't', 'i', 'c', 'a', 'l']);
        },
    }
}

} // verus!
