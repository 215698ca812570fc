//! The logger: the global level, the per-module overrides and the writer,
//! and the decision whether a message is written.

use vstd::prelude::*;
use crate::config::Config;
use crate::filter::{LogFilter, effective_level};
use crate::level::{LogLevel, rank};
use crate::writer::{WriteOutcome, Writer, is_write_of};

verus! {

/// Whether a message at `level` gets through the threshold `threshold`.
pub open spec fn admits(threshold: LogLevel, level: LogLevel) -> bool {
    rank(level) >= rank(threshold)
}

/// The logger: a global level, per-module overrides and a writer. Each
/// logging call returns what is to be written, `None` when the message is
/// filtered out.
pub struct Logger {
    level: LogLevel,
    writer: Writer,
    filter: LogFilter,
}

impl Logger {
    /// The global level.
    pub closed spec fn spec_level(&self) -> LogLevel {
        self.level
    }

    /// The per-module overrides.
    pub closed spec fn spec_overrides(&self) -> Map<Seq<char>, LogLevel> {
        self.filter@
    }

    /// The writer.
    pub closed spec fn spec_writer(&self) -> Writer {
        self.writer
    }

    /// A logger of the configuration: its level, overrides and writer.
    pub fn new(config: Config) -> (r: Self)
        ensures
            r.spec_level() == config.level,
            r.spec_overrides() == config.filter@,
            r.spec_writer().spec_config() == config,
            r.spec_writer().spec_format() == config.output_format,
            r.spec_writer().spec_console() == config.console_enabled,
            r.spec_writer().spec_colors() == config.console_colors,
    {
        let level = config.level;
        let filter = config.filter.clone();
        let writer = Writer::new(config);
        Logger { level, writer, filter }
    }

    /// Sets the global level; messages below it are filtered out.
    pub fn set_level(&mut self, level: LogLevel)
        ensures
            final(self).spec_level() == level,
            final(self).spec_overrides() == old(self).spec_overrides(),
            final(self).spec_writer() == old(self).spec_writer(),
    {
        self.level = level;
    }

    /// The global level.
    pub fn get_level(&self) -> (r: LogLevel)
        ensures
            r == self.spec_level(),
    {
        self.level
    }

    /// Sets the level of a module prefix, overriding the global level.
    pub fn set_module_level(&mut self, module: &str, level: LogLevel)
        ensures
            final(self).spec_overrides() == old(self).spec_overrides().insert(module@, level),
            final(self).spec_level() == old(self).spec_level(),
            final(self).spec_writer() == old(self).spec_writer(),
    {
        self.filter.set_module_level(module, level);
    }

    /// Turns console output on or off.
    pub fn set_console_enabled(&mut self, enabled: bool)
        ensures
            final(self).spec_writer().spec_console() == enabled,
            final(self).spec_writer().spec_colors() == old(self).spec_writer().spec_colors(),
            final(self).spec_writer().spec_format() == old(self).spec_writer().spec_format(),
            final(self).spec_writer().spec_config() == old(self).spec_writer().spec_config(),
            final(self).spec_level() == old(self).spec_level(),
            final(self).spec_overrides() == old(self).spec_overrides(),
    {
        self.writer.set_console_enabled(enabled);
    }

    /// Turns console colors on or off.
    pub fn set_console_colors(&mut self, enabled: bool)
        ensures
            final(self).spec_writer().spec_colors() == enabled,
            final(self).spec_writer().spec_console() == old(self).spec_writer().spec_console(),
            final(self).spec_writer().spec_format() == old(self).spec_writer().spec_format(),
            final(self).spec_writer().spec_config() == old(self).spec_writer().spec_config(),
            final(self).spec_level() == old(self).spec_level(),
            final(self).spec_overrides() == old(self).spec_overrides(),
    {
        self.writer.set_console_colors(enabled);
    }

    /// Logs a message at `level`: written when `level` reaches the global
    /// level, filtered out (`None`) otherwise.
    pub fn log(&self, level: LogLevel, message: &str, colors_supported: bool) -> (r: Option<
        WriteOutcome,
    >)
        ensures
            r is Some <==> admits(self.spec_level(), level),
            r matches Some(o) ==> is_write_of(o, self.spec_writer(), level, message@, colors_supported),
    {
        if self.get_level().should_log(level) {
            Some(self.writer.write(level, message, colors_supported))
        } else {
            None
        }
    }

    /// Logs a message at `level` from the module `target`: the override of
    /// the longest matching module prefix is the threshold, the global level
    /// when no override matches.
    pub fn log_target(
        &self,
        target: &str,
        level: LogLevel,
        message: &str,
        colors_supported: bool,
    ) -> (r: Option<WriteOutcome>)
        ensures
            r is Some <==> match effective_level(self.spec_overrides(), target@) {
                Some(t) => admits(t, level),
                None => admits(self.spec_level(), level),
            },
            r matches Some(o) ==> is_write_of(o, self.spec_writer(), level, message@, colors_supported),
    {
        let threshold = match self.filter.get_effective_level(target) {
            Some(t) => t,
            None => self.level,
        };
        if threshold.should_log(level) {
            Some(self.writer.write(level, message, colors_supported))
        } else {
            None
        }
    }

    /// Logs a trace message.
    pub fn trace(&self, message: &str, colors_supported: bool) -> (r: Option<WriteOutcome>)
        ensures
            r is Some <==> admits(self.spec_level(), LogLevel::Trace),
            r matches Some(o) ==> is_write_of(
                o,
                self.spec_writer(),
                LogLevel::Trace,
                message@,
                colors_supported,
            ),
    {
        self.log(LogLevel::Trace, message, colors_supported)
    }

    /// Logs a debug message.
    pub fn debug(&self, message: &str, colors_supported: bool) -> (r: Option<WriteOutcome>)
        ensures
            r is Some <==> admits(self.spec_level(), LogLevel::Debug),
            r matches Some(o) ==> is_write_of(
                o,
                self.spec_writer(),
                LogLevel::Debug,
                message@,
                colors_supported,
            ),
    {
        self.log(LogLevel::Debug, message, colors_supported)
    }

    /// Logs an info message.
    pub fn info(&self, message: &str, colors_supported: bool) -> (r: Option<WriteOutcome>)
        ensures
            r is Some <==> admits(self.spec_level(), LogLevel::Info),
            r matches Some(o) ==> is_write_of(
                o,
                self.spec_writer(),
                LogLevel::Info,
                message@,
                colors_supported,
            ),
    {
        self.log(LogLevel::Info, message, colors_supported)
    }

    /// Logs a warning message.
    pub fn warn(&self, message: &str, colors_supported: bool) -> (r: Option<WriteOutcome>)
        ensures
            r is Some <==> admits(self.spec_level(), LogLevel::Warn),
            r matches Some(o) ==> is_write_of(
                o,
                self.spec_writer(),
                LogLevel::Warn,
                message@,
                colors_supported,
            ),
    {
        self.log(LogLevel::Warn, message, colors_supported)
    }

    /// Logs an error message.
    pub fn error(&self, message: &str, colors_supported: bool) -> (r: Option<WriteOutcome>)
        ensures
            r is Some <==> admits(self.spec_level(), LogLevel::Error),
            r matches Some(o) ==> is_write_of(
                o,
                self.spec_writer(),
                LogLevel::Error,
                message@,
                colors_supported,
            ),
    {
        self.log(LogLevel::Error, message, colors_supported)
    }

    /// Logs a critical message.
    pub fn critical(&self, message: &str, colors_supported: bool) -> (r: Option<WriteOutcome>)
        ensures
            r is Some <==> admits(self.spec_level(), LogLevel::Critical),
            r matches Some(o) ==> is_write_of(
                o,
                self.spec_writer(),
                LogLevel::Critical,
                message@,
                colors_supported,
            ),
    {
        self.log(LogLevel::Critical, message, colors_supported)
    }

    /// Logs a trace message from the module `target`.
    pub fn trace_target(&self, target: &str, message: &str, colors_supported: bool) -> (r: Option<
        WriteOutcome,
    >)
        ensures
            r is Some <==> match effective_level(self.spec_overrides(), target@) {
                Some(t) => admits(t, LogLevel::Trace),
                None => admits(self.spec_level(), LogLevel::Trace),
            },
            r matches Some(o) ==> is_write_of(
                o,
                self.spec_writer(),
                LogLevel::Trace,
                message@,
                colors_supported,
            ),
    {
        self.log_target(target, LogLevel::Trace, message, colors_supported)
    }

    /// Logs a debug message from the module `target`.
    pub fn debug_target(&self, target: &str, message: &str, colors_supported: bool) -> (r: Option<
        WriteOutcome,
    >)
        ensures
            r is Some <==> match effective_level(self.spec_overrides(), target@) {
                Some(t) => admits(t, LogLevel::Debug),
                None => admits(self.spec_level(), LogLevel::Debug),
            },
            r matches Some(o) ==> is_write_of(
                o,
                self.spec_writer(),
                LogLevel::Debug,
                message@,
                colors_supported,
            ),
    {
        self.log_target(target, LogLevel::Debug, message, colors_supported)
    }

    /// Logs an info message from the module `target`.
    pub fn info_target(&self, target: &str, message: &str, colors_supported: bool) -> (r: Option<
        WriteOutcome,
    >)
        ensures
            r is Some <==> match effective_level(self.spec_overrides(), target@) {
                Some(t) => admits(t, LogLevel::Info),
                None => admits(self.spec_level(), LogLevel::Info),
            },
            r matches Some(o) ==> is_write_of(
                o,
                self.spec_writer(),
                LogLevel::Info,
                message@,
                colors_supported,
            ),
    {
        self.log_target(target, LogLevel::Info, message, colors_supported)
    }

    /// Logs a warning message from the module `target`.
    pub fn warn_target(&self, target: &str, message: &str, colors_supported: bool) -> (r: Option<
        WriteOutcome,
    >)
        ensures
            r is Some <==> match effective_level(self.spec_overrides(), target@) {
                Some(t) => admits(t, LogLevel::Warn),
                None => admits(self.spec_level(), LogLevel::Warn),
            },
            r matches Some(o) ==> is_write_of(
                o,
                self.spec_writer(),
                LogLevel::Warn,
                message@,
                colors_supported,
            ),
    {
        self.log_target(target, LogLevel::Warn, message, colors_supported)
    }

    /// Logs an error message from the module `target`.
    pub fn error_target(&self, target: &str, message: &str, colors_supported: bool) -> (r: Option<
        WriteOutcome,
    >)
        ensures
            r is Some <==> match effective_level(self.spec_overrides(), target@) {
                Some(t) => admits(t, LogLevel::Error),
                None => admits(self.spec_level(), LogLevel::Error),
            },
            r matches Some(o) ==> is_write_of(
                o,
                self.spec_writer(),
                LogLevel::Error,
                message@,
                colors_supported,
            ),
    {
        self.log_target(target, LogLevel::Error, message, colors_supported)
    }

    /// Logs a critical message from the module `target`.
    pub fn critical_target(&self, target: &str, message: &str, colors_supported: bool) -> (r: Option<
        WriteOutcome,
    >)
        ensures
            r is Some <==> match effective_level(self.spec_overrides(), target@) {
                Some(t) => admits(t, LogLevel::Critical),
                None => admits(self.spec_level(), LogLevel::Critical),
            },
            r matches Some(o) ==> is_write_of(
                o,
                self.spec_writer(),
                LogLevel::Critical,
                message@,
                colors_supported,
            ),
    {
        self.log_target(target, LogLevel::Critical, message, colors_supported)
    }
}

} // verus!
