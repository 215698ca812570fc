//! rslog: a lightweight logging library. Log levels, per-module level
//! overrides, the text, JSON and custom-pattern line formats, ANSI colors,
//! the rotation policy and gzip container of rotated files, and the
//! batching of the background writer, each with a verified contract.
//!
//! Reading the environment, the file system and the console, and running
//! the background thread, is left to the caller: the library decides what
//! is written where, and the caller does the writing.

pub mod calendar;
pub mod color;
pub mod config;
pub mod deflate;
pub mod filter;
pub mod formatter;
pub mod gzip;
pub mod level;
pub mod logger;
pub mod rotator;
pub mod text;
pub mod writer;

pub use color::{Color, ColorFormatter, LogColorScheme};
pub use config::{Config, ConfigBuilder};
pub use filter::LogFilter;
pub use formatter::{Formatter, OutputFormat};
pub use level::LogLevel;
pub use logger::Logger;
pub use rotator::{RotationStrategy, RotatorConfig};
pub use writer::{LogEntry, Writer};
