//! Logger configuration and its builder.

use vstd::prelude::*;
use vstd::string::*;
use crate::color::{LogColorScheme, default_scheme};
use crate::filter::LogFilter;
use crate::formatter::{Formatter, OutputFormat, is_date_text};
use crate::level::LogLevel;
use crate::rotator::{RotatorConfig, default_rotation};
use crate::text::{push_char, push_str};

verus! {

/// Logger configuration.
#[derive(Debug)]
pub struct Config {
    /// Log directory path
    pub log_dir: String,
    /// Log file prefix
    pub file_prefix: String,
    /// Log file extension
    pub file_extension: String,
    /// Whether console output is enabled
    pub console_enabled: bool,
    /// Default log level
    pub level: LogLevel,
    /// Output format
    pub output_format: OutputFormat,
    /// Log rotation configuration (`None` disables rotation)
    pub rotation: Option<RotatorConfig>,
    /// Whether console output is colored
    pub console_colors: bool,
    /// Colors of the log levels on the console
    pub color_scheme: LogColorScheme,
    /// Per-module level overrides
    pub filter: LogFilter,
}

/// The default directory, `logs`.
pub open spec fn default_dir() -> Seq<char> {
    seq!['l', 'o', 'g', 's']
}

/// The default file prefix, `serial_`.
pub open spec fn default_prefix() -> Seq<char> {
    seq!['s', 'e', 'r', 'i', 'a', 'l', '_']
}

/// The default file extension, `.log`.
pub open spec fn default_extension() -> Seq<char> {
    seq!['.', 'l', 'o', 'g']
}

/// `c` holds the default configuration: directory `logs`, prefix
/// `serial_`, extension `.log`, console on and colored, level `Debug`,
/// text format, default rotation, default colors, no module overrides.
pub open spec fn is_default_config(c: Config) -> bool {
    &&& c.log_dir@ == default_dir()
    &&& c.file_prefix@ == default_prefix()
    &&& c.file_extension@ == default_extension()
    &&& c.console_enabled
    &&& c.level == LogLevel::Debug
    &&& c.output_format == OutputFormat::Text
    &&& c.rotation == Some(default_rotation())
    &&& c.console_colors
    &&& c.color_scheme == default_scheme()
    &&& c.filter@ == Map::<Seq<char>, LogLevel>::empty()
}

/// `d` is a copy of `c`: equal fields, the filter holding the same overrides.
pub open spec fn same_config(d: Config, c: Config) -> bool {
    &&& d.log_dir@ == c.log_dir@
    &&& d.file_prefix@ == c.file_prefix@
    &&& d.file_extension@ == c.file_extension@
    &&& d.console_enabled == c.console_enabled
    &&& d.level == c.level
    &&& d.output_format == c.output_format
    &&& d.rotation == c.rotation
    &&& d.console_colors == c.console_colors
    &&& d.color_scheme == c.color_scheme
    &&& d.filter@ == c.filter@
}

/// The path `{log_dir}/{file_prefix}{date}{file_extension}`.
pub open spec fn log_file_path(c: Config, date: Seq<char>) -> Seq<char> {
    c.log_dir@ + seq!['/'] + c.file_prefix@ + date + c.file_extension@
}

fn default_dir_string() -> (r: String)
    ensures
        r@ == default_dir(),
{
    proof {
        reveal_strlit("logs");
    }
    String::from_str("logs")
}

fn default_prefix_string() -> (r: String)
    ensures
        r@ == default_prefix(),
{
    proof {
        reveal_strlit("serial_");
    }
    String::from_str("serial_")
}

fn default_extension_string() -> (r: String)
    ensures
        r@ == default_extension(),
{
    proof {
        reveal_strlit(".log");
    }
    String::from_str(".log")
}

impl Default for Config {
    /// Directory `logs`, prefix `serial_`, extension `.log`, console on and
    /// colored, level `Debug`, text format, default rotation and colors, no
    /// module overrides.
    fn default() -> (r: Self)
        ensures
            is_default_config(r),
    {
        Config {
            log_dir: default_dir_string(),
            file_prefix: default_prefix_string(),
            file_extension: default_extension_string(),
            console_enabled: true,
            level: LogLevel::Debug,
            output_format: OutputFormat::Text,
            rotation: Some(RotatorConfig::default()),
            console_colors: true,
            color_scheme: LogColorScheme::default(),
            filter: LogFilter::new(),
        }
    }
}

impl Clone for Config {
    fn clone(&self) -> (r: Self)
        ensures
            same_config(r, *self),
    {
        Config {
            log_dir: self.log_dir.clone(),
            file_prefix: self.file_prefix.clone(),
            file_extension: self.file_extension.clone(),
            console_enabled: self.console_enabled,
            level: self.level,
            output_format: self.output_format.clone(),
            rotation: self.rotation,
            console_colors: self.console_colors,
            color_scheme: self.color_scheme,
            filter: self.filter.clone(),
        }
    }
}

impl Config {
    /// A new configuration builder.
    pub fn builder() -> (r: ConfigBuilder)
        ensures
            r@ == unset_builder(),
    {
        ConfigBuilder::new()
    }

    /// The log file path for the given date:
    /// `{log_dir}/{file_prefix}{date}{file_extension}`.
    pub fn log_file_path_for(&self, date: &str) -> (r: String)
        ensures
            r@ == log_file_path(*self, date@),
    {
        let mut s = String::new();
        push_str(&mut s, self.log_dir.as_str());
        push_char(&mut s, '/');
        push_str(&mut s, self.file_prefix.as_str());
        push_str(&mut s, date);
        push_str(&mut s, self.file_extension.as_str());
        assert(s@ =~= log_file_path(*self, date@));
        s
    }

    /// The log file path of today (UTC):
    /// `{log_dir}/{file_prefix}{YYYYMMDD}{file_extension}`.
    pub fn get_log_file_path(&self) -> (r: String)
        ensures
            exists|date: Seq<char>| is_date_text(date) && r@ == log_file_path(*self, date),
    {
        let date = Formatter::get_date_string();
        let r = self.log_file_path_for(date.as_str());
        assert(is_date_text(date@));
        r
    }
}

/// What a builder has been told so far; `None` for what was left unset.
pub ghost struct BuilderState {
    pub log_dir: Option<Seq<char>>,
    pub file_prefix: Option<Seq<char>>,
    pub file_extension: Option<Seq<char>>,
    pub console_enabled: Option<bool>,
    pub level: Option<LogLevel>,
    pub output_format: Option<OutputFormat>,
    pub rotation: Option<Option<RotatorConfig>>,
    pub console_colors: Option<bool>,
    pub color_scheme: Option<LogColorScheme>,
    pub filter: Option<Map<Seq<char>, LogLevel>>,
}

/// A builder that was told nothing.
pub open spec fn unset_builder() -> BuilderState {
    BuilderState {
        log_dir: None,
        file_prefix: None,
        file_extension: None,
        console_enabled: None,
        level: None,
        output_format: None,
        rotation: None,
        console_colors: None,
        color_scheme: None,
        filter: None,
    }
}

/// `c` is what a builder in state `b` builds: each setting as set, the
/// default for each one left unset.
pub open spec fn built_from(c: Config, b: BuilderState) -> bool {
    &&& c.log_dir@ == b.log_dir.unwrap_or(default_dir())
    &&& c.file_prefix@ == b.file_prefix.unwrap_or(default_prefix())
    &&& c.file_extension@ == b.file_extension.unwrap_or(default_extension())
    &&& c.console_enabled == b.console_enabled.unwrap_or(true)
    &&& c.level == b.level.unwrap_or(LogLevel::Debug)
    &&& c.output_format == b.output_format.unwrap_or(OutputFormat::Text)
    &&& c.rotation == b.rotation.unwrap_or(Some(default_rotation()))
    &&& c.console_colors == b.console_colors.unwrap_or(true)
    &&& c.color_scheme == b.color_scheme.unwrap_or(default_scheme())
    &&& c.filter@ == b.filter.unwrap_or(Map::<Seq<char>, LogLevel>::empty())
}

/// A builder left unset builds the default configuration.
pub proof fn law_unset_builder_builds_default(c: Config)
    ensures
        built_from(c, unset_builder()) <==> is_default_config(c),
{
}

/// Configuration builder.
pub struct ConfigBuilder {
    log_dir: Option<String>,
    file_prefix: Option<String>,
    file_extension: Option<String>,
    console_enabled: Option<bool>,
    level: Option<LogLevel>,
    output_format: Option<OutputFormat>,
    rotation: Option<Option<RotatorConfig>>,
    console_colors: Option<bool>,
    color_scheme: Option<LogColorScheme>,
    filter: Option<LogFilter>,
}

impl View for ConfigBuilder {
    type V = BuilderState;

    closed spec fn view(&self) -> BuilderState {
        BuilderState {
            log_dir: match self.log_dir {
                Some(s) => Some(s@),
                None => None,
            },
            file_prefix: match self.file_prefix {
                Some(s) => Some(s@),
                None => None,
            },
            file_extension: match self.file_extension {
                Some(s) => Some(s@),
                None => None,
            },
            console_enabled: self.console_enabled,
            level: self.level,
            output_format: self.output_format,
            rotation: self.rotation,
            console_colors: self.console_colors,
            color_scheme: self.color_scheme,
            filter: match self.filter {
                Some(f) => Some(f@),
                None => None,
            },
        }
    }
}

impl ConfigBuilder {
    /// A builder with every setting left unset.
    pub fn new() -> (r: Self)
        ensures
            r@ == unset_builder(),
    {
        ConfigBuilder {
            log_dir: None,
            file_prefix: None,
            file_extension: None,
            console_enabled: None,
            level: None,
            output_format: None,
            rotation: None,
            console_colors: None,
            color_scheme: None,
            filter: None,
        }
    }

    /// Sets the log directory.
    pub fn log_dir(self, dir: &str) -> (r: Self)
        ensures
            r@ == (BuilderState { log_dir: Some(dir@), ..self@ }),
    {
        let mut b = self;
        b.log_dir = Some(String::from_str(dir));
        b
    }

    /// Sets the log file prefix.
    pub fn file_prefix(self, prefix: &str) -> (r: Self)
        ensures
            r@ == (BuilderState { file_prefix: Some(prefix@), ..self@ }),
    {
        let mut b = self;
        b.file_prefix = Some(String::from_str(prefix));
        b
    }

    /// Sets the log file extension (with its dot).
    pub fn file_extension(self, ext: &str) -> (r: Self)
        ensures
            r@ == (BuilderState { file_extension: Some(ext@), ..self@ }),
    {
        let mut b = self;
        b.file_extension = Some(String::from_str(ext));
        b
    }

    /// Turns console output on or off.
    pub fn console_enabled(self, enabled: bool) -> (r: Self)
        ensures
            r@ == (BuilderState { console_enabled: Some(enabled), ..self@ }),
    {
        let mut b = self;
        b.console_enabled = Some(enabled);
        b
    }

    /// Sets the log level.
    pub fn level(self, level: LogLevel) -> (r: Self)
        ensures
            r@ == (BuilderState { level: Some(level), ..self@ }),
    {
        let mut b = self;
        b.level = Some(level);
        b
    }

    /// Sets the output format.
    pub fn output_format(self, format: OutputFormat) -> (r: Self)
        ensures
            r@ == (BuilderState { output_format: Some(format), ..self@ }),
    {
        let mut b = self;
        b.output_format = Some(format);
        b
    }

    /// Turns rotation on with the default rotation configuration.
    pub fn enable_rotation(self) -> (r: Self)
        ensures
            r@ == (BuilderState { rotation: Some(Some(default_rotation())), ..self@ }),
    {
        let mut b = self;
        b.rotation = Some(Some(RotatorConfig::default()));
        b
    }

    /// Sets the rotation configuration.
    pub fn rotation(self, config: RotatorConfig) -> (r: Self)
        ensures
            r@ == (BuilderState { rotation: Some(Some(config)), ..self@ }),
    {
        let mut b = self;
        b.rotation = Some(Some(config));
        b
    }

    /// Turns rotation off.
    pub fn disable_rotation(self) -> (r: Self)
        ensures
            r@ == (BuilderState { rotation: Some(None), ..self@ }),
    {
        let mut b = self;
        b.rotation = Some(None);
        b
    }

    /// Turns console colors on or off.
    pub fn console_colors(self, enabled: bool) -> (r: Self)
        ensures
            r@ == (BuilderState { console_colors: Some(enabled), ..self@ }),
    {
        let mut b = self;
        b.console_colors = Some(enabled);
        b
    }

    /// Sets the colors of the levels.
    pub fn color_scheme(self, scheme: LogColorScheme) -> (r: Self)
        ensures
            r@ == (BuilderState { color_scheme: Some(scheme), ..self@ }),
    {
        let mut b = self;
        b.color_scheme = Some(scheme);
        b
    }

    /// Sets the per-module level overrides.
    pub fn filter(self, filter: LogFilter) -> (r: Self)
        ensures
            r@ == (BuilderState { filter: Some(filter@), ..self@ }),
    {
        let mut b = self;
        b.filter = Some(filter);
        b
    }

    /// The configuration: each setting as set, the default for the rest.
    pub fn build(self) -> (r: Config)
        ensures
            built_from(r, self@),
    {
        Config {
            log_dir: match self.log_dir {
                Some(s) => s,
                None => default_dir_string(),
            },
            file_prefix: match self.file_prefix {
                Some(s) => s,
                None => default_prefix_string(),
            },
            file_extension: match self.file_extension {
                Some(s) => s,
                None => default_extension_string(),
            },
            console_enabled: match self.console_enabled {
                Some(b) => b,
                None => true,
            },
            level: match self.level {
                Some(l) => l,
                None => LogLevel::Debug,
            },
            output_format: match self.output_format {
                Some(f) => f,
                None => OutputFormat::Text,
            },
            rotation: match self.rotation {
                Some(r) => r,
                None => Some(RotatorConfig::default()),
            },
            console_colors: match self.console_colors {
                Some(b) => b,
                None => true,
            },
            color_scheme: match self.color_scheme {
                Some(s) => s,
                None => LogColorScheme::default(),
            },
            filter: match self.filter {
                Some(f) => f,
                None => LogFilter::new(),
            },
        }
    }
}

} // verus!
