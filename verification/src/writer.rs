//! Log entries, their batched rendering for the log file, and the state of
//! the writer: what goes to the console and what to the file.

use vstd::prelude::*;
use vstd::string::*;
use crate::color::{color_code, scheme_color, wrapped};
use crate::config::Config;
use crate::formatter::{Formatter, OutputFormat, format_line, is_timestamp, json_line, text_line};
use crate::level::{LogLevel, level_name};
use crate::text::{push_char, push_str};

verus! {

/// One log record to be written to the log file.
#[derive(Debug)]
pub struct LogEntry {
    level: String,
    message: String,
    timestamp: String,
}

impl View for LogEntry {
    /// The level, message and timestamp texts.
    type V = (Seq<char>, Seq<char>, Seq<char>);

    closed spec fn view(&self) -> (Seq<char>, Seq<char>, Seq<char>) {
        (self.level@, self.message@, self.timestamp@)
    }
}

impl Clone for LogEntry {
    fn clone(&self) -> (r: Self)
        ensures
            r@ == self@,
    {
        LogEntry {
            level: self.level.clone(),
            message: self.message.clone(),
            timestamp: self.timestamp.clone(),
        }
    }
}

/// The line of an entry in the file: JSON for the JSON format, text for
/// every other format.
pub open spec fn entry_line(e: (Seq<char>, Seq<char>, Seq<char>), format: OutputFormat) -> Seq<
    char,
> {
    match format {
        OutputFormat::Json => json_line(e.2, e.0, e.1),
        _ => text_line(e.2, e.0, e.1),
    }
}

/// The lines of the entries, each ended by a newline.
pub open spec fn batch_text(entries: Seq<(Seq<char>, Seq<char>, Seq<char>)>, format: OutputFormat) -> Seq<
    char,
>
    decreases entries.len(),
{
    if entries.len() == 0 {
        Seq::empty()
    } else {
        batch_text(entries.drop_last(), format) + entry_line(entries.last(), format) + seq!['\n']
    }
}

/// The views of a sequence of entries.
pub open spec fn entry_views(entries: Seq<LogEntry>) -> Seq<(Seq<char>, Seq<char>, Seq<char>)> {
    entries.map_values(|e: LogEntry| e@)
}

impl LogEntry {
    /// An entry of the given level text, message and timestamp.
    pub fn new(level: &str, message: &str, timestamp: &str) -> (r: Self)
        ensures
            r@ == (level@, message@, timestamp@),
    {
        LogEntry {
            level: String::from_str(level),
            message: String::from_str(message),
            timestamp: String::from_str(timestamp),
        }
    }

    /// `[timestamp] [level] message`
    pub fn format_text(&self) -> (r: String)
        ensures
            r@ == text_line(self@.2, self@.0, self@.1),
    {
        let mut s = String::new();
        push_char(&mut s, '[');
        push_str(&mut s, self.timestamp.as_str());
        push_char(&mut s, ']');
        push_char(&mut s, ' ');
        push_char(&mut s, '[');
        push_str(&mut s, self.level.as_str());
        push_char(&mut s, ']');
        push_char(&mut s, ' ');
        push_str(&mut s, self.message.as_str());
        assert(s@ =~= text_line(self@.2, self@.0, self@.1));
        s
    }

    /// `{"time":"...","level":"...","message":"..."}`
    pub fn format_json(&self) -> (r: String)
        ensures
            r@ == json_line(self@.2, self@.0, self@.1),
    {
        let mut s = String::new();
        push_str(&mut s, "{\"time\":\"");
        push_str(&mut s, self.timestamp.as_str());
        push_str(&mut s, "\",\"level\":\"");
        push_str(&mut s, self.level.as_str());
        push_str(&mut s, "\",\"message\":\"");
        push_str(&mut s, self.message.as_str());
        push_str(&mut s, "\"}");
        proof {
            reveal_strlit("{\"time\":\"");
            reveal_strlit("\",\"level\":\"");
            reveal_strlit("\",\"message\":\"");
            reveal_strlit("\"}");
        }
        assert(s@ =~= json_line(self@.2, self@.0, self@.1));
        s
    }
}

/// The text of a batch of entries for the log file: each entry's line
/// (JSON for the JSON format, text otherwise) followed by a newline.
pub fn render_batch(entries: &Vec<LogEntry>, format: &OutputFormat) -> (r: String)
    ensures
        r@ == batch_text(entry_views(entries@), *format),
{
    let mut lines = String::new();
    let mut i: usize = 0;
    while i < entries.len()
        invariant
            i <= entries@.len(),
            lines@ == batch_text(entry_views(entries@.take(i as int)), *format),
        decreases entries@.len() - i,
    {
        let line = match format {
            OutputFormat::Json => entries[i].format_json(),
            _ => entries[i].format_text(),
        };
        let ghost before = lines@;
        push_str(&mut lines, line.as_str());
        push_char(&mut lines, '\n');
        proof {
            let t = entry_views(entries@.take(i + 1));
            assert(t.drop_last() =~= entry_views(entries@.take(i as int)));
            assert(t.last() == entries@[i as int]@);
            assert(lines@ =~= before + line@ + seq!['\n']);
        }
        i = i + 1;
    }
    assert(entries@.take(entries@.len() as int) =~= entries@);
    lines
}

/// The rendering of consecutive runs of entries adds up.
pub proof fn law_batch_concat(
    a: Seq<(Seq<char>, Seq<char>, Seq<char>)>,
    b: Seq<(Seq<char>, Seq<char>, Seq<char>)>,
    format: OutputFormat,
)
    ensures
        batch_text(a + b, format) == batch_text(a, format) + batch_text(b, format),
    decreases b.len(),
{
    if b.len() == 0 {
        assert(a + b =~= a);
    } else {
        law_batch_concat(a, b.drop_last(), format);
        assert((a + b).drop_last() =~= a + b.drop_last());
    }
}

/// Settings of the asynchronous writer.
#[derive(Debug, Clone, Copy, PartialEq, Eq, Structural)]
pub struct AsyncWriterConfig {
    /// Channel capacity (maximum buffered log entries)
    pub channel_capacity: usize,
    /// Batch size for writing (write when this number is reached)
    pub batch_size: usize,
    /// Maximum wait time (ms), flush buffer after timeout
    pub max_wait_ms: u64,
}

impl Default for AsyncWriterConfig {
    /// Capacity 1000, batches of 10, 100 ms wait.
    fn default() -> (r: Self)
        ensures
            r == (AsyncWriterConfig { channel_capacity: 1000, batch_size: 10, max_wait_ms: 100 }),
    {
        AsyncWriterConfig { channel_capacity: 1000, batch_size: 10, max_wait_ms: 100 }
    }
}

/// The text handed to the file by a buffer call: nothing for `None`.
pub open spec fn written(r: Option<String>) -> Seq<char> {
    match r {
        Some(t) => t@,
        None => Seq::empty(),
    }
}

/// The buffer of the background writer: entries wait in it until a batch
/// is full or the wait times out, and then go to the file together.
pub struct BatchBuffer {
    entries: Vec<LogEntry>,
    batch_size: usize,
    format: OutputFormat,
}

impl View for BatchBuffer {
    /// The waiting entries, the batch size and the format of the file.
    type V = (Seq<(Seq<char>, Seq<char>, Seq<char>)>, usize, OutputFormat);

    closed spec fn view(&self) -> (Seq<(Seq<char>, Seq<char>, Seq<char>)>, usize, OutputFormat) {
        (entry_views(self.entries@), self.batch_size, self.format)
    }
}

impl BatchBuffer {
    /// An empty buffer writing batches of `batch_size` entries in `format`.
    pub fn new(batch_size: usize, format: OutputFormat) -> (r: Self)
        ensures
            r@ == (Seq::<(Seq<char>, Seq<char>, Seq<char>)>::empty(), batch_size, format),
    {
        let r = BatchBuffer { entries: Vec::new(), batch_size, format };
        assert(entry_views(r.entries@) =~= Seq::<(Seq<char>, Seq<char>, Seq<char>)>::empty());
        r
    }

    /// The number of waiting entries.
    pub fn len(&self) -> (r: usize)
        ensures
            r == self@.0.len(),
    {
        self.entries.len()
    }

    /// Takes an entry. When the batch is then full, returns the text of
    /// all waiting entries for the file and empties the buffer; otherwise
    /// keeps the entry waiting and returns `None`.
    pub fn push(&mut self, entry: LogEntry) -> (r: Option<String>)
        ensures
            final(self)@.1 == old(self)@.1,
            final(self)@.2 == old(self)@.2,
            old(self)@.0.len() + 1 >= old(self)@.1 ==> (r matches Some(t) && t@ == batch_text(
                old(self)@.0.push(entry@),
                old(self)@.2,
            ) && final(self)@.0.len() == 0),
            old(self)@.0.len() + 1 < old(self)@.1 ==> (r is None && final(self)@.0 == old(
                self,
            )@.0.push(entry@)),
            written(r) + batch_text(final(self)@.0, final(self)@.2) == batch_text(
                old(self)@.0.push(entry@),
                old(self)@.2,
            ),
    {
        let ghost e = entry@;
        self.entries.push(entry);
        assert(entry_views(self.entries@) =~= entry_views(old(self).entries@).push(e));
        if self.entries.len() >= self.batch_size {
            let t = self.flush();
            assert(batch_text(self@.0, self@.2) =~= Seq::<char>::empty());
            assert(t@ + batch_text(self@.0, self@.2) =~= t@);
            Some(t)
        } else {
            assert(Seq::<char>::empty() + batch_text(self@.0, self@.2) =~= batch_text(self@.0, self@.2));
            None
        }
    }

    /// On a timeout: when entries wait, returns their text for the file
    /// and empties the buffer; `None` when none wait.
    pub fn on_timeout(&mut self) -> (r: Option<String>)
        ensures
            final(self)@.1 == old(self)@.1,
            final(self)@.2 == old(self)@.2,
            final(self)@.0.len() == 0,
            old(self)@.0.len() > 0 ==> (r matches Some(t) && t@ == batch_text(
                old(self)@.0,
                old(self)@.2,
            )),
            old(self)@.0.len() == 0 ==> r is None,
            written(r) + batch_text(final(self)@.0, final(self)@.2) == batch_text(
                old(self)@.0,
                old(self)@.2,
            ),
    {
        if self.entries.len() > 0 {
            let t = self.flush();
            assert(batch_text(self@.0, self@.2) =~= Seq::<char>::empty());
            assert(t@ + batch_text(self@.0, self@.2) =~= t@);
            Some(t)
        } else {
            assert(batch_text(self@.0, self@.2) =~= Seq::<char>::empty());
            assert(Seq::<char>::empty() + batch_text(self@.0, self@.2) =~= Seq::<char>::empty());
            None
        }
    }

    /// On stop: takes the entries still queued for the writer, and returns
    /// the text of the waiting entries followed by them, in that order, for
    /// a last write; the buffer is emptied. The text is empty when nothing
    /// is left.
    pub fn on_stop(&mut self, rest: Vec<LogEntry>) -> (r: String)
        ensures
            final(self)@.1 == old(self)@.1,
            final(self)@.2 == old(self)@.2,
            final(self)@.0.len() == 0,
            r@ == batch_text(old(self)@.0 + entry_views(rest@), old(self)@.2),
    {
        let mut rest = rest;
        let ghost added = rest@;
        self.entries.append(&mut rest);
        assert(entry_views(self.entries@) =~= old(self)@.0 + entry_views(added));
        self.flush()
    }

    /// The text of all waiting entries; the buffer is emptied.
    fn flush(&mut self) -> (r: String)
        ensures
            final(self)@.1 == old(self)@.1,
            final(self)@.2 == old(self)@.2,
            final(self)@.0.len() == 0,
            r@ == batch_text(old(self)@.0, old(self)@.2),
    {
        let text = render_batch(&self.entries, &self.format);
        self.entries = Vec::new();
        assert(entry_views(self.entries@) =~= Seq::<(Seq<char>, Seq<char>, Seq<char>)>::empty());
        text
    }
}

/// What one write amounts to: the line for the console, if any, and the
/// entry for the log file.
pub struct WriteOutcome {
    /// The line to print on standard output (`None` when the console is off)
    pub console_line: Option<String>,
    /// The entry to send to the background file writer
    pub entry: LogEntry,
}

/// The console line of a formatted `line` at `level`: in the level's color
/// when colors are on and supported, as it is otherwise.
pub open spec fn console_text(
    line: Seq<char>,
    colored: bool,
    scheme_code: Seq<char>,
) -> Seq<char> {
    if colored {
        wrapped(scheme_code, line)
    } else {
        line
    }
}

/// `o` is what writing `message` at `level` with writer `w` amounts to
/// for some reading of the clock: the entry `(LEVEL, message, timestamp)`
/// and, when the console is on, the formatted line (colored when colors
/// are on and supported).
pub open spec fn is_write_of(
    o: WriteOutcome,
    w: Writer,
    level: LogLevel,
    message: Seq<char>,
    colors_supported: bool,
) -> bool {
    &&& exists|ts: Seq<char>| is_timestamp(ts) && o.entry@ == (level_name(level), message, ts)
    &&& w.spec_console() ==> (o.console_line matches Some(l) && exists|ts: Seq<char>|
        is_timestamp(ts) && l@ == console_text(
            format_line(w.spec_format(), ts, level, message),
            w.spec_colors() && colors_supported,
            color_code(scheme_color(w.spec_config().color_scheme, level)),
        ))
    &&& !w.spec_console() ==> o.console_line is None
}

/// The writer's state: its configuration and formatter, and the console
/// and run switches.
pub struct Writer {
    config: Config,
    formatter: Formatter,
    console_enabled: bool,
    console_colors: bool,
    running: bool,
}

impl Writer {
    /// The configuration the writer was made with.
    pub closed spec fn spec_config(&self) -> Config {
        self.config
    }

    /// The format of the lines.
    pub closed spec fn spec_format(&self) -> OutputFormat {
        self.formatter@
    }

    /// Whether lines go to the console.
    pub closed spec fn spec_console(&self) -> bool {
        self.console_enabled
    }

    /// Whether console lines are colored.
    pub closed spec fn spec_colors(&self) -> bool {
        self.console_colors
    }

    /// Whether the writer runs (has not been stopped).
    pub closed spec fn spec_running(&self) -> bool {
        self.running
    }

    /// A running writer of the configuration: its format, console switch
    /// and colors.
    pub fn new(config: Config) -> (r: Self)
        ensures
            r.spec_config() == config,
            r.spec_format() == config.output_format,
            r.spec_console() == config.console_enabled,
            r.spec_colors() == config.console_colors,
            r.spec_running(),
    {
        let formatter = match &config.output_format {
            OutputFormat::Custom(pattern) => Formatter::with_pattern(pattern.clone()),
            format => Formatter::with_format(format.clone()),
        };
        let console_enabled = config.console_enabled;
        let console_colors = config.console_colors;
        Writer { config, formatter, console_enabled, console_colors, running: true }
    }

    /// What writing a message amounts to, given the timestamp of the file
    /// entry and that of the console line: the console line (in the format
    /// of the writer, colored when colors are on and `colors_supported`)
    /// when the console is on, and the entry `(LEVEL, message, timestamp)`.
    pub fn write_at(
        &self,
        level: LogLevel,
        message: &str,
        entry_timestamp: &str,
        line_timestamp: &str,
        colors_supported: bool,
    ) -> (r: WriteOutcome)
        requires
            self.spec_format() is Custom ==> crate::formatter::splittable(line_timestamp@),
        ensures
            r.entry@ == (level_name(level), message@, entry_timestamp@),
            self.spec_console() ==> (r.console_line matches Some(l) && l@ == console_text(
                format_line(self.spec_format(), line_timestamp@, level, message@),
                self.spec_colors() && colors_supported,
                color_code(scheme_color(self.spec_config().color_scheme, level)),
            )),
            !self.spec_console() ==> r.console_line is None,
    {
        let console_line = if self.console_enabled {
            let line = self.formatter.format_at(line_timestamp, level, message);
            if self.console_colors && colors_supported {
                Some(self.config.color_scheme.colorize_message(level, line.as_str(), true, true))
            } else {
                Some(line)
            }
        } else {
            None
        };
        let entry = LogEntry::new(level.name(), message, entry_timestamp);
        WriteOutcome { console_line, entry }
    }

    /// What writing a message now amounts to: the clock is read for the
    /// entry and again for the console line, as `write_at` states.
    pub fn write(&self, level: LogLevel, message: &str, colors_supported: bool) -> (r: WriteOutcome)
        ensures
            is_write_of(r, *self, level, message@, colors_supported),
    {
        let entry_timestamp = Formatter::get_timestamp();
        let line_timestamp = Formatter::get_timestamp();
        let r = self.write_at(
            level,
            message,
            entry_timestamp.as_str(),
            line_timestamp.as_str(),
            colors_supported,
        );
        assert(is_timestamp(entry_timestamp@));
        assert(is_timestamp(line_timestamp@));
        r
    }

    /// Turns console output on or off.
    pub fn set_console_enabled(&mut self, enabled: bool)
        ensures
            final(self).spec_console() == enabled,
            final(self).spec_colors() == old(self).spec_colors(),
            final(self).spec_format() == old(self).spec_format(),
            final(self).spec_config() == old(self).spec_config(),
            final(self).spec_running() == old(self).spec_running(),
    {
        self.console_enabled = enabled;
    }

    /// Turns console colors on or off.
    pub fn set_console_colors(&mut self, enabled: bool)
        ensures
            final(self).spec_colors() == enabled,
            final(self).spec_console() == old(self).spec_console(),
            final(self).spec_format() == old(self).spec_format(),
            final(self).spec_config() == old(self).spec_config(),
            final(self).spec_running() == old(self).spec_running(),
    {
        self.console_colors = enabled;
    }

    /// The configuration the writer was made with.
    pub fn config(&self) -> (r: &Config)
        ensures
            *r == self.spec_config(),
    {
        &self.config
    }

    /// Stops the writer.
    pub fn stop(&mut self)
        ensures
            !final(self).spec_running(),
            final(self).spec_console() == old(self).spec_console(),
            final(self).spec_colors() == old(self).spec_colors(),
            final(self).spec_format() == old(self).spec_format(),
            final(self).spec_config() == old(self).spec_config(),
    {
        self.running = false;
    }

    /// Whether the writer runs.
    pub fn is_running(&self) -> (r: bool)
        ensures
            r == self.spec_running(),
    {
        self.running
    }
}

} // verus!
