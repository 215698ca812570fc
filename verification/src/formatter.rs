//! Rendering of log lines in the text, JSON and custom-pattern formats, and
//! of the timestamps that head them.

use std::time::{SystemTime, UNIX_EPOCH};
use vstd::prelude::*;
use vstd::string::*;
use crate::calendar::{date_of, lemma_date_exists, unix_days_to_date};
use crate::level::{LogLevel, level_name, short_level_name};
use crate::text::{chars_of, padded_decimal, push_char, push_chars, push_padded, push_str, replace, replace_all, decimal, lemma_padded_len, pow10};

verus! {

/// The wall clock of std.
#[verifier::external_type_specification]
#[verifier::external_body]
pub struct ExSystemTime(SystemTime);

/// Reads the wall clock (std's `SystemTime::now`). Nothing is promised of
/// the value: it is whatever time the system reports.
#[verifier::external_body]
fn system_now() -> SystemTime {
    SystemTime::now()
}

/// The time elapsed from the Unix epoch to `t`, as whole seconds and the
/// nanoseconds past them (std's `SystemTime::duration_since(UNIX_EPOCH)`);
/// `None` when `t` lies before the epoch. std documents the nanosecond
/// part as less than one second.
#[verifier::external_body]
fn since_epoch(t: &SystemTime) -> (r: Option<(u64, u32)>)
    ensures
        r matches Some(p) ==> p.1 < 1_000_000_000,
{
    match t.duration_since(UNIX_EPOCH) {
        Ok(d) => Some((d.as_secs(), d.subsec_nanos())),
        Err(_) => None,
    }
}

/// The current time as seconds and nanoseconds since the Unix epoch; zero
/// when the clock reads a time before the epoch.
pub fn unix_now() -> (r: (u64, u32))
    ensures
        r.1 < 1_000_000_000,
{
    let t = system_now();
    match since_epoch(&t) {
        Some(p) => p,
        None => (0, 0),
    }
}

/// Output format of log lines.
#[derive(Debug, PartialEq, Eq)]
pub enum OutputFormat {
    /// Text format: `[timestamp] [level] message`
    Text,
    /// JSON format: `{"time":"...","level":"...","message":"..."}`
    Json,
    /// Custom format using placeholders (`%d %D %T %p %P %m %n`)
    Custom(String),
}

impl Clone for OutputFormat {
    fn clone(&self) -> (r: Self)
        ensures
            r == *self,
    {
        match self {
            OutputFormat::Text => OutputFormat::Text,
            OutputFormat::Json => OutputFormat::Json,
            OutputFormat::Custom(p) => OutputFormat::Custom(p.clone()),
        }
    }
}

/// The timestamp `YYYY-MM-DD HH:MM:SS.NNNNNNNNN` of the instant `secs`
/// seconds and `nanos` nanoseconds after the Unix epoch (UTC).
pub open spec fn timestamp_text(secs: u64, nanos: u32) -> Seq<char> {
    let minutes = secs / 60;
    let seconds = secs % 60;
    let hours = minutes / 60;
    let minutes = minutes % 60;
    let days = hours / 24;
    let hours = hours % 24;
    let date = date_of(days as int);
    padded_decimal(date.0 as nat, 4) + seq!['-'] + padded_decimal(date.1 as nat, 2) + seq!['-']
        + padded_decimal(date.2 as nat, 2) + seq![' '] + padded_decimal(hours as nat, 2) + seq![
        ':',
    ] + padded_decimal(minutes as nat, 2) + seq![':'] + padded_decimal(seconds as nat, 2) + seq![
        '.',
    ] + padded_decimal(nanos as nat, 9)
}

/// The date `YYYYMMDD` of the instant `secs` seconds after the Unix epoch.
pub open spec fn date_text(secs: u64) -> Seq<char> {
    let date = date_of((secs / 60 / 60 / 24) as int);
    padded_decimal(date.0 as nat, 4) + padded_decimal(date.1 as nat, 2) + padded_decimal(
        date.2 as nat,
        2,
    )
}

/// `s` is a timestamp of some instant.
pub open spec fn is_timestamp(s: Seq<char>) -> bool {
    exists|secs: u64, nanos: u32| nanos < 1_000_000_000 && s == #[trigger] timestamp_text(secs, nanos)
}

/// `s` is the date of some instant.
pub open spec fn is_date_text(s: Seq<char>) -> bool {
    exists|secs: u64| s == #[trigger] date_text(secs)
}

/// The first eleven characters of `ts` are ASCII, so that it splits into a
/// date (the first ten) and a time (after the eleventh).
pub open spec fn splittable(ts: Seq<char>) -> bool {
    ts.len() >= 11 && forall|i: int| 0 <= i < 11 ==> (#[trigger] ts[i] as u32) < 128
}

/// A text line: `[timestamp] [LEVEL] message`.
pub open spec fn text_line(ts: Seq<char>, level_text: Seq<char>, msg: Seq<char>) -> Seq<char> {
    seq!['['] + ts + seq![']', ' ', '['] + level_text + seq![']', ' '] + msg
}

/// A JSON line: `{"time":"...","level":"...","message":"..."}`, the
/// values copied as they are.
pub open spec fn json_line(ts: Seq<char>, level_text: Seq<char>, msg: Seq<char>) -> Seq<char> {
    seq!['{', '"', 't', 'i', 'm', 'e', '"', ':', '"'] + ts + seq![
        '"',
        ',',
        '"',
        'l',
        'e',
        'v',
        'e',
        'l',
        '"',
        ':',
        '"',
    ] + level_text + seq!['"', ',', '"', 'm', 'e', 's', 's', 'a', 'g', 'e', '"', ':', '"'] + msg
        + seq!['"', '}']
}

/// A line of a custom pattern: the placeholders `%d`, `%D`, `%T`, `%p`,
/// `%P`, `%n` replaced in that order, each everywhere in the text produced
/// so far, and `%m` last, so that the message is inserted as it is.
pub open spec fn custom_line(
    pattern: Seq<char>,
    ts: Seq<char>,
    level: LogLevel,
    msg: Seq<char>,
) -> Seq<char> {
    let s1 = replace_all(pattern, seq!['%', 'd'], ts);
    let s2 = replace_all(s1, seq!['%', 'D'], ts.take(10));
    let s3 = replace_all(s2, seq!['%', 'T'], ts.skip(11));
    let s4 = replace_all(s3, seq!['%', 'p'], level_name(level));
    let s5 = replace_all(s4, seq!['%', 'P'], short_level_name(level));
    let s6 = replace_all(s5, seq!['%', 'n'], seq!['\n']);
    replace_all(s6, seq!['%', 'm'], msg)
}

/// The line that format `f` makes of a message at `level` stamped `ts`.
pub open spec fn format_line(f: OutputFormat, ts: Seq<char>, level: LogLevel, msg: Seq<char>) -> Seq<
    char,
> {
    match f {
        OutputFormat::Text => text_line(ts, level_name(level), msg),
        OutputFormat::Json => json_line(ts, level_name(level), msg),
        OutputFormat::Custom(p) => custom_line(p@, ts, level, msg),
    }
}

/// Every timestamp is long enough and ASCII where it is split.
pub proof fn lemma_timestamp_splittable(secs: u64, nanos: u32)
    ensures
        splittable(timestamp_text(secs, nanos)),
{
    let minutes = secs / 60;
    let hours = minutes / 60;
    let days = hours / 24;
    let date = date_of(days as int);
    let ts = timestamp_text(secs, nanos);
    let y = padded_decimal(date.0 as nat, 4);
    lemma_padded_ascii(date.0 as nat, 4);
    lemma_padded_ascii(date.1 as nat, 2);
    lemma_padded_ascii(date.2 as nat, 2);
    lemma_padded_ascii((hours % 24) as nat, 2);
    lemma_padded_ascii((minutes % 60) as nat, 2);
    lemma_padded_ascii((secs % 60) as nat, 2);
    lemma_padded_ascii(nanos as nat, 9);
    assert forall|i: int| 0 <= i < ts.len() implies (#[trigger] ts[i] as u32) < 128 by {
    }
}

/// Up to the year 9999 a timestamp has the fixed shape
/// `YYYY-MM-DD HH:MM:SS.NNNNNNNNN`: 29 characters, the separators in their
/// places, so that its first ten characters are the date and those after
/// the eleventh the time.
pub proof fn law_timestamp_shape(secs: u64, nanos: u32)
    requires
        nanos < 1_000_000_000,
        date_of((secs / 60 / 60 / 24) as int).0 <= 9999,
    ensures
        timestamp_text(secs, nanos).len() == 29,
        timestamp_text(secs, nanos)[4] == '-',
        timestamp_text(secs, nanos)[7] == '-',
        timestamp_text(secs, nanos)[10] == ' ',
        timestamp_text(secs, nanos)[13] == ':',
        timestamp_text(secs, nanos)[16] == ':',
        timestamp_text(secs, nanos)[19] == '.',
{
    let minutes = secs / 60;
    let hours = minutes / 60;
    let days = hours / 24;
    let date = date_of(days as int);
    lemma_date_exists(days as int);
    reveal_with_fuel(pow10, 10);
    assert(pow10(2) == 100);
    assert(pow10(4) == 10000);
    assert(pow10(9) == 1000000000);
    lemma_padded_len(date.0 as nat, 4);
    lemma_padded_len(date.1 as nat, 2);
    lemma_padded_len(date.2 as nat, 2);
    lemma_padded_len((hours % 24) as nat, 2);
    lemma_padded_len((minutes % 60) as nat, 2);
    lemma_padded_len((secs % 60) as nat, 2);
    lemma_padded_len(nanos as nat, 9);
}

/// Decimal digits, padded or not, are ASCII.
pub proof fn lemma_padded_ascii(n: nat, width: nat)
    ensures
        padded_decimal(n, width).len() >= width,
        padded_decimal(n, width).len() >= 1,
        forall|i: int|
            0 <= i < padded_decimal(n, width).len() ==> (#[trigger] padded_decimal(n, width)[i] as u32)
                < 128,
{
    lemma_decimal_ascii(n);
}

proof fn lemma_decimal_ascii(n: nat)
    ensures
        decimal(n).len() >= 1,
        forall|i: int| 0 <= i < decimal(n).len() ==> (#[trigger] decimal(n)[i] as u32) < 128,
    decreases n,
{
    if n >= 10 {
        lemma_decimal_ascii(n / 10);
    }
}

/// Appends the ASCII characters of a literal.
fn push_lit(s: &mut String, lit: &str)
    ensures
        final(s)@ == old(s)@ + lit@,
{
    push_str(s, lit);
}

/// The timestamp `YYYY-MM-DD HH:MM:SS.NNNNNNNNN` of an instant given as
/// seconds and nanoseconds since the Unix epoch.
pub fn timestamp_at(secs: u64, nanos: u32) -> (r: String)
    ensures
        r@ == timestamp_text(secs, nanos),
{
    let total_seconds = secs;
    let minutes = total_seconds / 60;
    let seconds = total_seconds % 60;
    let hours = minutes / 60;
    let minutes = minutes % 60;
    let days = hours / 24;
    let hours = hours % 24;
    let (year, month, day) = unix_days_to_date(days);
    let mut s = String::new();
    push_padded(&mut s, year, 4);
    push_char(&mut s, '-');
    push_padded(&mut s, month, 2);
    push_char(&mut s, '-');
    push_padded(&mut s, day, 2);
    push_char(&mut s, ' ');
    push_padded(&mut s, hours, 2);
    push_char(&mut s, ':');
    push_padded(&mut s, minutes, 2);
    push_char(&mut s, ':');
    push_padded(&mut s, seconds, 2);
    push_char(&mut s, '.');
    push_padded(&mut s, nanos as u64, 9);
    assert(s@ =~= timestamp_text(secs, nanos));
    s
}

/// The date `YYYYMMDD` of an instant given as seconds since the Unix epoch.
pub fn date_string_at(secs: u64) -> (r: String)
    ensures
        r@ == date_text(secs),
{
    let minutes = secs / 60;
    let hours = minutes / 60;
    let days = hours / 24;
    let (year, month, day) = unix_days_to_date(days);
    let mut s = String::new();
    push_padded(&mut s, year, 4);
    push_padded(&mut s, month, 2);
    push_padded(&mut s, day, 2);
    assert(s@ =~= date_text(secs));
    s
}

/// Log formatter: turns a level and a message into a line of its format.
pub struct Formatter {
    format: OutputFormat,
}

impl View for Formatter {
    type V = OutputFormat;

    closed spec fn view(&self) -> OutputFormat {
        self.format
    }
}

impl Formatter {
    /// A formatter of the text format.
    pub fn new() -> (r: Self)
        ensures
            r@ == OutputFormat::Text,
    {
        Formatter { format: OutputFormat::Text }
    }

    /// A formatter of the given format.
    pub fn with_format(format: OutputFormat) -> (r: Self)
        ensures
            r@ == format,
    {
        Formatter { format }
    }

    /// A formatter of a custom pattern (placeholders `%d` full timestamp,
    /// `%D` date, `%T` time, `%p` level, `%P` short level, `%m` message,
    /// `%n` newline).
    pub fn with_pattern(pattern: String) -> (r: Self)
        ensures
            r@ == OutputFormat::Custom(pattern),
    {
        Formatter { format: OutputFormat::Custom(pattern) }
    }

    /// Formats a message stamped with the current time.
    pub fn format(&self, level: LogLevel, message: &str) -> (r: String)
        ensures
            exists|ts: Seq<char>| is_timestamp(ts) && r@ == format_line(self@, ts, level, message@),
    {
        let timestamp = Self::get_timestamp();
        let r = self.format_at(timestamp.as_str(), level, message);
        assert(is_timestamp(timestamp@));
        r
    }

    /// Formats a message stamped `timestamp`.
    pub fn format_at(&self, timestamp: &str, level: LogLevel, message: &str) -> (r: String)
        requires
            self@ is Custom ==> splittable(timestamp@),
        ensures
            r@ == format_line(self@, timestamp@, level, message@),
    {
        match &self.format {
            OutputFormat::Text => self.format_text(timestamp, level, message),
            OutputFormat::Json => self.format_json(timestamp, level, message),
            OutputFormat::Custom(pattern) => self.format_custom(
                pattern.as_str(),
                timestamp,
                level,
                message,
            ),
        }
    }

    /// Formats as text.
    fn format_text(&self, timestamp: &str, level: LogLevel, message: &str) -> (r: String)
        ensures
            r@ == text_line(timestamp@, level_name(level), message@),
    {
        let mut s = String::new();
        push_char(&mut s, '[');
        push_str(&mut s, timestamp);
        push_char(&mut s, ']');
        push_char(&mut s, ' ');
        push_char(&mut s, '[');
        push_str(&mut s, level.name());
        push_char(&mut s, ']');
        push_char(&mut s, ' ');
        push_str(&mut s, message);
        assert(s@ =~= text_line(timestamp@, level_name(level), message@));
        s
    }

    /// Formats as JSON.
    fn format_json(&self, timestamp: &str, level: LogLevel, message: &str) -> (r: String)
        ensures
            r@ == json_line(timestamp@, level_name(level), message@),
    {
        let mut s = String::new();
        push_lit(&mut s, "{\"time\":\"");
        push_str(&mut s, timestamp);
        push_lit(&mut s, "\",\"level\":\"");
        push_str(&mut s, level.name());
        push_lit(&mut s, "\",\"message\":\"");
        push_str(&mut s, message);
        push_lit(&mut s, "\"}");
        proof {
            reveal_strlit("{\"time\":\"");
            reveal_strlit("\",\"level\":\"");
            reveal_strlit("\",\"message\":\"");
            reveal_strlit("\"}");
        }
        assert(s@ =~= json_line(timestamp@, level_name(level), message@));
        s
    }

    /// Formats with a custom pattern.
    fn format_custom(&self, pattern: &str, timestamp: &str, level: LogLevel, message: &str) -> (r:
        String)
        requires
            splittable(timestamp@),
        ensures
            r@ == custom_line(pattern@, timestamp@, level, message@),
    {
        let ts = chars_of(timestamp);
        let mut date = String::new();
        push_chars(&mut date, &ts, 0, 10);
        let mut time = String::new();
        push_chars(&mut time, &ts, 11, ts.len());
        proof {
            reveal_strlit("%d");
            reveal_strlit("%D");
            reveal_strlit("%T");
            reveal_strlit("%p");
            reveal_strlit("%P");
            reveal_strlit("%m");
            reveal_strlit("%n");
            reveal_strlit("\n");
            assert("%d"@ =~= seq!['%', 'd']);
            assert("%D"@ =~= seq!['%', 'D']);
            assert("%T"@ =~= seq!['%', 'T']);
            assert("%p"@ =~= seq!['%', 'p']);
            assert("%P"@ =~= seq!['%', 'P']);
            assert("%m"@ =~= seq!['%', 'm']);
            assert("%n"@ =~= seq!['%', 'n']);
            assert("\n"@ =~= seq!['\n']);
            assert(date@ =~= timestamp@.take(10));
            assert(time@ =~= timestamp@.skip(11));
        }
        let s1 = replace(pattern, "%d", timestamp);
        let s2 = replace(s1.as_str(), "%D", date.as_str());
        let s3 = replace(s2.as_str(), "%T", time.as_str());
        let s4 = replace(s3.as_str(), "%p", level.name());
        let s5 = replace(s4.as_str(), "%P", level.short_name());
        let s6 = replace(s5.as_str(), "%n", "\n");
        let s7 = replace(s6.as_str(), "%m", message);
        s7
    }

    /// The current date `YYYYMMDD` (UTC), as log file names carry it.
    pub fn get_date_string() -> (r: String)
        ensures
            is_date_text(r@),
    {
        let (secs, _nanos) = unix_now();
        let r = date_string_at(secs);
        assert(is_date_text(r@)) by {
            assert(r@ == date_text(secs));
        }
        r
    }

    /// The current timestamp `YYYY-MM-DD HH:MM:SS.NNNNNNNNN` (UTC).
    pub fn get_timestamp() -> (r: String)
        ensures
            is_timestamp(r@),
            splittable(r@),
    {
        let (secs, nanos) = unix_now();
        let r = timestamp_at(secs, nanos);
        proof {
            lemma_timestamp_splittable(secs, nanos);
            assert(r@ == timestamp_text(secs, nanos));
        }
        r
    }
}

} // verus!
