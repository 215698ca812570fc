//! ANSI escape codes for colored console output, and the color scheme
//! that gives each log level its color.

use vstd::prelude::*;
use vstd::string::*;
use crate::level::{LogLevel, level_name};
use crate::formatter::text_line;
use crate::text::{chars_of, decimal, lemma_decimal_injective, lower, push_char, push_str, same_chars, to_lower_ascii};

verus! {

/// ANSI colors.
#[derive(Debug, Clone, Copy, PartialEq, Eq, Structural)]
pub enum Color {
    /// Reset all colors and styles
    Reset,
    /// Black color
    Black,
    /// Red color
    Red,
    /// Green color
    Green,
    /// Yellow color
    Yellow,
    /// Blue color
    Blue,
    /// Magenta color
    Magenta,
    /// Cyan color
    Cyan,
    /// White color
    White,
    /// Bright black (gray)
    BrightBlack,
    /// Bright red
    BrightRed,
    /// Bright green
    BrightGreen,
    /// Bright yellow
    BrightYellow,
    /// Bright blue
    BrightBlue,
    /// Bright magenta
    BrightMagenta,
    /// Bright cyan
    BrightCyan,
    /// Bright white
    BrightWhite,
}

/// The escape sequence `ESC [ digits m`.
pub open spec fn escape(digits: Seq<char>) -> Seq<char> {
    seq!['\x1b', '['] + digits + seq!['m']
}

/// The foreground escape sequence of a color.
pub open spec fn color_code(c: Color) -> Seq<char> {
    match c {
        Color::Reset => escape(seq!['0']),
        Color::Black => escape(seq!['3', '0']),
        Color::Red => escape(seq!['3', '1']),
        Color::Green => escape(seq!['3', '2']),
        Color::Yellow => escape(seq!['3', '3']),
        Color::Blue => escape(seq!['3', '4']),
        Color::Magenta => escape(seq!['3', '5']),
        Color::Cyan => escape(seq!['3', '6']),
        Color::White => escape(seq!['3', '7']),
        Color::BrightBlack => escape(seq!['9', '0']),
        Color::BrightRed => escape(seq!['9', '1']),
        Color::BrightGreen => escape(seq!['9', '2']),
        Color::BrightYellow => escape(seq!['9', '3']),
        Color::BrightBlue => escape(seq!['9', '4']),
        Color::BrightMagenta => escape(seq!['9', '5']),
        Color::BrightCyan => escape(seq!['9', '6']),
        Color::BrightWhite => escape(seq!['9', '7']),
    }
}

/// The background escape sequence of a color; `None` for `Reset`, which
/// has no background of its own.
pub open spec fn background_code(c: Color) -> Option<Seq<char>> {
    match c {
        Color::Reset => None,
        Color::Black => Some(escape(seq!['4', '0'])),
        Color::Red => Some(escape(seq!['4', '1'])),
        Color::Green => Some(escape(seq!['4', '2'])),
        Color::Yellow => Some(escape(seq!['4', '3'])),
        Color::Blue => Some(escape(seq!['4', '4'])),
        Color::Magenta => Some(escape(seq!['4', '5'])),
        Color::Cyan => Some(escape(seq!['4', '6'])),
        Color::White => Some(escape(seq!['4', '7'])),
        Color::BrightBlack => Some(escape(seq!['1', '0', '0'])),
        Color::BrightRed => Some(escape(seq!['1', '0', '1'])),
        Color::BrightGreen => Some(escape(seq!['1', '0', '2'])),
        Color::BrightYellow => Some(escape(seq!['1', '0', '3'])),
        Color::BrightBlue => Some(escape(seq!['1', '0', '4'])),
        Color::BrightMagenta => Some(escape(seq!['1', '0', '5'])),
        Color::BrightCyan => Some(escape(seq!['1', '0', '6'])),
        Color::BrightWhite => Some(escape(seq!['1', '0', '7'])),
    }
}

/// The escape sequence that selects the default background.
pub open spec fn default_background() -> Seq<char> {
    escape(seq!['4', '9'])
}

/// The text wrapped in `code` and the reset sequence.
pub open spec fn wrapped(code: Seq<char>, text: Seq<char>) -> Seq<char> {
    code + text + color_code(Color::Reset)
}

/// The index of a color in the ANSI order black, red, green, yellow, blue,
/// magenta, cyan, white (0 to 7), the same for a color and its bright
/// form; 0 for `Reset`.
pub open spec fn ansi_index(c: Color) -> nat {
    match c {
        Color::Reset | Color::Black | Color::BrightBlack => 0,
        Color::Red | Color::BrightRed => 1,
        Color::Green | Color::BrightGreen => 2,
        Color::Yellow | Color::BrightYellow => 3,
        Color::Blue | Color::BrightBlue => 4,
        Color::Magenta | Color::BrightMagenta => 5,
        Color::Cyan | Color::BrightCyan => 6,
        Color::White | Color::BrightWhite => 7,
    }
}

/// One of the eight bright colors.
pub open spec fn is_bright(c: Color) -> bool {
    match c {
        Color::BrightBlack | Color::BrightRed | Color::BrightGreen | Color::BrightYellow
        | Color::BrightBlue | Color::BrightMagenta | Color::BrightCyan | Color::BrightWhite => true,
        _ => false,
    }
}

/// The SGR parameter that selects a color as the foreground: 30 to 37 for
/// the eight colors, 90 to 97 for their bright forms, 0 (reset) for `Reset`.
pub open spec fn sgr_foreground(c: Color) -> nat {
    if c == Color::Reset {
        0
    } else if is_bright(c) {
        90 + ansi_index(c)
    } else {
        30 + ansi_index(c)
    }
}

/// Each foreground code is the escape sequence of the color's SGR number
/// written in decimal: 30 plus the ANSI index for a color, 90 plus it for
/// a bright one, and 0 for `Reset`.
pub proof fn law_foreground_sgr(c: Color)
    ensures
        color_code(c) == escape(decimal(sgr_foreground(c))),
{
    reveal_with_fuel(decimal, 3);
    assert(color_code(c) =~= escape(decimal(sgr_foreground(c))));
}

/// Each background code is the escape sequence of the foreground's SGR
/// number plus 10 (40 to 47, and 100 to 107 for the bright colors).
pub proof fn law_background_sgr(c: Color)
    requires
        c != Color::Reset,
    ensures
        background_code(c) == Some(escape(decimal(sgr_foreground(c) + 10))),
{
    reveal_with_fuel(decimal, 4);
    assert(background_code(c)->0 =~= escape(decimal(sgr_foreground(c) + 10)));
}

/// Distinct colors have distinct SGR foreground numbers.
proof fn lemma_sgr_injective(a: Color, b: Color)
    requires
        sgr_foreground(a) == sgr_foreground(b),
    ensures
        a == b,
{
}

/// The escape sequence tells its digits apart.
proof fn lemma_escape_injective(x: Seq<char>, y: Seq<char>)
    requires
        escape(x) == escape(y),
    ensures
        x == y,
{
    assert(x =~= escape(x).subrange(2, escape(x).len() - 1));
    assert(y =~= escape(y).subrange(2, escape(y).len() - 1));
}

/// No two colors share a foreground code.
pub proof fn law_foreground_distinct(a: Color, b: Color)
    requires
        color_code(a) == color_code(b),
    ensures
        a == b,
{
    law_foreground_sgr(a);
    law_foreground_sgr(b);
    lemma_escape_injective(decimal(sgr_foreground(a)), decimal(sgr_foreground(b)));
    lemma_decimal_injective(sgr_foreground(a), sgr_foreground(b));
    lemma_sgr_injective(a, b);
}

/// No background code is a foreground code, and no two colors share a
/// background code.
pub proof fn law_background_distinct(a: Color, b: Color)
    requires
        a != Color::Reset,
    ensures
        background_code(a) != Some(color_code(b)),
        background_code(a) == background_code(b) ==> a == b,
{
    law_background_sgr(a);
    law_foreground_sgr(b);
    if background_code(a) == Some(color_code(b)) {
        lemma_escape_injective(decimal(sgr_foreground(a) + 10), decimal(sgr_foreground(b)));
        lemma_decimal_injective(sgr_foreground(a) + 10, sgr_foreground(b));
    }
    if background_code(a) == background_code(b) {
        law_background_sgr(b);
        lemma_escape_injective(decimal(sgr_foreground(a) + 10), decimal(sgr_foreground(b) + 10));
        lemma_decimal_injective(sgr_foreground(a) + 10, sgr_foreground(b) + 10);
        lemma_sgr_injective(a, b);
    }
}

impl Color {
    /// The ANSI escape code of the color.
    pub fn code(&self) -> (r: &'static str)
        ensures
            r@ == color_code(*self),
    {
        match self {
            Color::Reset => {
                proof {
                    reveal_strlit("\x1b[0m");
                    assert("\x1b[0m"@ =~= color_code(Color::Reset));
                }
                "\x1b[0m"
            },
            Color::Black => {
                proof {
                    reveal_strlit("\x1b[30m");
                    assert("\x1b[30m"@ =~= color_code(Color::Black));
                }
                "\x1b[30m"
            },
            Color::Red => {
                proof {
                    reveal_strlit("\x1b[31m");
                    assert("\x1b[31m"@ =~= color_code(Color::Red));
                }
                "\x1b[31m"
            },
            Color::Green => {
                proof {
                    reveal_strlit("\x1b[32m");
                    assert("\x1b[32m"@ =~= color_code(Color::Green));
                }
                "\x1b[32m"
            },
            Color::Yellow => {
                proof {
                    reveal_strlit("\x1b[33m");
                    assert("\x1b[33m"@ =~= color_code(Color::Yellow));
                }
                "\x1b[33m"
            },
            Color::Blue => {
                proof {
                    reveal_strlit("\x1b[34m");
                    assert("\x1b[34m"@ =~= color_code(Color::Blue));
                }
                "\x1b[34m"
            },
            Color::Magenta => {
                proof {
                    reveal_strlit("\x1b[35m");
                    assert("\x1b[35m"@ =~= color_code(Color::Magenta));
                }
                "\x1b[35m"
            },
            Color::Cyan => {
                proof {
                    reveal_strlit("\x1b[36m");
                    assert("\x1b[36m"@ =~= color_code(Color::Cyan));
                }
                "\x1b[36m"
            },
            Color::White => {
                proof {
                    reveal_strlit("\x1b[37m");
                    assert("\x1b[37m"@ =~= color_code(Color::White));
                }
                "\x1b[37m"
            },
            Color::BrightBlack => {
                proof {
                    reveal_strlit("\x1b[90m");
                    assert("\x1b[90m"@ =~= color_code(Color::BrightBlack));
                }
                "\x1b[90m"
            },
            Color::BrightRed => {
                proof {
                    reveal_strlit("\x1b[91m");
                    assert("\x1b[91m"@ =~= color_code(Color::BrightRed));
                }
                "\x1b[91m"
            },
            Color::BrightGreen => {
                proof {
                    reveal_strlit("\x1b[92m");
                    assert("\x1b[92m"@ =~= color_code(Color::BrightGreen));
                }
                "\x1b[92m"
            },
            Color::BrightYellow => {
                proof {
                    reveal_strlit("\x1b[93m");
                    assert("\x1b[93m"@ =~= color_code(Color::BrightYellow));
                }
                "\x1b[93m"
            },
            Color::BrightBlue => {
                proof {
                    reveal_strlit("\x1b[94m");
                    assert("\x1b[94m"@ =~= color_code(Color::BrightBlue));
                }
                "\x1b[94m"
            },
            Color::BrightMagenta => {
                proof {
                    reveal_strlit("\x1b[95m");
                    assert("\x1b[95m"@ =~= color_code(Color::BrightMagenta));
                }
                "\x1b[95m"
            },
            Color::BrightCyan => {
                proof {
                    reveal_strlit("\x1b[96m");
                    assert("\x1b[96m"@ =~= color_code(Color::BrightCyan));
                }
                "\x1b[96m"
            },
            Color::BrightWhite => {
                proof {
                    reveal_strlit("\x1b[97m");
                    assert("\x1b[97m"@ =~= color_code(Color::BrightWhite));
                }
                "\x1b[97m"
            },
        }
    }

    /// The background escape code of the color, `None` for `Reset`.
    fn background(&self) -> (r: Option<&'static str>)
        ensures
            match background_code(*self) {
                Some(b) => r matches Some(s) && s@ == b,
                None => r is None,
            },
    {
        match self {
            Color::Reset => None,
            Color::Black => {
                proof {
                    reveal_strlit("\x1b[40m");
                    assert("\x1b[40m"@ =~= escape(seq!['4', '0']));
                }
                Some("\x1b[40m")
            },
            Color::Red => {
                proof {
                    reveal_strlit("\x1b[41m");
                    assert("\x1b[41m"@ =~= escape(seq!['4', '1']));
                }
                Some("\x1b[41m")
            },
            Color::Green => {
                proof {
                    reveal_strlit("\x1b[42m");
                    assert("\x1b[42m"@ =~= escape(seq!['4', '2']));
                }
                Some("\x1b[42m")
            },
            Color::Yellow => {
                proof {
                    reveal_strlit("\x1b[43m");
                    assert("\x1b[43m"@ =~= escape(seq!['4', '3']));
                }
                Some("\x1b[43m")
            },
            Color::Blue => {
                proof {
                    reveal_strlit("\x1b[44m");
                    assert("\x1b[44m"@ =~= escape(seq!['4', '4']));
                }
                Some("\x1b[44m")
            },
            Color::Magenta => {
                proof {
                    reveal_strlit("\x1b[45m");
                    assert("\x1b[45m"@ =~= escape(seq!['4', '5']));
                }
                Some("\x1b[45m")
            },
            Color::Cyan => {
                proof {
                    reveal_strlit("\x1b[46m");
                    assert("\x1b[46m"@ =~= escape(seq!['4', '6']));
                }
                Some("\x1b[46m")
            },
            Color::White => {
                proof {
                    reveal_strlit("\x1b[47m");
                    assert("\x1b[47m"@ =~= escape(seq!['4', '7']));
                }
                Some("\x1b[47m")
            },
            Color::BrightBlack => {
                proof {
                    reveal_strlit("\x1b[100m");
                    assert("\x1b[100m"@ =~= escape(seq!['1', '0', '0']));
                }
                Some("\x1b[100m")
            },
            Color::BrightRed => {
                proof {
                    reveal_strlit("\x1b[101m");
                    assert("\x1b[101m"@ =~= escape(seq!['1', '0', '1']));
                }
                Some("\x1b[101m")
            },
            Color::BrightGreen => {
                proof {
                    reveal_strlit("\x1b[102m");
                    assert("\x1b[102m"@ =~= escape(seq!['1', '0', '2']));
                }
                Some("\x1b[102m")
            },
            Color::BrightYellow => {
                proof {
                    reveal_strlit("\x1b[103m");
                    assert("\x1b[103m"@ =~= escape(seq!['1', '0', '3']));
                }
                Some("\x1b[103m")
            },
            Color::BrightBlue => {
                proof {
                    reveal_strlit("\x1b[104m");
                    assert("\x1b[104m"@ =~= escape(seq!['1', '0', '4']));
                }
                Some("\x1b[104m")
            },
            Color::BrightMagenta => {
                proof {
                    reveal_strlit("\x1b[105m");
                    assert("\x1b[105m"@ =~= escape(seq!['1', '0', '5']));
                }
                Some("\x1b[105m")
            },
            Color::BrightCyan => {
                proof {
                    reveal_strlit("\x1b[106m");
                    assert("\x1b[106m"@ =~= escape(seq!['1', '0', '6']));
                }
                Some("\x1b[106m")
            },
            Color::BrightWhite => {
                proof {
                    reveal_strlit("\x1b[107m");
                    assert("\x1b[107m"@ =~= escape(seq!['1', '0', '7']));
                }
                Some("\x1b[107m")
            },
        }
    }

    /// The text in the given color, followed by the reset code.
    pub fn colorize(text: &str, color: Color) -> (r: String)
        ensures
            r@ == wrapped(color_code(color), text@),
    {
        let mut s = String::new();
        push_str(&mut s, color.code());
        push_str(&mut s, text);
        push_str(&mut s, Color::Reset.code());
        assert(s@ =~= wrapped(color_code(color), text@));
        s
    }

    /// The text on the given background color, followed by the reset code;
    /// `Reset` selects the default background.
    pub fn colorize_bg(text: &str, bg_color: Color) -> (r: String)
        ensures
            r@ == wrapped(
                match background_code(bg_color) {
                    Some(b) => b,
                    None => default_background(),
                },
                text@,
            ),
    {
        let mut s = String::new();
        match bg_color.background() {
            Some(b) => push_str(&mut s, b),
            None => {
                proof {
                    reveal_strlit("\x1b[49m");
                    assert("\x1b[49m"@ =~= default_background());
                }
                push_str(&mut s, "\x1b[49m");
            },
        }
        push_str(&mut s, text);
        push_str(&mut s, Color::Reset.code());
        assert(s@ =~= wrapped(
            match background_code(bg_color) {
                Some(b) => b,
                None => default_background(),
            },
            text@,
        ));
        s
    }

    /// The text in the foreground color on the background color, followed
    /// by the reset code; a `Reset` background adds no background code.
    pub fn colorize_full(text: &str, fg_color: Color, bg_color: Color) -> (r: String)
        ensures
            r@ == wrapped(
                color_code(fg_color) + match background_code(bg_color) {
                    Some(b) => b,
                    None => Seq::<char>::empty(),
                },
                text@,
            ),
    {
        let mut s = String::new();
        push_str(&mut s, fg_color.code());
        match bg_color.background() {
            Some(b) => push_str(&mut s, b),
            None => {},
        }
        push_str(&mut s, text);
        push_str(&mut s, Color::Reset.code());
        assert(s@ =~= wrapped(
            color_code(fg_color) + match background_code(bg_color) {
                Some(b) => b,
                None => Seq::<char>::empty(),
            },
            text@,
        ));
        s
    }
}

/// Whether a terminal supports colors, from what the environment shows:
/// not when `NO_COLOR` is set (https://no-color.org) or `TERM` is `dumb`
/// (any case); on Windows only in Windows Terminal (`WT_SESSION` set) or
/// when `TERM_PROGRAM` is set.
pub open spec fn supports_colors(
    no_color: bool,
    term: Option<Seq<char>>,
    windows: bool,
    wt_session: bool,
    term_program: bool,
) -> bool {
    &&& !no_color
    &&& !(term matches Some(t) && lower(t) == seq!['d', 'u', 'm', 'b'])
    &&& (!windows || wt_session || term_program)
}

impl Color {
    /// Whether colors are likely supported, given whether `NO_COLOR` is
    /// set, the value of `TERM`, whether this is Windows, and whether
    /// `WT_SESSION` and `TERM_PROGRAM` are set.
    pub fn supported_by(
        no_color: bool,
        term: Option<&str>,
        windows: bool,
        wt_session: bool,
        term_program: bool,
    ) -> (r: bool)
        ensures
            r == supports_colors(
                no_color,
                match term {
                    Some(t) => Some(t@),
                    None => None,
                },
                windows,
                wt_session,
                term_program,
            ),
    {
        if no_color {
            return false;
        }
        match term {
            Some(t) => {
                let l = to_lower_ascii(t);
                let dumb = chars_of("dumb");
                proof {
                    reveal_strlit("dumb");
                    assert(dumb@ =~= seq!['d', 'u', 'm', 'b']);
                }
                if same_chars(&l, &dumb) {
                    return false;
                }
            },
            None => {},
        }
        if windows {
            return wt_session || term_program;
        }
        true
    }
}

/// Color scheme: the color of each log level.
#[derive(Debug, Clone, Copy, PartialEq, Eq, Structural)]
pub struct LogColorScheme {
    /// Color for trace level
    pub trace: Color,
    /// Color for debug level
    pub debug: Color,
    /// Color for info level
    pub info: Color,
    /// Color for warn level
    pub warn: Color,
    /// Color for error level
    pub error: Color,
    /// Color for critical level
    pub critical: Color,
}

/// The color that a scheme gives a level.
pub open spec fn scheme_color(s: LogColorScheme, level: LogLevel) -> Color {
    match level {
        LogLevel::Trace => s.trace,
        LogLevel::Debug => s.debug,
        LogLevel::Info => s.info,
        LogLevel::Warn => s.warn,
        LogLevel::Error => s.error,
        LogLevel::Critical => s.critical,
    }
}

/// The default scheme: gray, cyan, green, yellow, red, bright red.
pub open spec fn default_scheme() -> LogColorScheme {
    LogColorScheme {
        trace: Color::BrightBlack,
        debug: Color::Cyan,
        info: Color::Green,
        warn: Color::Yellow,
        error: Color::Red,
        critical: Color::BrightRed,
    }
}

/// A log line whose level part is colored:
/// `[timestamp] <color>[LEVEL]<reset> message`.
pub open spec fn colored_line(
    ts: Seq<char>,
    color: Color,
    level: LogLevel,
    msg: Seq<char>,
) -> Seq<char> {
    seq!['['] + ts + seq![']', ' '] + wrapped(
        color_code(color),
        seq!['['] + level_name(level) + seq![']'],
    ) + seq![' '] + msg
}

impl Default for LogColorScheme {
    /// Trace gray, debug cyan, info green, warn yellow, error red, critical
    /// bright red.
    fn default() -> (r: Self)
        ensures
            r == default_scheme(),
    {
        LogColorScheme {
            trace: Color::BrightBlack,
            debug: Color::Cyan,
            info: Color::Green,
            warn: Color::Yellow,
            error: Color::Red,
            critical: Color::BrightRed,
        }
    }
}

impl LogColorScheme {
    /// A scheme of the given colors, from trace to critical.
    pub fn new(
        trace: Color,
        debug: Color,
        info: Color,
        warn: Color,
        error: Color,
        critical: Color,
    ) -> (r: Self)
        ensures
            r == (LogColorScheme { trace, debug, info, warn, error, critical }),
    {
        LogColorScheme { trace, debug, info, warn, error, critical }
    }

    /// The color of a level.
    pub fn get_color(&self, level: LogLevel) -> (r: Color)
        ensures
            r == scheme_color(*self, level),
    {
        match level {
            LogLevel::Trace => self.trace,
            LogLevel::Debug => self.debug,
            LogLevel::Info => self.info,
            LogLevel::Warn => self.warn,
            LogLevel::Error => self.error,
            LogLevel::Critical => self.critical,
        }
    }

    /// The message in the color of its level when `use_colors` holds and
    /// the terminal supports colors (`colors_supported`, which the caller
    /// reads from the environment); otherwise the message as it is.
    pub fn colorize_message(
        &self,
        level: LogLevel,
        message: &str,
        use_colors: bool,
        colors_supported: bool,
    ) -> (r: String)
        ensures
            r@ == (if use_colors && colors_supported {
                wrapped(color_code(scheme_color(*self, level)), message@)
            } else {
                message@
            }),
    {
        if use_colors && colors_supported {
            let color = self.get_color(level);
            Color::colorize(message, color)
        } else {
            String::from_str(message)
        }
    }

    /// A complete log line `[timestamp] [LEVEL] message`, its level part in
    /// the level's color when `use_colors` holds and the terminal supports
    /// colors.
    pub fn colorize_log_line(
        &self,
        timestamp: &str,
        level: LogLevel,
        message: &str,
        use_colors: bool,
        colors_supported: bool,
    ) -> (r: String)
        ensures
            r@ == (if use_colors && colors_supported {
                colored_line(timestamp@, scheme_color(*self, level), level, message@)
            } else {
                text_line(timestamp@, level_name(level), message@)
            }),
    {
        let mut s = String::new();
        push_char(&mut s, '[');
        push_str(&mut s, timestamp);
        push_char(&mut s, ']');
        push_char(&mut s, ' ');
        if use_colors && colors_supported {
            let color = self.get_color(level);
            let mut tag = String::new();
            push_char(&mut tag, '[');
            push_str(&mut tag, level.name());
            push_char(&mut tag, ']');
            let colored = Color::colorize(tag.as_str(), color);
            push_str(&mut s, colored.as_str());
        } else {
            push_char(&mut s, '[');
            push_str(&mut s, level.name());
            push_char(&mut s, ']');
        }
        push_char(&mut s, ' ');
        push_str(&mut s, message);
        proof {
            if use_colors && colors_supported {
                assert(s@ =~= colored_line(timestamp@, scheme_color(*self, level), level, message@));
            } else {
                assert(s@ =~= text_line(timestamp@, level_name(level), message@));
            }
        }
        s
    }
}

/// Formatter of console lines in the colors of a scheme, which can be
/// switched off.
pub struct ColorFormatter {
    scheme: LogColorScheme,
    enabled: bool,
}

impl View for ColorFormatter {
    type V = (LogColorScheme, bool);

    /// The scheme, and whether colors are on.
    closed spec fn view(&self) -> (LogColorScheme, bool) {
        (self.scheme, self.enabled)
    }
}

impl ColorFormatter {
    /// A formatter of the default scheme, colors on.
    pub fn new() -> (r: Self)
        ensures
            r@ == (default_scheme(), true),
    {
        ColorFormatter { scheme: LogColorScheme::default(), enabled: true }
    }

    /// A formatter of the given scheme, colors on.
    pub fn with_scheme(scheme: LogColorScheme) -> (r: Self)
        ensures
            r@ == (scheme, true),
    {
        ColorFormatter { scheme, enabled: true }
    }

    /// Turns colors on or off.
    pub fn set_enabled(&mut self, enabled: bool)
        ensures
            final(self)@ == (old(self)@.0, enabled),
    {
        self.enabled = enabled;
    }

    /// Whether colors are on.
    pub fn is_enabled(&self) -> (r: bool)
        ensures
            r == self@.1,
    {
        self.enabled
    }

    /// A log line; colored (level part) when it goes to the console and
    /// colors are on and supported, plain `[timestamp] [LEVEL] message`
    /// otherwise.
    pub fn format(
        &self,
        timestamp: &str,
        level: LogLevel,
        message: &str,
        for_console: bool,
        colors_supported: bool,
    ) -> (r: String)
        ensures
            r@ == (if for_console && self@.1 && colors_supported {
                colored_line(timestamp@, scheme_color(self@.0, level), level, message@)
            } else {
                text_line(timestamp@, level_name(level), message@)
            }),
    {
        if for_console && self.enabled {
            self.scheme.colorize_log_line(timestamp, level, message, true, colors_supported)
        } else {
            self.scheme.colorize_log_line(timestamp, level, message, false, colors_supported)
        }
    }

    /// The message alone; in its level's color when it goes to the console
    /// and colors are on and supported.
    pub fn format_message(
        &self,
        level: LogLevel,
        message: &str,
        for_console: bool,
        colors_supported: bool,
    ) -> (r: String)
        ensures
            r@ == (if for_console && self@.1 && colors_supported {
                wrapped(color_code(scheme_color(self@.0, level)), message@)
            } else {
                message@
            }),
    {
        if for_console && self.enabled {
            self.scheme.colorize_message(level, message, true, colors_supported)
        } else {
            String::from_str(message)
        }
    }
}

impl Default for ColorFormatter {
    fn default() -> (r: Self)
        ensures
            r@ == (default_scheme(), true),
    {
        ColorFormatter::new()
    }
}

} // verus!
