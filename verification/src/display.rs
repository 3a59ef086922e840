//! How the timeline is shown: the minimum level given on the command line,
//! and each line's colour, label, columns and time of day.

use vstd::prelude::*;
use vstd::utf8::is_ascii_chars;
use crate::journal::{LogLevel, LogLine};
use crate::text::{
    same_chars, slice_chars, chars_of, string_from_chars, extend_chars, extend_str, push_padded, pad_right_of,
    push_two_digits, two_digits_of,
};

verus! {

/// What `str::to_lowercase` makes of `s` (Unicode lowercase mapping).
pub uninterp spec fn lowercase_of(s: Seq<char>) -> Seq<char>;

/// An ASCII letter in lower case; any other character unchanged.
pub open spec fn ascii_lower_char(c: char) -> char {
    if 'A' <= c && c <= 'Z' {
        ((c as u32) + 32) as char
    } else {
        c
    }
}

/// `s` with its ASCII capitals in lower case.
pub open spec fn ascii_lowercase_of(s: Seq<char>) -> Seq<char> {
    s.map_values(|c: char| ascii_lower_char(c))
}

/// `str::to_lowercase`. The contract claims that the result is
/// `lowercase_of(s)`, and that on ASCII text (where the Unicode lowercase
/// mapping sends `A`-`Z` to `a`-`z` and keeps every other character) it is
/// the ASCII lowercasing; the mapping of other characters is left to the name.
#[verifier::external_body]
pub(crate) fn to_lowercase(s: &str) -> (r: String)
    ensures
        r@ == lowercase_of(s@),
        is_ascii_chars(s@) ==> r@ == ascii_lowercase_of(s@),
{
    s.to_lowercase()
}

/// The minimum level that an already lowercased name gives: `debug`,
/// `info`, `warning` or `warn`, `error`; anything else is refused with a
/// message that quotes it.
pub open spec fn level_from_lowercase_of(s: Seq<char>) -> Result<LogLevel, Seq<char>> {
    if s == "debug"@ {
        Ok(LogLevel::Debug)
    } else if s == "info"@ {
        Ok(LogLevel::Info)
    } else if s == "warning"@ || s == "warn"@ {
        Ok(LogLevel::Warning)
    } else if s == "error"@ {
        Ok(LogLevel::Error)
    } else {
        Err("'"@ + s + "' isn't a level (expected debug, info, warning, or error)"@)
    }
}

/// The view of a level or an error message.
pub open spec fn level_result_view(r: Result<LogLevel, String>) -> Result<LogLevel, Seq<char>> {
    match r {
        Ok(l) => Ok(l),
        Err(e) => Err(e@),
    }
}

/// Reads a lowercased level name (see `level_from_lowercase_of`).
pub fn level_from_lowercase(s: &str) -> (r: Result<LogLevel, String>)
    ensures
        level_result_view(r) == level_from_lowercase_of(s@),
{
    let v = chars_of(s);
    if same_chars(&v, &chars_of("debug")) {
        Ok(LogLevel::Debug)
    } else if same_chars(&v, &chars_of("info")) {
        Ok(LogLevel::Info)
    } else if same_chars(&v, &chars_of("warning")) || same_chars(
        &v,
        &chars_of("warn"),
    ) {
        Ok(LogLevel::Warning)
    } else if same_chars(&v, &chars_of("error")) {
        Ok(LogLevel::Error)
    } else {
        let mut e: Vec<char> = Vec::new();
        extend_str(&mut e, "'");
        extend_chars(&mut e, &v);
        extend_str(&mut e, "' isn't a level (expected debug, info, warning, or error)");
        Err(string_from_chars(&e))
    }
}

/// Reads the `--min-level` option, case-insensitively: the name is
/// lowercased, then read as `level_from_lowercase_of` says; for ASCII input
/// that is the ASCII lowercasing, so `Warning`, `WARN` and `warning` are
/// all `Warning`.
pub fn parse_min_level(s: &str) -> (r: Result<LogLevel, String>)
    ensures
        level_result_view(r) == level_from_lowercase_of(lowercase_of(s@)),
        is_ascii_chars(s@) ==> level_result_view(r) == level_from_lowercase_of(
            ascii_lowercase_of(s@),
        ),
{
    let lower = to_lowercase(s);
    level_from_lowercase(lower.as_str())
}

/// The escape sequence that ends a style.
pub open spec fn reset_of() -> Seq<char> {
    "\u{1b}[0m"@
}

/// The escape sequence for bold text.
pub open spec fn bold_of() -> Seq<char> {
    "\u{1b}[1m"@
}

/// The escape sequence for dim text.
pub open spec fn dim_of() -> Seq<char> {
    "\u{1b}[2m"@
}

/// The colour and the five-column label of a level: errors red, warnings
/// yellow, info and debug dim, unclassified lines cyan with a `?`.
pub open spec fn level_style_of(level: LogLevel) -> (Seq<char>, Seq<char>) {
    match level {
        LogLevel::Error => ("\u{1b}[31m"@, "ERROR"@),
        LogLevel::Warning => ("\u{1b}[33m"@, "WARN "@),
        LogLevel::Info => (dim_of(), "INFO "@),
        LogLevel::Debug => (dim_of(), "DEBUG"@),
        LogLevel::Unknown => ("\u{1b}[36m"@, "?    "@),
    }
}

/// The colour and label of a level (see `level_style_of`).
pub fn level_style(level: LogLevel) -> (r: (&'static str, &'static str))
    ensures
        (r.0@, r.1@) == level_style_of(level),
{
    match level {
        LogLevel::Error => ("\u{1b}[31m", "ERROR"),
        LogLevel::Warning => ("\u{1b}[33m", "WARN "),
        LogLevel::Info => ("\u{1b}[2m", "INFO "),
        LogLevel::Debug => ("\u{1b}[2m", "DEBUG"),
        LogLevel::Unknown => ("\u{1b}[36m", "?    "),
    }
}

/// `s` cut to at most `max` characters: unchanged where it fits, else its
/// first `max - 1` characters (none where `max` is 0) and an ellipsis.
pub open spec fn truncate_of(s: Seq<char>, max: nat) -> Seq<char> {
    if s.len() <= max {
        s
    } else {
        s.take(if max == 0 {
            0
        } else {
            max - 1
        }).push('\u{2026}')
    }
}

/// Cuts `s` to at most `max` characters, marking a cut with `…` (see
/// `truncate_of`).
pub fn truncate(s: &str, max: usize) -> (r: String)
    ensures
        r@ == truncate_of(s@, max as nat),
{
    let v = chars_of(s);
    if v.len() <= max {
        return String::from_str(s);
    }
    let keep: usize = if max == 0 {
        0
    } else {
        max - 1
    };
    let mut t = slice_chars(&v, 0, keep);
    t.push('\u{2026}');
    assert(t@ =~= truncate_of(s@, max as nat));
    string_from_chars(&t)
}

/// A truncated string is never longer than `max` characters (one, where
/// `max` is 0 and something was cut), keeps a string that fits, and ends in
/// `…` where it cut.
pub proof fn lemma_truncate(s: Seq<char>, max: nat)
    ensures
        truncate_of(s, max).len() <= if max == 0 && s.len() > 0 {
            1
        } else {
            max
        },
        s.len() <= max ==> truncate_of(s, max) == s,
        s.len() > max ==> truncate_of(s, max).len() == if max == 0 {
            1
        } else {
            max
        },
        s.len() > max ==> truncate_of(s, max).last() == '\u{2026}',
{
}

/// The calendar fields of an instant in UTC.
pub struct UtcDateTime {
    pub month: u8,
    pub day: u8,
    pub hour: u8,
    pub minute: u8,
    pub second: u8,
}

/// The (month, day of the month) of the day `z` days after 1970-01-01 in
/// the proleptic Gregorian calendar (days counted in 400-year eras of
/// 146097 days, years starting in March).
pub open spec fn civil_month_day(z: int) -> (int, int) {
    let z2 = z + 719468;
    let era = z2 / 146097;
    let doe = z2 - era * 146097;
    let yoe = (doe - doe / 1460 + doe / 36524 - doe / 146096) / 365;
    let doy = doe - (365 * yoe + yoe / 4 - yoe / 100);
    let mp = (5 * doy + 2) / 153;
    let d = doy - (153 * mp + 2) / 5 + 1;
    let m = if mp < 10 {
        mp + 3
    } else {
        mp - 9
    };
    (m, d)
}

/// The earliest Unix timestamp that `time` represents: -9999-01-01 00:00:00 UTC.
pub open spec fn min_timestamp() -> int {
    -377705116800
}

/// The latest Unix timestamp that `time` represents: 9999-12-31 23:59:59 UTC.
pub open spec fn max_timestamp() -> int {
    253402300799
}

/// `time::OffsetDateTime::from_unix_timestamp`, with the month, day, hour,
/// minute and second of the result. The contract claims what the crate's
/// source computes: a result exactly within the years -9999..=9999, the time
/// of day from the remainder of the timestamp modulo a day, and the month
/// and day of the timestamp's day in the proleptic Gregorian calendar.
#[verifier::external_body]
pub(crate) fn utc_date_time(secs: i64) -> (r: Option<UtcDateTime>)
    ensures
        r is Some <==> min_timestamp() <= secs <= max_timestamp(),
        r matches Some(d) ==> {
            &&& (d.month as int, d.day as int) == civil_month_day(secs as int / 86400)
            &&& 1 <= d.month <= 12
            &&& 1 <= d.day <= 31
            &&& d.hour == (secs % 86400) / 3600
            &&& d.minute == (secs % 86400) % 3600 / 60
            &&& d.second == (secs % 86400) % 60
        },
{
    time::OffsetDateTime::from_unix_timestamp(secs).ok().map(
        |t| UtcDateTime {
            month: u8::from(t.month()),
            day: t.day(),
            hour: t.hour(),
            minute: t.minute(),
            second: t.second(),
        },
    )
}

/// The time shown for a timestamp in microseconds: `MM-DD hh:mm:ss` in UTC,
/// or `??-?? ??:??:??` beyond the year 9999.
pub open spec fn format_timestamp_of(micros: u64) -> Seq<char> {
    let secs = micros as int / 1_000_000;
    if secs <= max_timestamp() {
        let (month, day) = civil_month_day(secs / 86400);
        two_digits_of(month as int) + "-"@ + two_digits_of(day as int) + " "@ + two_digits_of(
            (secs % 86400) / 3600,
        ) + ":"@ + two_digits_of((secs % 86400) % 3600 / 60) + ":"@ + two_digits_of(
            (secs % 86400) % 60,
        )
    } else {
        "??-?? ??:??:??"@
    }
}

/// Renders a timestamp in microseconds (see `format_timestamp_of`), always
/// in 14 characters.
pub fn format_timestamp(micros: u64) -> (r: String)
    ensures
        r@ == format_timestamp_of(micros),
        r@.len() == 14,
{
    let secs: i64 = (micros / 1_000_000) as i64;
    match utc_date_time(secs) {
        Some(d) => {
            let mut v: Vec<char> = Vec::new();
            push_two_digits(&mut v, d.month);
            extend_str(&mut v, "-");
            push_two_digits(&mut v, d.day);
            extend_str(&mut v, " ");
            push_two_digits(&mut v, d.hour);
            extend_str(&mut v, ":");
            push_two_digits(&mut v, d.minute);
            extend_str(&mut v, ":");
            push_two_digits(&mut v, d.second);
            assert(v@ =~= format_timestamp_of(micros));
            proof {
                reveal_strlit("-");
                reveal_strlit(" ");
                reveal_strlit(":");
            }
            assert(d.hour < 24 && d.minute < 60 && d.second < 60);
            assert(v@.len() == 14);
            string_from_chars(&v)
        },
        None => {
            proof {
                reveal_strlit("??-?? ??:??:??");
            }
            String::from_str("??-?? ??:??:??")
        },
    }
}

/// One line of the timeline as printed: dim time, bold host in 12 columns,
/// unit in 24 columns, coloured level label, then the message.
pub open spec fn format_line_of(
    time: Seq<char>,
    host: Seq<char>,
    unit: Seq<char>,
    level: LogLevel,
    message: Seq<char>,
) -> Seq<char> {
    let (color, label) = level_style_of(level);
    dim_of() + time + reset_of() + "  "@ + bold_of() + pad_right_of(truncate_of(host, 12), 12)
        + reset_of() + " "@ + pad_right_of(truncate_of(unit, 24), 24) + " "@ + color + label
        + reset_of() + "  "@ + message
}

/// The printed line ends with the whole message, never shortened: it is the
/// line printed for an empty message followed by the message itself, so two
/// lines that differ only in their message differ only after the same
/// prefix of time, columns and label.
pub proof fn lemma_format_line_keeps_message(
    time: Seq<char>,
    host: Seq<char>,
    unit: Seq<char>,
    level: LogLevel,
    message: Seq<char>,
)
    ensures
        format_line_of(time, host, unit, level, message) == format_line_of(
            time,
            host,
            unit,
            level,
            Seq::empty(),
        ) + message,
        format_line_of(time, host, unit, level, message).len() == format_line_of(
            time,
            host,
            unit,
            level,
            Seq::empty(),
        ).len() + message.len(),
{
    let p = format_line_of(time, host, unit, level, Seq::empty());
    assert(p + Seq::<char>::empty() =~= p);
    assert(format_line_of(time, host, unit, level, message) =~= p + message);
}

/// Renders one line of the timeline (see `format_line_of`).
pub fn format_line(line: &LogLine) -> (r: String)
    ensures
        r@ == format_line_of(
            format_timestamp_of(line.timestamp_micros),
            line.host@,
            line.unit@,
            line.level,
            line.message@,
        ),
{
    let (color, label) = level_style(line.level);
    let time = format_timestamp(line.timestamp_micros);
    let host = truncate(line.host.as_str(), 12);
    let unit = truncate(line.unit.as_str(), 24);
    let mut v: Vec<char> = Vec::new();
    extend_str(&mut v, "\u{1b}[2m");
    extend_str(&mut v, time.as_str());
    extend_str(&mut v, "\u{1b}[0m");
    extend_str(&mut v, "  ");
    extend_str(&mut v, "\u{1b}[1m");
    push_padded(&mut v, &chars_of(host.as_str()), 12);
    extend_str(&mut v, "\u{1b}[0m");
    extend_str(&mut v, " ");
    push_padded(&mut v, &chars_of(unit.as_str()), 24);
    extend_str(&mut v, " ");
    extend_str(&mut v, color);
    extend_str(&mut v, label);
    extend_str(&mut v, "\u{1b}[0m");
    extend_str(&mut v, "  ");
    extend_str(&mut v, line.message.as_str());
    assert(v@ =~= format_line_of(
        format_timestamp_of(line.timestamp_micros),
        line.host@,
        line.unit@,
        line.level,
        line.message@,
    ));
    string_from_chars(&v)
}

} // verus!
