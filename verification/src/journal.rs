//! Journal lines: their severity, their message text, and how one line of
//! `journalctl -o json` output becomes a `LogLine`.

use vstd::prelude::*;
use vstd::utf8::{valid_utf8, decode_utf8, encode_utf8, encode_utf8_valid_utf8, encode_utf8_decode_utf8};
use crate::text::{
    chars_of, string_from_chars, same_chars, first_word, first_word_of, is_ascii_letter,
    is_ascii_alphabetic, parse_u64, parse_u64_of,
};
use crate::json::{
    JsonMember, JsonMemberView, members_view, member_of, find_member, parse_json_object,
    json_object_members,
};

verus! {

/// The severity of a log line, ordered `Debug < Info < Warning < Error <
/// Unknown`: a line that could not be classified sorts above every level, so
/// no minimum level hides it.
#[derive(Debug, Clone, Copy, PartialEq, Eq, Structural, PartialOrd, Ord, Hash)]
pub enum LogLevel {
    Debug,
    Info,
    Warning,
    Error,
    Unknown,
}

impl LogLevel {
    /// The position of a level in the order of the enum.
    pub open spec fn rank(self) -> int {
        match self {
            LogLevel::Debug => 0,
            LogLevel::Info => 1,
            LogLevel::Warning => 2,
            LogLevel::Error => 3,
            LogLevel::Unknown => 4,
        }
    }

    /// The level that the first word of an `oslo.log` line names.
    pub open spec fn of_word(w: Seq<char>) -> LogLevel {
        if w == "TRACE"@ || w == "DEBUG"@ {
            LogLevel::Debug
        } else if w == "INFO"@ || w == "AUDIT"@ {
            LogLevel::Info
        } else if w == "WARNING"@ || w == "WARN"@ {
            LogLevel::Warning
        } else if w == "ERROR"@ || w == "CRITICAL"@ {
            LogLevel::Error
        } else {
            LogLevel::Unknown
        }
    }

    /// Whether this level is at or above `min`.
    pub fn is_at_least(&self, min: &LogLevel) -> (r: bool)
        ensures
            r == (self.rank() >= min.rank()),
    {
        self.rank_number() >= min.rank_number()
    }

    fn rank_number(&self) -> (r: u8)
        ensures
            r == self.rank(),
    {
        match self {
            LogLevel::Debug => 0,
            LogLevel::Info => 1,
            LogLevel::Warning => 2,
            LogLevel::Error => 3,
            LogLevel::Unknown => 4,
        }
    }

    /// Classifies the first word of a message: `TRACE`/`DEBUG`, `INFO`/`AUDIT`,
    /// `WARNING`/`WARN`, `ERROR`/`CRITICAL`; anything else is `Unknown`.
    pub fn from_first_word(word: &str) -> (r: LogLevel)
        ensures
            r == LogLevel::of_word(word@),
    {
        let w = chars_of(word);
        Self::from_word_chars(&w)
    }

    /// Classifies a word given by its characters (see `of_word`).
    pub fn from_word_chars(w: &Vec<char>) -> (r: LogLevel)
        ensures
            r == LogLevel::of_word(w@),
    {
        if same_chars(&w, &chars_of("TRACE")) || same_chars(&w, &chars_of("DEBUG")) {
            LogLevel::Debug
        } else if same_chars(&w, &chars_of("INFO")) || same_chars(&w, &chars_of("AUDIT")) {
            LogLevel::Info
        } else if same_chars(&w, &chars_of("WARNING")) || same_chars(&w, &chars_of("WARN")) {
            LogLevel::Warning
        } else if same_chars(&w, &chars_of("ERROR")) || same_chars(&w, &chars_of("CRITICAL")) {
            LogLevel::Error
        } else {
            LogLevel::Unknown
        }
    }
}

/// The level of a message: that of its first whitespace-separated word, or
/// `Unknown` for a message with no word.
pub open spec fn level_of_message(msg: Seq<char>) -> LogLevel {
    match first_word_of(msg) {
        Some(w) => LogLevel::of_word(w),
        None => LogLevel::Unknown,
    }
}

/// The level of a message given by its characters (see `level_of_message`).
pub fn message_level(msg: &Vec<char>) -> (r: LogLevel)
    ensures
        r == level_of_message(msg@),
{
    match first_word(msg) {
        Some(w) => LogLevel::from_word_chars(&w),
        None => LogLevel::Unknown,
    }
}

/// One matching line of a host's journal.
#[derive(Debug, Clone)]
pub struct LogLine {
    pub timestamp_micros: u64,
    pub host: String,
    pub unit: String,
    pub level: LogLevel,
    pub message: String,
}

/// The mathematical value of a `LogLine`.
pub struct LogLineView {
    pub timestamp_micros: u64,
    pub host: Seq<char>,
    pub unit: Seq<char>,
    pub level: LogLevel,
    pub message: Seq<char>,
}

impl View for LogLine {
    type V = LogLineView;

    open spec fn view(&self) -> LogLineView {
        LogLineView {
            timestamp_micros: self.timestamp_micros,
            host: self.host@,
            unit: self.unit@,
            level: self.level,
            message: self.message@,
        }
    }
}

impl LogLine {
    /// A copy of this line.
    pub fn duplicate(&self) -> (r: LogLine)
        ensures
            r@ == self@,
    {
        LogLine {
            timestamp_micros: self.timestamp_micros,
            host: self.host.clone(),
            unit: self.unit.clone(),
            level: self.level,
            message: self.message.clone(),
        }
    }
}

/// A host from which nothing could be fetched, and why: kept apart from
/// `LogLine`s so that a quiet host and a broken one never look the same.
#[derive(Debug)]
pub struct HostError {
    pub host: String,
    pub reason: String,
}

/// The escape character that starts an ANSI control sequence.
pub open spec fn esc() -> char {
    '\u{1b}'
}

/// The index just past the letter that ends a control sequence whose body
/// starts at `i` (the end of `s` where no letter follows).
pub open spec fn csi_end(s: Seq<char>, i: int) -> int
    decreases s.len() - i,
{
    if i < 0 || i >= s.len() {
        s.len() as int
    } else if is_ascii_letter(s[i]) {
        i + 1
    } else {
        csi_end(s, i + 1)
    }
}

/// Where a control sequence ends lies between its body's start and the end
/// of `s`.
pub proof fn lemma_csi_end_bounds(s: Seq<char>, i: int)
    requires
        0 <= i <= s.len(),
    ensures
        i <= csi_end(s, i) <= s.len(),
    decreases s.len() - i,
{
    if i < s.len() && !is_ascii_letter(s[i]) {
        lemma_csi_end_bounds(s, i + 1);
    }
}

/// The characters of `s` from index `i` on, with every `ESC [ ... letter`
/// control sequence removed.
pub open spec fn strip_ansi_from(s: Seq<char>, i: int) -> Seq<char>
    decreases s.len() - i,
{
    if i < 0 || i >= s.len() {
        Seq::empty()
    } else if s[i] == esc() && i + 1 < s.len() && s[i + 1] == '[' {
        proof {
            lemma_csi_end_bounds(s, i + 2);
        }
        strip_ansi_from(s, csi_end(s, i + 2))
    } else {
        seq![s[i]] + strip_ansi_from(s, i + 1)
    }
}

/// `s` with every `ESC [ ... letter` control sequence (the SGR colour codes
/// that `oslo.log` emits) removed; a sequence with no closing letter runs to
/// the end of `s`.
pub open spec fn strip_ansi_of(s: Seq<char>) -> Seq<char> {
    strip_ansi_from(s, 0)
}

/// Removes `ESC [ ... letter` control sequences from `s`, so that a message
/// that came through as a byte array reads as plain text.
pub fn strip_ansi(s: &str) -> (r: String)
    ensures
        r@ == strip_ansi_of(s@),
{
    let v = chars_of(s);
    let out = strip_ansi_chars(&v);
    string_from_chars(&out)
}

/// Removes control sequences from a character sequence (see `strip_ansi_of`).
pub fn strip_ansi_chars(v: &Vec<char>) -> (out: Vec<char>)
    ensures
        out@ == strip_ansi_of(v@),
{
    let mut out: Vec<char> = Vec::new();
    let mut i: usize = 0;
    while i < v.len()
        invariant
            i <= v.len(),
            out@ + strip_ansi_from(v@, i as int) == strip_ansi_of(v@),
        decreases v.len() - i,
    {
        let c = v[i];
        if c == '\u{1b}' && i + 1 < v.len() && v[i + 1] == '[' {
            let mut j: usize = i + 2;
            while j < v.len() && !is_ascii_alphabetic(v[j])
                invariant
                    i + 2 <= j <= v.len(),
                    csi_end(v@, (i + 2) as int) == csi_end(v@, j as int),
                decreases v.len() - j,
            {
                j += 1;
            }
            let next: usize = if j < v.len() {
                j + 1
            } else {
                j
            };
            assert(next == csi_end(v@, (i + 2) as int));
            i = next;
        } else {
            let ghost before = out@;
            out.push(c);
            assert(before + strip_ansi_from(v@, i as int) == out@ + strip_ansi_from(
                v@,
                (i + 1) as int,
            )) by {
                assert(before + (seq![c] + strip_ansi_from(v@, (i + 1) as int)) =~= before.push(c)
                    + strip_ansi_from(v@, (i + 1) as int));
            }
            i += 1;
        }
    }
    assert(out@ + Seq::<char>::empty() =~= out@);
    out
}

/// A message with no escape character comes through `strip_ansi` unchanged.
pub proof fn lemma_strip_ansi_plain_text(s: Seq<char>)
    requires
        forall|k: int| 0 <= k < s.len() ==> s[k] != esc(),
    ensures
        strip_ansi_of(s) == s,
{
    lemma_strip_ansi_plain_from(s, 0);
    assert(s.skip(0) =~= s);
}

proof fn lemma_strip_ansi_plain_from(s: Seq<char>, i: int)
    requires
        0 <= i <= s.len(),
        forall|k: int| 0 <= k < s.len() ==> s[k] != esc(),
    ensures
        strip_ansi_from(s, i) == s.skip(i),
    decreases s.len() - i,
{
    if i < s.len() {
        lemma_strip_ansi_plain_from(s, i + 1);
        assert(seq![s[i]] + s.skip(i + 1) =~= s.skip(i));
    } else {
        assert(s.skip(i) =~= Seq::<char>::empty());
    }
}

/// Stripping control sequences never lengthens a message.
pub proof fn lemma_strip_ansi_no_longer(s: Seq<char>)
    ensures
        strip_ansi_of(s).len() <= s.len(),
{
    lemma_strip_ansi_from_len(s, 0);
}

proof fn lemma_strip_ansi_from_len(s: Seq<char>, i: int)
    requires
        0 <= i <= s.len(),
    ensures
        strip_ansi_from(s, i).len() <= s.len() - i,
    decreases s.len() - i,
{
    if i < s.len() {
        if s[i] == esc() && i + 1 < s.len() && s[i + 1] == '[' {
            lemma_csi_end_bounds(s, i + 2);
            lemma_strip_ansi_from_len(s, csi_end(s, i + 2));
        } else {
            lemma_strip_ansi_from_len(s, i + 1);
        }
    }
}


/// The bytes of a `MESSAGE` given as an array: each element that is a `u64`,
/// truncated to its low byte; other elements are skipped.
pub open spec fn message_bytes(items: Seq<Option<u64>>) -> Seq<u8>
    decreases items.len(),
{
    if items.len() == 0 {
        Seq::empty()
    } else {
        message_bytes(items.drop_last()) + match items.last() {
            Some(b) => seq![(b % 256) as u8],
            None => Seq::<u8>::empty(),
        }
    }
}

/// What `String::from_utf8_lossy` makes of `bytes`.
pub uninterp spec fn utf8_lossy_of(bytes: Seq<u8>) -> Seq<char>;

/// `String::from_utf8_lossy`, owned. The contract claims that the result is
/// `utf8_lossy_of(bytes)`, and that valid UTF-8 decodes to the characters it
/// encodes; how invalid sequences are replaced by U+FFFD is left to the name.
#[verifier::external_body]
pub(crate) fn utf8_lossy(bytes: &[u8]) -> (r: String)
    ensures
        r@ == utf8_lossy_of(bytes@),
        valid_utf8(bytes@) ==> r@ == decode_utf8(bytes@),
{
    String::from_utf8_lossy(bytes).into_owned()
}

/// The text of a `MESSAGE` member: the string itself, an array of byte
/// values decoded as (lossy) UTF-8, or empty for anything else.
pub open spec fn decode_message_of(m: JsonMemberView) -> Seq<char> {
    match m {
        JsonMemberView::Str(s) => s,
        JsonMemberView::Array(items) => utf8_lossy_of(message_bytes(items)),
        JsonMemberView::Other => Seq::empty(),
    }
}

/// Decodes a `MESSAGE` member (see `decode_message_of`); an array whose
/// bytes are valid UTF-8 decodes to the text they encode.
pub fn decode_message(m: &JsonMember) -> (r: String)
    ensures
        r@ == decode_message_of(m@),
        m@ matches JsonMemberView::Array(items) ==> (valid_utf8(message_bytes(items)) ==> r@
            == decode_utf8(message_bytes(items))),
{
    match m {
        JsonMember::Str(s) => s.clone(),
        JsonMember::Array(items) => {
            let mut raw: Vec<u8> = Vec::new();
            let mut i: usize = 0;
            while i < items.len()
                invariant
                    i <= items.len(),
                    raw@ == message_bytes(items@.take(i as int)),
                decreases items.len() - i,
            {
                assert(items@.take(i + 1).drop_last() =~= items@.take(i as int));
                match items[i] {
                    Some(b) => {
                        raw.push((b % 256) as u8);
                    },
                    None => {},
                }
                i += 1;
                assert(raw@ =~= message_bytes(items@.take(i as int)));
            }
            assert(items@.take(i as int) =~= items@);
            utf8_lossy(raw.as_slice())
        },
        JsonMember::Other => String::new(),
    }
}

/// The host of a journal entry: its `_HOSTNAME` where that is a string,
/// else `fallback`.
pub open spec fn host_of(ms: Seq<(Seq<char>, JsonMemberView)>, fallback: Seq<char>) -> Seq<char> {
    match member_of(ms, "_HOSTNAME"@) {
        Some(JsonMemberView::Str(h)) => h,
        _ => fallback,
    }
}

/// The unit of a journal entry: the first of `SYSLOG_IDENTIFIER`,
/// `_SYSTEMD_UNIT` and `_COMM` that is present, if it is a string; else `-`.
pub open spec fn unit_of(ms: Seq<(Seq<char>, JsonMemberView)>) -> Seq<char> {
    let u = if member_of(ms, "SYSLOG_IDENTIFIER"@) is Some {
        member_of(ms, "SYSLOG_IDENTIFIER"@)
    } else if member_of(ms, "_SYSTEMD_UNIT"@) is Some {
        member_of(ms, "_SYSTEMD_UNIT"@)
    } else {
        member_of(ms, "_COMM"@)
    };
    match u {
        Some(JsonMemberView::Str(x)) => x,
        _ => "-"@,
    }
}

/// The log line that a journal entry with members `ms` gives: `None` unless
/// `__REALTIME_TIMESTAMP` is a string that reads as a `u64` and `MESSAGE` is
/// present; the message is decoded and stripped of control sequences, and
/// its level is that of its first word.
pub open spec fn journal_line_of(ms: Seq<(Seq<char>, JsonMemberView)>, fallback: Seq<char>) -> Option<
    LogLineView,
> {
    match member_of(ms, "__REALTIME_TIMESTAMP"@) {
        Some(JsonMemberView::Str(t)) => match parse_u64_of(t) {
            Some(ts) => match member_of(ms, "MESSAGE"@) {
                Some(m) => {
                    let message = strip_ansi_of(decode_message_of(m));
                    Some(
                        LogLineView {
                            timestamp_micros: ts,
                            host: host_of(ms, fallback),
                            unit: unit_of(ms),
                            level: level_of_message(message),
                            message,
                        },
                    )
                },
                None => None,
            },
            None => None,
        },
        _ => None,
    }
}

/// The view of an optional line.
pub open spec fn line_opt_view(r: Option<LogLine>) -> Option<LogLineView> {
    match r {
        Some(l) => Some(l@),
        None => None,
    }
}

/// Builds the log line of a journal entry from its members (see
/// `journal_line_of`).
pub fn log_line_from_members(ms: &Vec<(String, JsonMember)>, fallback_host: &str) -> (r: Option<
    LogLine,
>)
    ensures
        line_opt_view(r) == journal_line_of(members_view(ms@), fallback_host@),
{
    let ts_text = match find_member(ms, "__REALTIME_TIMESTAMP") {
        Some(JsonMember::Str(t)) => t,
        _ => {
            return None;
        },
    };
    let timestamp_micros = match parse_u64(&chars_of(ts_text.as_str())) {
        Some(n) => n,
        None => {
            return None;
        },
    };
    let host = match find_member(ms, "_HOSTNAME") {
        Some(JsonMember::Str(h)) => h.clone(),
        _ => String::from_str(fallback_host),
    };
    let unit_member = match find_member(ms, "SYSLOG_IDENTIFIER") {
        Some(m) => Some(m),
        None => match find_member(ms, "_SYSTEMD_UNIT") {
            Some(m) => Some(m),
            None => find_member(ms, "_COMM"),
        },
    };
    let unit = match unit_member {
        Some(JsonMember::Str(u)) => u.clone(),
        _ => String::from_str("-"),
    };
    let message_member = match find_member(ms, "MESSAGE") {
        Some(m) => m,
        None => {
            return None;
        },
    };
    let decoded = decode_message(message_member);
    let msg_chars = strip_ansi_chars(&chars_of(decoded.as_str()));
    let level = message_level(&msg_chars);
    let message = string_from_chars(&msg_chars);
    Some(LogLine { timestamp_micros, host, unit, level, message })
}

/// Parses one line of `journalctl -o json` output. `MESSAGE` may be a string
/// or an array of byte values (journald writes the latter for text with raw
/// control bytes); either way ANSI colour codes are stripped. The host falls
/// back to `fallback_host` and the unit to `-`.
pub fn parse_journal_json_line(raw_line: &str, fallback_host: &str) -> (r: Option<LogLine>)
    ensures
        match json_object_members(raw_line@) {
            Some(ms) => line_opt_view(r) == journal_line_of(ms, fallback_host@),
            None => r is None,
        },
{
    match parse_json_object(raw_line) {
        Some(ms) => log_line_from_members(&ms, fallback_host),
        None => None,
    }
}


/// The array that journald writes for a message `s`: its UTF-8 bytes, each
/// as a number.
pub open spec fn byte_array_of(s: Seq<char>) -> Seq<Option<u64>> {
    encode_utf8(s).map_values(|b: u8| Some(b as u64))
}

proof fn lemma_message_bytes_of_bytes(bs: Seq<u8>)
    ensures
        message_bytes(bs.map_values(|b: u8| Some(b as u64))) == bs,
    decreases bs.len(),
{
    let items = bs.map_values(|b: u8| Some(b as u64));
    if bs.len() > 0 {
        assert(items.drop_last() =~= bs.drop_last().map_values(|b: u8| Some(b as u64)));
        lemma_message_bytes_of_bytes(bs.drop_last());
        let b = bs.last();
        assert(items.last() == Some(b as u64));
        assert(((b as u64) % 256) as u8 == b);
        assert(bs.drop_last().push(b) =~= bs);
    } else {
        assert(bs =~= Seq::<u8>::empty());
    }
}

/// A message written as the byte array of its UTF-8 encoding reads back as
/// the same text: the bytes come back unchanged, they are valid UTF-8, and
/// they decode to `s` (which `decode_message` then returns).
pub proof fn lemma_byte_array_round_trip(s: Seq<char>)
    ensures
        message_bytes(byte_array_of(s)) == encode_utf8(s),
        valid_utf8(message_bytes(byte_array_of(s))),
        decode_utf8(message_bytes(byte_array_of(s))) == s,
{
    lemma_message_bytes_of_bytes(encode_utf8(s));
    encode_utf8_valid_utf8(s);
    encode_utf8_decode_utf8(s);
}

proof fn lemma_csi_end_shift(p: Seq<char>, b: Seq<char>, k: int)
    requires
        0 <= k <= b.len(),
    ensures
        csi_end(p + b, p.len() + k) == p.len() + csi_end(b, k),
    decreases b.len() - k,
{
    if k < b.len() {
        assert((p + b)[p.len() + k] == b[k]);
        if !is_ascii_letter(b[k]) {
            lemma_csi_end_shift(p, b, k + 1);
        }
    }
}

proof fn lemma_strip_ansi_shift(p: Seq<char>, b: Seq<char>, j: int)
    requires
        0 <= j <= b.len(),
    ensures
        strip_ansi_from(p + b, p.len() + j) == strip_ansi_from(b, j),
    decreases b.len() - j,
{
    let s = p + b;
    let i = p.len() + j;
    if j < b.len() {
        assert(s[i] == b[j]);
        if j + 1 < b.len() {
            assert(s[i + 1] == b[j + 1]);
        }
        if b[j] == esc() && j + 1 < b.len() && b[j + 1] == '[' {
            lemma_csi_end_shift(p, b, j + 2);
            lemma_csi_end_bounds(b, j + 2);
            lemma_strip_ansi_shift(p, b, csi_end(b, j + 2));
        } else {
            lemma_strip_ansi_shift(p, b, j + 1);
        }
    }
}

proof fn lemma_strip_ansi_prefix(a: Seq<char>, b: Seq<char>, i: int)
    requires
        0 <= i <= a.len(),
        forall|k: int| 0 <= k < a.len() ==> a[k] != esc(),
    ensures
        strip_ansi_from(a + b, i) == a.skip(i) + strip_ansi_of(b),
    decreases a.len() - i,
{
    if i < a.len() {
        assert((a + b)[i] == a[i]);
        lemma_strip_ansi_prefix(a, b, i + 1);
        assert(seq![a[i]] + (a.skip(i + 1) + strip_ansi_of(b)) =~= a.skip(i) + strip_ansi_of(b));
    } else {
        lemma_strip_ansi_shift(a, b, 0);
        assert(a.skip(i) + strip_ansi_of(b) =~= strip_ansi_of(b));
    }
}

/// Text without an escape character passes through `strip_ansi` unchanged,
/// whatever follows it: stripping `a + b` gives `a` followed by the
/// stripped `b`.
pub proof fn lemma_strip_ansi_plain_prefix(a: Seq<char>, b: Seq<char>)
    requires
        forall|k: int| 0 <= k < a.len() ==> a[k] != esc(),
    ensures
        strip_ansi_of(a + b) == a + strip_ansi_of(b),
{
    lemma_strip_ansi_prefix(a, b, 0);
    assert(a.skip(0) =~= a);
}

/// Where a journal entry names its unit: `SYSLOG_IDENTIFIER` wins whenever
/// the entry has it, `_SYSTEMD_UNIT` comes next and `_COMM` last; the first
/// of them that is present decides, and if it is not a string, or none is
/// present, the unit is `-`. The host is `_HOSTNAME` where that is a
/// string, else the host that was searched.
pub proof fn lemma_journal_line_unit_and_host(
    ms: Seq<(Seq<char>, JsonMemberView)>,
    fallback: Seq<char>,
)
    requires
        journal_line_of(ms, fallback) is Some,
    ensures
        member_of(ms, "SYSLOG_IDENTIFIER"@) matches Some(JsonMemberView::Str(x)) ==> journal_line_of(
            ms,
            fallback,
        ).unwrap().unit == x,
        member_of(ms, "SYSLOG_IDENTIFIER"@) is None ==> (member_of(ms, "_SYSTEMD_UNIT"@) matches Some(
            JsonMemberView::Str(x),
        ) ==> journal_line_of(ms, fallback).unwrap().unit == x),
        member_of(ms, "SYSLOG_IDENTIFIER"@) is None ==> (member_of(ms, "_SYSTEMD_UNIT"@) is None ==> (
        member_of(ms, "_COMM"@) matches Some(JsonMemberView::Str(x)) ==> journal_line_of(
            ms,
            fallback,
        ).unwrap().unit == x)),
        member_of(ms, "SYSLOG_IDENTIFIER"@) matches Some(m) ==> (!(m is Str) ==> journal_line_of(
            ms,
            fallback,
        ).unwrap().unit == "-"@),
        member_of(ms, "SYSLOG_IDENTIFIER"@) is None && member_of(ms, "_SYSTEMD_UNIT"@) is None
            && member_of(ms, "_COMM"@) is None ==> journal_line_of(ms, fallback).unwrap().unit == "-"@,
        member_of(ms, "_HOSTNAME"@) matches Some(JsonMemberView::Str(h)) ==> journal_line_of(
            ms,
            fallback,
        ).unwrap().host == h,
        !(member_of(ms, "_HOSTNAME"@) matches Some(JsonMemberView::Str(_))) ==> journal_line_of(
            ms,
            fallback,
        ).unwrap().host == fallback,
{
}

} // verus!
