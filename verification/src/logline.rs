//! The grammar of a log line.
//!
//! A line reads `Lmmdd hh:mm:ss.uuuuuu thread file.ext:number] message`, where
//! `L` is one of `I`, `W`, `E`, `F`, and the blanks are runs of white space. The
//! grammar is anchored at the start of the line and ends the message at the first
//! line feed, or at the end of the text. A message may name a tablet: `T `, then
//! 32 lower-case hexadecimal digits, then the end of a word.

use crate::text::{
    all_in, chars_of, is_digit, is_letter, check_run, decimal_value, fixed_run, hex_value, is_canonical_number,
    lemma_field_renders_as_written, lemma_fixed_run_part, lemma_pow10_grows,
    lemma_render_decimal_of_value, lemma_run_end, lemma_run_end_unique,
    lemma_value_of_render_decimal, lemma_value_of_render_padded, read_decimal, read_field,
    read_two, render_decimal, render_padded, render_signed, run_end, scan_run, slice_of,
    two_digits, write_padded, write_signed, CharClass,
};
use crate::timestamp::{Timestamp, TimestampWithoutYear};
use uuid::Uuid;
use vstd::prelude::*;
use vstd::string::StringExecFns;

verus! {

/// Whether a character beyond ASCII counts as part of a word where a word
/// boundary is looked for: what `regex_syntax::is_word_character` says of it.
pub uninterp spec fn word_character(c: char) -> bool;

/// The ASCII characters that count as part of a word: digits, letters and `_`.
pub open spec fn is_ascii_word(c: char) -> bool {
    is_digit(c) || is_letter(c) || c == '_'
}

/// Whether `c` counts as part of a word where a word boundary is looked for.
pub open spec fn is_word(c: char) -> bool {
    if (c as u32) < 128 {
        is_ascii_word(c)
    } else {
        word_character(c)
    }
}

/// `regex_syntax::is_word_character` decides from the Unicode tables whether a
/// character is a word character. Of the ASCII characters these are the digits,
/// the letters and `_`, which the function tests before it looks into its table,
/// and which are the only ASCII entries of the table. The result is a function of
/// the character alone, and with the crate's Unicode tables compiled in, as they
/// are here, the function returns for every character.
pub assume_specification[ regex_syntax::is_word_character ](c: char) -> (b: bool)
    ensures
        (c as u32) < 128 ==> b == is_ascii_word(c),
        (c as u32) >= 128 ==> b == word_character(c),
;

/// `Uuid::parse_str` reads 32 hexadecimal digits as the 16 bytes that they
/// write, first digit first, and `Uuid::as_u128` gives those bytes as one
/// big-endian number: the number that the digits write.
#[verifier::external_body]
fn uuid_of_hex(hex: &str) -> (id: Option<u128>)
    requires
        hex@.len() == 32,
        all_in(hex@, CharClass::LowerHex),
    ensures
        id == Some(hex_value(hex@) as u128),
{
    match Uuid::parse_str(hex) {
        Ok(id) => Some(id.as_u128()),
        Err(_) => None,
    }
}

/// What the grammar finds in a line, before the year is known.
#[derive(Clone, Debug, PartialEq, Eq)]
pub struct ParsedLine {
    /// The severity: `I`, `W`, `E` or `F`.
    pub log_level: char,
    pub timestamp: TimestampWithoutYear,
    pub thread_id: i64,
    /// The source file that wrote the line, as `name.ext`.
    pub file_name: String,
    /// The line of that source file.
    pub line_number: i32,
    /// The tablet that the message names, if it names one.
    pub tablet_id: Option<u128>,
    pub message: String,
}

/// A `ParsedLine` as a mathematical value.
pub struct ParsedLineView {
    pub log_level: char,
    pub timestamp: TimestampWithoutYear,
    pub thread_id: i64,
    pub file_name: Seq<char>,
    pub line_number: i32,
    pub tablet_id: Option<u128>,
    pub message: Seq<char>,
}

impl View for ParsedLine {
    type V = ParsedLineView;

    open spec fn view(&self) -> ParsedLineView {
        ParsedLineView {
            log_level: self.log_level,
            timestamp: self.timestamp,
            thread_id: self.thread_id,
            file_name: self.file_name@,
            line_number: self.line_number,
            tablet_id: self.tablet_id,
            message: self.message@,
        }
    }
}

/// A log line with its absolute timestamp.
#[derive(Clone, Debug, PartialEq, Eq)]
pub struct YBLogLine {
    /// The severity: `I`, `W`, `E` or `F`.
    pub log_level: char,
    pub timestamp: Timestamp,
    pub thread_id: i64,
    /// The source file that wrote the line, as `name.ext`.
    pub file_name: String,
    /// The line of that source file.
    pub line_number: i32,
    /// The tablet that the message names, if it names one.
    pub tablet_id: Option<u128>,
    pub message: String,
}

/// A `YBLogLine` as a mathematical value.
pub struct YBLogLineView {
    pub log_level: char,
    pub timestamp: Timestamp,
    pub thread_id: i64,
    pub file_name: Seq<char>,
    pub line_number: i32,
    pub tablet_id: Option<u128>,
    pub message: Seq<char>,
}

impl View for YBLogLine {
    type V = YBLogLineView;

    open spec fn view(&self) -> YBLogLineView {
        YBLogLineView {
            log_level: self.log_level,
            timestamp: self.timestamp,
            thread_id: self.thread_id,
            file_name: self.file_name@,
            line_number: self.line_number,
            tablet_id: self.tablet_id,
            message: self.message@,
        }
    }
}

/// One of the four severity letters.
pub open spec fn is_severity(c: char) -> bool {
    c == 'I' || c == 'W' || c == 'E' || c == 'F'
}

/// Whether `hh:mm:ss.uuuuuu` stands at `at`.
pub open spec fn clock_at(s: Seq<char>, at: int) -> bool {
    &&& 0 <= at
    &&& at + 15 <= s.len()
    &&& fixed_run(s, at, 2, CharClass::Digit)
    &&& s[at + 2] == ':'
    &&& fixed_run(s, at + 3, 2, CharClass::Digit)
    &&& s[at + 5] == ':'
    &&& fixed_run(s, at + 6, 2, CharClass::Digit)
    &&& s[at + 8] == '.'
    &&& fixed_run(s, at + 9, 6, CharClass::Digit)
}

/// Where the parts of a line stand. What is not listed follows from these: the
/// severity is at 0, month and day fill 1 to 5, and a part ends where the next
/// separator begins.
pub struct LineSpans {
    /// Where the time of day begins.
    pub clock: int,
    /// Where the thread id begins.
    pub thread: int,
    /// Where the thread id ends.
    pub thread_end: int,
    /// Where the source file name begins.
    pub file: int,
    /// Where the source file name ends, at its `:`.
    pub file_end: int,
    /// Where the source line number ends, at its `]`.
    pub number_end: int,
    /// Where the message ends.
    pub message_end: int,
}

impl LineSpans {
    /// Where the source line number begins.
    pub open spec fn number(self) -> int {
        self.file_end + 1
    }

    /// Where the message begins.
    pub open spec fn message(self) -> int {
        self.number_end + 2
    }
}

/// The places of the parts of `s`, where `s` has the shape of a log line.
pub open spec fn line_spans(s: Seq<char>) -> Option<LineSpans> {
    let clock = run_end(s, 5, CharClass::Space);
    let thread = run_end(s, clock + 15, CharClass::Space);
    let thread_end = run_end(s, thread, CharClass::Digit);
    let file = run_end(s, thread_end, CharClass::Space);
    let dot = run_end(s, file, CharClass::Name);
    let file_end = run_end(s, dot + 1, CharClass::Name);
    let number_end = run_end(s, file_end + 1, CharClass::Digit);
    let message_end = run_end(s, number_end + 2, CharClass::NotNewline);
    if s.len() >= 5 && is_severity(s[0]) && fixed_run(s, 1, 4, CharClass::Digit) && clock > 5
        && clock_at(s, clock) && thread > clock + 15 && thread_end > thread && file > thread_end
        && dot > file && dot < s.len() && s[dot] == '.' && file_end > dot + 1 && file_end < s.len()
        && s[file_end] == ':' && number_end > file_end + 1 && number_end + 2 <= s.len()
        && s[number_end] == ']' && s[number_end + 1] == ' ' {
        Some(LineSpans { clock, thread, thread_end, file, file_end, number_end, message_end })
    } else {
        None
    }
}

/// The year-less timestamp whose clock stands at `clock`, after the month and
/// the day at 1.
pub open spec fn timestamp_at(s: Seq<char>, clock: int) -> TimestampWithoutYear {
    TimestampWithoutYear {
        month: two_digits(s, 1),
        day: two_digits(s, 3),
        hour: two_digits(s, clock),
        minute: two_digits(s, clock + 3),
        second: two_digits(s, clock + 6),
        microsecond: decimal_value(s.subrange(clock + 9, clock + 15)) as u32,
    }
}

/// Whether a tablet id stands at `at`: `T `, 32 lower-case hexadecimal digits,
/// and then the end of the text or a character that belongs to no word.
pub open spec fn tablet_id_at(s: Seq<char>, at: int) -> bool {
    &&& 0 <= at
    &&& at + 34 <= s.len()
    &&& s[at] == 'T'
    &&& s[at + 1] == ' '
    &&& fixed_run(s, at + 2, 32, CharClass::LowerHex)
    &&& (at + 34 == s.len() || !is_word(s[at + 34]))
}

/// The first place from `from` on at which a tablet id stands.
pub open spec fn first_tablet_id(s: Seq<char>, from: int) -> Option<int>
    decreases s.len() - from,
{
    if from < 0 || from >= s.len() {
        None
    } else if tablet_id_at(s, from) {
        Some(from)
    } else {
        first_tablet_id(s, from + 1)
    }
}

/// The tablet that `s` names first, if it names one.
pub open spec fn tablet_id_in(s: Seq<char>) -> Option<u128> {
    match first_tablet_id(s, 0) {
        Some(at) => Some(hex_value(s.subrange(at + 2, at + 34)) as u128),
        None => None,
    }
}

/// What the grammar makes of `s`: `None` where `s` has not the shape of a log
/// line, where a number of its timestamp is one that no calendar or clock
/// shows, and where its thread id or its line number is too large to hold.
pub open spec fn parsed_line(s: Seq<char>) -> Option<ParsedLineView> {
    match line_spans(s) {
        None => None,
        Some(spans) => {
            let thread_id = decimal_value(s.subrange(spans.thread, spans.thread_end));
            let line_number = decimal_value(s.subrange(spans.number(), spans.number_end));
            let message = s.subrange(spans.message(), spans.message_end);
            let timestamp = timestamp_at(s, spans.clock);
            if timestamp.in_bounds() && thread_id <= i64::MAX && line_number <= i32::MAX {
                Some(
                    ParsedLineView {
                        log_level: s[0],
                        timestamp,
                        thread_id: thread_id as i64,
                        file_name: s.subrange(spans.file, spans.file_end),
                        line_number: line_number as i32,
                        tablet_id: tablet_id_in(message),
                        message,
                    },
                )
            } else {
                None
            }
        },
    }
}

/// Decides whether `hh:mm:ss.uuuuuu` stands at `at`.
fn check_clock(v: &Vec<char>, at: usize) -> (b: bool)
    requires
        at <= v.len(),
    ensures
        b == clock_at(v@, at as int),
{
    if v.len() - at < 15 {
        return false;
    }
    check_run(v, at, 2, CharClass::Digit) && v[at + 2] == ':' && check_run(
        v,
        at + 3,
        2,
        CharClass::Digit,
    ) && v[at + 5] == ':' && check_run(v, at + 6, 2, CharClass::Digit) && v[at + 8] == '.'
        && check_run(v, at + 9, 6, CharClass::Digit)
}

/// Decides whether a tablet id stands at `at`.
fn check_tablet_id(v: &Vec<char>, at: usize) -> (b: bool)
    requires
        at <= v.len(),
    ensures
        b == tablet_id_at(v@, at as int),
{
    if v.len() - at < 34 {
        return false;
    }
    v[at] == 'T' && v[at + 1] == ' ' && check_run(v, at + 2, 32, CharClass::LowerHex) && (at + 34
        == v.len() || !regex_syntax::is_word_character(v[at + 34]))
}

/// Finds the first place at which a tablet id stands.
fn find_tablet_id(v: &Vec<char>) -> (at: Option<usize>)
    ensures
        match at {
            Some(at) => first_tablet_id(v@, 0) == Some(at as int) && tablet_id_at(v@, at as int),
            None => first_tablet_id(v@, 0) is None,
        },
{
    let mut at: usize = 0;
    while at < v.len()
        invariant
            at <= v.len(),
            first_tablet_id(v@, 0) == first_tablet_id(v@, at as int),
        decreases v.len() - at,
    {
        if check_tablet_id(v, at) {
            return Some(at);
        }
        at += 1;
    }
    None
}

impl ParsedLine {
    /// Reads a line by the grammar.
    pub fn parse(line: &str) -> (parsed: Option<ParsedLine>)
        ensures
            parsed.is_some() == parsed_line(line@).is_some(),
            parsed.is_some() ==> parsed.unwrap()@ == parsed_line(line@).unwrap(),
    {
        let v = chars_of(line);
        if v.len() < 5 {
            return None;
        }
        let level = v[0];
        if !(level == 'I' || level == 'W' || level == 'E' || level == 'F') {
            return None;
        }
        if !check_run(&v, 1, 4, CharClass::Digit) {
            return None;
        }
        let clock = scan_run(&v, 5, CharClass::Space);
        if clock == 5 || !check_clock(&v, clock) {
            return None;
        }
        let thread = scan_run(&v, clock + 15, CharClass::Space);
        if thread == clock + 15 {
            return None;
        }
        let thread_end = scan_run(&v, thread, CharClass::Digit);
        if thread_end == thread {
            return None;
        }
        let file = scan_run(&v, thread_end, CharClass::Space);
        if file == thread_end {
            return None;
        }
        let dot = scan_run(&v, file, CharClass::Name);
        if dot == file || dot >= v.len() || v[dot] != '.' {
            return None;
        }
        let file_end = scan_run(&v, dot + 1, CharClass::Name);
        if file_end == dot + 1 || file_end >= v.len() || v[file_end] != ':' {
            return None;
        }
        let number_end = scan_run(&v, file_end + 1, CharClass::Digit);
        if number_end == file_end + 1 || v.len() - number_end < 2 || v[number_end] != ']' || v[
            number_end + 1] != ' ' {
            return None;
        }
        let message_end = scan_run(&v, number_end + 2, CharClass::NotNewline);
        proof {
            let spans = LineSpans {
                clock: clock as int,
                thread: thread as int,
                thread_end: thread_end as int,
                file: file as int,
                file_end: file_end as int,
                number_end: number_end as int,
                message_end: message_end as int,
            };
            assert(line_spans(v@) == Some(spans));
            lemma_run_end(v@, thread as int, CharClass::Digit);
            lemma_run_end(v@, file_end + 1, CharClass::Digit);
            assert(v@.subrange(1, 5).subrange(0, 2) =~= v@.subrange(1, 3));
            assert(v@.subrange(1, 5).subrange(2, 4) =~= v@.subrange(3, 5));
            assert forall|i: int| 0 <= i < 2 implies CharClass::Digit.contains(
                #[trigger] v@.subrange(1, 3)[i],
            ) by {
                assert(v@.subrange(1, 3)[i] == v@.subrange(1, 5)[i]);
            }
            assert forall|i: int| 0 <= i < 2 implies CharClass::Digit.contains(
                #[trigger] v@.subrange(3, 5)[i],
            ) by {
                assert(v@.subrange(3, 5)[i] == v@.subrange(1, 5)[i + 2]);
            }
            lemma_pow10_grows(6, 6);
        }
        let thread_id = match read_decimal(&v, thread, thread_end) {
            Some(n) => n,
            None => {
                return None;
            },
        };
        let line_number = match read_decimal(&v, file_end + 1, number_end) {
            Some(n) => n,
            None => {
                return None;
            },
        };
        if thread_id > i64::MAX as u64 || line_number > i32::MAX as u64 {
            return None;
        }
        let timestamp = TimestampWithoutYear {
            month: read_two(&v, 1),
            day: read_two(&v, 3),
            hour: read_two(&v, clock),
            minute: read_two(&v, clock + 3),
            second: read_two(&v, clock + 6),
            microsecond: read_field(&v, clock + 9, 6),
        };
        if !timestamp.is_in_bounds() {
            return None;
        }
        let message = slice_of(line, number_end + 2, message_end);
        let tablet_id = YBLogLine::parse_tablet_id(message.as_str());
        Some(
            ParsedLine {
                log_level: level,
                timestamp,
                thread_id: thread_id as i64,
                file_name: slice_of(line, file, file_end),
                line_number: line_number as i32,
                tablet_id,
                message,
            },
        )
    }

    /// The line in the given year; `None` where that year has no such day, or
    /// the day no such time.
    pub fn with_year(self, year: i32) -> (line: Option<YBLogLine>)
        ensures
            line.is_some() == resolved(self@, year).is_some(),
            line.is_some() ==> line.unwrap()@ == resolved(self@, year).unwrap(),
    {
        match self.timestamp.with_year(year) {
            Some(timestamp) => Some(
                YBLogLine {
                    log_level: self.log_level,
                    timestamp,
                    thread_id: self.thread_id,
                    file_name: self.file_name,
                    line_number: self.line_number,
                    tablet_id: self.tablet_id,
                    message: self.message,
                },
            ),
            None => None,
        }
    }
}

/// A parsed line in the given year: `None` where its date or time does not
/// exist in that year.
pub open spec fn resolved(parsed: ParsedLineView, year: i32) -> Option<YBLogLineView> {
    match parsed.timestamp.in_year(year) {
        Some(timestamp) => Some(
            YBLogLineView {
                log_level: parsed.log_level,
                timestamp,
                thread_id: parsed.thread_id,
                file_name: parsed.file_name,
                line_number: parsed.line_number,
                tablet_id: parsed.tablet_id,
                message: parsed.message,
            },
        ),
        None => None,
    }
}

/// What a line becomes in the given year: `None` where the grammar does not
/// take it, or where its date or time does not exist in that year.
pub open spec fn log_line(s: Seq<char>, year: i32) -> Option<YBLogLineView> {
    match parsed_line(s) {
        Some(parsed) => resolved(parsed, year),
        None => None,
    }
}

impl YBLogLine {
    /// Looks for a tablet id in the text of a message.
    pub fn parse_tablet_id(message: &str) -> (id: Option<u128>)
        ensures
            id == tablet_id_in(message@),
    {
        let v = chars_of(message);
        match find_tablet_id(&v) {
            Some(at) => {
                assert(at + 34 <= v.len()) by {
                    assert(tablet_id_at(v@, at as int));
                }
                let hex = message.substring_char(at + 2, at + 34);
                uuid_of_hex(hex)
            },
            None => None,
        }
    }

    /// Reads a line by the grammar and places it in the given year.
    pub fn parse(line: &str, year: i32) -> (parsed: Option<YBLogLine>)
        ensures
            parsed.is_some() == log_line(line@, year).is_some(),
            parsed.is_some() ==> parsed.unwrap()@ == log_line(line@, year).unwrap(),
    {
        match ParsedLine::parse(line) {
            Some(parsed) => parsed.with_year(year),
            None => None,
        }
    }
}

/// The fields of a line that the grammar takes, written out again, are the
/// texts that stood in the line: the severity as its letter, month, day, hour,
/// minute and second in two digits each, the microseconds in six, the source
/// file and the message as they are, and the thread id and the line number in
/// decimal digits. For these two the line must have written them without zeros
/// in front, since the numbers do not keep such zeros.
pub proof fn lemma_fields_render_as_written(s: Seq<char>)
    requires
        parsed_line(s) is Some,
        is_canonical_number(
            s.subrange(line_spans(s).unwrap().thread, line_spans(s).unwrap().thread_end),
        ),
        is_canonical_number(
            s.subrange(line_spans(s).unwrap().number(), line_spans(s).unwrap().number_end),
        ),
    ensures
        ({
            let spans = line_spans(s).unwrap();
            let line = parsed_line(s).unwrap();
            let clock = spans.clock;
            &&& seq![line.log_level] == s.subrange(0, 1)
            &&& render_padded(line.timestamp.month as nat, 2) == s.subrange(1, 3)
            &&& render_padded(line.timestamp.day as nat, 2) == s.subrange(3, 5)
            &&& render_padded(line.timestamp.hour as nat, 2) == s.subrange(clock, clock + 2)
            &&& render_padded(line.timestamp.minute as nat, 2) == s.subrange(clock + 3, clock + 5)
            &&& render_padded(line.timestamp.second as nat, 2) == s.subrange(clock + 6, clock + 8)
            &&& render_padded(line.timestamp.microsecond as nat, 6) == s.subrange(
                clock + 9,
                clock + 15,
            )
            &&& render_decimal(line.thread_id as nat) == s.subrange(spans.thread, spans.thread_end)
            &&& line.file_name == s.subrange(spans.file, spans.file_end)
            &&& render_decimal(line.line_number as nat) == s.subrange(
                spans.number(),
                spans.number_end,
            )
            &&& line.message == s.subrange(spans.message(), spans.message_end)
        }),
{
    let spans = line_spans(s).unwrap();
    let clock = spans.clock;
    assert(seq![s[0]] =~= s.subrange(0, 1));
    lemma_pow10_grows(2, 6);
    lemma_fixed_run_part(s, 1, 4, 1, 2, CharClass::Digit);
    lemma_fixed_run_part(s, 1, 4, 3, 2, CharClass::Digit);
    lemma_field_renders_as_written(s, 1, 2);
    lemma_field_renders_as_written(s, 3, 2);
    lemma_field_renders_as_written(s, clock, 2);
    lemma_field_renders_as_written(s, clock + 3, 2);
    lemma_field_renders_as_written(s, clock + 6, 2);
    lemma_field_renders_as_written(s, clock + 9, 6);
    lemma_render_decimal_of_value(s.subrange(spans.thread, spans.thread_end));
    lemma_render_decimal_of_value(s.subrange(spans.number(), spans.number_end));
}

/// A line as the log writes it: the severity, month and day in two digits
/// each, a blank, the time of day, a blank, the thread id, a blank, the source
/// file and its line number with a `:` between them, then `] ` and the message.
pub open spec fn rendered_line(
    log_level: char,
    timestamp: TimestampWithoutYear,
    thread_id: i64,
    file_name: Seq<char>,
    line_number: i32,
    message: Seq<char>,
) -> Seq<char> {
    seq![log_level] + render_padded(timestamp.month as nat, 2) + render_padded(
        timestamp.day as nat,
        2,
    ) + seq![' '] + render_padded(timestamp.hour as nat, 2) + seq![':'] + render_padded(
        timestamp.minute as nat,
        2,
    ) + seq![':'] + render_padded(timestamp.second as nat, 2) + seq!['.'] + render_padded(
        timestamp.microsecond as nat,
        6,
    ) + seq![' '] + render_signed(thread_id as int) + seq![' '] + file_name + seq![':']
        + render_signed(line_number as int) + seq![']', ' '] + message
}

impl ParsedLineView {
    /// The line as the log writes it.
    pub open spec fn rendered(self) -> Seq<char> {
        rendered_line(
            self.log_level,
            self.timestamp,
            self.thread_id,
            self.file_name,
            self.line_number,
            self.message,
        )
    }
}

impl YBLogLineView {
    /// The line as the log writes it: without its year.
    pub open spec fn rendered(self) -> Seq<char> {
        rendered_line(
            self.log_level,
            self.timestamp.without_year(),
            self.thread_id,
            self.file_name,
            self.line_number,
            self.message,
        )
    }
}

/// Writes a line as the log writes it.
fn render_line(
    log_level: char,
    timestamp: &TimestampWithoutYear,
    thread_id: i64,
    file_name: &str,
    line_number: i32,
    message: &str,
) -> (text: String)
    ensures
        text@ == rendered_line(
            log_level,
            *timestamp,
            thread_id,
            file_name@,
            line_number,
            message@,
        ),
{
    let mut text = String::new();
    text.push(log_level);
    write_padded(&mut text, timestamp.month as u64, 2);
    write_padded(&mut text, timestamp.day as u64, 2);
    text.push(' ');
    write_padded(&mut text, timestamp.hour as u64, 2);
    text.push(':');
    write_padded(&mut text, timestamp.minute as u64, 2);
    text.push(':');
    write_padded(&mut text, timestamp.second as u64, 2);
    text.push('.');
    write_padded(&mut text, timestamp.microsecond as u64, 6);
    text.push(' ');
    write_signed(&mut text, thread_id);
    text.push(' ');
    text.append(file_name);
    text.push(':');
    write_signed(&mut text, line_number as i64);
    text.push(']');
    text.push(' ');
    text.append(message);
    proof {
        assert(text@ =~= rendered_line(
            log_level,
            *timestamp,
            thread_id,
            file_name@,
            line_number,
            message@,
        ));
    }
    text
}

impl ParsedLine {
    /// The line as the log writes it.
    pub fn render(&self) -> (text: String)
        ensures
            text@ == self@.rendered(),
    {
        render_line(
            self.log_level,
            &self.timestamp,
            self.thread_id,
            self.file_name.as_str(),
            self.line_number,
            self.message.as_str(),
        )
    }
}

impl YBLogLine {
    /// The line as the log writes it: without its year.
    pub fn render(&self) -> (text: String)
        ensures
            text@ == self@.rendered(),
    {
        let timestamp = self.timestamp.drop_year();
        render_line(
            self.log_level,
            &timestamp,
            self.thread_id,
            self.file_name.as_str(),
            self.line_number,
            self.message.as_str(),
        )
    }
}

/// Whether `s` is a line in the form in which `render` writes lines: a line
/// that the grammar takes, with one blank where the grammar asks for white
/// space, its thread id and its line number without zeros in front, and nothing
/// after its message.
pub open spec fn is_canonical_line(s: Seq<char>) -> bool {
    &&& parsed_line(s) matches Some(_)
    &&& line_spans(s) matches Some(spans)
    &&& spans.clock == 6
    &&& s[5] == ' '
    &&& spans.thread == spans.clock + 16
    &&& s[spans.clock + 15] == ' '
    &&& spans.file == spans.thread_end + 1
    &&& s[spans.thread_end] == ' '
    &&& spans.message_end == s.len()
    &&& is_canonical_number(s.subrange(spans.thread, spans.thread_end))
    &&& is_canonical_number(s.subrange(spans.number(), spans.number_end))
}

/// Reading a line and writing it out again gives the line back, where the line
/// is in the form in which lines are written out.
pub proof fn lemma_canonical_line_renders_as_itself(s: Seq<char>)
    requires
        is_canonical_line(s),
    ensures
        parsed_line(s).unwrap().rendered() == s,
{
    lemma_fields_render_as_written(s);
    let spans = line_spans(s).unwrap();
    let line = parsed_line(s).unwrap();
    let clock = spans.clock;
    assert(seq![' '] =~= s.subrange(5, 6));
    assert(seq![':'] =~= s.subrange(clock + 2, clock + 3));
    assert(seq![':'] =~= s.subrange(clock + 5, clock + 6));
    assert(seq!['.'] =~= s.subrange(clock + 8, clock + 9));
    assert(seq![' '] =~= s.subrange(clock + 15, clock + 16));
    assert(seq![' '] =~= s.subrange(spans.thread_end, spans.thread_end + 1));
    assert(seq![':'] =~= s.subrange(spans.file_end, spans.file_end + 1));
    assert(seq![']', ' '] =~= s.subrange(spans.number_end, spans.number_end + 2));
    lemma_run_end(s, spans.thread, CharClass::Digit);
    lemma_run_end(s, spans.thread_end + 1, CharClass::Name);
    lemma_run_end(s, spans.number(), CharClass::Digit);
    let head = s.subrange(0, 1) + s.subrange(1, 3) + s.subrange(3, 5) + s.subrange(5, 6);
    assert(head =~= s.subrange(0, 6));
    let time = head + s.subrange(clock, clock + 2) + s.subrange(clock + 2, clock + 3) + s.subrange(
        clock + 3,
        clock + 5,
    ) + s.subrange(clock + 5, clock + 6) + s.subrange(clock + 6, clock + 8) + s.subrange(
        clock + 8,
        clock + 9,
    ) + s.subrange(clock + 9, clock + 15) + s.subrange(clock + 15, clock + 16);
    assert(time =~= s.subrange(0, spans.thread));
    let thread = time + s.subrange(spans.thread, spans.thread_end) + s.subrange(
        spans.thread_end,
        spans.thread_end + 1,
    );
    assert(thread =~= s.subrange(0, spans.file));
    let file = thread + s.subrange(spans.file, spans.file_end) + s.subrange(
        spans.file_end,
        spans.file_end + 1,
    );
    assert(file =~= s.subrange(0, spans.number()));
    let number = file + s.subrange(spans.number(), spans.number_end) + s.subrange(
        spans.number_end,
        spans.number_end + 2,
    );
    assert(number =~= s.subrange(0, spans.message()));
    assert(number + s.subrange(spans.message(), spans.message_end) =~= s);
    assert(render_signed(line.thread_id as int) == render_decimal(line.thread_id as nat));
    assert(render_signed(line.line_number as int) == render_decimal(line.line_number as nat));
    assert(line.rendered() =~= number + s.subrange(spans.message(), spans.message_end));
}

impl ParsedLineView {
    /// Whether the record is one that the grammar can give: its severity is one
    /// of the four, the numbers of its timestamp are such as a calendar and a
    /// clock show, its thread id and its line number are not negative,
    /// its source file is `name.ext`, its message holds no line feed, and its
    /// tablet id is the one that the message names.
    pub open spec fn is_writable(self) -> bool {
        let name = self.file_name;
        let dot = run_end(name, 0, CharClass::Name);
        &&& is_severity(self.log_level)
        &&& self.timestamp.in_bounds()
        &&& self.thread_id >= 0
        &&& self.line_number >= 0
        &&& 0 < dot
        &&& dot + 1 < name.len()
        &&& name[dot] == '.'
        &&& run_end(name, dot + 1, CharClass::Name) == name.len()
        &&& all_in(self.message, CharClass::NotNewline)
        &&& self.tablet_id == tablet_id_in(self.message)
    }
}

/// Writing a record out and reading the line gives the record back, where the
/// record is one that the grammar can give; and the line is then in the form in
/// which lines are written out.
pub proof fn lemma_written_line_reads_as_itself(line: ParsedLineView)
    requires
        line.is_writable(),
    ensures
        parsed_line(line.rendered()) == Some(line),
        is_canonical_line(line.rendered()),
{
    let s = line.rendered();
    let t = line.timestamp;
    let month = render_padded(t.month as nat, 2);
    let day = render_padded(t.day as nat, 2);
    let hour = render_padded(t.hour as nat, 2);
    let minute = render_padded(t.minute as nat, 2);
    let second = render_padded(t.second as nat, 2);
    let micro = render_padded(t.microsecond as nat, 6);
    let thread = render_decimal(line.thread_id as nat);
    let name = line.file_name;
    let number = render_decimal(line.line_number as nat);
    let message = line.message;
    lemma_pow10_grows(2, 6);
    lemma_value_of_render_padded(t.month as nat, 2);
    lemma_value_of_render_padded(t.day as nat, 2);
    lemma_value_of_render_padded(t.hour as nat, 2);
    lemma_value_of_render_padded(t.minute as nat, 2);
    lemma_value_of_render_padded(t.second as nat, 2);
    lemma_value_of_render_padded(t.microsecond as nat, 6);
    lemma_value_of_render_decimal(line.thread_id as nat);
    lemma_value_of_render_decimal(line.line_number as nat);
    assert(render_signed(line.thread_id as int) == thread);
    assert(render_signed(line.line_number as int) == number);

    let a = thread.len() as int;
    let b = name.len() as int;
    let c = number.len() as int;
    let head = seq![line.log_level] + month + day + seq![' '];
    let clock = head + hour + seq![':'] + minute + seq![':'] + second + seq!['.'] + micro + seq![
        ' ',
    ];
    let upto_file = clock + thread + seq![' '];
    let upto_number = upto_file + name + seq![':'];
    let upto_message = upto_number + number + seq![']', ' '];
    assert(s =~= upto_message + message);
    assert(head.len() == 6);
    assert(clock.len() == 22);
    assert(upto_file.len() == 23 + a);
    assert(upto_number.len() == 24 + a + b);
    assert(upto_message.len() == 26 + a + b + c);
    assert(s.len() == 26 + a + b + c + message.len());

    assert(s[0] == line.log_level);
    assert(s.subrange(1, 3) =~= month);
    assert(s.subrange(3, 5) =~= day);
    assert(s[5] == ' ');
    assert(s.subrange(6, 8) =~= hour);
    assert(s[8] == ':');
    assert(s.subrange(9, 11) =~= minute);
    assert(s[11] == ':');
    assert(s.subrange(12, 14) =~= second);
    assert(s[14] == '.');
    assert(s.subrange(15, 21) =~= micro);
    assert(s[21] == ' ');
    assert(s.subrange(22, 22 + a) =~= thread);
    assert(s[22 + a] == ' ');
    assert(s.subrange(23 + a, 23 + a + b) =~= name);
    assert(s[23 + a + b] == ':');
    assert(s.subrange(24 + a + b, 24 + a + b + c) =~= number);
    assert(s[24 + a + b + c] == ']');
    assert(s[25 + a + b + c] == ' ');
    assert(s.subrange(26 + a + b + c, s.len() as int) =~= message);

    // The month and the day together are four digits.
    assert forall|i: int| 0 <= i < 4 implies CharClass::Digit.contains(
        #[trigger] s.subrange(1, 5)[i],
    ) by {
        if i < 2 {
            assert(s.subrange(1, 5)[i] == month[i]);
        } else {
            assert(s.subrange(1, 5)[i] == day[i - 2]);
        }
    }
    // Each run ends where the next part begins.
    assert(s.subrange(5, 6) =~= seq![' ']);
    assert(s[6] == hour[0]);
    assert(CharClass::Digit.contains(hour[0]));
    lemma_run_end_unique(s, 5, 6, CharClass::Space);
    assert(s.subrange(21, 22) =~= seq![' ']);
    assert(s[22] == thread[0]);
    assert(CharClass::Digit.contains(thread[0]));
    lemma_run_end_unique(s, 21, 22, CharClass::Space);
    lemma_run_end_unique(s, 22, 22 + a, CharClass::Digit);
    assert(s.subrange(22 + a, 23 + a) =~= seq![' ']);
    let dot = run_end(name, 0, CharClass::Name);
    lemma_run_end(name, 0, CharClass::Name);
    lemma_run_end(name, dot + 1, CharClass::Name);
    assert(name.subrange(0, dot)[0] == name[0]);
    assert(CharClass::Name.contains(name.subrange(0, dot)[0]));
    assert(s[23 + a] == name[0]);
    lemma_run_end_unique(s, 22 + a, 23 + a, CharClass::Space);
    assert(s.subrange(23 + a, 23 + a + dot) =~= name.subrange(0, dot));
    assert(s[23 + a + dot] == name[dot]);
    lemma_run_end_unique(s, 23 + a, 23 + a + dot, CharClass::Name);
    assert(s.subrange(24 + a + dot, 23 + a + b) =~= name.subrange(dot + 1, b));
    lemma_run_end_unique(s, 24 + a + dot, 23 + a + b, CharClass::Name);
    lemma_run_end_unique(s, 24 + a + b, 24 + a + b + c, CharClass::Digit);
    lemma_run_end_unique(s, 26 + a + b + c, s.len() as int, CharClass::NotNewline);

    let spans = LineSpans {
        clock: 6,
        thread: 22,
        thread_end: 22 + a,
        file: 23 + a,
        file_end: 23 + a + b,
        number_end: 24 + a + b + c,
        message_end: s.len() as int,
    };
    assert(clock_at(s, 6));
    assert(line_spans(s) == Some(spans));
    assert(timestamp_at(s, 6) == t);
    assert(parsed_line(s) == Some(line));
}

/// Every record that the grammar gives is one that can be written out.
pub proof fn lemma_parsed_line_is_writable(s: Seq<char>)
    requires
        parsed_line(s) is Some,
    ensures
        parsed_line(s).unwrap().is_writable(),
{
    let spans = line_spans(s).unwrap();
    let line = parsed_line(s).unwrap();
    let clock = spans.clock;
    lemma_pow10_grows(2, 6);
    lemma_fixed_run_part(s, 1, 4, 1, 2, CharClass::Digit);
    lemma_fixed_run_part(s, 1, 4, 3, 2, CharClass::Digit);
    lemma_field_renders_as_written(s, 1, 2);
    lemma_field_renders_as_written(s, 3, 2);
    lemma_field_renders_as_written(s, clock, 2);
    lemma_field_renders_as_written(s, clock + 3, 2);
    lemma_field_renders_as_written(s, clock + 6, 2);
    lemma_field_renders_as_written(s, clock + 9, 6);
    let name = line.file_name;
    let dot = run_end(s, spans.file, CharClass::Name);
    lemma_run_end(s, spans.file, CharClass::Name);
    lemma_run_end(s, dot + 1, CharClass::Name);
    lemma_run_end(s, spans.message(), CharClass::NotNewline);
    assert(name.subrange(0, dot - spans.file) =~= s.subrange(spans.file, dot));
    assert(name[dot - spans.file] == s[dot]);
    lemma_run_end_unique(name, 0, dot - spans.file, CharClass::Name);
    assert(name.subrange(dot + 1 - spans.file, name.len() as int) =~= s.subrange(
        dot + 1,
        spans.file_end,
    ));
    lemma_run_end_unique(name, dot + 1 - spans.file, name.len() as int, CharClass::Name);
}

} // verus!
