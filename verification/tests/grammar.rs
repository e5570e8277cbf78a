use regex::Regex;
use yblp::logline::{ParsedLine, YBLogLine};
use yblp::text::parse_capture;
use yblp::timestamp::{Timestamp, TimestampWithoutYear};

const LINE_PATTERN: &str = r"^([IWEF])(\d{2})(\d{2})\s+(\d{2}):(\d{2}):(\d{2})[.]([0-9]{6})\s+([0-9]+)\s+([0-9a-zA-Z_-]+[.][0-9a-zA-Z_-]+):(\d+)\] (.*)";

const TABLET_PATTERN: &str = r"T ([0-9a-f]{32})\b";

fn sample_lines() -> Vec<&'static str> {
    vec![
        "I0408 10:34:43.355123 12345 server.cc:42] starting up",
        "W0101 00:00:00.000000 1 a.b:1] ",
        "E1231 23:59:59.999999 007 tablet_peer.cc:0012] T 0123456789abcdef0123456789abcdef x",
        "F0229 12:00:00.000001 9223372036854775807 x.y:2147483647] max values",
        "F0229 12:00:00.000001 9223372036854775808 x.y:1] thread id too large",
        "F0229 12:00:00.000001 1 x.y:2147483648] line number too large",
        "I0408\t \t10:34:43.355123\t12345 \tserver.cc:42] tabs and blanks",
        "I0408\u{a0}10:34:43.355123\u{2003}12345\u{3000}server.cc:42] wide blanks",
        "I0408 10:34:43.355123 12345 server.cc:42]no blank after bracket",
        "I0408 10:34:43.355123 12345 server.cc:42] two\nlines",
        "I0408 10:34:43.355123 12345 server.cc:42] ",
        "I0408 10:34:43.355123 12345 server.cc:42]",
        "I0408 10:34:43.35512 12345 server.cc:42] five digits of microseconds",
        "I0408 10:34:43.3551234 12345 server.cc:42] seven digits of microseconds",
        "I048 10:34:43.355123 12345 server.cc:42] three digits of date",
        "I04089 10:34:43.355123 12345 server.cc:42] five digits of date",
        "I040810:34:43.355123 12345 server.cc:42] no blank after date",
        "I0408 10:34:43,355123 12345 server.cc:42] comma",
        "I0408 10-34-43.355123 12345 server.cc:42] dashes",
        "I0408 10:34:43.355123 12a45 server.cc:42] thread id with a letter",
        "I0408 10:34:43.355123 server.cc:42] no thread id",
        "I0408 10:34:43.355123 12345 server:42] no extension",
        "I0408 10:34:43.355123 12345 server.cc.h:42] two dots",
        "I0408 10:34:43.355123 12345 .cc:42] no name",
        "I0408 10:34:43.355123 12345 server.:42] empty extension",
        "I0408 10:34:43.355123 12345 server.cc:] no line number",
        "I0408 10:34:43.355123 12345 server.cc:4x2] bad line number",
        "I0408 10:34:43.355123 12345 server.cc 42] no colon",
        "I0408 10:34:43.355123 12345 ser ver.cc:42] blank in name",
        "X0408 10:34:43.355123 12345 server.cc:42] unknown severity",
        "i0408 10:34:43.355123 12345 server.cc:42] lower-case severity",
        " I0408 10:34:43.355123 12345 server.cc:42] leading blank",
        "I9999 99:99:99.999999 1 a.b:1] no such date",
        "not a log line at all",
        "",
        "I",
        "I0408",
        "I0408 ",
        "I0408 10:34:43.355123",
        "I0408 10:34:43.355123 ",
        "I0408 10:34:43.355123 1",
        "I0408 10:34:43.355123 1 ",
        "I0408 10:34:43.355123 1 a.b",
        "I0408 10:34:43.355123 1 a.b:",
        "I0408 10:34:43.355123 1 a.b:1",
        "I0408 10:34:43.355123 1 a.b:1]",
        "I0408 10:34:43.355123 1 a.b:1] ",
        "I0408 10:34:43.355123 1 a.b:1] T 0123456789abcdef0123456789abcdef",
        "I0408 10:34:43.355123 1 a.b:1] T 0123456789abcdef0123456789abcdefg",
        "I0408 10:34:43.355123 1 a.b:1] T 0123456789abcdef0123456789abcdef0",
        "I0408 10:34:43.355123 1 a.b:1] T 0123456789abcdef0123456789abcdef_",
        "I0408 10:34:43.355123 1 a.b:1] T 0123456789abcdef0123456789abcdef.",
        "I0408 10:34:43.355123 1 a.b:1] T 0123456789abcdef0123456789abcdef\u{e9}",
        "I0408 10:34:43.355123 1 a.b:1] T 0123456789abcdef0123456789abcdef\u{2014}",
        "I0408 10:34:43.355123 1 a.b:1] T 0123456789ABCDEF0123456789abcdef",
        "I0408 10:34:43.355123 1 a.b:1] T  0123456789abcdef0123456789abcdef",
        "I0408 10:34:43.355123 1 a.b:1] XT 0123456789abcdef0123456789abcdef]",
        "I0408 10:34:43.355123 1 a.b:1] T 0123456789abcdef0123456789abcde T ffffffffffffffffffffffffffffffff",
        "I0408 10:34:43.355123 1 a.b:1] T 0123456789abcdef0123456789abcdef0 T 00000000000000000000000000000001 ",
        "I0408 10:34:43.355123 1 a.b:1] T T 00000000000000000000000000000001",
    ]
}

fn field<T: std::str::FromStr>(captures: &regex::Captures, index: usize) -> Option<T> {
    captures.get(index).unwrap().as_str().parse::<T>().ok()
}

/// What the pattern and the standard number parsers make of a line, where the
/// numbers of its timestamp are such as a calendar and a clock show.
fn by_pattern(line: &str) -> Option<ParsedLine> {
    let pattern = Regex::new(LINE_PATTERN).unwrap();
    let tablet = Regex::new(TABLET_PATTERN).unwrap();
    by_patterns(&pattern, &tablet, line)
}

fn by_patterns(pattern: &Regex, tablet: &Regex, line: &str) -> Option<ParsedLine> {
    let captures = pattern.captures(line)?;
    let message = captures.get(11).unwrap().as_str();
    let timestamp = TimestampWithoutYear {
        month: field(&captures, 2)?,
        day: field(&captures, 3)?,
        hour: field(&captures, 4)?,
        minute: field(&captures, 5)?,
        second: field(&captures, 6)?,
        microsecond: field(&captures, 7)?,
    };
    if !timestamp.is_in_bounds() {
        return None;
    }
    Some(ParsedLine {
        log_level: field(&captures, 1)?,
        timestamp,
        thread_id: field(&captures, 8)?,
        file_name: String::from(captures.get(9).unwrap().as_str()),
        line_number: field(&captures, 10)?,
        tablet_id: tablet.captures(message).map(|c| {
            uuid::Uuid::parse_str(c.get(1).unwrap().as_str()).unwrap().as_u128()
        }),
        message: String::from(message),
    })
}

#[test]
fn grammar_agrees_with_the_pattern() {
    for line in sample_lines() {
        assert_eq!(ParsedLine::parse(line), by_pattern(line), "line {:?}", line);
    }
}

#[test]
fn tablet_id_agrees_with_the_pattern() {
    let tablet = Regex::new(TABLET_PATTERN).unwrap();
    for line in sample_lines() {
        let expected = tablet
            .captures(line)
            .map(|c| u128::from_str_radix(c.get(1).unwrap().as_str(), 16).unwrap());
        assert_eq!(YBLogLine::parse_tablet_id(line), expected, "text {:?}", line);
    }
}

#[test]
fn parses_the_example_line() {
    let line = YBLogLine::parse("I0408 10:34:43.355123 12345 server.cc:42] starting up", 2021)
        .expect("the line matches the grammar");
    assert_eq!(line.log_level, 'I');
    assert_eq!(
        line.timestamp,
        Timestamp {
            year: 2021,
            month: 4,
            day: 8,
            hour: 10,
            minute: 34,
            second: 43,
            microsecond: 355123
        }
    );
    assert_eq!(line.thread_id, 12345);
    assert_eq!(line.file_name, "server.cc");
    assert_eq!(line.line_number, 42);
    assert_eq!(line.message, "starting up");
    assert_eq!(line.tablet_id, None);
}

#[test]
fn extracts_the_tablet_id() {
    let line = YBLogLine::parse(
        "I0408 10:34:43.355123 12345 server.cc:42] T 0123456789abcdef0123456789abcdef replicating",
        2021,
    )
    .expect("the line matches the grammar");
    assert_eq!(line.tablet_id, Some(0x0123456789abcdef0123456789abcdef_u128));
    assert_eq!(
        line.tablet_id,
        Some(uuid::Uuid::parse_str("0123456789abcdef0123456789abcdef").unwrap().as_u128())
    );
    assert_eq!(line.message, "T 0123456789abcdef0123456789abcdef replicating");
}

#[test]
fn tablet_id_is_not_its_own_text() {
    // The identifier is the number that the digits write, not the digits.
    assert_eq!(
        YBLogLine::parse_tablet_id("T 000000000000000000000000000000ff"),
        Some(255)
    );
    assert_eq!(
        YBLogLine::parse_tablet_id("T ffffffffffffffffffffffffffffffff"),
        Some(u128::MAX)
    );
    assert_eq!(
        YBLogLine::parse_tablet_id("T 10000000000000000000000000000000"),
        Some(1u128 << 124)
    );
}

#[test]
fn tablet_id_needs_the_end_of_a_word() {
    let id = "0123456789abcdef0123456789abcdef";
    assert_eq!(YBLogLine::parse_tablet_id(&format!("T {}", id)), Some(0x0123456789abcdef0123456789abcdef));
    assert_eq!(YBLogLine::parse_tablet_id(&format!("T {} ", id)), Some(0x0123456789abcdef0123456789abcdef));
    assert_eq!(YBLogLine::parse_tablet_id(&format!("T {}]", id)), Some(0x0123456789abcdef0123456789abcdef));
    assert_eq!(YBLogLine::parse_tablet_id(&format!("T {}z", id)), None);
    assert_eq!(YBLogLine::parse_tablet_id(&format!("T {}0", id)), None);
    assert_eq!(YBLogLine::parse_tablet_id(&format!("T {}_", id)), None);
    assert_eq!(YBLogLine::parse_tablet_id(&format!("T {}\u{e9}", id)), None);
    assert_eq!(YBLogLine::parse_tablet_id("T 0123"), None);
    assert_eq!(YBLogLine::parse_tablet_id(""), None);
}

#[test]
fn first_tablet_id_wins() {
    assert_eq!(
        YBLogLine::parse_tablet_id(
            "a T 00000000000000000000000000000001 b T 00000000000000000000000000000002"
        ),
        Some(1)
    );
    assert_eq!(
        YBLogLine::parse_tablet_id(
            "a T 00000000000000000000000000000001x b T 00000000000000000000000000000002"
        ),
        Some(2)
    );
}

#[test]
fn malformed_line_is_no_match() {
    assert_eq!(YBLogLine::parse("not a log line at all", 2021), None);
    assert_eq!(ParsedLine::parse("not a log line at all"), None);
}

#[test]
fn grammar_keeps_the_year_out() {
    let parsed = ParsedLine::parse("W1231 23:59:59.000001 7 a-b_c.h:1] x").unwrap();
    assert_eq!(
        parsed.timestamp,
        TimestampWithoutYear {
            month: 12,
            day: 31,
            hour: 23,
            minute: 59,
            second: 59,
            microsecond: 1
        }
    );
    assert_eq!(parsed.log_level, 'W');
    assert_eq!(parsed.file_name, "a-b_c.h");
    assert_eq!(parsed.thread_id, 7);
    assert_eq!(parsed.line_number, 1);
    assert_eq!(parsed.message, "x");
}

#[test]
fn all_four_severities_are_taken() {
    for level in ['I', 'W', 'E', 'F'] {
        let line = format!("{}0408 10:34:43.355123 1 a.b:1] m", level);
        assert_eq!(ParsedLine::parse(&line).map(|p| p.log_level), Some(level));
    }
    for level in ['D', 'T', 'i', '0', ' '] {
        let line = format!("{}0408 10:34:43.355123 1 a.b:1] m", level);
        assert_eq!(ParsedLine::parse(&line), None);
    }
}

#[test]
fn message_ends_at_the_line_feed() {
    let parsed = ParsedLine::parse("I0408 10:34:43.355123 1 a.b:1] first\nsecond").unwrap();
    assert_eq!(parsed.message, "first");
    let parsed = ParsedLine::parse("I0408 10:34:43.355123 1 a.b:1] \n").unwrap();
    assert_eq!(parsed.message, "");
}

#[test]
fn tablet_id_is_looked_for_in_the_message_only() {
    let parsed = ParsedLine::parse(
        "I0408 10:34:43.355123 1 a.b:1] first\nT 0123456789abcdef0123456789abcdef",
    )
    .unwrap();
    assert_eq!(parsed.tablet_id, None);
}

#[test]
fn numbers_that_do_not_fit_are_no_match() {
    assert!(ParsedLine::parse("I0408 10:34:43.355123 9223372036854775807 a.b:1] m").is_some());
    assert_eq!(ParsedLine::parse("I0408 10:34:43.355123 9223372036854775808 a.b:1] m"), None);
    assert_eq!(
        ParsedLine::parse("I0408 10:34:43.355123 99999999999999999999999999 a.b:1] m"),
        None
    );
    assert!(ParsedLine::parse("I0408 10:34:43.355123 1 a.b:2147483647] m").is_some());
    assert_eq!(ParsedLine::parse("I0408 10:34:43.355123 1 a.b:2147483648] m"), None);
    assert_eq!(
        ParsedLine::parse("I0408 10:34:43.355123 000000000000000000000000000000007 a.b:0009] m")
            .map(|p| (p.thread_id, p.line_number)),
        Some((7, 9))
    );
}

#[test]
fn a_date_that_does_not_exist_is_no_line() {
    // The grammar takes the digits; the calendar does not take the date.
    assert!(ParsedLine::parse("I0230 10:34:43.355123 1 a.b:1] m").is_some());
    assert_eq!(YBLogLine::parse("I0230 10:34:43.355123 1 a.b:1] m", 2021), None);
    assert!(ParsedLine::parse("I0431 10:34:43.355123 1 a.b:1] m").is_some());
    assert_eq!(YBLogLine::parse("I0431 10:34:43.355123 1 a.b:1] m", 2021), None);
    assert_eq!(YBLogLine::parse("I1301 10:34:43.355123 1 a.b:1] m", 2021), None);
    assert_eq!(YBLogLine::parse("I0100 10:34:43.355123 1 a.b:1] m", 2021), None);
    assert_eq!(YBLogLine::parse("I0101 24:00:00.000000 1 a.b:1] m", 2021), None);
    assert_eq!(YBLogLine::parse("I0101 23:60:00.000000 1 a.b:1] m", 2021), None);
    assert_eq!(YBLogLine::parse("I0101 23:59:60.000000 1 a.b:1] m", 2021), None);
    assert!(YBLogLine::parse("I0229 10:34:43.355123 1 a.b:1] m", 2020).is_some());
    assert_eq!(YBLogLine::parse("I0229 10:34:43.355123 1 a.b:1] m", 2021), None);
    assert_eq!(YBLogLine::parse("I0229 10:34:43.355123 1 a.b:1] m", 1900), None);
    assert!(YBLogLine::parse("I0229 10:34:43.355123 1 a.b:1] m", 2000).is_some());
}

#[test]
fn fields_written_out_again_are_the_text_of_the_line() {
    let text = "E0102 03:04:05.000607 8910 cache.cc:1112] evicted T 000102030405060708090a0b0c0d0e0f";
    let line = ParsedLine::parse(text).unwrap();
    let again = format!(
        "{}{:02}{:02} {:02}:{:02}:{:02}.{:06} {} {}:{}] {}",
        line.log_level,
        line.timestamp.month,
        line.timestamp.day,
        line.timestamp.hour,
        line.timestamp.minute,
        line.timestamp.second,
        line.timestamp.microsecond,
        line.thread_id,
        line.file_name,
        line.line_number,
        line.message
    );
    assert_eq!(again, text);
    assert_eq!(line.render(), text);
    assert_eq!(YBLogLine::parse(text, 2021).unwrap().render(), text);
}

#[test]
fn a_line_in_the_written_form_renders_as_itself() {
    for text in [
        "I0408 10:34:43.355123 12345 server.cc:42] starting up",
        "W0101 00:00:00.000000 0 a.b:0] ",
        "F1231 23:59:59.999999 9223372036854775807 x-y_z.Q9:2147483647] ] ] :: ",
        "E0231 23:59:59.999999 1 a.b:1] no such date, but a line of the grammar",
    ] {
        assert_eq!(ParsedLine::parse(text).unwrap().render(), text);
    }
}

#[test]
fn rendering_settles_blanks_and_zeros() {
    let line = ParsedLine::parse("I0408\t 10:34:43.355123   007\u{a0}a.b:0012] m\nrest").unwrap();
    assert_eq!(line.render(), "I0408 10:34:43.355123 7 a.b:12] m");
    assert_eq!(ParsedLine::parse(&line.render()), Some(line));
}

#[test]
fn rendering_writes_any_record() {
    let line = ParsedLine {
        log_level: 'x',
        timestamp: TimestampWithoutYear {
            month: 255,
            day: 0,
            hour: 7,
            minute: 100,
            second: 5,
            microsecond: 4_000_000_123,
        },
        thread_id: i64::MIN,
        file_name: String::from("f"),
        line_number: -12,
        tablet_id: None,
        message: String::new(),
    };
    assert_eq!(line.render(), "x5500 07:00:05.000123 -9223372036854775808 f:-12] ");
}

#[test]
fn parse_capture_reads_decimal_numbers() {
    assert_eq!(parse_capture("0"), Some(0));
    assert_eq!(parse_capture("42"), Some(42));
    assert_eq!(parse_capture("0042"), Some(42));
    assert_eq!(parse_capture("18446744073709551615"), Some(u64::MAX));
    assert_eq!(parse_capture("18446744073709551616"), None);
    assert_eq!(parse_capture("00000000000000000000000000000000000000000000000000000000000000000000001"), Some(1));
    assert_eq!(parse_capture(""), None);
    assert_eq!(parse_capture("+1"), Some(1));
    assert_eq!(parse_capture("+"), None);
    assert_eq!(parse_capture("++1"), None);
    assert_eq!(parse_capture("-1"), None);
    assert_eq!(parse_capture("-0"), None);
    assert_eq!(parse_capture("1 "), None);
    assert_eq!(parse_capture("12a"), None);
    assert_eq!(parse_capture("\u{661}\u{662}"), None);
}

#[test]
fn what_is_read_can_be_written_and_read_again() {
    for line in sample_lines() {
        if let Some(parsed) = ParsedLine::parse(line) {
            let written = parsed.render();
            assert_eq!(ParsedLine::parse(&written), Some(parsed.clone()), "{:?}", line);
            assert_eq!(ParsedLine::parse(&written).unwrap().render(), written);
        }
    }
}

#[test]
fn numbers_that_no_calendar_or_clock_shows_are_no_match() {
    let line = |date: &str, clock: &str| format!("I{} {}.000000 1 a.b:1] m", date, clock);
    assert!(ParsedLine::parse(&line("0101", "00:00:00")).is_some());
    assert!(ParsedLine::parse(&line("1231", "23:59:59")).is_some());
    for (date, clock) in [
        ("0001", "00:00:00"),
        ("1301", "00:00:00"),
        ("9901", "00:00:00"),
        ("0100", "00:00:00"),
        ("0132", "00:00:00"),
        ("0199", "00:00:00"),
        ("0101", "24:00:00"),
        ("0101", "99:00:00"),
        ("0101", "00:60:00"),
        ("0101", "00:99:00"),
        ("0101", "00:00:60"),
        ("0101", "00:00:99"),
    ] {
        assert_eq!(ParsedLine::parse(&line(date, clock)), None, "{} {}", date, clock);
    }
}

#[test]
fn bounds_of_a_year_less_timestamp() {
    let sound = TimestampWithoutYear {
        month: 2,
        day: 31,
        hour: 23,
        minute: 59,
        second: 59,
        microsecond: 999_999,
    };
    assert!(sound.is_in_bounds());
    assert!(!TimestampWithoutYear { month: 0, ..sound }.is_in_bounds());
    assert!(!TimestampWithoutYear { month: 13, ..sound }.is_in_bounds());
    assert!(!TimestampWithoutYear { day: 0, ..sound }.is_in_bounds());
    assert!(!TimestampWithoutYear { day: 32, ..sound }.is_in_bounds());
    assert!(!TimestampWithoutYear { hour: 24, ..sound }.is_in_bounds());
    assert!(!TimestampWithoutYear { minute: 60, ..sound }.is_in_bounds());
    assert!(!TimestampWithoutYear { second: 60, ..sound }.is_in_bounds());
    assert!(!TimestampWithoutYear { microsecond: 1_000_000, ..sound }.is_in_bounds());
}

/// A small generator of numbers, the same on every run.
struct Numbers(u64);

impl Numbers {
    fn next(&mut self, below: usize) -> usize {
        self.0 = self.0.wrapping_mul(6364136223846793005).wrapping_add(1442695040888963407);
        ((self.0 >> 33) as usize) % below
    }
}

#[test]
fn grammar_agrees_with_the_pattern_on_damaged_lines() {
    let pattern = Regex::new(LINE_PATTERN).unwrap();
    let tablet = Regex::new(TABLET_PATTERN).unwrap();
    let seeds: Vec<Vec<char>> = [
        "I0408 10:34:43.355123 12345 server.cc:42] starting up",
        "W1231 23:59:59.999999 7 a-b_c.h:1] T 0123456789abcdef0123456789abcdef done",
        "E0102 03:04:05.000607 8910 cache.cc:1112] x\ny",
    ]
    .iter()
    .map(|l| l.chars().collect())
    .collect();
    let alphabet: Vec<char> = "0123456789 \t\n\r:.]_-IWEFTa".chars().chain(['\u{a0}', '\u{e9}']).collect();
    let mut numbers = Numbers(20210408);
    let mut matched = 0;
    for round in 0..6000 {
        let mut line = seeds[round % seeds.len()].clone();
        for _ in 0..1 + numbers.next(3) {
            let at = numbers.next(line.len() + 1);
            let c = alphabet[numbers.next(alphabet.len())];
            match numbers.next(3) {
                0 => line.insert(at, c),
                1 if at < line.len() => {
                    line.remove(at);
                }
                _ if at < line.len() => line[at] = c,
                _ => line.push(c),
            }
        }
        let text: String = line.iter().collect();
        let expected = by_patterns(&pattern, &tablet, &text);
        if expected.is_some() {
            matched += 1;
        }
        assert_eq!(ParsedLine::parse(&text), expected, "line {:?}", text);
    }
    assert!(matched > 500 && matched < 5500, "{} lines matched", matched);
}

#[test]
fn parse_capture_reads_what_the_standard_library_reads() {
    for text in [
        "", "0", "+0", "-0", "7", "+7", "-7", "007", "+007", "+", "-", "++7", "+-7", "7+", " 7",
        "7 ", "1_000", "0x10", "1e3", "18446744073709551615", "+18446744073709551615",
        "18446744073709551616", "000000000000000000000000018446744073709551615",
        "99999999999999999999", "\u{661}", "12\u{a0}",
    ] {
        assert_eq!(parse_capture(text), text.parse::<u64>().ok(), "{:?}", text);
    }
}
