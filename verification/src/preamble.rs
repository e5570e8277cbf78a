//! The preamble of a log file: the lines at its start that tell when the file
//! was created, on which machine, and by which build.
//!
//! Example:
//!
//! ```text
//! Log file created at: 2021/04/08 14:44:23
//! Running on machine: node-7
//! Application fingerprint: version 2.4.1.1 build 4 revision 1b7bb2fc build_type RELEASE built at 30 Mar 2021 16:14:23 UTC
//! ```
//!
//! Each of the three grammars takes a whole line: it is anchored at both ends.

use crate::text::{
    chars_of, check_run, decimal_value, fixed_run, lemma_run_end, matches_at, occurs_at,
    read_decimal, read_two, run_end, scan_run, slice_of, text_of, two_digits, CharClass,
};
use crate::timestamp::{moment, Timestamp};
use vstd::prelude::*;

verus! {

/// How many lines at the start of a file are searched for the preamble.
pub const PREAMBLE_NUM_LINES: usize = 10;

/// What begins the line that tells when the file was created.
pub open spec fn created_at_prefix() -> Seq<char> {
    "Log file created at: "@
}

/// What begins the line that names the machine.
pub open spec fn running_on_machine_prefix() -> Seq<char> {
    "Running on machine: "@
}

/// What begins the line that describes the build.
pub open spec fn application_fingerprint_prefix() -> Seq<char> {
    "Application fingerprint: "@
}

/// Whether `hh:mm:ss` stands at `at`.
pub open spec fn seconds_clock_at(s: Seq<char>, at: int) -> bool {
    &&& 0 <= at
    &&& at + 8 <= s.len()
    &&& fixed_run(s, at, 2, CharClass::Digit)
    &&& s[at + 2] == ':'
    &&& fixed_run(s, at + 3, 2, CharClass::Digit)
    &&& s[at + 5] == ':'
    &&& fixed_run(s, at + 6, 2, CharClass::Digit)
}

/// Whether `/mm/dd` stands at `at`.
pub open spec fn month_and_day_at(s: Seq<char>, at: int) -> bool {
    &&& 0 <= at
    &&& at + 6 <= s.len()
    &&& s[at] == '/'
    &&& fixed_run(s, at + 1, 2, CharClass::Digit)
    &&& s[at + 3] == '/'
    &&& fixed_run(s, at + 4, 2, CharClass::Digit)
}

/// When the file was created, where `s` is the line that tells it:
/// `Log file created at: yyyy/mm/dd hh:mm:ss`, the year in four digits or more,
/// the blank a run of white space, and nothing after the seconds. `None` also
/// where the date or the time does not exist.
pub open spec fn created_at(s: Seq<char>) -> Option<Timestamp> {
    let start = created_at_prefix().len() as int;
    let year_end = run_end(s, start, CharClass::Digit);
    let clock = run_end(s, year_end + 6, CharClass::Space);
    let year = decimal_value(s.subrange(start, year_end));
    if occurs_at(s, 0, created_at_prefix()) && year_end - start >= 4 && month_and_day_at(
        s,
        year_end,
    ) && clock > year_end + 6 && clock + 8 == s.len() && seconds_clock_at(s, clock) && year
        <= i32::MAX {
        moment(
            year as i32,
            two_digits(s, year_end + 1),
            two_digits(s, year_end + 4),
            two_digits(s, clock),
            two_digits(s, clock + 3),
            two_digits(s, clock + 6),
            0,
        )
    } else {
        None
    }
}

/// The rest of `s` after `prefix`, where `s` begins with `prefix` and holds no
/// line feed after it.
pub open spec fn rest_of_line(s: Seq<char>, prefix: Seq<char>) -> Option<Seq<char>> {
    if occurs_at(s, 0, prefix) && run_end(s, prefix.len() as int, CharClass::NotNewline)
        == s.len() {
        Some(s.subrange(prefix.len() as int, s.len() as int))
    } else {
        None
    }
}

/// The machine that `s` names, where `s` is `Running on machine: ` and a name.
pub open spec fn running_on_machine(s: Seq<char>) -> Option<Seq<char>> {
    rest_of_line(s, running_on_machine_prefix())
}

/// The description of a build, as a mathematical value.
pub struct ApplicationFingerprintView {
    pub version: Seq<char>,
    pub build_number: u64,
    pub revision: Seq<char>,
    pub build_type: Seq<char>,
    pub built_at: Seq<char>,
}

/// The description of the build that wrote a log file.
#[derive(Clone, Debug, PartialEq, Eq)]
pub struct ApplicationFingerprint {
    /// Digits and dots, such as `2.4.1.1`.
    pub version: String,
    pub build_number: u64,
    /// The revision of the sources, in lower-case hexadecimal digits.
    pub revision: String,
    /// Letters, such as `RELEASE`.
    pub build_type: String,
    /// When the build was made, as the file words it.
    pub built_at: String,
}

impl View for ApplicationFingerprint {
    type V = ApplicationFingerprintView;

    open spec fn view(&self) -> ApplicationFingerprintView {
        ApplicationFingerprintView {
            version: self.version@,
            build_number: self.build_number,
            revision: self.revision@,
            build_type: self.build_type@,
            built_at: self.built_at@,
        }
    }
}

/// Where the parts of a build description stand.
pub struct FingerprintSpans {
    /// Where the version begins.
    pub version: int,
    /// Where the version ends.
    pub version_end: int,
    /// Where the build number begins.
    pub build: int,
    /// Where the build number ends.
    pub build_end: int,
    /// Where the revision begins.
    pub revision: int,
    /// Where the revision ends.
    pub revision_end: int,
    /// Where the build type begins.
    pub build_type: int,
    /// Where the build type ends.
    pub build_type_end: int,
    /// Where the time of the build begins.
    pub built_at: int,
}

/// The places of the parts of `s`, where `s` has the shape
/// `version V build N revision R build_type T built at W`, with one blank
/// between the words.
pub open spec fn fingerprint_spans(s: Seq<char>) -> Option<FingerprintSpans> {
    let version = "version "@.len() as int;
    let version_end = run_end(s, version, CharClass::Version);
    let build = version_end + " build "@.len();
    let build_end = run_end(s, build, CharClass::Digit);
    let revision = build_end + " revision "@.len();
    let revision_end = run_end(s, revision, CharClass::LowerHex);
    let build_type = revision_end + " build_type "@.len();
    let build_type_end = run_end(s, build_type, CharClass::Letter);
    let built_at = build_type_end + " built at "@.len();
    if occurs_at(s, 0, "version "@) && version_end > version && occurs_at(
        s,
        version_end,
        " build "@,
    ) && build_end > build && occurs_at(s, build_end, " revision "@) && revision_end > revision
        && occurs_at(s, revision_end, " build_type "@) && build_type_end > build_type && occurs_at(
        s,
        build_type_end,
        " built at "@,
    ) {
        Some(
            FingerprintSpans {
                version,
                version_end,
                build,
                build_end,
                revision,
                revision_end,
                build_type,
                build_type_end,
                built_at,
            },
        )
    } else {
        None
    }
}

/// The build that `s` describes: `None` where `s` has not the shape of a
/// description, or where its build number does not fit in 64 bits. The time of
/// the build ends at the first line feed, or at the end of the text.
pub open spec fn fingerprint_details(s: Seq<char>) -> Option<ApplicationFingerprintView> {
    match fingerprint_spans(s) {
        None => None,
        Some(spans) => {
            let build_number = decimal_value(s.subrange(spans.build, spans.build_end));
            if build_number <= u64::MAX {
                Some(
                    ApplicationFingerprintView {
                        version: s.subrange(spans.version, spans.version_end),
                        build_number: build_number as u64,
                        revision: s.subrange(spans.revision, spans.revision_end),
                        build_type: s.subrange(spans.build_type, spans.build_type_end),
                        built_at: s.subrange(
                            spans.built_at,
                            run_end(s, spans.built_at, CharClass::NotNewline),
                        ),
                    },
                )
            } else {
                None
            }
        },
    }
}

/// The build that `s` describes, where `s` is `Application fingerprint: ` and a
/// description.
pub open spec fn application_fingerprint(s: Seq<char>) -> Option<ApplicationFingerprintView> {
    match rest_of_line(s, application_fingerprint_prefix()) {
        Some(rest) => fingerprint_details(rest),
        None => None,
    }
}

/// Reads the line that tells when the file was created.
pub fn parse_created_at(line: &str) -> (created: Option<Timestamp>)
    ensures
        created == created_at(line@),
{
    let v = chars_of(line);
    let prefix = chars_of("Log file created at: ");
    if !matches_at(&v, 0, &prefix) {
        return None;
    }
    let start = prefix.len();
    let year_end = scan_run(&v, start, CharClass::Digit);
    if year_end - start < 4 || v.len() - year_end < 6 {
        return None;
    }
    if v[year_end] != '/' || !check_run(&v, year_end + 1, 2, CharClass::Digit) || v[year_end + 3]
        != '/' || !check_run(&v, year_end + 4, 2, CharClass::Digit) {
        return None;
    }
    let clock = scan_run(&v, year_end + 6, CharClass::Space);
    if clock == year_end + 6 || v.len() - clock != 8 {
        return None;
    }
    if !check_run(&v, clock, 2, CharClass::Digit) || v[clock + 2] != ':' || !check_run(
        &v,
        clock + 3,
        2,
        CharClass::Digit,
    ) || v[clock + 5] != ':' || !check_run(&v, clock + 6, 2, CharClass::Digit) {
        return None;
    }
    proof {
        lemma_run_end(v@, start as int, CharClass::Digit);
    }
    let year = match read_decimal(&v, start, year_end) {
        Some(year) => year,
        None => {
            return None;
        },
    };
    if year > i32::MAX as u64 {
        return None;
    }
    Timestamp::new(
        year as i32,
        read_two(&v, year_end + 1),
        read_two(&v, year_end + 4),
        read_two(&v, clock),
        read_two(&v, clock + 3),
        read_two(&v, clock + 6),
        0,
    )
}

/// Reads the rest of a line that begins with `prefix`.
fn parse_rest_of_line(line: &str, prefix: &str) -> (rest: Option<String>)
    ensures
        text_of(rest) == rest_of_line(line@, prefix@),
{
    let v = chars_of(line);
    let p = chars_of(prefix);
    if !matches_at(&v, 0, &p) {
        return None;
    }
    if scan_run(&v, p.len(), CharClass::NotNewline) != v.len() {
        return None;
    }
    Some(slice_of(line, p.len(), v.len()))
}

/// Reads the line that names the machine.
pub fn parse_running_on_machine(line: &str) -> (machine: Option<String>)
    ensures
        text_of(machine) == running_on_machine(line@),
{
    parse_rest_of_line(line, "Running on machine: ")
}

/// The description of a build that may be missing, as a mathematical value.
pub open spec fn fingerprint_of(f: Option<ApplicationFingerprint>) -> Option<
    ApplicationFingerprintView,
> {
    match f {
        Some(f) => Some(f@),
        None => None,
    }
}

/// Steps over `word` at `at`; `None` where it does not stand there.
fn skip_word(v: &Vec<char>, at: usize, word: &str) -> (after: Option<usize>)
    requires
        at <= v.len(),
    ensures
        after.is_some() == occurs_at(v@, at as int, word@),
        after.is_some() ==> after.unwrap() == at + word@.len() && after.unwrap() <= v.len(),
{
    let w = chars_of(word);
    if matches_at(v, at, &w) {
        Some(at + w.len())
    } else {
        None
    }
}

/// Reads the description of a build.
pub fn parse_fingerprint_details(text: &str) -> (details: Option<ApplicationFingerprint>)
    ensures
        fingerprint_of(details) == fingerprint_details(text@),
{
    let v = chars_of(text);
    let version = match skip_word(&v, 0, "version ") {
        Some(at) => at,
        None => {
            return None;
        },
    };
    let version_end = scan_run(&v, version, CharClass::Version);
    if version_end == version {
        return None;
    }
    let build = match skip_word(&v, version_end, " build ") {
        Some(at) => at,
        None => {
            return None;
        },
    };
    let build_end = scan_run(&v, build, CharClass::Digit);
    if build_end == build {
        return None;
    }
    let revision = match skip_word(&v, build_end, " revision ") {
        Some(at) => at,
        None => {
            return None;
        },
    };
    let revision_end = scan_run(&v, revision, CharClass::LowerHex);
    if revision_end == revision {
        return None;
    }
    let build_type = match skip_word(&v, revision_end, " build_type ") {
        Some(at) => at,
        None => {
            return None;
        },
    };
    let build_type_end = scan_run(&v, build_type, CharClass::Letter);
    if build_type_end == build_type {
        return None;
    }
    let built_at = match skip_word(&v, build_type_end, " built at ") {
        Some(at) => at,
        None => {
            return None;
        },
    };
    let built_at_end = scan_run(&v, built_at, CharClass::NotNewline);
    proof {
        lemma_run_end(v@, build as int, CharClass::Digit);
    }
    let build_number = match read_decimal(&v, build, build_end) {
        Some(n) => n,
        None => {
            return None;
        },
    };
    Some(
        ApplicationFingerprint {
            version: slice_of(text, version, version_end),
            build_number,
            revision: slice_of(text, revision, revision_end),
            build_type: slice_of(text, build_type, build_type_end),
            built_at: slice_of(text, built_at, built_at_end),
        },
    )
}

/// Reads the line that describes the build.
pub fn parse_application_fingerprint(line: &str) -> (fingerprint: Option<ApplicationFingerprint>)
    ensures
        fingerprint_of(fingerprint) == application_fingerprint(line@),
{
    match parse_rest_of_line(line, "Application fingerprint: ") {
        Some(rest) => parse_fingerprint_details(rest.as_str()),
        None => None,
    }
}

/// What the preamble of a file has told so far.
#[derive(Clone, Debug, PartialEq, Eq)]
pub struct YBLogFilePreamble {
    pub created_at: Option<Timestamp>,
    pub running_on_machine: Option<String>,
    pub application_fingerprint: Option<ApplicationFingerprint>,
}

/// A `YBLogFilePreamble` as a mathematical value.
pub struct YBLogFilePreambleView {
    pub created_at: Option<Timestamp>,
    pub running_on_machine: Option<Seq<char>>,
    pub application_fingerprint: Option<ApplicationFingerprintView>,
}

impl View for YBLogFilePreamble {
    type V = YBLogFilePreambleView;

    open spec fn view(&self) -> YBLogFilePreambleView {
        YBLogFilePreambleView {
            created_at: self.created_at,
            running_on_machine: text_of(self.running_on_machine),
            application_fingerprint: fingerprint_of(self.application_fingerprint),
        }
    }
}

impl YBLogFilePreambleView {
    /// The preamble after one more line of the file's start: each of the three
    /// grammars that takes the line sets its field, and the others stay.
    pub open spec fn with_line(self, line: Seq<char>) -> YBLogFilePreambleView {
        YBLogFilePreambleView {
            created_at: if created_at(line) is Some {
                created_at(line)
            } else {
                self.created_at
            },
            running_on_machine: if running_on_machine(line) is Some {
                running_on_machine(line)
            } else {
                self.running_on_machine
            },
            application_fingerprint: if application_fingerprint(line) is Some {
                application_fingerprint(line)
            } else {
                self.application_fingerprint
            },
        }
    }

    /// The preamble that nothing has been told to.
    pub open spec fn empty() -> YBLogFilePreambleView {
        YBLogFilePreambleView {
            created_at: None,
            running_on_machine: None,
            application_fingerprint: None,
        }
    }
}

impl YBLogFilePreamble {
    /// The preamble of a file of which no line has been read.
    pub fn new() -> (preamble: YBLogFilePreamble)
        ensures
            preamble@ == YBLogFilePreambleView::empty(),
    {
        YBLogFilePreamble {
            created_at: None,
            running_on_machine: None,
            application_fingerprint: None,
        }
    }

    /// A copy of the preamble.
    pub fn copy(&self) -> (copy: YBLogFilePreamble)
        ensures
            copy@ == self@,
    {
        YBLogFilePreamble {
            created_at: self.created_at,
            running_on_machine: match &self.running_on_machine {
                Some(machine) => Some(machine.clone()),
                None => None,
            },
            application_fingerprint: match &self.application_fingerprint {
                Some(fingerprint) => Some(
                    ApplicationFingerprint {
                        version: fingerprint.version.clone(),
                        build_number: fingerprint.build_number,
                        revision: fingerprint.revision.clone(),
                        build_type: fingerprint.build_type.clone(),
                        built_at: fingerprint.built_at.clone(),
                    },
                ),
                None => None,
            },
        }
    }

    /// Takes in one more line of the file's start, and tells when the file was
    /// created where this line tells it.
    pub fn read_line(&mut self, line: &str) -> (created: Option<Timestamp>)
        ensures
            final(self)@ == old(self)@.with_line(line@),
            created == created_at(line@),
    {
        let created = parse_created_at(line);
        match created {
            Some(created) => {
                self.created_at = Some(created);
            },
            None => {},
        }
        match parse_running_on_machine(line) {
            Some(machine) => {
                self.running_on_machine = Some(machine);
            },
            None => {},
        }
        match parse_application_fingerprint(line) {
            Some(fingerprint) => {
                self.application_fingerprint = Some(fingerprint);
            },
            None => {},
        }
        created
    }
}

} // verus!
