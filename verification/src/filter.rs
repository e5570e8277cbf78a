//! What a run looks for: the range of time, the year of files that name none,
//! the text that a line must hold, and the pattern for the names of the files.

use crate::preamble::seconds_clock_at;
use crate::text::{
    all_in, chars_of, check_run, decimal_value, fixed_run, lemma_pow10_grows, read_decimal,
    read_field, read_two, run_end, scan_run, slice_of, text_of, two_digits, CharClass,
};
use crate::timestamp::{moment, Timestamp};
use regex::Regex;
use vstd::prelude::*;
use vstd::string::StringExecFns;

verus! {

/// What the `regex` crate makes of a pattern and a text: `None` where it does not
/// take the pattern, else whether the pattern matches anywhere in the text.
pub uninterp spec fn regex_match(pattern: Seq<char>, text: Seq<char>) -> Option<bool>;

/// `Regex::new` compiles the pattern, with the crate's own limits, and
/// `Regex::is_match` searches the text for it. Both go by the pattern and the
/// text alone.
#[verifier::external_body]
fn regex_is_match(pattern: &str, text: &str) -> (found: Option<bool>)
    ensures
        found == regex_match(pattern@, text@),
{
    match Regex::new(pattern) {
        Ok(regex) => Some(regex.is_match(text)),
        Err(_) => None,
    }
}

/// `s` without the white space at its end.
pub open spec fn trim_end(s: Seq<char>) -> Seq<char>
    decreases s.len(),
{
    if s.len() > 0 && CharClass::Space.contains(s.last()) {
        trim_end(s.drop_last())
    } else {
        s
    }
}

/// `s` without the white space at its start and at its end.
pub open spec fn trimmed(s: Seq<char>) -> Seq<char> {
    trim_end(s.subrange(run_end(s, 0, CharClass::Space), s.len() as int))
}

/// Takes the white space off both ends of `s`.
pub fn trim(s: &str) -> (t: String)
    ensures
        t@ == trimmed(s@),
{
    let v = chars_of(s);
    let start = scan_run(&v, 0, CharClass::Space);
    let mut end: usize = v.len();
    while end > start && CharClass::Space.has(v[end - 1])
        invariant
            start <= end <= v.len(),
            trimmed(v@) == trim_end(v@.subrange(start as int, end as int)),
        decreases end,
    {
        proof {
            let part = v@.subrange(start as int, end as int);
            assert(part.last() == v@[end - 1]);
            assert(part.drop_last() =~= v@.subrange(start as int, end - 1));
        }
        end -= 1;
    }
    proof {
        let part = v@.subrange(start as int, end as int);
        if end > start {
            assert(part.last() == v@[end - 1]);
        }
    }
    slice_of(s, start, end)
}

/// Whether `yyyy-mm-dd` begins `s`.
pub open spec fn begins_with_date(s: Seq<char>) -> bool {
    &&& s.len() >= 10
    &&& fixed_run(s, 0, 4, CharClass::Digit)
    &&& s[4] == '-'
    &&& fixed_run(s, 5, 2, CharClass::Digit)
    &&& s[7] == '-'
    &&& fixed_run(s, 8, 2, CharClass::Digit)
}

/// The bound that `s` writes: `yyyy-mm-dd`, which stands for its midnight, or
/// `yyyy-mm-dd hh:mm:ss` with one blank or one `T` between date and time. `None`
/// where `s` is neither, or names a day or a time that does not exist.
pub open spec fn filter_timestamp(s: Seq<char>) -> Option<Timestamp> {
    let year = decimal_value(s.subrange(0, 4)) as i32;
    if !begins_with_date(s) {
        None
    } else if s.len() == 10 {
        moment(year, two_digits(s, 5), two_digits(s, 8), 0, 0, 0, 0)
    } else if s.len() == 19 && (s[10] == ' ' || s[10] == 'T') && seconds_clock_at(s, 11) {
        moment(
            year,
            two_digits(s, 5),
            two_digits(s, 8),
            two_digits(s, 11),
            two_digits(s, 14),
            two_digits(s, 17),
            0,
        )
    } else {
        None
    }
}

/// What is said of a text that writes no bound.
pub open spec fn filter_timestamp_error(text: Seq<char>) -> Seq<char> {
    "Could not parse timestamp '"@ + text
        + "': expected YYYY-MM-DD or YYYY-MM-DD[ tT]HH:MM:SS format"@
}

/// Reads a bound of the range of time from what the user wrote; white space
/// around it does not count.
pub fn parse_filter_timestamp(s_raw: &str) -> (bound: Result<Timestamp, String>)
    ensures
        match bound {
            Ok(t) => filter_timestamp(trimmed(s_raw@)) == Some(t),
            Err(message) => filter_timestamp(trimmed(s_raw@)) is None && message@
                == filter_timestamp_error(trimmed(s_raw@)),
        },
{
    let text = trim(s_raw);
    match read_filter_timestamp(text.as_str()) {
        Some(t) => Ok(t),
        None => {
            let mut message = String::from_str("Could not parse timestamp '");
            message.append(text.as_str());
            message.append("': expected YYYY-MM-DD or YYYY-MM-DD[ tT]HH:MM:SS format");
            Err(message)
        },
    }
}

/// Reads a bound from a text that has no white space around it.
fn read_filter_timestamp(s: &str) -> (bound: Option<Timestamp>)
    ensures
        bound == filter_timestamp(s@),
{
    let v = chars_of(s);
    if v.len() < 10 {
        return None;
    }
    if !check_run(&v, 0, 4, CharClass::Digit) || v[4] != '-' || !check_run(
        &v,
        5,
        2,
        CharClass::Digit,
    ) || v[7] != '-' || !check_run(&v, 8, 2, CharClass::Digit) {
        return None;
    }
    proof {
        lemma_pow10_grows(4, 4);
    }
    let year = read_field(&v, 0, 4) as i32;
    let month = read_two(&v, 5);
    let day = read_two(&v, 8);
    if v.len() == 10 {
        Timestamp::midnight(year, month, day)
    } else if v.len() == 19 && (v[10] == ' ' || v[10] == 'T') && check_run(
        &v,
        11,
        2,
        CharClass::Digit,
    ) && v[13] == ':' && check_run(&v, 14, 2, CharClass::Digit) && v[16] == ':' && check_run(
        &v,
        17,
        2,
        CharClass::Digit,
    ) {
        Timestamp::new(year, month, day, read_two(&v, 11), read_two(&v, 14), read_two(&v, 17), 0)
    } else {
        None
    }
}

/// Tells whether `v` writes a bound of the range of time; if not, why not.
pub fn timestamp_validator(v: String) -> (verdict: Result<(), String>)
    ensures
        match verdict {
            Ok(_) => filter_timestamp(trimmed(v@)) is Some,
            Err(message) => filter_timestamp(trimmed(v@)) is None && message@
                == filter_timestamp_error(trimmed(v@)),
        },
{
    match parse_filter_timestamp(v.as_str()) {
        Ok(_) => Ok(()),
        Err(s) => Err(s),
    }
}

/// Where the base name of a path begins: after its last `/`.
pub open spec fn base_name_start(path: Seq<char>) -> int
    decreases path.len(),
{
    if path.len() == 0 || path.last() == '/' {
        path.len() as int
    } else {
        base_name_start(path.drop_last())
    }
}

/// The base name of a path: what follows its last `/`, or all of it.
pub open spec fn base_name_of(path: Seq<char>) -> Seq<char> {
    path.subrange(base_name_start(path), path.len() as int)
}

/// The base name of a path.
pub fn base_name(path: &str) -> (name: String)
    ensures
        name@ == base_name_of(path@),
{
    let v = chars_of(path);
    let mut start: usize = v.len();
    proof {
        assert(v@.take(v.len() as int) =~= v@);
    }
    while start > 0 && v[start - 1] != '/'
        invariant
            start <= v.len(),
            base_name_start(v@) == base_name_start(v@.take(start as int)),
        decreases start,
    {
        proof {
            let head = v@.take(start as int);
            assert(head.last() == v@[start - 1]);
            assert(head.drop_last() =~= v@.take(start - 1));
        }
        start -= 1;
    }
    proof {
        let head = v@.take(start as int);
        if start > 0 {
            assert(head.last() == v@[start - 1]);
        }
        assert(v@.take(v.len() as int) =~= v@);
    }
    slice_of(path, start, v.len())
}

/// A copy of a text that may be missing.
pub fn copy_of_text(text: &Option<String>) -> (copy: Option<String>)
    ensures
        text_of(copy) == text_of(*text),
{
    match text {
        Some(text) => Some(text.clone()),
        None => None,
    }
}

/// What a run looks for. It is made once and then only read, by every scan.
#[derive(Clone, Debug, PartialEq, Eq)]
pub struct YBLogReaderContext {
    /// Lines before this moment are passed over.
    pub lowest_timestamp: Option<Timestamp>,
    /// Lines after this moment are passed over.
    pub highest_timestamp: Option<Timestamp>,
    /// The year of the lines of a file whose preamble names none. A scan needs
    /// it.
    pub default_year: Option<i32>,
    /// Only files whose base name this pattern matches are read.
    pub name_regex: Option<String>,
    /// Only lines that hold this text are read.
    pub line_contains: Option<String>,
}

/// A `YBLogReaderContext` as a mathematical value.
pub struct YBLogReaderContextView {
    pub lowest_timestamp: Option<Timestamp>,
    pub highest_timestamp: Option<Timestamp>,
    pub default_year: Option<i32>,
    pub name_regex: Option<Seq<char>>,
    pub line_contains: Option<Seq<char>>,
}

impl View for YBLogReaderContext {
    type V = YBLogReaderContextView;

    open spec fn view(&self) -> YBLogReaderContextView {
        YBLogReaderContextView {
            lowest_timestamp: self.lowest_timestamp,
            highest_timestamp: self.highest_timestamp,
            default_year: self.default_year,
            name_regex: text_of(self.name_regex),
            line_contains: text_of(self.line_contains),
        }
    }
}

impl YBLogReaderContextView {
    /// Whether `t` lies in the range of time; a bound that is not set bounds
    /// nothing, and one that is set belongs to the range.
    pub open spec fn in_range(self, t: Timestamp) -> bool {
        &&& self.lowest_timestamp matches Some(lowest) ==> lowest.ordinal() <= t.ordinal()
        &&& self.highest_timestamp matches Some(highest) ==> t.ordinal() <= highest.ordinal()
    }

    /// Whether `t` lies after the range of time.
    pub open spec fn is_past(self, t: Timestamp) -> bool {
        self.highest_timestamp matches Some(highest) && t.ordinal() > highest.ordinal()
    }

    /// Whether a file is read: with no pattern every file is, and with one
    /// those whose base name it matches. `None` where the `regex` crate does
    /// not take the pattern.
    pub open spec fn admits_file(self, path: Seq<char>) -> Option<bool> {
        match self.name_regex {
            Some(pattern) => regex_match(pattern, base_name_of(path)),
            None => Some(true),
        }
    }
}

impl YBLogReaderContext {
    /// The search that passes over nothing and knows no year.
    pub fn new() -> (context: YBLogReaderContext)
        ensures
            context@ == (YBLogReaderContextView {
                lowest_timestamp: None,
                highest_timestamp: None,
                default_year: None,
                name_regex: None,
                line_contains: None,
            }),
    {
        YBLogReaderContext {
            lowest_timestamp: None,
            highest_timestamp: None,
            default_year: None,
            name_regex: None,
            line_contains: None,
        }
    }

    /// A copy of the search.
    pub fn copy(&self) -> (copy: YBLogReaderContext)
        ensures
            copy@ == self@,
    {
        YBLogReaderContext {
            lowest_timestamp: self.lowest_timestamp,
            highest_timestamp: self.highest_timestamp,
            default_year: self.default_year,
            name_regex: copy_of_text(&self.name_regex),
            line_contains: copy_of_text(&self.line_contains),
        }
    }

    /// Whether `t` lies in the range of time.
    pub fn in_range(&self, t: &Timestamp) -> (b: bool)
        ensures
            b == self@.in_range(*t),
    {
        let late_enough = match &self.lowest_timestamp {
            Some(lowest) => !t.is_before(lowest),
            None => true,
        };
        let early_enough = match &self.highest_timestamp {
            Some(highest) => !t.is_after(highest),
            None => true,
        };
        late_enough && early_enough
    }

    /// Whether `t` lies after the range of time.
    pub fn is_past(&self, t: &Timestamp) -> (b: bool)
        ensures
            b == self@.is_past(*t),
    {
        match &self.highest_timestamp {
            Some(highest) => t.is_after(highest),
            None => false,
        }
    }

    /// Whether the file at `path` is read.
    pub fn admits_file(&self, path: &str) -> (verdict: Option<bool>)
        ensures
            verdict == self@.admits_file(path@),
    {
        match &self.name_regex {
            Some(pattern) => {
                let name = base_name(path);
                regex_is_match(pattern.as_str(), name.as_str())
            },
            None => Some(true),
        }
    }
}

/// The texts of a list of strings.
pub open spec fn texts(v: Seq<String>) -> Seq<Seq<char>> {
    v.map_values(|s: String| s@)
}

/// What `select_files` keeps, given what was made of each path: a path stays
/// where the verdict on it is `Some(true)`.
pub open spec fn kept(paths: Seq<Seq<char>>, verdicts: Seq<Option<bool>>) -> Seq<Seq<char>>
    decreases paths.len(),
{
    if paths.len() == 0 || verdicts.len() != paths.len() {
        Seq::empty()
    } else {
        let before = kept(paths.drop_last(), verdicts.drop_last());
        if verdicts.last() == Some(true) {
            before.push(paths.last())
        } else {
            before
        }
    }
}

/// The paths on which the verdict is `Some(true)`, in their order; `None`
/// where a verdict is missing, which is where the pattern was not taken, and
/// where there are not as many verdicts as paths.
pub fn keep_admitted(paths: &Vec<String>, verdicts: &Vec<Option<bool>>) -> (selected: Option<
    Vec<String>,
>)
    ensures
        selected.is_some() == (paths.len() == verdicts.len() && forall|i: int|
            0 <= i < verdicts.len() ==> verdicts[i] is Some),
        selected.is_some() ==> texts(selected.unwrap()@) == kept(texts(paths@), verdicts@),
{
    if paths.len() != verdicts.len() {
        return None;
    }
    let mut selected: Vec<String> = Vec::new();
    let mut i: usize = 0;
    while i < paths.len()
        invariant
            i <= paths.len() == verdicts.len(),
            forall|k: int| 0 <= k < i ==> verdicts[k] is Some,
            texts(selected@) == kept(texts(paths@).take(i as int), verdicts@.take(i as int)),
        decreases paths.len() - i,
    {
        proof {
            let p = texts(paths@).take(i + 1);
            let q = verdicts@.take(i + 1);
            assert(p.drop_last() =~= texts(paths@).take(i as int));
            assert(q.drop_last() =~= verdicts@.take(i as int));
            assert(p.last() == paths@[i as int]@);
            assert(q.last() == verdicts@[i as int]);
        }
        match verdicts[i] {
            None => {
                return None;
            },
            Some(true) => {
                let ghost before = selected@;
                selected.push(paths[i].clone());
                proof {
                    assert(texts(selected@) =~= texts(before).push(paths@[i as int]@));
                }
            },
            Some(false) => {},
        }
        i += 1;
    }
    proof {
        assert(texts(paths@).take(i as int) =~= texts(paths@));
        assert(verdicts@.take(i as int) =~= verdicts@);
    }
    Some(selected)
}

/// The verdicts of the context on each of the paths.
pub open spec fn verdicts_on(context: YBLogReaderContextView, paths: Seq<Seq<char>>) -> Seq<
    Option<bool>,
> {
    paths.map_values(|path: Seq<char>| context.admits_file(path))
}

/// The files that are read, of those found: with no pattern all of them, and
/// with one those whose base name it matches, in their order. `None` where the
/// `regex` crate does not take the pattern for one of the names.
pub fn select_files(context: &YBLogReaderContext, paths: &Vec<String>) -> (selected: Option<
    Vec<String>,
>)
    ensures
        selected.is_some() == (forall|i: int|
            0 <= i < paths.len() ==> context@.admits_file(#[trigger] paths[i]@) is Some),
        selected.is_some() ==> texts(selected.unwrap()@) == kept(
            texts(paths@),
            verdicts_on(context@, texts(paths@)),
        ),
{
    let mut verdicts: Vec<Option<bool>> = Vec::new();
    let mut i: usize = 0;
    while i < paths.len()
        invariant
            i <= paths.len(),
            verdicts@ == verdicts_on(context@, texts(paths@)).take(i as int),
        decreases paths.len() - i,
    {
        let verdict = context.admits_file(paths[i].as_str());
        verdicts.push(verdict);
        proof {
            assert(verdicts@ =~= verdicts_on(context@, texts(paths@)).take(i + 1));
        }
        i += 1;
    }
    proof {
        assert(verdicts@ =~= verdicts_on(context@, texts(paths@)));
        assert forall|i: int| 0 <= i < paths.len() implies verdicts@[i] == context@.admits_file(
            #[trigger] paths[i]@,
        ) by {
            assert(texts(paths@)[i] == paths[i]@);
        }
    }
    keep_admitted(paths, &verdicts)
}

/// The year that `s` writes: decimal digits, after a `+` or a `-` or after
/// nothing, for a number that fits in 32 bits. `None` for anything else.
pub open spec fn year_of_text(s: Seq<char>) -> Option<i32> {
    let signed = s.len() > 0 && (s[0] == '+' || s[0] == '-');
    let digits = if signed {
        s.subrange(1, s.len() as int)
    } else {
        s
    };
    let value = if s.len() > 0 && s[0] == '-' {
        -(decimal_value(digits) as int)
    } else {
        decimal_value(digits) as int
    };
    if digits.len() > 0 && all_in(digits, CharClass::Digit) && i32::MIN <= value <= i32::MAX {
        Some(value as i32)
    } else {
        None
    }
}

/// Reads a year from what the user wrote.
pub fn parse_year(text: &str) -> (year: Option<i32>)
    ensures
        year == year_of_text(text@),
{
    let v = chars_of(text);
    if v.len() == 0 {
        return None;
    }
    let negative = v[0] == '-';
    let start: usize = if negative || v[0] == '+' {
        1
    } else {
        0
    };
    proof {
        assert(v@.subrange(0, v.len() as int) =~= v@);
    }
    if start == v.len() || !check_run(&v, start, v.len() - start, CharClass::Digit) {
        return None;
    }
    match read_decimal(&v, start, v.len()) {
        None => None,
        Some(magnitude) => {
            if negative {
                if magnitude <= 2147483648 {
                    Some((-(magnitude as i64)) as i32)
                } else {
                    None
                }
            } else if magnitude <= 2147483647 {
                Some(magnitude as i32)
            } else {
                None
            }
        },
    }
}

/// Why the arguments of a run describe no search.
#[derive(Clone, Debug, PartialEq, Eq)]
pub enum ConfigError {
    /// The lower bound of the range of time is none; the text says why.
    LowestTimestamp(String),
    /// The upper bound of the range of time is none; the text says why.
    HighestTimestamp(String),
    /// The year is none: this is what was given for it.
    DefaultYear(String),
    /// The `regex` crate does not take the pattern for the names of the files:
    /// this is the pattern.
    NameRegex(String),
}

/// A `ConfigError` as a mathematical value.
pub enum ConfigErrorView {
    LowestTimestamp(Seq<char>),
    HighestTimestamp(Seq<char>),
    DefaultYear(Seq<char>),
    NameRegex(Seq<char>),
}

impl View for ConfigError {
    type V = ConfigErrorView;

    open spec fn view(&self) -> ConfigErrorView {
        match self {
            ConfigError::LowestTimestamp(message) => ConfigErrorView::LowestTimestamp(message@),
            ConfigError::HighestTimestamp(message) => ConfigErrorView::HighestTimestamp(message@),
            ConfigError::DefaultYear(text) => ConfigErrorView::DefaultYear(text@),
            ConfigError::NameRegex(pattern) => ConfigErrorView::NameRegex(pattern@),
        }
    }
}

/// The bound that a text writes which may be missing: no bound where no text
/// is given, and `Err` where the text writes none.
pub open spec fn bound_of(text: Option<Seq<char>>) -> Result<Option<Timestamp>, Seq<char>> {
    match text {
        None => Ok(None),
        Some(text) => match filter_timestamp(trimmed(text)) {
            Some(bound) => Ok(Some(bound)),
            None => Err(filter_timestamp_error(trimmed(text))),
        },
    }
}

/// The search that the arguments of a run describe. The first argument that
/// describes nothing decides the error: the lower bound, the upper bound, the
/// year, the pattern, in this order.
pub open spec fn search_of(
    lowest: Option<Seq<char>>,
    highest: Option<Seq<char>>,
    default_year: Seq<char>,
    name_regex: Option<Seq<char>>,
    line_contains: Option<Seq<char>>,
) -> Result<YBLogReaderContextView, ConfigErrorView> {
    match (bound_of(lowest), bound_of(highest), year_of_text(default_year)) {
        (Err(message), _, _) => Err(ConfigErrorView::LowestTimestamp(message)),
        (Ok(_), Err(message), _) => Err(ConfigErrorView::HighestTimestamp(message)),
        (Ok(_), Ok(_), None) => Err(ConfigErrorView::DefaultYear(default_year)),
        (Ok(lowest_timestamp), Ok(highest_timestamp), Some(year)) => {
            if name_regex is Some && regex_match(name_regex.unwrap(), Seq::empty()) is None {
                Err(ConfigErrorView::NameRegex(name_regex.unwrap()))
            } else {
                Ok(
                    YBLogReaderContextView {
                        lowest_timestamp,
                        highest_timestamp,
                        default_year: Some(year),
                        name_regex,
                        line_contains,
                    },
                )
            }
        },
    }
}

/// The text of a string slice that may be missing.
pub open spec fn slice_text(s: Option<&str>) -> Option<Seq<char>> {
    match s {
        Some(s) => Some(s@),
        None => None,
    }
}

/// A search, or the reason why there is none, as a mathematical value.
pub open spec fn search_view(search: Result<YBLogReaderContext, ConfigError>) -> Result<
    YBLogReaderContextView,
    ConfigErrorView,
> {
    match search {
        Ok(context) => Ok(context@),
        Err(error) => Err(error@),
    }
}

/// Reads a bound that may be missing.
fn parse_bound(text: Option<&str>) -> (bound: Result<Option<Timestamp>, String>)
    ensures
        match bound {
            Ok(bound) => bound_of(slice_text(text)) == Ok::<_, Seq<char>>(bound),
            Err(message) => bound_of(slice_text(text)) == Err::<Option<Timestamp>, _>(message@),
        },
{
    match text {
        None => Ok(None),
        Some(text) => match parse_filter_timestamp(text) {
            Ok(bound) => Ok(Some(bound)),
            Err(message) => Err(message),
        },
    }
}

/// An owned copy of a string slice that may be missing.
fn owned(text: Option<&str>) -> (copy: Option<String>)
    ensures
        text_of(copy) == slice_text(text),
{
    match text {
        Some(text) => Some(text.to_owned()),
        None => None,
    }
}

impl YBLogReaderContext {
    /// The search that the arguments of a run describe, each argument as the
    /// user wrote it.
    pub fn from_arguments(
        lowest: Option<&str>,
        highest: Option<&str>,
        default_year: &str,
        name_regex: Option<&str>,
        line_contains: Option<&str>,
    ) -> (search: Result<YBLogReaderContext, ConfigError>)
        ensures
            search_view(search) == search_of(
                slice_text(lowest),
                slice_text(highest),
                default_year@,
                slice_text(name_regex),
                slice_text(line_contains),
            ),
    {
        let lowest_timestamp = match parse_bound(lowest) {
            Ok(bound) => bound,
            Err(message) => {
                return Err(ConfigError::LowestTimestamp(message));
            },
        };
        let highest_timestamp = match parse_bound(highest) {
            Ok(bound) => bound,
            Err(message) => {
                return Err(ConfigError::HighestTimestamp(message));
            },
        };
        let year = match parse_year(default_year) {
            Some(year) => year,
            None => {
                return Err(ConfigError::DefaultYear(default_year.to_owned()));
            },
        };
        proof {
            reveal_strlit("");
            assert(""@ =~= Seq::<char>::empty());
        }
        match name_regex {
            Some(pattern) => {
                if regex_is_match(pattern, "").is_none() {
                    return Err(ConfigError::NameRegex(pattern.to_owned()));
                }
            },
            None => {},
        }
        Ok(
            YBLogReaderContext {
                lowest_timestamp,
                highest_timestamp,
                default_year: Some(year),
                name_regex: owned(name_regex),
                line_contains: owned(line_contains),
            },
        )
    }
}

} // verus!
