//! The scan of one log file.
//!
//! A scan is fed the lines of its file one by one. It keeps the first lines back
//! until it has seen the whole start of the file, where the preamble may tell
//! the year; then it places every line in that year, passes over what the search
//! does not ask for, and hands on the rest. It stops for good when the preamble
//! dates the file after the range of time, and when a line is earlier than one
//! before it.
//!
//! What a scan makes of a file is `scan_file`; the scan itself is `YBLogReader`.

use crate::collector::{OutputRecord, OutputRecordView};
use crate::filter::{texts, YBLogReaderContext, YBLogReaderContextView};
use crate::logline::{log_line, YBLogLine};
use crate::preamble::{created_at, YBLogFilePreamble, YBLogFilePreambleView, PREAMBLE_NUM_LINES};
use crate::text::{contains_text, line_contains};
use crate::timestamp::Timestamp;
use vstd::prelude::*;

verus! {

/// Where a scan stands.
#[derive(Clone, Copy, Debug, PartialEq, Eq, Structural)]
pub enum ScanState {
    /// The file is not open yet.
    Opening,
    /// The first lines are being read, and kept back.
    ScanningPreambleWindow,
    /// The year is known, and every line is dealt with as it comes.
    ScanningBody,
    /// The file was read to its end.
    Done,
    /// The scan was given up; `ScanError` tells why.
    Failed,
    /// The preamble dates the file after the range of time.
    SkippedByPreambleDate,
}

/// Why a scan was given up.
#[derive(Clone, Debug, PartialEq, Eq)]
pub enum ScanError {
    /// The file could not be opened or read; the text says what happened.
    Io(String),
    /// The compressed data of the file could not be unpacked; the text says
    /// what happened.
    Decompression(String),
    /// The line of this number is earlier than a line before it.
    OrderingViolation(u64),
}

/// A `ScanError` as a mathematical value.
pub enum ScanErrorView {
    Io(Seq<char>),
    Decompression(Seq<char>),
    OrderingViolation(u64),
}

impl View for ScanError {
    type V = ScanErrorView;

    open spec fn view(&self) -> ScanErrorView {
        match self {
            ScanError::Io(reason) => ScanErrorView::Io(reason@),
            ScanError::Decompression(reason) => ScanErrorView::Decompression(reason@),
            ScanError::OrderingViolation(number) => ScanErrorView::OrderingViolation(*number),
        }
    }
}

impl ScanErrorView {
    /// Whether the error came from reading the file, not from what the file
    /// holds.
    pub open spec fn is_read_failure(self) -> bool {
        self is Io || self is Decompression
    }
}

/// The error of a read that failed: of unpacking, or of reading as such.
pub open spec fn read_failure(reason: Seq<char>, unpacking: bool) -> ScanErrorView {
    if unpacking {
        ScanErrorView::Decompression(reason)
    } else {
        ScanErrorView::Io(reason)
    }
}

/// The error that may be missing, as a mathematical value.
pub open spec fn error_of(error: Option<ScanError>) -> Option<ScanErrorView> {
    match error {
        Some(error) => Some(error@),
        None => None,
    }
}

/// One more than `n`, as far as 64 bits go.
pub open spec fn bumped(n: u64) -> u64 {
    if n < u64::MAX {
        (n + 1) as u64
    } else {
        n
    }
}

/// The number `n` as a count of lines: itself, as far as 64 bits go.
pub open spec fn line_count(n: nat) -> u64 {
    if n <= u64::MAX {
        n as u64
    } else {
        u64::MAX
    }
}

/// How many lines a scan has handed on, could not read, and passed over.
#[derive(Clone, Copy, Debug, PartialEq, Eq, Structural)]
pub struct ScanSummary {
    /// Lines that were handed on.
    pub parsed_count: u64,
    /// Lines that the grammar does not take, or whose date does not exist.
    pub unparsed_count: u64,
    /// Lines that the search does not ask for.
    pub skipped_count: u64,
}

impl ScanSummary {
    /// The summary of a scan that has seen no line.
    pub open spec fn zero() -> ScanSummary {
        ScanSummary { parsed_count: 0, unparsed_count: 0, skipped_count: 0 }
    }

    pub open spec fn with_parsed(self) -> ScanSummary {
        ScanSummary { parsed_count: bumped(self.parsed_count), ..self }
    }

    pub open spec fn with_unparsed(self) -> ScanSummary {
        ScanSummary { unparsed_count: bumped(self.unparsed_count), ..self }
    }

    pub open spec fn with_skipped(self) -> ScanSummary {
        ScanSummary { skipped_count: bumped(self.skipped_count), ..self }
    }
}

/// What becomes of one line.
pub enum LineOutcome {
    /// The search does not ask for the line.
    Skipped,
    /// The grammar does not take the line, or its date does not exist.
    Unparsed,
    /// The line is earlier than the last one that was handed on.
    OutOfOrder,
    /// The line is handed on.
    Accepted(OutputRecordView),
}

/// What becomes of `line` in a file of the given year, of which `last` is the
/// moment of the line that was handed on last. A line without the text that the
/// search asks for is passed over unread. A line that is read and is earlier
/// than `last` breaks the order of the file, whether the range of time holds it
/// or not.
pub open spec fn line_outcome(
    context: YBLogReaderContextView,
    source: Seq<char>,
    year: i32,
    last: Option<Timestamp>,
    line: Seq<char>,
) -> LineOutcome {
    if context.line_contains matches Some(needle) && !contains_text(line, needle) {
        LineOutcome::Skipped
    } else {
        match log_line(line, year) {
            None => LineOutcome::Unparsed,
            Some(parsed) => {
                if last matches Some(last) && parsed.timestamp.ordinal() < last.ordinal() {
                    LineOutcome::OutOfOrder
                } else if !context.in_range(parsed.timestamp) {
                    LineOutcome::Skipped
                } else {
                    LineOutcome::Accepted(OutputRecordView { source, line: parsed })
                }
            },
        }
    }
}

/// A line is handed on exactly where the grammar takes it and its date exists,
/// it holds the text that the search asks for, if it asks for one, it is not
/// before the lower bound, if there is one, and not after the upper bound, if
/// there is one; and, since a file that goes back in time is given up, where it
/// is not earlier than the line handed on before it.
pub proof fn lemma_handed_on_iff(
    context: YBLogReaderContextView,
    source: Seq<char>,
    year: i32,
    last: Option<Timestamp>,
    line: Seq<char>,
)
    ensures
        line_outcome(context, source, year, last, line) is Accepted <==> {
            &&& log_line(line, year) is Some
            &&& (context.line_contains is None || contains_text(
                line,
                context.line_contains.unwrap(),
            ))
            &&& (context.lowest_timestamp is None
                || context.lowest_timestamp.unwrap().ordinal() <= log_line(
                line,
                year,
            ).unwrap().timestamp.ordinal())
            &&& (context.highest_timestamp is None || log_line(
                line,
                year,
            ).unwrap().timestamp.ordinal() <= context.highest_timestamp.unwrap().ordinal())
            &&& (last is None || last.unwrap().ordinal() <= log_line(
                line,
                year,
            ).unwrap().timestamp.ordinal())
        },
        line_outcome(context, source, year, last, line) matches LineOutcome::Accepted(record)
            ==> record.source == source && Some(record.line) == log_line(line, year),
{
}

/// How far the reading of lines has come.
pub struct ScanView {
    /// The lines handed on, in their order.
    pub records: Seq<OutputRecordView>,
    pub summary: ScanSummary,
    /// The moment of the line that was handed on last.
    pub last_accepted: Option<Timestamp>,
    /// The number of the line that broke the order of time, if one did.
    pub violation: Option<u64>,
}

impl ScanView {
    /// Before the first line.
    pub open spec fn start() -> ScanView {
        ScanView {
            records: Seq::empty(),
            summary: ScanSummary::zero(),
            last_accepted: None,
            violation: None,
        }
    }

    /// After one more line, the line of the given number. Once a line has
    /// broken the order, nothing is read any more.
    pub open spec fn step(
        self,
        context: YBLogReaderContextView,
        source: Seq<char>,
        year: i32,
        line: Seq<char>,
        number: u64,
    ) -> ScanView {
        if self.violation is Some {
            self
        } else {
            match line_outcome(context, source, year, self.last_accepted, line) {
                LineOutcome::Skipped => ScanView { summary: self.summary.with_skipped(), ..self },
                LineOutcome::Unparsed => ScanView { summary: self.summary.with_unparsed(), ..self },
                LineOutcome::OutOfOrder => ScanView { violation: Some(number), ..self },
                LineOutcome::Accepted(record) => ScanView {
                    records: self.records.push(record),
                    summary: self.summary.with_parsed(),
                    last_accepted: Some(record.line.timestamp),
                    violation: None,
                },
            }
        }
    }
}

/// What the reading of `lines` comes to, in a file of the given year. Lines
/// are numbered from 1.
pub open spec fn scan_lines(
    context: YBLogReaderContextView,
    source: Seq<char>,
    year: i32,
    lines: Seq<Seq<char>>,
) -> ScanView
    decreases lines.len(),
{
    if lines.len() == 0 {
        ScanView::start()
    } else {
        scan_lines(context, source, year, lines.drop_last()).step(
            context,
            source,
            year,
            lines.last(),
            line_count(lines.len()),
        )
    }
}

/// What the start of a file has told.
pub struct WindowView {
    pub preamble: YBLogFilePreambleView,
    /// The number of the line that dates the file after the range of time, if
    /// one does.
    pub skipped_at: Option<u64>,
}

/// What the start of a file tells: its first `PREAMBLE_NUM_LINES` lines are
/// searched for the preamble, up to the first that dates the file after the
/// range of time.
pub open spec fn window_scan(context: YBLogReaderContextView, lines: Seq<Seq<char>>) -> WindowView
    decreases lines.len(),
{
    if lines.len() == 0 {
        WindowView { preamble: YBLogFilePreambleView::empty(), skipped_at: None }
    } else {
        let before = window_scan(context, lines.drop_last());
        if lines.len() > PREAMBLE_NUM_LINES || before.skipped_at is Some {
            before
        } else {
            WindowView {
                preamble: before.preamble.with_line(lines.last()),
                skipped_at: if created_at(lines.last()) matches Some(created) && context.is_past(
                    created,
                ) {
                    Some(line_count(lines.len()))
                } else {
                    None
                },
            }
        }
    }
}

/// The year of the lines of a file: the year in which its preamble says that it
/// was created, and the year of the search where the preamble does not say.
pub open spec fn file_year(context: YBLogReaderContextView, preamble: YBLogFilePreambleView) -> i32 {
    match preamble.created_at {
        Some(created) => created.year,
        None => context.default_year.unwrap(),
    }
}

/// What a scan has come to.
pub struct FileScanView {
    pub state: ScanState,
    /// The lines handed on, in their order.
    pub records: Seq<OutputRecordView>,
    pub summary: ScanSummary,
    pub preamble: YBLogFilePreambleView,
    pub error: Option<ScanErrorView>,
}

/// What the scan of a whole file comes to. Where the preamble dates the file
/// after the range of time, nothing is handed on, and the lines up to the one
/// that tells the date count as passed over. Else the year is settled from the
/// whole start of the file, and then each line is read in that year; the scan
/// fails at the first line that is earlier than one handed on before it.
pub open spec fn scan_file(
    context: YBLogReaderContextView,
    source: Seq<char>,
    lines: Seq<Seq<char>>,
) -> FileScanView {
    let window = window_scan(context, lines);
    match window.skipped_at {
        Some(number) => FileScanView {
            state: ScanState::SkippedByPreambleDate,
            records: Seq::empty(),
            summary: ScanSummary { skipped_count: number, ..ScanSummary::zero() },
            preamble: window.preamble,
            error: None,
        },
        None => {
            let scan = scan_lines(context, source, file_year(context, window.preamble), lines);
            FileScanView {
                state: if scan.violation is Some {
                    ScanState::Failed
                } else {
                    ScanState::Done
                },
                records: scan.records,
                summary: scan.summary,
                preamble: window.preamble,
                error: match scan.violation {
                    Some(number) => Some(ScanErrorView::OrderingViolation(number)),
                    None => None,
                },
            }
        },
    }
}

/// What a scan that is still fed the lines of its file has come to when it has
/// taken `lines` in. While it reads the start of the file it hands nothing on
/// and counts nothing. After that it stands where the scan of a file of just
/// these lines would end, but that it reads on where that scan would be done.
pub open spec fn scan_so_far(
    context: YBLogReaderContextView,
    source: Seq<char>,
    lines: Seq<Seq<char>>,
) -> FileScanView {
    let window = window_scan(context, lines);
    let whole = scan_file(context, source, lines);
    if window.skipped_at is Some {
        whole
    } else if lines.len() < PREAMBLE_NUM_LINES {
        FileScanView {
            state: ScanState::ScanningPreambleWindow,
            records: Seq::empty(),
            summary: ScanSummary::zero(),
            preamble: window.preamble,
            error: None,
        }
    } else if whole.state == ScanState::Done {
        FileScanView { state: ScanState::ScanningBody, ..whole }
    } else {
        whole
    }
}

/// What a scan comes to when a read fails, where `before` is what it had come
/// to and `lines` are the lines that it had taken in. A scan that has ended
/// stays as it is, and one that was not open just fails. A scan that was
/// reading comes to what the scan of a file of just these lines comes to, but
/// that it has failed, with the error of the read, where that scan would be
/// done.
pub open spec fn scan_failed(
    context: YBLogReaderContextView,
    source: Seq<char>,
    lines: Seq<Seq<char>>,
    before: FileScanView,
    error: ScanErrorView,
) -> FileScanView {
    let whole = scan_file(context, source, lines);
    if before.state == ScanState::Opening {
        FileScanView { state: ScanState::Failed, error: Some(error), ..before }
    } else if before.state == ScanState::ScanningPreambleWindow || before.state
        == ScanState::ScanningBody {
        if whole.state == ScanState::Done {
            FileScanView { state: ScanState::Failed, error: Some(error), ..whole }
        } else {
            whole
        }
    } else {
        before
    }
}

/// The lines that a scan hands on stand in the order of time, and the last of
/// them is the one that the scan remembers.
pub proof fn lemma_handed_on_in_time_order(
    context: YBLogReaderContextView,
    source: Seq<char>,
    year: i32,
    lines: Seq<Seq<char>>,
)
    ensures
        ({
            let scan = scan_lines(context, source, year, lines);
            &&& forall|i: int, j: int|
                0 <= i < j < scan.records.len() ==> #[trigger] scan.records[i].line.timestamp.ordinal()
                    <= #[trigger] scan.records[j].line.timestamp.ordinal()
            &&& scan.records.len() == 0 <==> scan.last_accepted is None
            &&& scan.records.len() > 0 ==> scan.last_accepted == Some(
                scan.records.last().line.timestamp,
            )
        }),
    decreases lines.len(),
{
    if lines.len() > 0 {
        lemma_handed_on_in_time_order(context, source, year, lines.drop_last());
        let before = scan_lines(context, source, year, lines.drop_last());
        let scan = scan_lines(context, source, year, lines);
        assert forall|i: int, j: int| 0 <= i < j < scan.records.len() implies #[trigger] scan.records[i].line.timestamp.ordinal()
            <= #[trigger] scan.records[j].line.timestamp.ordinal() by {
            if j < before.records.len() {
                assert(before.records[i].line.timestamp.ordinal()
                    <= before.records[j].line.timestamp.ordinal());
            } else if i < before.records.len() - 1 {
                assert(before.records[i].line.timestamp.ordinal()
                    <= before.records[before.records.len() - 1].line.timestamp.ordinal());
            }
        }
    }
}

/// Every line that a scan hands on is placed in the year of the scan, comes
/// from the file of the scan, and lies in the range of time.
pub proof fn lemma_handed_on_in_year(
    context: YBLogReaderContextView,
    source: Seq<char>,
    year: i32,
    lines: Seq<Seq<char>>,
)
    ensures
        forall|i: int|
            0 <= i < scan_lines(context, source, year, lines).records.len() ==> {
                let record = #[trigger] scan_lines(context, source, year, lines).records[i];
                &&& record.line.timestamp.year == year
                &&& record.source == source
                &&& context.in_range(record.line.timestamp)
            },
    decreases lines.len(),
{
    if lines.len() > 0 {
        lemma_handed_on_in_year(context, source, year, lines.drop_last());
        let before = scan_lines(context, source, year, lines.drop_last());
        let scan = scan_lines(context, source, year, lines);
        assert forall|i: int| 0 <= i < scan.records.len() implies {
            let record = #[trigger] scan.records[i];
            &&& record.line.timestamp.year == year
            &&& record.source == source
            &&& context.in_range(record.line.timestamp)
        } by {
            if i < before.records.len() {
                assert(scan.records[i] == before.records[i]);
            }
        }
    }
}

/// The year of a file does not depend on the year of the search where the
/// preamble of the file tells when it was created: every line that the scan of
/// the file hands on is then placed in the year of that date. Where the
/// preamble does not tell, every line is placed in the year of the search.
pub proof fn lemma_year_of_file(
    context: YBLogReaderContextView,
    source: Seq<char>,
    lines: Seq<Seq<char>>,
)
    ensures
        forall|i: int|
            0 <= i < scan_file(context, source, lines).records.len() ==> (
            #[trigger] scan_file(context, source, lines).records[i]).line.timestamp.year == (
            match window_scan(context, lines).preamble.created_at {
                Some(created) => created.year,
                None => context.default_year.unwrap(),
            }),
{
    let window = window_scan(context, lines);
    if window.skipped_at is None {
        lemma_handed_on_in_year(context, source, file_year(context, window.preamble), lines);
    }
}

/// A scan that has broken off tells which line broke the order of time: the
/// line of the number that it gives was read, and was earlier than the line
/// handed on last before it. A scan that has not broken off has met no such
/// line.
pub proof fn lemma_order_is_broken_where_told(
    context: YBLogReaderContextView,
    source: Seq<char>,
    year: i32,
    lines: Seq<Seq<char>>,
)
    requires
        lines.len() <= u64::MAX,
    ensures
        match scan_lines(context, source, year, lines).violation {
            Some(number) => {
                &&& 1 <= number <= lines.len()
                &&& scan_lines(context, source, year, lines.take(number - 1)).violation is None
                &&& line_outcome(
                    context,
                    source,
                    year,
                    scan_lines(context, source, year, lines.take(number - 1)).last_accepted,
                    lines[number - 1],
                ) is OutOfOrder
            },
            None => forall|k: int|
                0 <= k < lines.len() ==> !(line_outcome(
                    context,
                    source,
                    year,
                    scan_lines(context, source, year, #[trigger] lines.take(k)).last_accepted,
                    lines[k],
                ) is OutOfOrder),
        },
    decreases lines.len(),
{
    if lines.len() > 0 {
        let shorter = lines.drop_last();
        lemma_order_is_broken_where_told(context, source, year, shorter);
        let before = scan_lines(context, source, year, shorter);
        let scan = scan_lines(context, source, year, lines);
        assert(lines.take(lines.len() - 1) =~= shorter);
        match before.violation {
            Some(number) => {
                assert(shorter.take(number - 1) =~= lines.take(number - 1));
            },
            None => {
                if scan.violation is None {
                    assert forall|k: int| 0 <= k < lines.len() implies !(line_outcome(
                        context,
                        source,
                        year,
                        scan_lines(context, source, year, #[trigger] lines.take(k)).last_accepted,
                        lines[k],
                    ) is OutOfOrder) by {
                        if k < shorter.len() {
                            assert(shorter.take(k) =~= lines.take(k));
                        }
                    }
                }
            },
        }
    }
}

/// Once the start of a file is read, or has dated the file after the range of
/// time, the lines that follow tell nothing more about the file.
pub proof fn lemma_window_settles(
    context: YBLogReaderContextView,
    lines: Seq<Seq<char>>,
    n: int,
)
    requires
        0 <= n <= lines.len(),
        n >= PREAMBLE_NUM_LINES || window_scan(context, lines.take(n)).skipped_at is Some,
    ensures
        window_scan(context, lines) == window_scan(context, lines.take(n)),
    decreases lines.len(),
{
    if n == lines.len() {
        assert(lines.take(n) =~= lines);
    } else {
        assert(lines.drop_last().take(n) =~= lines.take(n));
        lemma_window_settles(context, lines.drop_last(), n);
    }
}

/// Once a line has broken the order of time, the lines that follow change
/// nothing.
pub proof fn lemma_scan_stops(
    context: YBLogReaderContextView,
    source: Seq<char>,
    year: i32,
    lines: Seq<Seq<char>>,
    n: int,
)
    requires
        0 <= n <= lines.len(),
        scan_lines(context, source, year, lines.take(n)).violation is Some,
    ensures
        scan_lines(context, source, year, lines) == scan_lines(context, source, year, lines.take(n)),
    decreases lines.len(),
{
    if n == lines.len() {
        assert(lines.take(n) =~= lines);
    } else {
        assert(lines.drop_last().take(n) =~= lines.take(n));
        lemma_scan_stops(context, source, year, lines.drop_last(), n);
    }
}

/// The records as mathematical values.
pub open spec fn record_views(records: Seq<OutputRecord>) -> Seq<OutputRecordView> {
    records.map_values(|r: OutputRecord| r@)
}

/// The scan of one log file. It is fed the lines of the file and hands on the
/// records that it makes of them.
pub struct YBLogReader {
    file_name: String,
    context: YBLogReaderContext,
    preamble: YBLogFilePreamble,
    state: ScanState,
    error: Option<ScanError>,
    /// The lines of the start of the file, kept back until the year is known.
    pending: Vec<String>,
    year: i32,
    summary: ScanSummary,
    last_accepted: Option<Timestamp>,
    lines_seen: u64,
    history: Ghost<Seq<Seq<char>>>,
    emitted: Ghost<Seq<OutputRecordView>>,
}

impl View for YBLogReader {
    type V = FileScanView;

    /// What the scan has come to so far.
    closed spec fn view(&self) -> FileScanView {
        FileScanView {
            state: self.state,
            records: self.emitted@,
            summary: self.summary,
            preamble: self.preamble@,
            error: error_of(self.error),
        }
    }
}

/// One more than `n`, as far as 64 bits go.
fn bump(n: u64) -> (m: u64)
    ensures
        m == bumped(n),
{
    if n < u64::MAX {
        n + 1
    } else {
        n
    }
}

impl YBLogReader {
    /// The lines that the scan has taken in.
    pub closed spec fn history(self) -> Seq<Seq<char>> {
        self.history@
    }

    /// The name of the file that is scanned.
    pub closed spec fn source(self) -> Seq<char> {
        self.file_name@
    }

    /// What the run looks for.
    pub closed spec fn search(self) -> YBLogReaderContextView {
        self.context@
    }

    /// Whether the scan takes lines in.
    pub open spec fn is_reading(self) -> bool {
        self@.state == ScanState::ScanningPreambleWindow || self@.state == ScanState::ScanningBody
    }

    /// How far the reading of lines has come, as the scan holds it.
    spec fn scan_view(self) -> ScanView {
        ScanView {
            records: self.emitted@,
            summary: self.summary,
            last_accepted: self.last_accepted,
            violation: match self.error {
                Some(ScanError::OrderingViolation(number)) => Some(number),
                _ => None,
            },
        }
    }

    /// Nothing has been read yet.
    spec fn is_untouched(self) -> bool {
        &&& self.emitted@ == Seq::<OutputRecordView>::empty()
        &&& self.summary == ScanSummary::zero()
        &&& self.last_accepted is None
        &&& self.error is None
    }

    /// What holds of a scan at all times: what it has come to is what `scan_file`
    /// and its parts make of the lines taken in.
    pub closed spec fn wf(self) -> bool {
        let context = self.context@;
        let source = self.file_name@;
        let lines = self.history@;
        let window = window_scan(context, lines);
        &&& context.default_year is Some
        &&& self.lines_seen == line_count(lines.len())
        &&& match self.state {
            ScanState::Opening => lines.len() == 0 && self.is_untouched() && self.pending@.len()
                == 0 && self.preamble@ == YBLogFilePreambleView::empty(),
            ScanState::ScanningPreambleWindow => {
                &&& lines.len() < PREAMBLE_NUM_LINES
                &&& window.skipped_at is None
                &&& texts(self.pending@) == lines
                &&& self.preamble@ == window.preamble
                &&& self.is_untouched()
            },
            ScanState::ScanningBody => {
                &&& lines.len() >= PREAMBLE_NUM_LINES
                &&& window.skipped_at is None
                &&& self.preamble@ == window.preamble
                &&& self.year == file_year(context, window.preamble)
                &&& self.error is None
                &&& self.scan_view() == scan_lines(context, source, self.year, lines)
            },
            ScanState::Done | ScanState::SkippedByPreambleDate => self@ == scan_file(
                context,
                source,
                lines,
            ),
            ScanState::Failed => {
                let whole = scan_file(context, source, lines);
                &&& self.error matches Some(error)
                &&& if error@.is_read_failure() {
                    whole.state == ScanState::Done && self@ == (FileScanView {
                        state: ScanState::Failed,
                        error: Some(error@),
                        ..whole
                    })
                } else {
                    self@ == whole
                }
            },
        }
    }

    /// What `wf` says of a scan to the world: a scan that reads has come to what
    /// `scan_so_far` makes of the lines taken in, and a scan that has ended to
    /// what `scan_file` makes of them, but that a scan which a failed read has
    /// ended has failed where `scan_file` would be done. A scan that is not
    /// open has taken nothing in.
    pub proof fn lemma_scan_tells_its_lines(self)
        requires
            self.wf(),
        ensures
            self.search().default_year is Some,
            self.is_reading() ==> self@ == scan_so_far(
                self.search(),
                self.source(),
                self.history(),
            ),
            self@.state == ScanState::Done || self@.state == ScanState::SkippedByPreambleDate || (
            self@.state == ScanState::Failed && !self@.error.unwrap().is_read_failure())
                ==> self@ == scan_file(self.search(), self.source(), self.history()),
            self@.state == ScanState::Failed && self@.error.unwrap().is_read_failure() ==> {
                let whole = scan_file(self.search(), self.source(), self.history());
                whole.state == ScanState::Done && self@ == (FileScanView {
                    state: ScanState::Failed,
                    error: self@.error,
                    ..whole
                })
            },
            self@.state == ScanState::Opening ==> self.history().len() == 0 && self@.records.len()
                == 0,
            self@.state == ScanState::Failed <==> self@.error is Some,
    {
    }

    /// A scan of the file of the given name, which is not open yet.
    pub fn new(file_name: &str, context: YBLogReaderContext) -> (reader: YBLogReader)
        requires
            context.default_year is Some,
        ensures
            reader.wf(),
            reader@ == (FileScanView {
                state: ScanState::Opening,
                records: Seq::empty(),
                summary: ScanSummary::zero(),
                preamble: YBLogFilePreambleView::empty(),
                error: None,
            }),
            reader.history() == Seq::<Seq<char>>::empty(),
            reader.source() == file_name@,
            reader.search() == context@,
    {
        YBLogReader {
            file_name: file_name.to_owned(),
            context,
            preamble: YBLogFilePreamble::new(),
            state: ScanState::Opening,
            error: None,
            pending: Vec::new(),
            year: 0,
            summary: ScanSummary { parsed_count: 0, unparsed_count: 0, skipped_count: 0 },
            last_accepted: None,
            lines_seen: 0,
            history: Ghost(Seq::empty()),
            emitted: Ghost(Seq::empty()),
        }
    }

    /// Where the scan stands.
    pub fn state(&self) -> (state: ScanState)
        ensures
            state == self@.state,
    {
        self.state
    }

    /// The counts of the scan so far.
    pub fn summary(&self) -> (summary: ScanSummary)
        ensures
            summary == self@.summary,
    {
        self.summary
    }

    /// What the preamble of the file has told so far.
    pub fn preamble(&self) -> (preamble: &YBLogFilePreamble)
        ensures
            preamble@ == self@.preamble,
    {
        &self.preamble
    }

    /// Why the scan was given up, if it was.
    pub fn error(&self) -> (error: &Option<ScanError>)
        ensures
            error_of(*error) == self@.error,
    {
        &self.error
    }

    /// The name of the file that is scanned.
    pub fn file_name(&self) -> (name: &str)
        ensures
            name@ == self.source(),
    {
        self.file_name.as_str()
    }

    /// The file is open: its lines can be taken in. A scan that is past its
    /// opening stays as it is.
    pub fn opened(&mut self)
        requires
            old(self).wf(),
        ensures
            final(self).wf(),
            final(self).history() == old(self).history(),
            final(self).source() == old(self).source(),
            final(self).search() == old(self).search(),
            final(self)@ == (FileScanView {
                state: if old(self)@.state == ScanState::Opening {
                    ScanState::ScanningPreambleWindow
                } else {
                    old(self)@.state
                },
                ..old(self)@
            }),
    {
        if self.state == ScanState::Opening {
            self.state = ScanState::ScanningPreambleWindow;
            proof {
                assert(texts(self.pending@) =~= self.history@);
            }
        }
    }

    /// The file could not be opened, or could not be read any further:
    /// `unpacking` tells whether it was the unpacking of compressed data that
    /// failed. A scan that has ended stays as it is. Any other is given up, but
    /// not before it has dealt with the lines that it has taken in: a scan that
    /// was still reading the start of the file settles the year from what it
    /// has seen and hands on the records of the lines kept back, as `finish`
    /// does.
    pub fn fail(&mut self, reason: String, unpacking: bool) -> (out: Vec<OutputRecord>)
        requires
            old(self).wf(),
        ensures
            final(self).wf(),
            final(self).history() == old(self).history(),
            final(self).source() == old(self).source(),
            final(self).search() == old(self).search(),
            final(self)@.records == old(self)@.records + record_views(out@),
            final(self)@ == scan_failed(
                old(self).search(),
                old(self).source(),
                old(self).history(),
                old(self)@,
                read_failure(reason@, unpacking),
            ),
    {
        let failure = if unpacking {
            ScanError::Decompression(reason)
        } else {
            ScanError::Io(reason)
        };
        match self.state {
            ScanState::Opening | ScanState::ScanningBody => {
                self.state = ScanState::Failed;
                self.error = Some(failure);
                proof {
                    assert(self@.records + record_views(Seq::<OutputRecord>::empty())
                        =~= self@.records);
                }
                Vec::new()
            },
            ScanState::ScanningPreambleWindow => {
                let out = self.close_window();
                if self.error.is_none() {
                    self.error = Some(failure);
                }
                self.state = ScanState::Failed;
                proof {
                    assert(Seq::<OutputRecordView>::empty() + record_views(out@) =~= record_views(
                        out@,
                    ));
                }
                out
            },
            _ => {
                proof {
                    assert(self@.records + record_views(Seq::<OutputRecord>::empty())
                        =~= self@.records);
                }
                Vec::new()
            },
        }
    }

    /// Deals with one line, in the year of the file.
    fn process_line(&mut self, line: &str, number: u64) -> (out: Option<OutputRecord>)
        requires
            !(old(self).error matches Some(error) && error@.is_read_failure()),
        ensures
            final(self).scan_view() == old(self).scan_view().step(
                old(self).context@,
                old(self).file_name@,
                old(self).year,
                line@,
                number,
            ),
            final(self).emitted@ == match out {
                Some(record) => old(self).emitted@.push(record@),
                None => old(self).emitted@,
            },
            !(final(self).error matches Some(error) && error@.is_read_failure()),
            final(self).file_name == old(self).file_name,
            final(self).context == old(self).context,
            final(self).preamble == old(self).preamble,
            final(self).state == old(self).state,
            final(self).pending == old(self).pending,
            final(self).year == old(self).year,
            final(self).lines_seen == old(self).lines_seen,
            final(self).history == old(self).history,
    {
        if self.error.is_some() {
            return None;
        }
        let wanted = match &self.context.line_contains {
            Some(needle) => line_contains(line, needle.as_str()),
            None => true,
        };
        if !wanted {
            self.summary.skipped_count = bump(self.summary.skipped_count);
            return None;
        }
        match YBLogLine::parse(line, self.year) {
            None => {
                self.summary.unparsed_count = bump(self.summary.unparsed_count);
                None
            },
            Some(parsed) => {
                let goes_back = match &self.last_accepted {
                    Some(last) => parsed.timestamp.is_before(last),
                    None => false,
                };
                if goes_back {
                    self.error = Some(ScanError::OrderingViolation(number));
                    None
                } else if !self.context.in_range(&parsed.timestamp) {
                    self.summary.skipped_count = bump(self.summary.skipped_count);
                    None
                } else {
                    self.summary.parsed_count = bump(self.summary.parsed_count);
                    self.last_accepted = Some(parsed.timestamp);
                    let record = OutputRecord { source: self.file_name.clone(), line: parsed };
                    self.emitted = Ghost(self.emitted@.push(record@));
                    Some(record)
                }
            },
        }
    }

    /// Ends the first part of the scan: settles the year of the file from what
    /// its start has told, and deals with the lines that were kept back.
    fn close_window(&mut self) -> (out: Vec<OutputRecord>)
        requires
            old(self).is_untouched(),
            old(self).context@.default_year is Some,
            texts(old(self).pending@) == old(self).history@,
            old(self).pending@.len() <= PREAMBLE_NUM_LINES,
        ensures
            final(self).year == file_year(old(self).context@, old(self).preamble@),
            final(self).scan_view() == scan_lines(
                old(self).context@,
                old(self).file_name@,
                final(self).year,
                old(self).history@,
            ),
            final(self).emitted@ == record_views(out@),
            !(final(self).error matches Some(error) && error@.is_read_failure()),
            final(self).file_name == old(self).file_name,
            final(self).context == old(self).context,
            final(self).preamble == old(self).preamble,
            final(self).state == old(self).state,
            final(self).lines_seen == old(self).lines_seen,
            final(self).history == old(self).history,
    {
        self.year = match &self.preamble.created_at {
            Some(created) => created.year,
            None => self.context.default_year.unwrap(),
        };
        let mut pending: Vec<String> = Vec::new();
        core::mem::swap(&mut pending, &mut self.pending);
        let ghost lines = texts(pending@);
        let mut out: Vec<OutputRecord> = Vec::new();
        let mut i: usize = 0;
        proof {
            assert(record_views(out@) =~= self.emitted@);
        }
        while i < pending.len()
            invariant
                i <= pending.len() <= PREAMBLE_NUM_LINES,
                lines == texts(pending@),
                lines == self.history@,
                self.scan_view() == scan_lines(
                    self.context@,
                    self.file_name@,
                    self.year,
                    lines.take(i as int),
                ),
                self.emitted@ == record_views(out@),
                !(self.error matches Some(error) && error@.is_read_failure()),
                self.year == file_year(old(self).context@, old(self).preamble@),
                self.file_name == old(self).file_name,
                self.context == old(self).context,
                self.preamble == old(self).preamble,
                self.state == old(self).state,
                self.lines_seen == old(self).lines_seen,
                self.history == old(self).history,
            decreases pending.len() - i,
        {
            let number: u64 = (i + 1) as u64;
            proof {
                assert(lines.take(i + 1).drop_last() =~= lines.take(i as int));
                assert(lines.take(i + 1).last() == pending@[i as int]@);
            }
            let ghost before = out@;
            match self.process_line(pending[i].as_str(), number) {
                Some(record) => {
                    out.push(record);
                    proof {
                        assert(record_views(out@) =~= record_views(before).push(record@));
                    }
                },
                None => {},
            }
            i += 1;
        }
        proof {
            assert(lines.take(i as int) =~= lines);
        }
        out
    }

    /// Takes in the next line of the file, and hands on what is ready to be
    /// handed on: nothing while the start of the file is read, then the records
    /// of the lines kept back, then the record of each line as it comes. A scan
    /// that has not been opened, or has ended, takes nothing in.
    pub fn accept_line(&mut self, line: &str) -> (out: Vec<OutputRecord>)
        requires
            old(self).wf(),
        ensures
            final(self).wf(),
            final(self).source() == old(self).source(),
            final(self).search() == old(self).search(),
            final(self).history() == if old(self).is_reading() {
                old(self).history().push(line@)
            } else {
                old(self).history()
            },
            final(self)@.records == old(self)@.records + record_views(out@),
            !old(self).is_reading() ==> final(self)@ == old(self)@ && out@.len() == 0,
            old(self).is_reading() ==> final(self)@ == scan_so_far(
                old(self).search(),
                old(self).source(),
                old(self).history().push(line@),
            ),
    {
        let ghost lines = self.history@;
        let ghost longer = lines.push(line@);
        proof {
            assert(longer.drop_last() =~= lines);
        }
        match self.state {
            ScanState::ScanningPreambleWindow => {
                self.history = Ghost(longer);
                self.lines_seen = bump(self.lines_seen);
                let created = self.preamble.read_line(line);
                let past = match &created {
                    Some(created) => self.context.is_past(created),
                    None => false,
                };
                if past {
                    self.state = ScanState::SkippedByPreambleDate;
                    self.summary.skipped_count = self.lines_seen;
                    self.pending = Vec::new();
                    proof {
                        assert(self@.records + record_views(Seq::<OutputRecord>::empty())
                            =~= self@.records);
                    }
                    return Vec::new();
                }
                let ghost kept = self.pending@;
                self.pending.push(line.to_owned());
                proof {
                    assert(texts(self.pending@) =~= texts(kept).push(line@));
                }
                if self.pending.len() == PREAMBLE_NUM_LINES {
                    let out = self.close_window();
                    if self.error.is_some() {
                        self.state = ScanState::Failed;
                    } else {
                        self.state = ScanState::ScanningBody;
                    }
                    proof {
                        assert(Seq::<OutputRecordView>::empty() + record_views(out@)
                            =~= record_views(out@));
                    }
                    out
                } else {
                    proof {
                        assert(self@.records + record_views(Seq::<OutputRecord>::empty())
                            =~= self@.records);
                    }
                    Vec::new()
                }
            },
            ScanState::ScanningBody => {
                self.history = Ghost(longer);
                self.lines_seen = bump(self.lines_seen);
                let ghost before = self.emitted@;
                let mut out: Vec<OutputRecord> = Vec::new();
                match self.process_line(line, self.lines_seen) {
                    Some(record) => {
                        out.push(record);
                        proof {
                            assert(before + record_views(out@) =~= before.push(record@));
                        }
                    },
                    None => {
                        proof {
                            assert(before + record_views(out@) =~= before);
                        }
                    },
                }
                if self.error.is_some() {
                    self.state = ScanState::Failed;
                }
                out
            },
            _ => {
                proof {
                    assert(self@.records + record_views(Seq::<OutputRecord>::empty())
                        =~= self@.records);
                }
                Vec::new()
            },
        }
    }

    /// The file has come to its end. A scan that was still reading the start of
    /// the file settles the year now and hands on the records of the lines kept
    /// back. What the scan has come to is then what `scan_file` makes of the
    /// lines taken in. A scan that was not reading stays as it is.
    pub fn finish(&mut self) -> (out: Vec<OutputRecord>)
        requires
            old(self).wf(),
        ensures
            final(self).wf(),
            final(self).source() == old(self).source(),
            final(self).search() == old(self).search(),
            final(self).history() == old(self).history(),
            final(self)@.records == old(self)@.records + record_views(out@),
            old(self).is_reading() ==> final(self)@ == scan_file(
                old(self).search(),
                old(self).source(),
                old(self).history(),
            ),
            !old(self).is_reading() ==> final(self)@ == old(self)@ && out@.len() == 0,
    {
        match self.state {
            ScanState::ScanningPreambleWindow => {
                let out = self.close_window();
                if self.error.is_some() {
                    self.state = ScanState::Failed;
                } else {
                    self.state = ScanState::Done;
                }
                proof {
                    assert(Seq::<OutputRecordView>::empty() + record_views(out@) =~= record_views(
                        out@,
                    ));
                }
                out
            },
            ScanState::ScanningBody => {
                self.state = ScanState::Done;
                proof {
                    assert(self@.records + record_views(Seq::<OutputRecord>::empty())
                        =~= self@.records);
                }
                Vec::new()
            },
            _ => {
                proof {
                    assert(self@.records + record_views(Seq::<OutputRecord>::empty())
                        =~= self@.records);
                }
                Vec::new()
            },
        }
    }

    /// Scans a file whose lines are all at hand, and gives the records that the
    /// scan hands on. What the scan comes to is what `scan_file` makes of the
    /// lines.
    pub fn load(&mut self, lines: &Vec<String>) -> (out: Vec<OutputRecord>)
        requires
            old(self).wf(),
            old(self)@.state == ScanState::Opening,
        ensures
            final(self).wf(),
            final(self).source() == old(self).source(),
            final(self).search() == old(self).search(),
            final(self)@ == scan_file(old(self).search(), old(self).source(), texts(lines@)),
            record_views(out@) == final(self)@.records,
    {
        let ghost all = texts(lines@);
        let ghost context = self.context@;
        let ghost source = self.file_name@;
        self.opened();
        let mut out: Vec<OutputRecord> = Vec::new();
        let mut i: usize = 0;
        proof {
            assert(record_views(out@) =~= self@.records);
            assert(all.take(0) =~= self.history());
        }
        while i < lines.len() && (self.state == ScanState::ScanningPreambleWindow || self.state
            == ScanState::ScanningBody)
            invariant
                i <= lines.len(),
                all == texts(lines@),
                self.wf(),
                self.source() == source,
                self.search() == context,
                self.history() == all.take(i as int),
                record_views(out@) == self@.records,
                self.is_reading() || (i > 0 && self@ == scan_so_far(
                    context,
                    source,
                    all.take(i as int),
                )),
            decreases lines.len() - i,
        {
            let ghost before = out@;
            let mut handed_on = self.accept_line(lines[i].as_str());
            proof {
                assert(all.take(i + 1) =~= all.take(i as int).push(lines@[i as int]@));
                assert(record_views(before + handed_on@) =~= record_views(before) + record_views(
                    handed_on@,
                ));
            }
            out.append(&mut handed_on);
            i += 1;
        }
        let ghost taken = self.history();
        let ghost reading = self.is_reading();
        let ghost before = out@;
        proof {
            if reading {
                assert(all.take(i as int) =~= all);
            } else {
                lemma_window_settles(context, all, i as int);
                if self@.state == ScanState::Failed {
                    lemma_scan_stops(
                        context,
                        source,
                        file_year(context, window_scan(context, taken).preamble),
                        all,
                        i as int,
                    );
                }
            }
        }
        let mut handed_on = self.finish();
        proof {
            assert(record_views(before + handed_on@) =~= record_views(before) + record_views(
                handed_on@,
            ));
        }
        out.append(&mut handed_on);
        out
    }
}

} // verus!
