//! A run over many files: one scan for each file, and one merge of what the
//! scans hand on.
//!
//! No scan knows of another: what a run makes of a file is what `scan_file`
//! makes of it, whatever becomes of the other files. Here the files are at hand
//! as lists of lines and are scanned one after the other; a run that reads its
//! files on several threads feeds a `YBLogReader` for each and shares one
//! `OutputCollector`, and comes to the same lines.

use crate::collector::{in_time_order, is_stable_sort, OutputCollector, OutputRecord, OutputRecordView};
use crate::filter::{texts, YBLogReaderContext, YBLogReaderContextView};
use crate::preamble::YBLogFilePreamble;
use crate::reader::{
    error_of, record_views, scan_file, ScanError, ScanState, ScanSummary, YBLogReader,
};
use vstd::prelude::*;

verus! {

/// A log file that is at hand as a whole.
#[derive(Clone, Debug, PartialEq, Eq)]
pub struct InputFile {
    pub name: String,
    /// The lines of the file, without their line endings.
    pub lines: Vec<String>,
}

/// An `InputFile` as a mathematical value.
pub struct InputFileView {
    pub name: Seq<char>,
    pub lines: Seq<Seq<char>>,
}

impl View for InputFile {
    type V = InputFileView;

    open spec fn view(&self) -> InputFileView {
        InputFileView { name: self.name@, lines: texts(self.lines@) }
    }
}

/// What the scan of one file came to.
#[derive(Clone, Debug, PartialEq, Eq)]
pub struct FileReport {
    pub file_name: String,
    pub state: ScanState,
    pub summary: ScanSummary,
    pub error: Option<ScanError>,
    pub preamble: YBLogFilePreamble,
}

impl FileReport {
    /// Whether the report is that of the file, scanned for what the search asks
    /// for.
    pub open spec fn is_report_of(self, context: YBLogReaderContextView, file: InputFileView) -> bool {
        let scan = scan_file(context, file.name, file.lines);
        &&& self.file_name@ == file.name
        &&& self.state == scan.state
        &&& self.summary == scan.summary
        &&& error_of(self.error) == scan.error
        &&& self.preamble@ == scan.preamble
    }
}

/// The lines that the scans of the files hand on, file after file.
pub open spec fn all_records(context: YBLogReaderContextView, files: Seq<InputFile>) -> Seq<
    OutputRecordView,
>
    decreases files.len(),
{
    if files.len() == 0 {
        Seq::empty()
    } else {
        all_records(context, files.drop_last()) + scan_file(
            context,
            files.last().name@,
            texts(files.last().lines@),
        ).records
    }
}

/// Whether `merged` is what the scans of the files hand on, sorted by time:
/// `arrived` are those lines file after file, and `order` tells for each place
/// of `merged` the place of `arrived` that its line comes from.
pub open spec fn is_merge_of_scans(
    context: YBLogReaderContextView,
    files: Seq<InputFile>,
    arrived: Seq<OutputRecord>,
    merged: Seq<OutputRecord>,
    order: Seq<int>,
) -> bool {
    record_views(arrived) == all_records(context, files) && is_stable_sort(arrived, merged, order)
}

/// Scans every file, each by itself, and merges what the scans hand on into the
/// order of time. It gives one report for each file, in the order of the files,
/// and the merged lines; lines of one moment stand in the order of their files,
/// and within a file in the order of its lines.
pub fn scan_files(context: &YBLogReaderContext, files: &Vec<InputFile>) -> (run: (
    Vec<FileReport>,
    Vec<OutputRecord>,
))
    requires
        context.default_year is Some,
    ensures
        run.0@.len() == files@.len(),
        forall|i: int|
            0 <= i < files@.len() ==> (#[trigger] run.0@[i]).is_report_of(context@, files@[i]@),
        in_time_order(run.1@),
        exists|arrived: Seq<OutputRecord>, order: Seq<int>|
            is_merge_of_scans(context@, files@, arrived, run.1@, order),
{
    let mut collector = OutputCollector::new();
    let mut reports: Vec<FileReport> = Vec::new();
    let mut i: usize = 0;
    proof {
        assert(record_views(collector@) =~= all_records(context@, files@.take(0)));
    }
    while i < files.len()
        invariant
            i <= files.len(),
            context.default_year is Some,
            reports@.len() == i,
            forall|k: int|
                0 <= k < i ==> (#[trigger] reports@[k]).is_report_of(context@, files@[k]@),
            record_views(collector@) == all_records(context@, files@.take(i as int)),
        decreases files.len() - i,
    {
        let file = &files[i];
        let mut reader = YBLogReader::new(file.name.as_str(), context.copy());
        let handed_on = reader.load(&file.lines);
        let ghost before = collector@;
        proof {
            assert(files@.take(i + 1).drop_last() =~= files@.take(i as int));
            assert(files@.take(i + 1).last() == files@[i as int]);
            assert(record_views(before + handed_on@) =~= record_views(before) + record_views(
                handed_on@,
            ));
        }
        collector.append_all(handed_on);
        reports.push(
            FileReport {
                file_name: file.name.clone(),
                state: reader.state(),
                summary: reader.summary(),
                error: copy_of_error(reader.error()),
                preamble: reader.preamble().copy(),
            },
        );
        i += 1;
    }
    let ghost arrived = collector@;
    let run = (reports, collector.finalize());
    proof {
        assert(files@.take(i as int) =~= files@);
        let order = choose|order: Seq<int>| is_stable_sort(arrived, run.1@, order);
        assert(is_merge_of_scans(context@, files@, arrived, run.1@, order));
    }
    run
}

/// A copy of the error, if there is one.
fn copy_of_error(error: &Option<ScanError>) -> (copy: Option<ScanError>)
    ensures
        error_of(copy) == error_of(*error),
{
    match error {
        Some(ScanError::Io(reason)) => Some(ScanError::Io(reason.clone())),
        Some(ScanError::Decompression(reason)) => Some(ScanError::Decompression(reason.clone())),
        Some(ScanError::OrderingViolation(number)) => Some(ScanError::OrderingViolation(*number)),
        None => None,
    }
}

} // verus!
