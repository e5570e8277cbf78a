use yblp::coordinator::{scan_files, FileReport, InputFile};
use yblp::filter::YBLogReaderContext;
use yblp::preamble::YBLogFilePreamble;
use yblp::reader::{ScanError, ScanState, ScanSummary, YBLogReader};
use yblp::timestamp::Timestamp;

fn file(name: &str, lines: &[&str]) -> InputFile {
    InputFile { name: String::from(name), lines: lines.iter().map(|l| String::from(*l)).collect() }
}

fn search() -> YBLogReaderContext {
    let mut context = YBLogReaderContext::new();
    context.default_year = Some(2021);
    context
}

fn files() -> Vec<InputFile> {
    vec![
        file(
            "/logs/one",
            &["I0408 10:00:01.000000 1 a.cc:1] t1", "I0408 10:00:03.000000 1 a.cc:1] t3"],
        ),
        file(
            "/logs/broken",
            &[
                "I0408 10:00:05.000000 1 a.cc:1] t5",
                "junk",
                "I0408 10:00:04.000000 1 a.cc:1] back in time",
                "I0408 10:00:09.000000 1 a.cc:1] never read",
            ],
        ),
        file("/logs/empty", &[]),
        file(
            "/logs/late",
            &["Log file created at: 2021/04/09 00:00:00", "I0409 10:00:00.000000 1 a.cc:1] late"],
        ),
        file(
            "/logs/two",
            &[
                "Log file created at: 2021/04/08 10:00:00",
                "I0408 10:00:02.000000 1 a.cc:1] t2",
                "I0408 10:00:03.000000 1 a.cc:1] t3 again",
            ],
        ),
    ]
}

fn report(
    name: &str,
    state: ScanState,
    counts: (u64, u64, u64),
    error: Option<ScanError>,
    created_at: Option<Timestamp>,
) -> FileReport {
    FileReport {
        file_name: String::from(name),
        state,
        summary: ScanSummary {
            parsed_count: counts.0,
            unparsed_count: counts.1,
            skipped_count: counts.2,
        },
        error,
        preamble: YBLogFilePreamble {
            created_at,
            running_on_machine: None,
            application_fingerprint: None,
        },
    }
}

fn at(day: u8, hour: u8) -> Timestamp {
    Timestamp { year: 2021, month: 4, day, hour, minute: 0, second: 0, microsecond: 0 }
}

#[test]
fn a_run_reports_every_file_and_merges_the_lines() {
    let mut context = search();
    context.highest_timestamp = Some(at(8, 23));
    let (reports, merged) = scan_files(&context, &files());
    assert_eq!(
        reports,
        vec![
            report("/logs/one", ScanState::Done, (2, 0, 0), None, None),
            report(
                "/logs/broken",
                ScanState::Failed,
                (1, 1, 0),
                Some(ScanError::OrderingViolation(3)),
                None
            ),
            report("/logs/empty", ScanState::Done, (0, 0, 0), None, None),
            report("/logs/late", ScanState::SkippedByPreambleDate, (0, 0, 1), None, Some(at(9, 0))),
            report("/logs/two", ScanState::Done, (2, 1, 0), None, Some(at(8, 10))),
        ]
    );
    let lines: Vec<(&str, &str)> =
        merged.iter().map(|r| (r.source.as_str(), r.line.message.as_str())).collect();
    assert_eq!(
        lines,
        vec![
            ("/logs/one", "t1"),
            ("/logs/two", "t2"),
            ("/logs/one", "t3"),
            ("/logs/two", "t3 again"),
            ("/logs/broken", "t5"),
        ]
    );
}

#[test]
fn a_file_is_scanned_as_if_it_were_alone() {
    let context = search();
    let all = files();
    let (reports, _) = scan_files(&context, &all);
    for (i, one) in all.iter().enumerate() {
        let (alone, lines) = scan_files(&context, &vec![one.clone()]);
        assert_eq!(alone.len(), 1);
        assert_eq!(alone[0], reports[i]);
        let mut reader = YBLogReader::new(&one.name, context.clone());
        assert_eq!(reader.load(&one.lines), lines);
        assert_eq!(reader.state(), reports[i].state);
        assert_eq!(reader.summary(), reports[i].summary);
    }
}

#[test]
fn the_order_of_the_files_does_not_show_in_the_times() {
    let context = search();
    let forward = files();
    let mut backward = files();
    backward.reverse();
    let (_, first) = scan_files(&context, &forward);
    let (_, second) = scan_files(&context, &backward);
    let times = |records: &Vec<yblp::collector::OutputRecord>| -> Vec<Timestamp> {
        records.iter().map(|r| r.line.timestamp).collect()
    };
    assert_eq!(first.len(), 6);
    assert_eq!(times(&first), times(&second));
    let mut sorted = times(&first);
    sorted.sort();
    assert_eq!(times(&first), sorted);
}

#[test]
fn a_run_over_nothing_gives_nothing() {
    let (reports, merged) = scan_files(&search(), &vec![]);
    assert_eq!(reports.len(), 0);
    assert_eq!(merged.len(), 0);
}

#[test]
fn a_copy_of_a_search_is_the_search() {
    let mut context = search();
    context.lowest_timestamp = Some(at(1, 2));
    context.name_regex = Some(String::from("a|b"));
    context.line_contains = Some(String::from("text"));
    assert_eq!(context.copy(), context);
    assert_eq!(search().copy(), search());
}
