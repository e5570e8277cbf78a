use yblp::collector::{OutputCollector, OutputRecord};
use yblp::logline::YBLogLine;
use yblp::timestamp::Timestamp;

fn record(source: &str, second: u8, microsecond: u32, message: &str) -> OutputRecord {
    OutputRecord {
        source: String::from(source),
        line: YBLogLine {
            log_level: 'I',
            timestamp: Timestamp {
                year: 2021,
                month: 4,
                day: 8,
                hour: 10,
                minute: 0,
                second,
                microsecond,
            },
            thread_id: 1,
            file_name: String::from("a.cc"),
            line_number: 1,
            tablet_id: None,
            message: String::from(message),
        },
    }
}

fn messages(records: &Vec<OutputRecord>) -> Vec<String> {
    records.iter().map(|r| r.line.message.clone()).collect()
}

fn merged(arrival: Vec<OutputRecord>) -> Vec<OutputRecord> {
    let mut collector = OutputCollector::new();
    for r in arrival {
        collector.append(r);
    }
    collector.finalize()
}

#[test]
fn an_empty_collector_gives_nothing() {
    let collector = OutputCollector::new();
    assert_eq!(collector.len(), 0);
    assert_eq!(collector.finalize(), vec![]);
}

#[test]
fn append_adds_at_the_end() {
    let mut collector = OutputCollector::new();
    collector.append(record("a", 3, 0, "t3"));
    collector.append(record("a", 1, 0, "t1"));
    assert_eq!(collector.len(), 2);
    assert_eq!(collector.output_lines, vec![record("a", 3, 0, "t3"), record("a", 1, 0, "t1")]);
    collector.append_all(vec![record("b", 2, 0, "t2"), record("b", 0, 0, "t0")]);
    assert_eq!(collector.len(), 4);
    assert_eq!(messages(&collector.output_lines), vec!["t3", "t1", "t2", "t0"]);
    collector.append_all(vec![]);
    assert_eq!(collector.len(), 4);
}

#[test]
fn two_files_merge_into_one_order() {
    let t1 = record("first", 1, 0, "t1");
    let t2 = record("second", 2, 0, "t2");
    let t3 = record("first", 3, 0, "t3");
    let expected = vec![t1.clone(), t2.clone(), t3.clone()];
    assert_eq!(merged(vec![t1.clone(), t3.clone(), t2.clone()]), expected);
    assert_eq!(merged(vec![t1.clone(), t2.clone(), t3.clone()]), expected);
    assert_eq!(merged(vec![t2.clone(), t1.clone(), t3.clone()]), expected);
}

#[test]
fn every_arrival_order_gives_the_same_result() {
    let records: Vec<OutputRecord> =
        (0u8..5).map(|i| record("f", i, 7 * i as u32, &format!("m{}", i))).collect();
    let mut orders: Vec<Vec<usize>> = vec![vec![]];
    for _ in 0..5 {
        let mut longer = Vec::new();
        for order in &orders {
            for i in 0..5 {
                if !order.contains(&i) {
                    let mut next = order.clone();
                    next.push(i);
                    longer.push(next);
                }
            }
        }
        orders = longer;
    }
    assert_eq!(orders.len(), 120);
    for order in orders {
        let arrival: Vec<OutputRecord> = order.iter().map(|&i| records[i].clone()).collect();
        assert_eq!(merged(arrival), records);
    }
}

#[test]
fn lines_of_one_moment_keep_their_arrival_order() {
    let arrival = vec![
        record("b", 5, 0, "b-late"),
        record("a", 1, 0, "a1"),
        record("b", 1, 0, "b1"),
        record("a", 1, 0, "a2"),
        record("c", 0, 9, "c0"),
        record("b", 1, 0, "b2"),
        record("a", 5, 0, "a-late"),
    ];
    let sorted = merged(arrival);
    assert_eq!(messages(&sorted), vec!["c0", "a1", "b1", "a2", "b2", "b-late", "a-late"]);
}

#[test]
fn nothing_is_lost_and_nothing_comes_twice() {
    let mut arrival = Vec::new();
    let mut seed: u32 = 12345;
    for i in 0..1000u32 {
        seed = seed.wrapping_mul(1103515245).wrapping_add(12345);
        let second = ((seed >> 16) % 60) as u8;
        let micro = (seed >> 8) % 3;
        arrival.push(record("f", second, micro, &format!("{}", i)));
    }
    let mut expected = arrival.clone();
    expected.sort_by_key(|r| r.line.timestamp);
    let sorted = merged(arrival.clone());
    assert_eq!(sorted.len(), 1000);
    assert_eq!(sorted, expected);
    let mut names: Vec<u32> = sorted.iter().map(|r| r.line.message.parse().unwrap()).collect();
    names.sort();
    assert_eq!(names, (0..1000).collect::<Vec<u32>>());
    for pair in sorted.windows(2) {
        assert!(pair[0].line.timestamp <= pair[1].line.timestamp);
    }
}

#[test]
fn sort_lines_sorts_in_place() {
    let mut collector = OutputCollector::new();
    collector.append(record("a", 2, 0, "x"));
    collector.append(record("a", 1, 0, "y"));
    collector.append(record("a", 2, 0, "z"));
    collector.sort_lines();
    assert_eq!(messages(&collector.output_lines), vec!["y", "x", "z"]);
    collector.sort_lines();
    assert_eq!(messages(&collector.output_lines), vec!["y", "x", "z"]);
    let mut one = OutputCollector::new();
    one.append(record("a", 2, 0, "x"));
    one.sort_lines();
    assert_eq!(messages(&one.output_lines), vec!["x"]);
}

#[test]
fn the_year_counts_before_the_month() {
    let mut early = record("a", 59, 999_999, "december");
    early.line.timestamp.year = 2020;
    early.line.timestamp.month = 12;
    early.line.timestamp.day = 31;
    early.line.timestamp.hour = 23;
    early.line.timestamp.minute = 59;
    let late = record("a", 0, 0, "april");
    assert_eq!(messages(&merged(vec![late.clone(), early.clone()])), vec!["december", "april"]);
}
