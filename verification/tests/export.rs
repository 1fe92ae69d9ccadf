use memoir::csvdump::{
    escape_cmdline, header, iterator_on_buffer, render, row, since, CsvIterator,
};
use memoir::process::{CurrentProcesses, HistoryEntry, Process};
use memoir::text::decimal;
use std::collections::VecDeque;
use std::sync::Arc;

const HEADER: &str = "Iteration\tTimestamp\tPID\tName\tMemory MB\tCommand line\n";

fn entry(pid: u32, name: &str, commandline: &str, memory_mb: u64) -> HistoryEntry {
    HistoryEntry {
        process: Arc::new(Process {
            pid,
            name: name.to_string(),
            commandline: commandline.to_string(),
        }),
        memory_mb,
    }
}

fn three_snapshots() -> VecDeque<CurrentProcesses> {
    VecDeque::from(vec![
        CurrentProcesses { timestamp: 1000, entries: vec![entry(1, "one", "one --first", 10)] },
        CurrentProcesses {
            timestamp: 2000,
            entries: vec![entry(1, "one", "one --first", 11), entry(2, "two", "two", 20)],
        },
        CurrentProcesses { timestamp: 3000, entries: vec![entry(3, "three", "three", 30)] },
    ])
}

fn chunks(mut exporter: CsvIterator) -> Vec<String> {
    let mut all = Vec::new();
    while let Some(chunk) = exporter.next() {
        all.push(chunk.unwrap());
    }
    all
}

#[test]
fn tabs_and_newlines_are_escaped() {
    assert_eq!(escape_cmdline("a\tb\nc"), "a\\tb\\nc");
    assert_eq!(escape_cmdline(""), "");
    assert_eq!(escape_cmdline("plain --flag=1"), "plain --flag=1");
    assert_eq!(escape_cmdline("\t\t"), "\\t\\t");
    assert_eq!(escape_cmdline("back\\slash\r"), "back\\slash\r");
    assert_eq!(escape_cmdline("\u{e9}\n\u{1F600}"), "\u{e9}\\n\u{1F600}");
}

#[test]
fn an_escaped_command_line_is_one_field_of_one_row() {
    let history = VecDeque::from(vec![CurrentProcesses {
        timestamp: 5,
        entries: vec![entry(7, "sh", "sh -c\t'echo\nhi'", 1)],
    }]);
    let report = render(&history, None, 0).unwrap();
    assert_eq!(report, format!("{}1\t5\t7\tsh\t1\tsh -c\\t'echo\\nhi'\n", HEADER));
    let lines: Vec<&str> = report.lines().collect();
    assert_eq!(lines.len(), 2);
    assert_eq!(lines[1].split('\t').count(), 6);
}

#[test]
fn numbers_in_decimal() {
    assert_eq!(decimal(0), "0");
    assert_eq!(decimal(7), "7");
    assert_eq!(decimal(10), "10");
    assert_eq!(decimal(1005), "1005");
    assert_eq!(decimal(u64::MAX as u128), "18446744073709551615");
    assert_eq!(decimal(u128::MAX), "340282366920938463463374607431768211455");
    assert_eq!(decimal(100000000000000000000000000000000000000), "100000000000000000000000000000000000000");
}

#[test]
fn the_header_and_a_row() {
    assert_eq!(
        header(),
        vec!["Iteration", "Timestamp", "PID", "Name", "Memory MB", "Command line"]
    );
    assert_eq!(
        row(3, 1700000000000, &entry(42, "bash", "bash -l", 12)),
        vec!["3", "1700000000000", "42", "bash", "12", "bash -l"]
    );
}

#[test]
fn the_threshold_is_so_many_seconds_before_now() {
    assert_eq!(since(5000, None), 0);
    assert_eq!(since(5000, Some(3)), 2000);
    assert_eq!(since(5000, Some(5)), 0);
    assert_eq!(since(5000, Some(6)), 0);
    assert_eq!(since(5000, Some(0)), 5000);
    assert_eq!(since(u128::MAX, Some(usize::MAX)), u128::MAX - (usize::MAX as u128) * 1000);
    assert_eq!(since(0, Some(usize::MAX)), 0);
}

#[test]
fn only_samples_from_the_threshold_on_are_exported() {
    let history = three_snapshots();
    // Two seconds before 4000: the threshold is 2000.
    let all = chunks(CsvIterator::new(Some(2), 4000, &history));
    assert_eq!(
        all,
        vec![
            HEADER.to_string(),
            String::new(),
            "1\t2000\t1\tone\t11\tone --first\n1\t2000\t2\ttwo\t20\ttwo\n".to_string(),
            "2\t3000\t3\tthree\t30\tthree\n".to_string(),
        ]
    );
    let report = render(&history, Some(2), 4000).unwrap();
    assert_eq!(report, all.concat());
    assert!(!report.contains("1000"));
}

#[test]
fn without_a_span_every_sample_is_exported() {
    let history = three_snapshots();
    let report = render(&history, None, 4000).unwrap();
    assert_eq!(
        report,
        format!(
            "{}{}{}{}{}",
            HEADER,
            "1\t1000\t1\tone\t10\tone --first\n",
            "2\t2000\t1\tone\t11\tone --first\n",
            "2\t2000\t2\ttwo\t20\ttwo\n",
            "3\t3000\t3\tthree\t30\tthree\n"
        )
    );
    assert_eq!(chunks(iterator_on_buffer(&history, None, 4000)).concat(), report);
}

#[test]
fn a_span_that_reaches_nothing_leaves_the_header() {
    let history = three_snapshots();
    assert_eq!(render(&history, Some(0), 4000).unwrap(), HEADER);
    assert_eq!(
        chunks(CsvIterator::new(Some(0), 4000, &history)),
        vec![HEADER.to_string(), String::new(), String::new(), String::new()]
    );
}

#[test]
fn an_empty_history_is_a_header() {
    let history = VecDeque::new();
    assert_eq!(render(&history, None, 1).unwrap(), HEADER);
    let mut exporter = CsvIterator::new(None, 1, &history);
    assert_eq!(exporter.next().map(|chunk| chunk.unwrap()), Some(HEADER.to_string()));
    assert!(exporter.next().is_none());
    assert!(exporter.next().is_none());
}

#[test]
fn a_sample_without_entries_is_an_empty_chunk() {
    let history = VecDeque::from(vec![CurrentProcesses { timestamp: 9, entries: Vec::new() }]);
    assert_eq!(chunks(CsvIterator::new(None, 10, &history)), vec![HEADER.to_string(), String::new()]);
}

#[test]
fn the_row_writer_quotes_what_it_must() {
    let history = VecDeque::from(vec![CurrentProcesses {
        timestamp: 1,
        entries: vec![entry(1, "odd\tname", "say \"hi\"", 2), entry(2, "", "", 0)],
    }]);
    assert_eq!(
        render(&history, None, 1).unwrap(),
        format!("{}1\t1\t1\t\"odd\tname\"\t2\t\"say \"\"hi\"\"\"\n1\t1\t2\t\t0\t\n", HEADER)
    );
}

#[test]
fn rows_are_numbered_among_the_exported_samples() {
    let history = VecDeque::from(vec![
        CurrentProcesses { timestamp: 1000, entries: vec![entry(1, "a", "a", 1)] },
        CurrentProcesses { timestamp: 2000, entries: vec![entry(2, "b", "b", 2)] },
        CurrentProcesses { timestamp: 3000, entries: vec![entry(3, "c", "c", 3)] },
    ]);
    // The threshold is 2000: the sample at the threshold is the first.
    assert_eq!(
        render(&history, Some(3), 5000).unwrap(),
        format!("{}1\t2000\t2\tb\t2\tb\n2\t3000\t3\tc\t3\tc\n", HEADER)
    );
    // Only the newest is left.
    assert_eq!(
        render(&history, Some(2), 5000).unwrap(),
        format!("{}1\t3000\t3\tc\t3\tc\n", HEADER)
    );
}

#[test]
fn a_sample_left_out_in_the_middle_takes_no_place() {
    // The clock went back for the second sample.
    let history = VecDeque::from(vec![
        CurrentProcesses { timestamp: 3000, entries: vec![entry(1, "a", "a", 1)] },
        CurrentProcesses { timestamp: 1000, entries: vec![entry(2, "b", "b", 2)] },
        CurrentProcesses { timestamp: 4000, entries: vec![entry(3, "c", "c", 3)] },
    ]);
    assert_eq!(
        chunks(CsvIterator::new(Some(2), 5000, &history)),
        vec![
            HEADER.to_string(),
            "1\t3000\t1\ta\t1\ta\n".to_string(),
            String::new(),
            "2\t4000\t3\tc\t3\tc\n".to_string(),
        ]
    );
}
