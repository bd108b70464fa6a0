use timewarrior_timesheet_report::{run, run_at, Clock, Config, ErrorKind, LocalInstant};

const HEADER: &str = "       |    Mon |    Tue |    Wed |    Thu |    Fri |    Sat |    Sun |    Tot | \n";
const RULE: &str = "=======|========|========|========|========|========|========|========|========|\n";

fn lines(text: &[&str]) -> Vec<String> {
    text.iter().map(|line| line.to_string()).collect()
}

/// A clock in UTC that stands still at the given second.
fn utc_clock(seconds: i64) -> Clock {
    Clock::Fixed(LocalInstant::new(seconds, 0, 0).unwrap())
}

fn failure(text: &[&str]) -> ErrorKind {
    match run_at(Config {}, &lines(text), &utc_clock(1704706200)) {
        Ok(report) => panic!("the run gave a report:\n{}", report),
        Err(error) => error.kind(),
    }
}

#[test]
fn good_report() {
    let input = lines(&[
        "temp.report.start: 20240108T000000Z",
        "temp.report.end: 20240115T000000Z",
        "timesheet.projects: [\"alpha\",\"beta\"]",
        "verbose: on",
        "",
        "[",
        "{\"id\":3,\"start\":\"20240108T090000Z\",\"end\":\"20240108T100000Z\",\"tags\":[\"alpha\"]},",
        "{\"id\":2,\"start\":\"20240108T100000Z\",\"end\":\"20240108T113000Z\",\"tags\":[\"beta\",\"review\"],\"annotation\":\"weekly\"},",
        "{\"id\":1,\"start\":\"20240110T080000Z\",\"end\":\"20240110T091500Z\",\"tags\":[\"alpha\"]}",
        "]",
    ]);
    let output = run_at(Config {}, &input, &utc_clock(1704706200)).unwrap();
    let expected = format!(
        "{}{}{}{}{}{}",
        HEADER,
        RULE,
        "alpha  |    1.0 |        |    1.3 |        |        |        |        |    2.3 |\n",
        "beta   |    1.5 |        |        |        |        |        |        |    1.5 |\n",
        RULE,
        "totals |    2.5 |        |    1.3 |        |        |        |        |    3.8 |\n",
    );
    assert_eq!(output, expected);
}

#[test]
fn single_interval_on_monday() {
    let input = lines(&[
        "timesheet.projects : [\"alpha\"]",
        "[",
        "{\"id\":1,\"start\":\"20240108T090000Z\",\"end\":\"20240108T103000Z\",\"tags\":[\"alpha\"]},",
        "]",
    ]);
    let output = run_at(Config {}, &input, &utc_clock(0)).unwrap();
    let expected = format!(
        "{}{}{}{}{}",
        HEADER,
        RULE,
        "alpha  |    1.5 |        |        |        |        |        |        |    1.5 |\n",
        RULE,
        "totals |    1.5 |        |        |        |        |        |        |    1.5 |\n",
    );
    assert_eq!(output, expected);
}

#[test]
fn two_projects_two_days() {
    let input = lines(&[
        "timesheet.projects: [\"alpha\",\"beta\"]",
        "[",
        "{\"id\":3,\"start\":\"20240108T090000Z\",\"end\":\"20240108T100000Z\",\"tags\":[\"alpha\"]},",
        "{\"id\":2,\"start\":\"20240108T100000Z\",\"end\":\"20240108T113000Z\",\"tags\":[\"beta\"]},",
        "{\"id\":1,\"start\":\"20240110T080000Z\",\"end\":\"20240110T091500Z\",\"tags\":[\"alpha\"]}",
        "]",
    ]);
    let output = run_at(Config {}, &input, &utc_clock(0)).unwrap();
    let expected = format!(
        "{}{}{}{}{}{}",
        HEADER,
        RULE,
        "alpha  |    1.0 |        |    1.3 |        |        |        |        |    2.3 |\n",
        "beta   |    1.5 |        |        |        |        |        |        |    1.5 |\n",
        RULE,
        "totals |    2.5 |        |    1.3 |        |        |        |        |    3.8 |\n",
    );
    assert_eq!(output, expected);
}

#[test]
fn ambiguous_project() {
    let kind = failure(&[
        "timesheet.projects: [\"alpha\",\"beta\"]",
        "[",
        "{\"id\":1,\"start\":\"20240108T090000Z\",\"end\":\"20240108T103000Z\",\"tags\":[\"alpha\",\"beta\"]}",
        "]",
    ]);
    assert_eq!(kind, ErrorKind::IntervalWithMoreThanOneProject);
}

#[test]
fn unmatched_project() {
    let kind = failure(&[
        "timesheet.projects: [\"alpha\"]",
        "[",
        "{\"id\":1,\"start\":\"20240108T090000Z\",\"end\":\"20240108T103000Z\",\"tags\":[\"meeting\"]}",
        "]",
    ]);
    assert_eq!(kind, ErrorKind::IntervalWithNoProjects);
}

#[test]
fn missing_projects_config() {
    let kind = failure(&[
        "verbose: on",
        "[",
        "{\"id\":1,\"start\":\"20240108T090000Z\",\"end\":\"20240108T103000Z\",\"tags\":[\"alpha\"]}",
        "]",
    ]);
    assert_eq!(kind, ErrorKind::NoProjectsDefinedInConfig);
}

#[test]
fn missing_projects_config_fails_at_the_sentinel() {
    // The body is never looked at: its record is not even JSON.
    let kind = failure(&["verbose: on", "[", "not a record", "]"]);
    assert_eq!(kind, ErrorKind::NoProjectsDefinedInConfig);
}

#[test]
fn open_interval() {
    let input = lines(&[
        "timesheet.projects: [\"alpha\"]",
        "[",
        "{\"id\":1,\"start\":\"20240108T090000Z\",\"end\":\"\",\"tags\":[\"alpha\"]}",
        "]",
    ]);
    let output = run_at(Config {}, &input, &utc_clock(1704704400 + 1800)).unwrap();
    let expected = format!(
        "{}{}{}{}{}",
        HEADER,
        RULE,
        "alpha  |    0.5 |        |        |        |        |        |        |    0.5 |\n",
        RULE,
        "totals |    0.5 |        |        |        |        |        |        |    0.5 |\n",
    );
    assert_eq!(output, expected);
}

#[test]
fn open_interval_without_an_end_member() {
    let input = lines(&[
        "timesheet.projects: [\"alpha\"]",
        "[",
        "{\"id\":1,\"start\":\"20240108T090000Z\",\"tags\":[\"alpha\"]}",
        "]",
    ]);
    let output = run_at(Config {}, &input, &utc_clock(1704704400 + 1800)).unwrap();
    assert!(output.contains("alpha  |    0.5 |"));
}

#[test]
fn empty_body_gives_blank_totals() {
    let input = lines(&["timesheet.projects: [\"alpha\"]", "[", "]"]);
    let output = run_at(Config {}, &input, &utc_clock(0)).unwrap();
    let expected = format!(
        "{}{}{}{}",
        HEADER,
        RULE,
        RULE,
        "totals |        |        |        |        |        |        |        |        |\n",
    );
    assert_eq!(output, expected);
}

#[test]
fn lines_that_end_in_the_header_give_the_empty_report() {
    let input = lines(&["timesheet.projects: [\"alpha\"]", "verbose: on"]);
    let output = run_at(Config {}, &input, &utc_clock(0)).unwrap();
    let expected = format!(
        "{}{}{}{}",
        HEADER,
        RULE,
        RULE,
        "totals |        |        |        |        |        |        |        |        |\n",
    );
    assert_eq!(output, expected);
}

#[test]
fn zero_length_interval_adds_nothing() {
    let with = lines(&[
        "timesheet.projects: [\"alpha\"]",
        "[",
        "{\"id\":1,\"start\":\"20240108T090000Z\",\"end\":\"20240108T103000Z\",\"tags\":[\"alpha\"]},",
        "{\"id\":2,\"start\":\"20240109T090000Z\",\"end\":\"20240109T090000Z\",\"tags\":[\"alpha\"]}",
        "]",
    ]);
    let without = lines(&[
        "timesheet.projects: [\"alpha\"]",
        "[",
        "{\"id\":1,\"start\":\"20240108T090000Z\",\"end\":\"20240108T103000Z\",\"tags\":[\"alpha\"]}",
        "]",
    ]);
    let clock = utc_clock(0);
    assert_eq!(run_at(Config {}, &with, &clock).unwrap(), run_at(Config {}, &without, &clock).unwrap());
}

#[test]
fn order_of_records_does_not_matter() {
    let records = [
        "{\"id\":3,\"start\":\"20240108T090000Z\",\"end\":\"20240108T100000Z\",\"tags\":[\"alpha\"]},",
        "{\"id\":2,\"start\":\"20240108T100000Z\",\"end\":\"20240108T113000Z\",\"tags\":[\"beta\"]},",
        "{\"id\":1,\"start\":\"20240110T080000Z\",\"end\":\"20240110T091500Z\",\"tags\":[\"alpha\"]},",
    ];
    let head = ["timesheet.projects: [\"beta\",\"alpha\"]", "["];
    let clock = utc_clock(0);
    let forward: Vec<&str> = head.iter().chain(records.iter()).copied().collect();
    let backward: Vec<&str> = head.iter().chain(records.iter().rev()).copied().collect();
    let first = run_at(Config {}, &lines(&forward), &clock).unwrap();
    let second = run_at(Config {}, &lines(&backward), &clock).unwrap();
    assert_eq!(first, second);
    assert!(first.find("alpha").unwrap() < first.find("beta").unwrap());
}

#[test]
fn projects_come_in_ascending_order_of_label() {
    let input = lines(&[
        "timesheet.projects: [\"b\",\"a\",\"B\",\"ab\",\"\u{e9}t\u{e9}\"]",
        "[",
        "{\"id\":1,\"start\":\"20240108T090000Z\",\"end\":\"20240108T100000Z\",\"tags\":[\"b\"]},",
        "{\"id\":2,\"start\":\"20240108T090000Z\",\"end\":\"20240108T100000Z\",\"tags\":[\"\u{e9}t\u{e9}\"]},",
        "{\"id\":3,\"start\":\"20240108T090000Z\",\"end\":\"20240108T100000Z\",\"tags\":[\"ab\"]},",
        "{\"id\":4,\"start\":\"20240108T090000Z\",\"end\":\"20240108T100000Z\",\"tags\":[\"a\"]},",
        "{\"id\":5,\"start\":\"20240108T090000Z\",\"end\":\"20240108T100000Z\",\"tags\":[\"B\"]},",
        "]",
    ]);
    let output = run_at(Config {}, &input, &utc_clock(0)).unwrap();
    let labels: Vec<&str> = output
        .lines()
        .skip(2)
        .take(5)
        .map(|line| line.split('|').next().unwrap().trim())
        .collect();
    assert_eq!(labels, vec!["B", "a", "ab", "b", "\u{e9}t\u{e9}"]);
}

#[test]
fn malformed_header_line() {
    let kind = failure(&["timesheet.projects: [\"alpha\"]", "no colon here", "[", "]"]);
    assert_eq!(kind, ErrorKind::FailedToParseConfigLine);
}

#[test]
fn malformed_projects_value() {
    assert_eq!(failure(&["timesheet.projects: {\"alpha\":1}", "[", "]"]), ErrorKind::FailedToParseConfig);
    assert_eq!(failure(&["timesheet.projects: [\"alpha\"", "[", "]"]), ErrorKind::FailedToParseConfig);
}

#[test]
fn empty_projects_array_fails_at_the_first_record() {
    let empty = lines(&["timesheet.projects: []", "[", "]"]);
    assert!(run_at(Config {}, &empty, &utc_clock(0)).is_ok());
    let kind = failure(&[
        "timesheet.projects: []",
        "[",
        "{\"id\":1,\"start\":\"20240108T090000Z\",\"end\":\"20240108T103000Z\",\"tags\":[\"alpha\"]}",
        "]",
    ]);
    assert_eq!(kind, ErrorKind::NoProjectsDefinedInConfig);
}

#[test]
fn malformed_record() {
    let head = ["timesheet.projects: [\"alpha\"]", "["];
    for record in [
        "{\"id\":1,\"start\":\"20240108T090000Z\"",
        "{\"start\":\"20240108T090000Z\",\"tags\":[\"alpha\"]}",
        "{\"id\":1,\"tags\":[\"alpha\"]}",
        "{\"id\":\"one\",\"start\":\"20240108T090000Z\",\"tags\":[\"alpha\"]}",
        "{\"id\":1,\"start\":\"20240108T090000Z\",\"tags\":\"alpha\"}",
        "{\"id\":1,\"start\":\"20240108T090000Z\",\"end\":null,\"tags\":[\"alpha\"]}",
        "[1,\"20240108T090000Z\"]",
        "[",
    ] {
        assert_eq!(failure(&[head[0], head[1], record]), ErrorKind::FailedToParseInclusions, "{}", record);
    }
}

#[test]
fn malformed_timestamp() {
    let head = ["timesheet.projects: [\"alpha\"]", "["];
    for stamp in [
        "2024-01-08T09:00:00Z",
        "20240108T090000",
        "20240108T0900000Z",
        "20240108 090000Z",
        "2024010xT090000Z",
        "20241308T090000Z",
        "20240230T090000Z",
        "20240108T240000Z",
        "20240108T096000Z",
        "20240108T090060Z",
        " 20240108T090000Z",
        "+2024108T090000Z",
    ] {
        let record = format!("{{\"id\":1,\"start\":\"{}\",\"end\":\"20240108T103000Z\",\"tags\":[\"alpha\"]}}", stamp);
        assert_eq!(failure(&[head[0], head[1], &record]), ErrorKind::FailedToParseTimestamp, "{}", stamp);
        let record = format!("{{\"id\":1,\"start\":\"20240108T090000Z\",\"end\":\"{}\",\"tags\":[\"alpha\"]}}", stamp);
        assert_eq!(failure(&[head[0], head[1], &record]), ErrorKind::FailedToParseTimestamp, "{}", stamp);
    }
}

#[test]
fn the_first_failure_is_reported() {
    let kind = failure(&[
        "timesheet.projects: [\"alpha\",\"beta\"]",
        "[",
        "{\"id\":1,\"start\":\"20240108T090000Z\",\"end\":\"20240108T103000Z\",\"tags\":[\"alpha\",\"beta\"]},",
        "not a record",
        "]",
    ]);
    assert_eq!(kind, ErrorKind::IntervalWithMoreThanOneProject);
    // The tags are looked at before the timestamps.
    let kind = failure(&[
        "timesheet.projects: [\"alpha\"]",
        "[",
        "{\"id\":1,\"start\":\"never\",\"tags\":[\"meeting\"]}",
    ]);
    assert_eq!(kind, ErrorKind::IntervalWithNoProjects);
}

#[test]
fn negative_durations_are_kept() {
    let input = lines(&[
        "timesheet.projects: [\"alpha\"]",
        "[",
        "{\"id\":1,\"start\":\"20240108T103000Z\",\"end\":\"20240108T090000Z\",\"tags\":[\"alpha\"]}",
        "]",
    ]);
    let output = run_at(Config {}, &input, &utc_clock(0)).unwrap();
    assert!(output.contains("alpha  |   -1.5 |        |        |        |        |        |        |   -1.5 |\n"));
    assert!(output.contains("totals |   -1.5 |        |        |        |        |        |        |   -1.5 |\n"));
}

#[test]
fn long_labels_widen_the_first_column() {
    let input = lines(&[
        "  timesheet.projects  :  [\"documentation\"]  ",
        "   [   ",
        "",
        "  ,{\"id\":1,\"start\":\"20240113T090000Z\",\"end\":\"20240113T090600Z\",\"tags\":[\"x\",\"documentation\"],\"extra\":{\"a\":[1,2]}},,  ",
        "  ]  ",
    ]);
    let output = run_at(Config {}, &input, &utc_clock(0)).unwrap();
    let expected = concat_lines(&[
        "              |    Mon |    Tue |    Wed |    Thu |    Fri |    Sat |    Sun |    Tot | ",
        "==============|========|========|========|========|========|========|========|========|",
        "documentation |        |        |        |        |        |    0.1 |        |    0.1 |",
        "==============|========|========|========|========|========|========|========|========|",
        "totals        |        |        |        |        |        |    0.1 |        |    0.1 |",
    ]);
    assert_eq!(output, expected);
}

fn concat_lines(text: &[&str]) -> String {
    let mut out = String::new();
    for line in text {
        out.push_str(line);
        out.push('\n');
    }
    out
}

#[test]
fn local_time_decides_the_weekday() {
    let input = lines(&[
        "timesheet.projects: [\"alpha\"]",
        "[",
        "{\"id\":1,\"start\":\"20240108T233000Z\",\"end\":\"20240109T003000Z\",\"tags\":[\"alpha\"]}",
        "]",
    ]);
    let east = Clock::Fixed(LocalInstant::new(0, 0, 3600).unwrap());
    let output = run_at(Config {}, &input, &east).unwrap();
    assert!(output.contains("alpha  |        |    1.0 |"));
    let west = Clock::Fixed(LocalInstant::new(0, 0, -3600).unwrap());
    let output = run_at(Config {}, &input, &west).unwrap();
    assert!(output.contains("alpha  |    1.0 |"));
}

#[test]
fn many_records() {
    let projects: Vec<String> = (0..40).map(|p| format!("project-{:02}", p)).collect();
    let mut input = vec![
        format!("timesheet.projects: [{}]", projects.iter().map(|p| format!("\"{}\"", p)).collect::<Vec<_>>().join(",")),
        "[".to_string(),
    ];
    for record in 0..4000 {
        let project = &projects[(record * 7) % 40];
        let minute = record % 60;
        input.push(format!(
            "{{\"id\":{},\"start\":\"202401{:02}T09{:02}00Z\",\"end\":\"202401{:02}T10{:02}00Z\",\"tags\":[\"note\",\"{}\"],\"annotation\":\"some words about the work that was done\"}},",
            record,
            8 + record % 7,
            minute,
            8 + record % 7,
            minute,
            project
        ));
    }
    input.push("]".to_string());
    let output = run_at(Config {}, &input, &utc_clock(0)).unwrap();
    assert_eq!(output.lines().count(), 44);
    // Four thousand hours in all; a hundred for each project.
    assert!(output.ends_with("| 4000.0 |\n"));
    assert!(output.contains("\nproject-39 |"));
    let first = output.lines().nth(2).unwrap();
    assert!(first.starts_with("project-00 |") && first.ends_with("|  100.0 |"), "{}", first);
}

#[test]
fn a_later_entry_overwrites_an_earlier_one() {
    let input = lines(&[
        "timesheet.projects: [\"alpha\"]",
        "timesheet.projects: [\"beta\"]",
        "[",
        "{\"id\":1,\"start\":\"20240108T090000Z\",\"end\":\"20240108T103000Z\",\"tags\":[\"alpha\",\"beta\"]}",
        "]",
    ]);
    let output = run_at(Config {}, &input, &utc_clock(0)).unwrap();
    assert!(output.contains("\nbeta   |    1.5 |"));
    assert!(!output.contains("alpha"));
}

#[test]
fn entries_after_the_sentinel_are_records() {
    let kind = failure(&["timesheet.projects: [\"alpha\"]", "[", "verbose: on", "]"]);
    assert_eq!(kind, ErrorKind::FailedToParseInclusions);
}

#[test]
fn by_the_clock_of_the_machine_an_extract_without_records_gives_the_empty_report() {
    let expected = format!(
        "{}{}{}{}",
        HEADER,
        RULE,
        RULE,
        "totals |        |        |        |        |        |        |        |        |\n",
    );
    for input in [
        lines(&[]),
        lines(&["timesheet.projects : [\"alpha\"]"]),
        lines(&["timesheet.projects : [\"alpha\"]", "[", "]"]),
        lines(&["timesheet.projects : [\"alpha\"]", "[", "", "  ", "]", "]"]),
    ] {
        assert_eq!(run(Config {}, &input).unwrap(), expected);
    }
}

#[test]
fn by_the_clock_of_the_machine_the_first_record_that_fails_decides() {
    let kind = |body: &[&str]| {
        let mut input = lines(&["timesheet.projects : [\"alpha\",\"beta\"]", "["]);
        input.extend(lines(body));
        run(Config {}, &input).unwrap_err().kind()
    };
    let good = "{\"id\":1,\"start\":\"20240108T090000Z\",\"end\":\"20240108T100000Z\",\"tags\":[\"alpha\"]},";
    let open = "{\"id\":1,\"start\":\"20240108T090000Z\",\"tags\":[\"alpha\"]},";
    let both = "{\"id\":1,\"start\":\"20240108T090000Z\",\"end\":\"20240108T100000Z\",\"tags\":[\"alpha\",\"beta\"]}";
    let none = "{\"id\":1,\"start\":\"20240108T090000Z\",\"end\":\"20240108T100000Z\",\"tags\":[\"meeting\"]}";
    let never = "{\"id\":1,\"start\":\"never\",\"tags\":[\"alpha\"]}";
    assert_eq!(kind(&[both, "]"]), ErrorKind::IntervalWithMoreThanOneProject);
    assert_eq!(kind(&[none, "]"]), ErrorKind::IntervalWithNoProjects);
    assert_eq!(kind(&["[", "]"]), ErrorKind::FailedToParseInclusions);
    assert_eq!(kind(&[never]), ErrorKind::FailedToParseTimestamp);
    assert_eq!(kind(&[good, open, "", none, both]), ErrorKind::IntervalWithNoProjects);
    assert_eq!(kind(&[open, both, never]), ErrorKind::IntervalWithMoreThanOneProject);
}

#[test]
fn blank_lines_and_commas_around_records_do_not_matter() {
    let head = ["timesheet.projects: [\"beta\",\"alpha\"]", "["];
    let first = [
        "{\"id\":3,\"start\":\"20240108T090000Z\",\"end\":\"20240108T100000Z\",\"tags\":[\"alpha\"]},",
        "{\"id\":2,\"start\":\"20240108T100000Z\",\"end\":\"20240108T113000Z\",\"tags\":[\"beta\"]}",
        "]",
    ];
    let second = [
        "",
        "  ,{\"id\":2,\"start\":\"20240108T100000Z\",\"end\":\"20240108T113000Z\",\"tags\":[\"beta\"]},,  ",
        "]",
        "\t{\"id\":3,\"start\":\"20240108T090000Z\",\"end\":\"20240108T100000Z\",\"tags\":[\"alpha\"]}",
    ];
    let clock = utc_clock(0);
    let one: Vec<&str> = head.iter().chain(first.iter()).copied().collect();
    let other: Vec<&str> = head.iter().chain(second.iter()).copied().collect();
    assert_eq!(run_at(Config {}, &lines(&one), &clock).unwrap(), run_at(Config {}, &lines(&other), &clock).unwrap());
    assert_eq!(run(Config {}, &lines(&one)).unwrap(), run(Config {}, &lines(&other)).unwrap());
}

#[test]
fn a_label_with_a_quote_heads_its_row() {
    let input = lines(&[
        "timesheet.projects: [\"a\\\"b\", \"plain\"]",
        "[",
        "{\"id\":1,\"start\":\"20240108T090000Z\",\"end\":\"20240108T103000Z\",\"tags\":[\"a\\\"b\"]}",
        "]",
    ]);
    let output = run_at(Config {}, &input, &utc_clock(0)).unwrap();
    assert!(output.contains("\na\"b    |    1.5 |"), "{}", output);
}
