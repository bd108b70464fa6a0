use timewarrior_timesheet_report::clock::{decode_instant, has_timestamp_shape};
use timewarrior_timesheet_report::driver::parse_header_line;
use timewarrior_timesheet_report::interval::{label_from, labels_from_texts};
use timewarrior_timesheet_report::order::{rank, Rank};
use timewarrior_timesheet_report::render::decimal_string;
use timewarrior_timesheet_report::text::{find_char, same_text, strip, trim, Trim};
use timewarrior_timesheet_report::{
    run, Clock, Config, Error, ErrorKind, Inclusion, Interval, IntervalFactory, LocalInstant,
    Options, Report,
};

fn strings(text: &[&str]) -> Vec<String> {
    text.iter().map(|item| item.to_string()).collect()
}

fn utc(seconds: i64) -> LocalInstant {
    LocalInstant::new(seconds, 0, 0).unwrap()
}

fn factory(projects: &[&str]) -> IntervalFactory {
    let mut factory = IntervalFactory::new();
    factory.set_projects(strings(projects));
    factory
}

fn inclusion(start: &str, end: &str, tags: &[&str]) -> Inclusion {
    Inclusion {
        id: 1,
        start: start.to_string(),
        end: end.to_string(),
        tags: strings(tags),
        annotation: String::new(),
    }
}

/// An interval of `seconds` on `project` that begins `day` days after the Monday of
/// 2024-01-08, in UTC.
fn interval(project: &str, day: i64, seconds: i64) -> Interval {
    let start = utc(1704672000 + day * 86400);
    let end = utc(1704672000 + day * 86400 + seconds);
    Interval::spanning(project.to_string(), &start, &end, None)
}

/// The cells of the line of `label` in a rendered report.
fn cells(report: &str, label: &str) -> Vec<String> {
    let line = report
        .lines()
        .find(|line| line.split('|').next().unwrap().trim_end() == label)
        .unwrap();
    line.split('|').skip(1).take(8).map(|cell| cell.trim().to_string()).collect()
}

#[test]
fn trim_strips_whitespace_at_both_ends() {
    assert_eq!(trim("  key  "), "key");
    assert_eq!(trim("\t a b \r\n"), "a b");
    assert_eq!(trim("\u{a0}\u{2003}x\u{3000}\u{85}"), "x");
    assert_eq!(trim("   "), "");
    assert_eq!(trim(""), "");
    assert_eq!(trim("x"), "x");
    // A zero-width space is no whitespace.
    assert_eq!(trim("\u{200b}x"), "\u{200b}x");
    for text in ["  a ", "\u{1680}b\u{2028}\u{2029}", "\u{202f}c\u{205f}", "\u{b}\u{c}d", "\u{1c}e"] {
        assert_eq!(trim(text), text.trim(), "{:?}", text);
    }
}

#[test]
fn strip_takes_one_character_from_both_ends() {
    assert_eq!(strip(",,{\"a\":1},", Trim::Exactly(',')), "{\"a\":1}");
    assert_eq!(strip("\"alpha\"", Trim::Exactly('"')), "alpha");
    assert_eq!(strip("\"\"a\"b\"\"", Trim::Exactly('"')), "a\"b");
    assert_eq!(strip("\"\"", Trim::Exactly('"')), "");
    assert_eq!(strip("key:", Trim::Exactly(':')), "key");
    assert_eq!(strip(" ,x, ", Trim::Exactly(',')), " ,x, ");
}

#[test]
fn find_char_gives_the_first_position() {
    assert_eq!(find_char("a:b:c", ':'), Some(1));
    assert_eq!(find_char(":", ':'), Some(0));
    assert_eq!(find_char("abc", ':'), None);
    assert_eq!(find_char("", ':'), None);
    // Positions count characters, not bytes.
    assert_eq!(find_char("\u{e9}t\u{e9}:x", ':'), Some(3));
}

#[test]
fn same_text_is_equality() {
    assert!(same_text("", ""));
    assert!(same_text("[", "["));
    assert!(!same_text("[", "]"));
    assert!(!same_text("ab", "abc"));
    assert!(!same_text("abc", "ab"));
}

#[test]
fn rank_orders_as_strings_are_ordered() {
    let labels = ["", "a", "A", "ab", "b", "alpha", "beta", "\u{e9}", "z", "\u{10000}", "\u{ffff}", "a\u{0}"];
    for a in labels {
        for b in labels {
            let expected = if a < b {
                Rank::Before
            } else if a == b {
                Rank::Same
            } else {
                Rank::After
            };
            assert_eq!(rank(a, b), expected, "{:?} and {:?}", a, b);
        }
    }
}

#[test]
fn options_keep_the_last_value_of_a_key() {
    let mut options = Options::new();
    assert_eq!(options.get("a"), None);
    options.insert("a".to_string(), "1".to_string());
    options.insert("b".to_string(), "2".to_string());
    assert_eq!(options.get("a"), Some("1"));
    options.insert("a".to_string(), "3".to_string());
    assert_eq!(options.get("a"), Some("3"));
    assert_eq!(options.get("b"), Some("2"));
    assert_eq!(options.get("c"), None);
}

#[test]
fn header_line_is_split_at_the_first_colon() {
    let (key, value) = parse_header_line("  key  :  value  ").unwrap();
    assert_eq!((key.as_str(), value.as_str()), ("key", "value"));
    let (key, value) = parse_header_line("timesheet.projects: [\"a:b\", \"c\"]").unwrap();
    assert_eq!((key.as_str(), value.as_str()), ("timesheet.projects", "[\"a:b\", \"c\"]"));
    let (key, value) = parse_header_line("temp.report.start:20240108T000000Z").unwrap();
    assert_eq!((key.as_str(), value.as_str()), ("temp.report.start", "20240108T000000Z"));
    let (key, value) = parse_header_line("empty:").unwrap();
    assert_eq!((key.as_str(), value.as_str()), ("empty", ""));
    let (key, value) = parse_header_line(" : x").unwrap();
    assert_eq!((key.as_str(), value.as_str()), ("", "x"));
    assert_eq!(parse_header_line("no colon").unwrap_err().kind(), ErrorKind::FailedToParseConfigLine);
}

#[test]
fn errors_carry_what_the_decoder_reported() {
    let error = IntervalFactory::new().parse_projects("[\"alpha\"").unwrap_err();
    assert!(error.cause().unwrap().contains("EOF"), "{:?}", error);
    let error = Inclusion::decode("{\"id\":\"one\",\"start\":\"S\"}").unwrap_err();
    assert!(error.cause().unwrap().contains("invalid type"), "{:?}", error);
    // A member that is missing is no report of the decoder.
    assert!(Inclusion::decode("{\"id\":1}").unwrap_err().cause().is_none());
    let clock = Clock::Fixed(LocalInstant::new(0, 0, 0).unwrap());
    let error = decode_instant("20240230T090000Z", &clock).unwrap_err();
    assert!(error.cause().unwrap().contains("OutOfRange"), "{:?}", error);
    // A text that has not the shape of a timestamp never reaches the parser.
    assert!(decode_instant("2024-02-30", &clock).unwrap_err().cause().is_none());
    assert!(Error::new(ErrorKind::IntervalWithNoProjects).cause().is_none());
    let error = Error::from_json(ErrorKind::FailedToParseConfig, "report".to_string());
    assert_eq!((error.kind(), error.cause()), (ErrorKind::FailedToParseConfig, Some("report")));
    let error = Error::from_timestamp(ErrorKind::FailedToParseTimestamp, "report".to_string());
    assert_eq!((error.kind(), error.cause()), (ErrorKind::FailedToParseTimestamp, Some("report")));
}

#[test]
fn error_default_is_unknown() {
    assert_eq!(Error::default().kind(), ErrorKind::Unknown);
    assert_eq!(Error::new(ErrorKind::FailedToParseConfig).kind(), ErrorKind::FailedToParseConfig);
}

#[test]
fn timestamps_cover_the_years_of_four_digits() {
    let clock = Clock::Fixed(LocalInstant::new(0, 0, 0).unwrap());
    let epoch = LocalInstant::new(0, 0, 0).unwrap();
    let first = decode_instant("00000101T000000Z", &clock).unwrap();
    assert_eq!(epoch.seconds_until(&first), -62_167_219_200);
    let last = decode_instant("99991231T235959Z", &clock).unwrap();
    assert_eq!(epoch.seconds_until(&last), 253_402_300_799);
    assert!(clock.locate(-62_167_219_200, 0).is_some());
    assert!(clock.locate(-62_167_219_201, 0).is_none());
    assert!(clock.locate(253_402_300_799, 0).is_some());
    assert!(clock.locate(253_402_300_800, 0).is_none());
    assert!(clock.locate(0, 2_000_000_000).is_none());
    // The clock of the machine knows an offset for each of them.
    assert!(Clock::System.locate(-62_167_219_200, 0).is_some());
    assert!(Clock::System.locate(253_402_300_799, 0).is_some());
    assert!(Clock::System.locate(253_402_300_800, 0).is_none());
    assert!(IntervalFactory::string_to_datetime("00000101T000000Z").is_ok());
    assert!(IntervalFactory::string_to_datetime("99991231T235959Z").is_ok());
    assert_eq!(clock.now().offset(), 0);
    assert!(epoch.seconds_until(&Clock::System.now()) > 1_704_067_200);
}

#[test]
fn instants_are_bounded() {
    assert!(LocalInstant::new(0, 0, 0).is_some());
    assert!(LocalInstant::new(0, 1_999_999_999, 86_399).is_some());
    assert!(LocalInstant::new(0, 2_000_000_000, 0).is_none());
    assert!(LocalInstant::new(0, 0, 86_400).is_none());
    assert!(LocalInstant::new(0, 0, -86_400).is_none());
    assert!(LocalInstant::new(1 << 48, 0, 0).is_none());
    assert!(LocalInstant::new(-(1 << 48), 0, 0).is_none());
    assert!(LocalInstant::new((1 << 48) - 1, 0, 0).is_some());
    assert_eq!(LocalInstant::new(5, 0, -3600).unwrap().offset(), -3600);
}

#[test]
fn weekday_counts_from_monday() {
    // 1970-01-01 was a Thursday.
    assert_eq!(utc(0).weekday(), 3);
    assert_eq!(utc(-1).weekday(), 2);
    assert_eq!(utc(86_399).weekday(), 3);
    assert_eq!(utc(86_400).weekday(), 4);
    // 2024-01-08 was a Monday, 2023-12-31 a Sunday, 2024-02-29 a Thursday.
    assert_eq!(utc(1704704400).weekday(), 0);
    assert_eq!(utc(1704065400).weekday(), 6);
    assert_eq!(utc(1709208000).weekday(), 3);
    // 1969-12-29 was a Monday.
    assert_eq!(utc(-3 * 86_400).weekday(), 0);
    // Half an hour before midnight in UTC is the next day an hour to the east.
    assert_eq!(LocalInstant::new(1704065400, 0, 3600).unwrap().weekday(), 0);
    assert_eq!(LocalInstant::new(1704704400, 0, -10 * 3600).unwrap().weekday(), 6);
}

#[test]
fn elapsed_seconds_round_towards_zero() {
    let at = |seconds: i64, nanos: u32| LocalInstant::new(seconds, nanos, 0).unwrap();
    assert_eq!(at(10, 0).seconds_until(&at(10, 0)), 0);
    assert_eq!(at(10, 0).seconds_until(&at(5410, 0)), 5400);
    assert_eq!(at(5410, 0).seconds_until(&at(10, 0)), -5400);
    assert_eq!(at(10, 0).seconds_until(&at(11, 999_999_999)), 1);
    assert_eq!(at(10, 500_000_000).seconds_until(&at(12, 0)), 1);
    assert_eq!(at(12, 0).seconds_until(&at(10, 500_000_000)), -1);
    assert_eq!(at(10, 500_000_000).seconds_until(&at(10, 0)), 0);
    // The offset does not matter.
    let east = LocalInstant::new(100, 0, 7200).unwrap();
    assert_eq!(at(40, 0).seconds_until(&east), 60);
}

#[test]
fn timestamp_shape_is_strict() {
    assert!(has_timestamp_shape("20240108T090000Z"));
    assert!(has_timestamp_shape("99999999T999999Z"));
    for text in ["", "20240108T090000", "20240108t090000Z", "20240108T090000z", "2024-01-08T09:00Z", "20240108T0900000Z", "2024010\u{662}T090000Z"] {
        assert!(!has_timestamp_shape(text), "{:?}", text);
    }
}

#[test]
fn timestamps_are_read_as_utc() {
    let clock = Clock::Fixed(LocalInstant::new(77, 5, -3600).unwrap());
    let instant = decode_instant("20240108T090000Z", &clock).unwrap();
    assert_eq!(utc(0).seconds_until(&instant), 1704704400);
    assert_eq!(instant.offset(), -3600);
    assert_eq!(utc(0).seconds_until(&decode_instant("19700101T000000Z", &clock).unwrap()), 0);
    assert_eq!(utc(0).seconds_until(&decode_instant("19691231T235959Z", &clock).unwrap()), -1);
    assert_eq!(utc(0).seconds_until(&decode_instant("20240229T120000Z", &clock).unwrap()), 1709208000);
    // The empty text is the instant at which the clock stands.
    let now = decode_instant("", &clock).unwrap();
    assert_eq!(utc(0).seconds_until(&now), 77);
    assert_eq!(now.offset(), -3600);
    for text in ["20230229T120000Z", "20240100T120000Z", "20240108T090060Z", "x"] {
        assert_eq!(decode_instant(text, &clock).unwrap_err().kind(), ErrorKind::FailedToParseTimestamp);
    }
}

#[test]
fn string_to_datetime_uses_the_clock_of_the_machine() {
    let instant = IntervalFactory::string_to_datetime("20240108T090000Z").unwrap();
    assert_eq!(utc(0).seconds_until(&instant), 1704704400);
    assert!(instant.weekday() < 7);
    let now = IntervalFactory::string_to_datetime("").unwrap();
    // The clock of the machine reads a time after 2024 and before 2100.
    let since = utc(1704067200).seconds_until(&now);
    assert!(since > 0 && since < 2_400_000_000);
    let error = IntervalFactory::string_to_datetime("2024-01-08").unwrap_err();
    assert_eq!(error.kind(), ErrorKind::FailedToParseTimestamp);
}

#[test]
fn labels_are_the_strings_themselves() {
    let labels = labels_from_texts(&strings(&["\"alpha\"", "5", "\"\\\"q\\\"\"", "null", "\"\"", "[\"a\"]"]));
    assert_eq!(labels, strings(&["alpha", "5", "\"q\"", "null", "", "[\"a\"]"]));
    // An escape in the JSON text stands for the character.
    let labels = labels_from_texts(&strings(&["\"a\\\"b\"", "\"a\\nb\"", "\"a\\\\b\"", "\"\\u00e9t\\u00e9\"", "1.50", "{\"k\":\"v\"}"]));
    assert_eq!(labels, strings(&["a\"b", "a\nb", "a\\b", "\u{e9}t\u{e9}", "1.50", "{\"k\":\"v\"}"]));
    assert_eq!(labels[0].chars().count(), 3);
    assert_eq!(labels[1].chars().count(), 3);
}

#[test]
fn a_label_is_the_string_or_else_the_text_without_quotes() {
    assert_eq!(label_from("\"a\\\"b\"", Some("a\"b".to_string())), "a\"b");
    assert_eq!(label_from("\"a\\nb\"", Some("a\nb".to_string())), "a\nb");
    assert_eq!(label_from("\"\"", Some(String::new())), "");
    assert_eq!(label_from("5", None), "5");
    assert_eq!(label_from("[\"a\"]", None), "[\"a\"]");
    assert_eq!(label_from("\"x\"", None), "x");
}

#[test]
fn projects_are_the_elements_of_a_json_array() {
    let mut factory = IntervalFactory::new();
    assert!(!factory.contains("alpha"));
    factory.parse_projects(" [ \"alpha\" , \"b\\u0065ta\", 5, \"a b\", \"alpha\" ] ").unwrap();
    assert!(factory.contains("alpha"));
    assert!(factory.contains("beta"));
    assert!(factory.contains("5"));
    assert!(factory.contains("a b"));
    assert!(!factory.contains("\"alpha\""));
    assert!(!factory.contains("gamma"));
    // A value that is no array fails and changes nothing.
    for json in ["\"alpha\"", "{\"alpha\":1}", "[\"alpha\"", "", "[] []", "alpha"] {
        assert_eq!(factory.parse_projects(json).unwrap_err().kind(), ErrorKind::FailedToParseConfig, "{}", json);
        assert!(factory.contains("beta"));
    }
    factory.parse_projects("[\"gamma\"]").unwrap();
    assert!(factory.contains("gamma"));
    assert!(!factory.contains("alpha"));
}

#[test]
fn a_project_with_an_escaped_quote_is_the_string_with_the_quote() {
    let mut factory = IntervalFactory::new();
    factory.parse_projects("[\"a\\\"b\"]").unwrap();
    assert!(factory.contains("a\"b"));
    assert!(!factory.contains("a\\\"b"));
    assert_eq!(factory.resolve(&strings(&["a\"b"])).unwrap(), "a\"b");
    let clock = Clock::Fixed(LocalInstant::new(0, 0, 0).unwrap());
    let raw = "{\"id\":1,\"start\":\"20240108T090000Z\",\"end\":\"20240108T100000Z\",\"tags\":[\"a\\\"b\"]}";
    assert_eq!(factory.new_interval_at(raw, &clock).unwrap().project(), "a\"b");
}

#[test]
fn a_project_with_an_escaped_control_character_is_the_string_with_the_character() {
    let mut factory = IntervalFactory::new();
    factory.parse_projects("[\"a\\nb\", \"tab\\there\"]").unwrap();
    assert!(factory.contains("a\nb"));
    assert!(factory.contains("tab\there"));
    assert!(!factory.contains("a\\nb"));
    let clock = Clock::Fixed(LocalInstant::new(0, 0, 0).unwrap());
    let raw = "{\"id\":1,\"start\":\"20240108T090000Z\",\"end\":\"20240108T100000Z\",\"tags\":[\"a\\u000ab\"]}";
    assert_eq!(factory.new_interval_at(raw, &clock).unwrap().project(), "a\nb");
}

#[test]
fn records_are_decoded_with_defaults() {
    let record = Inclusion::decode("{\"id\":7,\"start\":\"20240108T090000Z\"}").unwrap();
    assert_eq!(record.id, 7);
    assert_eq!(record.start, "20240108T090000Z");
    assert_eq!(record.end, "");
    assert!(record.tags.is_empty());
    assert_eq!(record.annotation, "");
    let record = Inclusion::decode(
        " { \"annotation\" : \"caf\\u00e9 \\\"x\\\"\", \"tags\" : [ \"a\" , \"b c\" ], \"end\":\"E\", \"start\":\"S\", \"id\" : -3, \"more\": {\"id\": [1, {\"start\": null}]} } ",
    )
    .unwrap();
    assert_eq!(record.id, -3);
    assert_eq!(record.start, "S");
    assert_eq!(record.end, "E");
    assert_eq!(record.tags, strings(&["a", "b c"]));
    assert_eq!(record.annotation, "caf\u{e9} \"x\"");
    for raw in [
        "",
        "{}",
        "{\"id\":1}",
        "{\"start\":\"S\"}",
        "{\"id\":1.5,\"start\":\"S\"}",
        "{\"id\":2147483648,\"start\":\"S\"}",
        "{\"id\":1,\"start\":5}",
        "{\"id\":1,\"start\":\"S\",\"end\":5}",
        "{\"id\":1,\"start\":\"S\",\"tags\":[1]}",
        "{\"id\":1,\"start\":\"S\",\"tags\":{}}",
        "{\"id\":1,\"start\":\"S\",\"annotation\":[]}",
        "{\"id\":1,\"start\":\"S\"} x",
        "[1,\"S\"]",
        "null",
    ] {
        assert_eq!(Inclusion::decode(raw).unwrap_err().kind(), ErrorKind::FailedToParseInclusions, "{}", raw);
    }
    assert_eq!(Inclusion::decode("{\"id\":2147483647,\"start\":\"S\"}").unwrap().id, i32::MAX);
}

#[test]
fn records_are_made_of_members() {
    let members = vec![
        ("start".to_string(), "\"S\"".to_string()),
        ("id".to_string(), "4".to_string()),
        ("tags".to_string(), "[\"t\"]".to_string()),
        ("id".to_string(), "5".to_string()),
    ];
    let record = Inclusion::from_fields(&members).unwrap();
    assert_eq!((record.id, record.start.as_str(), record.end.as_str()), (4, "S", ""));
    assert_eq!(record.tags, strings(&["t"]));
    assert!(Inclusion::from_fields(&members[..1].to_vec()).is_err());
}

#[test]
fn the_one_project_among_the_tags_is_found() {
    let projects = factory(&["alpha", "beta"]);
    assert_eq!(projects.resolve(&strings(&["alpha"])).unwrap(), "alpha");
    assert_eq!(projects.resolve(&strings(&["meeting", "beta", "x"])).unwrap(), "beta");
    let kind = |tags: &[&str]| projects.resolve(&strings(tags)).unwrap_err().kind();
    assert_eq!(kind(&[]), ErrorKind::IntervalWithNoProjects);
    assert_eq!(kind(&["meeting"]), ErrorKind::IntervalWithNoProjects);
    assert_eq!(kind(&["Alpha"]), ErrorKind::IntervalWithNoProjects);
    assert_eq!(kind(&["alpha", "beta"]), ErrorKind::IntervalWithMoreThanOneProject);
    assert_eq!(kind(&["alpha", "x", "alpha"]), ErrorKind::IntervalWithMoreThanOneProject);
    assert_eq!(IntervalFactory::new().resolve(&strings(&["alpha"])).unwrap_err().kind(), ErrorKind::NoProjectsDefinedInConfig);
    assert_eq!(factory(&[]).resolve(&strings(&["alpha"])).unwrap_err().kind(), ErrorKind::NoProjectsDefinedInConfig);
}

#[test]
fn an_empty_tag_never_fills_the_slot() {
    let projects = factory(&["", "alpha"]);
    assert_eq!(projects.resolve(&strings(&["", "alpha"])).unwrap(), "alpha");
    assert_eq!(projects.resolve(&strings(&[""])).unwrap_err().kind(), ErrorKind::IntervalWithNoProjects);
    assert_eq!(projects.resolve(&strings(&["alpha", ""])).unwrap_err().kind(), ErrorKind::IntervalWithMoreThanOneProject);
}

#[test]
fn new_interval_is_an_empty_one() {
    let interval = Interval::new();
    assert_eq!(interval.project(), "");
    assert_eq!(interval.total_seconds(), 0);
    assert_eq!(interval.weekday(), 0);
}

#[test]
fn intervals_are_built_from_records() {
    let projects = factory(&["alpha", "beta"]);
    let clock = Clock::Fixed(LocalInstant::new(1704873600 + 1800, 250, 0).unwrap());
    let built = projects.build(inclusion("20240110T080000Z", "20240110T091500Z", &["x", "beta"]), &clock).unwrap();
    assert_eq!((built.project(), built.total_seconds(), built.weekday()), ("beta", 4500, 2));
    let open = projects.build(inclusion("20240110T080000Z", "", &["alpha"]), &clock).unwrap();
    assert_eq!((open.project(), open.total_seconds(), open.weekday()), ("alpha", 1800, 2));
    let both = projects.build(inclusion("", "", &["alpha"]), &clock).unwrap();
    assert_eq!((both.total_seconds(), both.weekday()), (0, 2));
    let backwards = projects.build(inclusion("", "20240110T080000Z", &["alpha"]), &clock).unwrap();
    assert_eq!(backwards.total_seconds(), -1800);
    let kind = |record: Inclusion| projects.build(record, &clock).unwrap_err().kind();
    assert_eq!(kind(inclusion("bad", "20240110T091500Z", &["alpha"])), ErrorKind::FailedToParseTimestamp);
    assert_eq!(kind(inclusion("20240110T080000Z", "bad", &["alpha"])), ErrorKind::FailedToParseTimestamp);
    assert_eq!(kind(inclusion("bad", "bad", &["alpha", "beta"])), ErrorKind::IntervalWithMoreThanOneProject);
    assert_eq!(kind(inclusion("bad", "bad", &[])), ErrorKind::IntervalWithNoProjects);
}

#[test]
fn new_interval_checks_the_projects_first() {
    let raw = "{\"id\":1,\"start\":\"20240108T090000Z\",\"end\":\"20240108T103000Z\",\"tags\":[\"alpha\"]}";
    assert_eq!(IntervalFactory::new().new_interval(raw).unwrap_err().kind(), ErrorKind::NoProjectsDefinedInConfig);
    assert_eq!(IntervalFactory::new().new_interval("junk").unwrap_err().kind(), ErrorKind::NoProjectsDefinedInConfig);
    assert_eq!(factory(&[]).new_interval("junk").unwrap_err().kind(), ErrorKind::NoProjectsDefinedInConfig);
    let projects = factory(&["alpha"]);
    assert_eq!(projects.new_interval("junk").unwrap_err().kind(), ErrorKind::FailedToParseInclusions);
    let built = projects.new_interval(raw).unwrap();
    assert_eq!((built.project(), built.total_seconds()), ("alpha", 5400));
    assert!(built.weekday() < 7);
    let east = Clock::Fixed(LocalInstant::new(0, 0, 16 * 3600).unwrap());
    assert_eq!(projects.new_interval_at(raw, &east).unwrap().weekday(), 1);
}

#[test]
fn run_by_the_clock_of_the_machine() {
    let input = strings(&[
        "timesheet.projects: [\"alpha\"]",
        "[",
        "{\"id\":1,\"start\":\"20240110T120000Z\",\"end\":\"20240110T133000Z\",\"tags\":[\"alpha\"]}",
        "]",
    ]);
    let output = run(Config {}, &input).unwrap();
    // Whatever the time zone, noon in UTC falls on Wednesday or a day next to it.
    let row = cells(&output, "alpha");
    assert_eq!(row[7], "1.5");
    assert_eq!(row.iter().filter(|cell| cell.as_str() == "1.5").count(), 2);
    assert!(row[1] == "1.5" || row[2] == "1.5" || row[3] == "1.5");
    let kind = run(Config {}, &strings(&["x"])).unwrap_err().kind();
    assert_eq!(kind, ErrorKind::FailedToParseConfigLine);
}

#[test]
fn decimals_have_one_fractional_digit() {
    assert_eq!(decimal_string(15), "1.5");
    assert_eq!(decimal_string(1), "0.1");
    assert_eq!(decimal_string(10), "1.0");
    assert_eq!(decimal_string(0), "0.0");
    assert_eq!(decimal_string(-5), "-0.5");
    assert_eq!(decimal_string(-1234), "-123.4");
    assert_eq!(decimal_string(1_000_000), "100000.0");
    assert_eq!(decimal_string(i128::MAX), "17014118346046923173168730371588410572.7");
    assert_eq!(decimal_string(i128::MIN), "-17014118346046923173168730371588410572.8");
}

#[test]
fn seconds_are_rounded_to_tenths_half_away_from_zero() {
    for (seconds, expected) in [
        (0, ""),
        (179, ""),
        (180, "0.1"),
        (539, "0.1"),
        (540, "0.2"),
        (3600, "1.0"),
        (4500, "1.3"),
        (5400, "1.5"),
        (86_400, "24.0"),
        (-179, ""),
        (-180, "-0.1"),
        (-539, "-0.1"),
        (-540, "-0.2"),
        (-5400, "-1.5"),
        (359_999_820, "100000.0"),
    ] {
        let report = Report::from_intervals(&Options::new(), &vec![interval("p", 0, seconds)]);
        let row = cells(&report.render(), "p");
        assert_eq!(row[0], expected, "{} seconds", seconds);
        assert_eq!(row[7], expected, "{} seconds", seconds);
    }
}

#[test]
fn seconds_of_a_cell_are_summed_before_rounding() {
    // Twice 100 seconds are 0.06 hours, which is 0.1; each alone is nothing.
    let intervals = vec![interval("p", 0, 100), interval("p", 0, 100), interval("p", 1, 100)];
    let report = Report::from_intervals(&Options::new(), &intervals).render();
    assert_eq!(cells(&report, "p"), strings(&["0.1", "", "", "", "", "", "", "0.1"]));
}

#[test]
fn totals_are_sums_of_rounded_cells() {
    // 0.05 hours on each of seven days: each cell is 0.1, the row total 0.7,
    // though 0.35 hours are 0.4 at most.
    let mut intervals = Vec::new();
    for day in 0..7 {
        intervals.push(interval("a", day, 180));
        intervals.push(interval("b", day, 180));
    }
    intervals.push(interval("c", 6, -7200));
    let report = Report::from_intervals(&Options::new(), &intervals).render();
    assert_eq!(cells(&report, "a"), strings(&["0.1", "0.1", "0.1", "0.1", "0.1", "0.1", "0.1", "0.7"]));
    assert_eq!(cells(&report, "b"), strings(&["0.1", "0.1", "0.1", "0.1", "0.1", "0.1", "0.1", "0.7"]));
    assert_eq!(cells(&report, "c"), strings(&["", "", "", "", "", "", "-2.0", "-2.0"]));
    assert_eq!(cells(&report, "totals"), strings(&["0.2", "0.2", "0.2", "0.2", "0.2", "0.2", "-1.8", "-0.6"]));
}

#[test]
fn cells_that_cancel_are_blank() {
    let intervals = vec![interval("a", 2, 3600), interval("a", 2, -3600), interval("b", 2, 3600), interval("c", 2, -3600)];
    let report = Report::from_intervals(&Options::new(), &intervals).render();
    assert_eq!(cells(&report, "a"), strings(&["", "", "", "", "", "", "", ""]));
    assert_eq!(cells(&report, "totals"), strings(&["", "", "", "", "", "", "", ""]));
    assert_eq!(cells(&report, "b")[2], "1.0");
    assert_eq!(cells(&report, "c")[2], "-1.0");
}

#[test]
fn wide_cells_are_not_cut() {
    let intervals = vec![interval("p", 4, 36_000_000_000)];
    let report = Report::from_intervals(&Options::new(), &intervals).render();
    assert!(report.contains("p      |        |        |        |        | 10000000.0 |        |        | 10000000.0 |\n"));
}

#[test]
fn label_width_counts_bytes_and_padding_counts_characters() {
    let intervals = vec![interval("\u{e9}t\u{e9}s", 0, 3600)];
    let report = Report::from_intervals(&Options::new(), &intervals).render();
    // Four characters in six bytes: the column is six wide either way.
    assert!(report.contains("\n\u{e9}t\u{e9}s   |    1.0 |"));
    let intervals = vec![interval("\u{e9}\u{e9}\u{e9}\u{e9}", 0, 3600)];
    let report = Report::from_intervals(&Options::new(), &intervals).render();
    // Four characters in eight bytes: the column is eight wide.
    assert!(report.starts_with("         |    Mon |"));
    assert!(report.contains("\n\u{e9}\u{e9}\u{e9}\u{e9}     |    1.0 |"));
    assert!(report.contains("\ntotals   |    1.0 |"));
}

#[test]
fn the_same_intervals_in_any_order_give_the_same_report() {
    let make = |order: &[usize]| {
        let all = [("b", 0, 100), ("a", 3, 4000), ("b", 0, 90), ("c", 6, -500), ("a", 3, 1400)];
        let intervals: Vec<Interval> = order.iter().map(|&i| interval(all[i].0, all[i].1, all[i].2)).collect();
        Report::from_intervals(&Options::new(), &intervals).render()
    };
    let first = make(&[0, 1, 2, 3, 4]);
    for order in [[4, 3, 2, 1, 0], [2, 0, 4, 1, 3], [1, 4, 3, 0, 2]] {
        assert_eq!(make(&order), first);
    }
    assert_eq!(cells(&first, "a"), strings(&["", "", "", "1.5", "", "", "", "1.5"]));
    assert_eq!(cells(&first, "b"), strings(&["0.1", "", "", "", "", "", "", "0.1"]));
    assert_eq!(cells(&first, "c"), strings(&["", "", "", "", "", "", "-0.1", "-0.1"]));
}

#[test]
fn an_interval_of_no_length_changes_no_cell() {
    let with = vec![interval("a", 1, 3600), interval("a", 1, 0), interval("a", 5, 0)];
    let without = vec![interval("a", 1, 3600)];
    let options = Options::new();
    assert_eq!(Report::from_intervals(&options, &with).render(), Report::from_intervals(&options, &without).render());
    // Alone it still brings its row, with every cell blank.
    let alone = Report::from_intervals(&options, &vec![interval("b", 1, 0)]).render();
    assert_eq!(cells(&alone, "b"), strings(&["", "", "", "", "", "", "", ""]));
}
