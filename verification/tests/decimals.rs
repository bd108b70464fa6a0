use rust_decimal::{Decimal, RoundingStrategy};
use timewarrior_timesheet_report::{Interval, LocalInstant, Options, Report};

/// The first cell of the report on one interval of `seconds` that begins at the epoch.
fn cell_of(seconds: i64) -> String {
    let start = LocalInstant::new(0, 0, 0).unwrap();
    let end = LocalInstant::new(seconds, 0, 0).unwrap();
    let interval = Interval::spanning("p".to_string(), &start, &end, None);
    let report = Report::from_intervals(&Options::new(), &vec![interval]).render();
    let line = report.lines().find(|line| line.starts_with("p ")).unwrap();
    line.split('|').nth(4).unwrap().trim().to_string()
}

/// The same hours by decimal arithmetic: seconds over 3600, rounded at one
/// digit with ties away from zero.
fn hours_of(seconds: i64) -> String {
    let hours = (Decimal::new(seconds, 0) / Decimal::new(3600, 0))
        .round_dp_with_strategy(1, RoundingStrategy::MidpointAwayFromZero);
    if hours.is_zero() {
        String::new()
    } else {
        format!("{:.1}", hours)
    }
}

#[test]
fn cells_agree_with_decimal_arithmetic() {
    for seconds in -4000..4000 {
        assert_eq!(cell_of(seconds), hours_of(seconds), "{} seconds", seconds);
    }
    for hours in 0..2000 {
        for around in [-181, -180, -179, -1, 0, 1, 179, 180, 181] {
            let seconds: i64 = hours * 3571 + around;
            assert_eq!(cell_of(seconds), hours_of(seconds), "{} seconds", seconds);
            assert_eq!(cell_of(-seconds), hours_of(-seconds), "{} seconds", -seconds);
        }
    }
    for seconds in [86_400 * 365, 86_400 * 366 + 179, 86_400 * 36_500 + 180, 1 << 40, (1 << 47) + 12_345] {
        assert_eq!(cell_of(seconds), hours_of(seconds), "{} seconds", seconds);
        assert_eq!(cell_of(-seconds), hours_of(-seconds), "{} seconds", -seconds);
    }
}
