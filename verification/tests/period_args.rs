use chrono::Datelike;
use ttt::period::{
    interval_from_midnights, interval_of, weekday_from_monday, Period, UNIX_EPOCH_DAY,
    can_resolve, instant_bound, parse_command, parse_period_args, resolve_period, week_start,
    Bound, Command, CommandError, PeriodError, PeriodRequest, FIRST_CALENDAR_DAY,
    LAST_CALENDAR_DAY,
};

fn args(a: &[&str]) -> Vec<String> {
    a.iter().map(|s| s.to_string()).collect()
}

// 2024-05-15, a Wednesday.
const WEDNESDAY: i32 = 739021;

fn midnight(b: &Bound) -> i32 {
    match b {
        Bound::LocalMidnight(d) => *d,
        Bound::Instant(_) => panic!("expected a day"),
    }
}

fn instant(b: &Bound) -> i64 {
    match b {
        Bound::Instant(t) => t.seconds(),
        Bound::LocalMidnight(_) => panic!("expected an instant"),
    }
}

#[test]
fn commands() {
    assert_eq!(parse_command(&args(&["ttt", "stats", "today"])).ok(), Some(Command::Stats));
    assert!(matches!(parse_command(&args(&[])), Err(CommandError::MissingProgramName)));
    assert!(matches!(parse_command(&args(&["ttt"])), Err(CommandError::MissingCommand)));
    match parse_command(&args(&["ttt", "group"])) {
        Err(e @ CommandError::UnknownCommand(_)) => assert_eq!(e.message(), "unknown command: group"),
        _ => panic!("expected an unknown command"),
    }
    assert_eq!(CommandError::MissingCommand.message(), "no command given, available commands: stats");
    assert_eq!(CommandError::MissingProgramName.message(), "not even zeroth argument present");
}

#[test]
fn period_words() {
    assert!(matches!(parse_period_args(&args(&["today"])), Ok(PeriodRequest::Today)));
    assert!(matches!(parse_period_args(&args(&["yesterday", "x"])), Ok(PeriodRequest::Yesterday)));
    assert!(matches!(parse_period_args(&args(&["this", "week"])), Ok(PeriodRequest::ThisWeek)));
    assert!(matches!(parse_period_args(&args(&["this", "month"])), Ok(PeriodRequest::ThisMonth)));
    assert!(matches!(parse_period_args(&args(&["this", "year"])), Ok(PeriodRequest::ThisYear)));
}

#[test]
fn period_errors() {
    let e = parse_period_args(&args(&[])).err().unwrap();
    assert!(matches!(e, PeriodError::MissingPeriod));
    assert_eq!(e.message(), "udefined period, known periods: today, yesterday, this {week,month,year}, 'start datetime' {day,week,month,year}, 'start datetime' 'end datetime'");
    let e = parse_period_args(&args(&["this"])).err().unwrap();
    assert!(matches!(e, PeriodError::MissingUnit));
    assert_eq!(e.message(), "missing either week, month, or year");
    let e = parse_period_args(&args(&["this", "decade"])).err().unwrap();
    assert_eq!(e.message(), "unknown period decade, known periods: week, month, year");
}

#[test]
fn ranges_keep_their_texts() {
    match parse_period_args(&args(&["2024-01-01T00:00:00Z"])) {
        Ok(PeriodRequest::Range { begin, end }) => {
            assert_eq!(begin, "2024-01-01T00:00:00Z");
            assert_eq!(end, None);
        }
        _ => panic!("expected a range"),
    }
    match parse_period_args(&args(&["a", "b", "c"])) {
        Ok(PeriodRequest::Range { begin, end }) => {
            assert_eq!(begin, "a");
            assert_eq!(end, Some("b".to_string()));
        }
        _ => panic!("expected a range"),
    }
}

#[test]
fn week_starts_on_monday() {
    assert_eq!(week_start(WEDNESDAY), WEDNESDAY - 2);
    assert_eq!(week_start(739019), 739019);
    assert_eq!(week_start(739025), 739019);
    assert_eq!(week_start(1), 1);
}

#[test]
fn today_and_yesterday() {
    let p = resolve_period(&PeriodRequest::Today, WEDNESDAY).ok().unwrap();
    assert_eq!(midnight(&p.begin), WEDNESDAY);
    assert!(p.end.is_none());
    let p = resolve_period(&PeriodRequest::Yesterday, WEDNESDAY).ok().unwrap();
    assert_eq!(midnight(&p.begin), WEDNESDAY - 1);
    assert_eq!(midnight(p.end.as_ref().unwrap()), WEDNESDAY);
}

#[test]
fn this_week_month_year() {
    let p = resolve_period(&PeriodRequest::ThisWeek, WEDNESDAY).ok().unwrap();
    assert_eq!(midnight(&p.begin), 739019);
    let p = resolve_period(&PeriodRequest::ThisMonth, WEDNESDAY).ok().unwrap();
    assert_eq!(midnight(&p.begin), 739007);
    let p = resolve_period(&PeriodRequest::ThisYear, WEDNESDAY).ok().unwrap();
    assert_eq!(midnight(&p.begin), 738886);
    // 2024-02-29 lies in February of a leap year.
    let p = resolve_period(&PeriodRequest::ThisMonth, 738945).ok().unwrap();
    assert_eq!(midnight(&p.begin), 738917);
    // 2023-12-31 is the last day of 2023.
    let p = resolve_period(&PeriodRequest::ThisYear, 738885).ok().unwrap();
    assert_eq!(midnight(&p.begin), 738521);
}

#[test]
fn ranges_are_read_as_instants() {
    let req = PeriodRequest::Range { begin: "2024-05-15T10:00:00+02:00".to_string(), end: None };
    let p = resolve_period(&req, WEDNESDAY).ok().unwrap();
    assert_eq!(instant(&p.begin), 1715760000);
    assert!(p.end.is_none());
    let req = PeriodRequest::Range {
        begin: "2024-05-15 08:00:00Z".to_string(),
        end: Some("2024-05-15T09:00:00+00:00".to_string()),
    };
    let p = resolve_period(&req, WEDNESDAY).ok().unwrap();
    assert_eq!(instant(&p.begin), 1715760000);
    assert_eq!(instant(p.end.as_ref().unwrap()), 1715763600);
}

#[test]
fn bad_dates_are_refused() {
    let req = PeriodRequest::Range { begin: "last tuesday".to_string(), end: None };
    match resolve_period(&req, WEDNESDAY) {
        Err(PeriodError::InvalidDateTime { text, reason }) => {
            assert_eq!(text, "last tuesday");
            assert!(!reason.is_empty());
        }
        _ => panic!("expected a refusal"),
    }
    let req = PeriodRequest::Range { begin: "2024-05-15T10:00:00Z".to_string(), end: Some("soon".to_string()) };
    match resolve_period(&req, WEDNESDAY) {
        Err(e @ PeriodError::InvalidDateTime { .. }) => {
            let expected = "soon".parse::<chrono::DateTime<chrono::FixedOffset>>().err().unwrap().to_string();
            assert_eq!(e.message(), expected);
        }
        _ => panic!("expected a refusal"),
    }
}

#[test]
fn instant_bounds() {
    assert_eq!(instant(&instant_bound(&"x".to_string(), Ok(7)).ok().unwrap()), 7);
    match instant_bound(&"x".to_string(), Err("bad".to_string())) {
        Err(PeriodError::InvalidDateTime { text, reason }) => {
            assert_eq!(text, "x");
            assert_eq!(reason, "bad");
        }
        _ => panic!("expected a refusal"),
    }
}

#[test]
fn calendar_limits() {
    let first = chrono::NaiveDate::MIN;
    let last = chrono::NaiveDate::MAX;
    assert_eq!(first.num_days_from_ce(), FIRST_CALENDAR_DAY);
    assert_eq!(last.num_days_from_ce(), LAST_CALENDAR_DAY);
    assert!(can_resolve(&PeriodRequest::Today, FIRST_CALENDAR_DAY));
    assert!(!can_resolve(&PeriodRequest::Yesterday, FIRST_CALENDAR_DAY));
    assert!(can_resolve(&PeriodRequest::Yesterday, FIRST_CALENDAR_DAY + 1));
    assert!(!can_resolve(&PeriodRequest::Today, LAST_CALENDAR_DAY + 1));
    // The first day is a Thursday: its week begins before the calendar does.
    assert!(!can_resolve(&PeriodRequest::ThisWeek, FIRST_CALENDAR_DAY));
    assert!(can_resolve(&PeriodRequest::ThisWeek, FIRST_CALENDAR_DAY + 4));
    assert!(can_resolve(&PeriodRequest::ThisWeek, WEDNESDAY));
}

#[test]
fn weekdays_agree_with_chrono() {
    for day in [1, 2, 7, 8, 738886, 739021, 739025, -365, 0] {
        let d = chrono::NaiveDate::from_num_days_from_ce_opt(day).unwrap();
        let monday = d - chrono::Duration::days(d.weekday().num_days_from_monday() as i64);
        assert_eq!(week_start(day), monday.num_days_from_ce());
    }
}

#[test]
fn weekdays_are_counted_from_monday() {
    for day in [1, 2, 7, 8, 739019, 739021, -365, 0, FIRST_CALENDAR_DAY, LAST_CALENDAR_DAY] {
        let d = chrono::NaiveDate::from_num_days_from_ce_opt(day).unwrap();
        assert_eq!(weekday_from_monday(day) as u32, d.weekday().num_days_from_monday());
    }
}

#[test]
fn intervals_keep_instants() {
    let p = Period {
        begin: Bound::Instant(ttt::stats::Timestamp::from_seconds(10)),
        end: Some(Bound::Instant(ttt::stats::Timestamp::from_seconds(20))),
    };
    let i = interval_of(p).unwrap();
    assert_eq!(i.from.seconds(), 10);
    assert_eq!(i.to.unwrap().seconds(), 20);
    let p = Period { begin: Bound::Instant(ttt::stats::Timestamp::from_seconds(-5)), end: None };
    let i = interval_of(p).unwrap();
    assert_eq!(i.from.seconds(), -5);
    assert!(i.to.is_none());
}

#[test]
fn days_become_local_midnights() {
    use_local_midnight(WEDNESDAY);
}

fn use_local_midnight(day: i32) {
    let date = chrono::NaiveDate::from_num_days_from_ce_opt(day).unwrap();
    let expected = chrono::TimeZone::from_local_datetime(&chrono::Local, &date.and_hms_opt(0, 0, 0).unwrap())
        .single()
        .map(|dt| dt.timestamp());
    let p = Period { begin: Bound::LocalMidnight(day), end: Some(Bound::LocalMidnight(day + 1)) };
    match (interval_of(p), expected) {
        (Some(i), Some(e)) => {
            assert_eq!(i.from.seconds(), e);
            assert!(i.to.unwrap().seconds() > e);
        }
        (None, None) => {}
        _ => panic!("the interval does not follow the local time zone"),
    }
}

#[test]
fn intervals_from_given_midnights() {
    let p = Period { begin: Bound::LocalMidnight(WEDNESDAY - 1), end: Some(Bound::LocalMidnight(WEDNESDAY)) };
    let i = interval_from_midnights(p, Some(100), Some(200)).unwrap();
    assert_eq!(i.from.seconds(), 100);
    assert_eq!(i.to.unwrap().seconds(), 200);
    let p = Period { begin: Bound::LocalMidnight(WEDNESDAY), end: None };
    assert!(interval_from_midnights(p, None, Some(5)).is_none());
    let p = Period { begin: Bound::LocalMidnight(WEDNESDAY - 1), end: Some(Bound::LocalMidnight(WEDNESDAY)) };
    assert!(interval_from_midnights(p, Some(1), None).is_none());
    let p = Period {
        begin: Bound::Instant(ttt::stats::Timestamp::from_seconds(7)),
        end: Some(Bound::Instant(ttt::stats::Timestamp::from_seconds(9))),
    };
    let i = interval_from_midnights(p, None, None).unwrap();
    assert_eq!(i.from.seconds(), 7);
    assert_eq!(i.to.unwrap().seconds(), 9);
}

#[test]
fn local_midnights_lie_within_a_day_of_utc_midnight() {
    assert_eq!(chrono::NaiveDate::from_ymd_opt(1970, 1, 1).unwrap().num_days_from_ce(), UNIX_EPOCH_DAY);
    for day in [WEDNESDAY, 738886, 719163, 1] {
        let p = Period { begin: Bound::LocalMidnight(day), end: None };
        if let Some(i) = interval_of(p) {
            let utc = (day as i64 - UNIX_EPOCH_DAY as i64) * 86400;
            assert!((i.from.seconds() - utc).abs() < 86400);
        }
    }
}
