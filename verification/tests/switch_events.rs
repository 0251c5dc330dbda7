use std::num::IntErrorKind;
use ttt::text::IntError;
use ttt::switch::{
    can_decide, decide_switch, parse_switch_line, CurrentVm, LineError, SwitchAction, SwitchEvent,
};

fn reference_parse(line: &str) -> Result<(i64, String), LineError> {
    let mut parts = line.trim().split(' ');
    let first = parts.next().unwrap();
    let time = first.parse::<i64>().map_err(|e| {
        LineError::InvalidTimestamp(match e.kind() {
            IntErrorKind::Empty => IntError::Empty,
            IntErrorKind::InvalidDigit => IntError::InvalidDigit,
            IntErrorKind::PosOverflow => IntError::PosOverflow,
            IntErrorKind::NegOverflow => IntError::NegOverflow,
            _ => panic!("unexpected error kind"),
        })
    })?;
    let qube = parts.next().ok_or(LineError::MissingQube)?;
    Ok((time, qube.to_string()))
}

fn parsed(line: &str) -> Result<(i64, String), LineError> {
    parse_switch_line(line).map(|e| (e.time, e.qube))
}

#[test]
fn reads_time_and_qube() {
    assert_eq!(parsed("1600000000 work"), Ok((1600000000, "work".to_string())));
}

#[test]
fn trims_surrounding_white_space() {
    assert_eq!(parsed("  \t12 personal \r\n"), Ok((12, "personal".to_string())));
    assert_eq!(parsed("\u{a0}12 personal\u{3000}"), Ok((12, "personal".to_string())));
}

#[test]
fn missing_qube_is_refused() {
    assert_eq!(parsed("12"), Err(LineError::MissingQube));
    assert_eq!(parsed("12   "), Err(LineError::MissingQube));
}

#[test]
fn bad_timestamps_are_refused() {
    assert_eq!(parsed("x work"), Err(LineError::InvalidTimestamp(IntError::InvalidDigit)));
    assert_eq!(parsed(""), Err(LineError::InvalidTimestamp(IntError::Empty)));
    assert_eq!(parsed(" work"), Err(LineError::InvalidTimestamp(IntError::InvalidDigit)));
    assert_eq!(parsed("- work"), Err(LineError::InvalidTimestamp(IntError::InvalidDigit)));
    assert_eq!(parsed("+ work"), Err(LineError::InvalidTimestamp(IntError::InvalidDigit)));
    assert_eq!(parsed("12\twork"), Err(LineError::InvalidTimestamp(IntError::InvalidDigit)));
    assert_eq!(parsed("9223372036854775808 work"), Err(LineError::InvalidTimestamp(IntError::PosOverflow)));
    assert_eq!(parsed("-9223372036854775809 work"), Err(LineError::InvalidTimestamp(IntError::NegOverflow)));
    assert_eq!(parsed("99999999999999999999x work"), Err(LineError::InvalidTimestamp(IntError::PosOverflow)));
    assert_eq!(parsed("1x99999999999999999999 work"), Err(LineError::InvalidTimestamp(IntError::InvalidDigit)));
    assert_eq!(parsed("1x x"), Err(LineError::InvalidTimestamp(IntError::InvalidDigit)));
}

#[test]
fn signs_and_limits() {
    assert_eq!(parsed("+5 q"), Ok((5, "q".to_string())));
    assert_eq!(parsed("-5 q"), Ok((-5, "q".to_string())));
    assert_eq!(parsed("9223372036854775807 q"), Ok((i64::MAX, "q".to_string())));
    assert_eq!(parsed("-9223372036854775808 q"), Ok((i64::MIN, "q".to_string())));
    assert_eq!(parsed("0007 q"), Ok((7, "q".to_string())));
}

#[test]
fn only_the_second_field_is_the_qube() {
    assert_eq!(parsed("12  work"), Ok((12, String::new())));
    assert_eq!(parsed("12 work extra fields"), Ok((12, "work".to_string())));
    assert_eq!(parsed("12 sys-net\tx"), Ok((12, "sys-net\tx".to_string())));
    assert_eq!(parsed("12 dom0"), Ok((12, "dom0".to_string())));
    assert_eq!(parsed("12 zażółć"), Ok((12, "zażółć".to_string())));
}

#[test]
fn agrees_with_std_parsing() {
    let lines = [
        "1 a", " 2 b ", "3", "", " ", "a b", "-0 z", "+0 z", "00 z", "12345678901234567890 q",
        "4 \u{2003}x", "5 a\u{2003}", "\u{85}6 b", "7 b c d", "8  ", "9 é ", "-1 -1",
        "-9223372036854775808 m", "9223372036854775807 m", "-9223372036854775809 m",
        "922337203685477580 m", "9223372036854775810 m", "1a1 m", "+-1 m", "--1 m", "١ m",
    ];
    for line in lines.iter() {
        assert_eq!(parsed(line), reference_parse(line), "line {:?}", line);
    }
}

#[test]
fn error_messages() {
    assert_eq!(LineError::MissingQube.message(), "Missing name of the VM");
    assert_eq!(LineError::InvalidTimestamp(IntError::Empty).message(), "cannot parse integer from empty string");
    assert_eq!(LineError::InvalidTimestamp(IntError::InvalidDigit).message(), "invalid digit found in string");
    assert_eq!(LineError::InvalidTimestamp(IntError::PosOverflow).message(), "number too large to fit in target type");
    assert_eq!(LineError::InvalidTimestamp(IntError::NegOverflow).message(), "number too small to fit in target type");
    for text in ["x", "99999999999999999999", "-99999999999999999999"] {
        let std_message = text.parse::<i64>().err().unwrap().to_string();
        match parsed(&format!("{} q", text)) {
            Err(e) => assert_eq!(e.message(), std_message),
            Ok(_) => panic!("expected an error"),
        }
    }
}

fn event(time: i64, qube: &str) -> SwitchEvent {
    SwitchEvent { time, qube: qube.to_string() }
}

#[test]
fn first_switch_starts() {
    assert!(matches!(decide_switch(None, &event(100, "work")), SwitchAction::Start));
}

#[test]
fn later_switch_records_the_previous_qube() {
    let current = Some(CurrentVm { qube: "work".to_string(), begin: 100 });
    match decide_switch(current, &event(160, "personal")) {
        SwitchAction::Record(r) => {
            assert_eq!(r.qube, "work");
            assert_eq!(r.begin, 100);
            assert_eq!(r.duration, 60);
        }
        _ => panic!("expected an interval"),
    }
}

#[test]
fn same_second_switch_replaces_the_current_qube() {
    let current = Some(CurrentVm { qube: "work".to_string(), begin: 100 });
    assert!(matches!(decide_switch(current, &event(100, "personal")), SwitchAction::Replace));
}

#[test]
fn earlier_switch_is_discarded() {
    let current = Some(CurrentVm { qube: "work".to_string(), begin: 100 });
    assert!(matches!(decide_switch(current, &event(40, "personal")), SwitchAction::Discard));
}

#[test]
fn overflowing_duration_cannot_be_decided() {
    let current = Some(CurrentVm { qube: "work".to_string(), begin: i64::MIN });
    assert!(!can_decide(&current, 1));
    assert!(can_decide(&current, -1));
    assert!(can_decide(&None, i64::MAX));
}

/// Replays switches through the decision, keeping the store in memory.
fn replay(events: &[(i64, &str)]) -> (Option<(String, i64)>, Vec<(String, i64, i64)>) {
    let mut current: Option<(String, i64)> = None;
    let mut intervals = Vec::new();
    for (time, qube) in events {
        let stored = current.clone().map(|(q, b)| CurrentVm { qube: q, begin: b });
        match decide_switch(stored, &event(*time, qube)) {
            SwitchAction::Start => current = Some((qube.to_string(), *time)),
            SwitchAction::Record(r) => {
                intervals.push((r.qube, r.begin, r.duration));
                current = Some((qube.to_string(), *time));
            }
            SwitchAction::Replace => current = Some((qube.to_string(), *time)),
            SwitchAction::Discard => {}
        }
    }
    (current, intervals)
}

#[test]
fn increasing_switches_tile_the_time() {
    let (current, intervals) = replay(&[(10, "a"), (15, "b"), (30, "a"), (31, "c")]);
    assert_eq!(current, Some(("c".to_string(), 31)));
    assert_eq!(
        intervals,
        vec![("a".to_string(), 10, 5), ("b".to_string(), 15, 15), ("a".to_string(), 30, 1)]
    );
    let total: i64 = intervals.iter().map(|i| i.2).sum();
    assert_eq!(total, 31 - 10);
}

#[test]
fn earlier_switches_change_nothing() {
    let (current, intervals) = replay(&[(10, "a"), (5, "c"), (20, "d")]);
    assert_eq!(current, Some(("d".to_string(), 20)));
    assert_eq!(intervals, vec![("a".to_string(), 10, 10)]);
}

#[test]
fn switches_in_the_same_second_keep_the_last_one() {
    let (current, intervals) = replay(&[(100, "a"), (100, "b"), (160, "c")]);
    assert_eq!(current, Some(("c".to_string(), 160)));
    assert_eq!(intervals, vec![("b".to_string(), 100, 60)]);
}

#[test]
fn recorder_statements() {
    use_statements();
}

fn texts(st: &ttt::sql::SqlStatement) -> Vec<String> {
    st.params
        .iter()
        .map(|p| match p {
            ttt::sql::SqlValue::Integer(i) => format!("i{}", i),
            ttt::sql::SqlValue::Text(t) => format!("t{}", t),
        })
        .collect()
}

fn use_statements() {
    let q = ttt::switch::current_vm_query();
    assert_eq!(q.sql, "SELECT vm, begin FROM current_vm LIMIT 1");
    assert!(q.params.is_empty());
    let r = ttt::switch::replace_current_statement(&event(160, "work"));
    assert_eq!(r.sql, "REPLACE INTO current_vm VALUES(?, ?, 0);");
    assert_eq!(texts(&r), vec!["twork", "i160"]);
    let rec = ttt::switch::IntervalRecord { qube: "mail".to_string(), begin: 100, duration: 60 };
    let i = ttt::switch::insert_interval_statement(&rec);
    assert_eq!(i.sql, "INSERT INTO intervals VALUES(?, ?, ?)");
    assert_eq!(texts(&i), vec!["tmail", "i100", "i60"]);
}
