use ttt::sql::{SqlStatement, SqlValue};
use ttt::stats::{
    duration_seconds_valid, group_stats_query, qube_stats_query, split_duration, stats_report,
    table_lines, Interval, TimeSpent, Timestamp, MAX_DURATION_SECONDS,
};

fn ints_and_texts(st: &SqlStatement) -> Vec<String> {
    st.params
        .iter()
        .map(|p| match p {
            SqlValue::Integer(i) => format!("i{}", i),
            SqlValue::Text(t) => format!("t{}", t),
        })
        .collect()
}

fn interval(from: i64, to: Option<i64>) -> Interval {
    Interval { from: Timestamp::from_seconds(from), to: to.map(Timestamp::from_seconds) }
}

#[test]
fn timestamp_keeps_its_seconds() {
    assert_eq!(Timestamp::from_seconds(-42).seconds(), -42);
}

#[test]
fn open_interval_for_all_qubes() {
    let q = qube_stats_query(&interval(1000, None), None);
    assert_eq!(q.sql, "SELECT vm, SUM(duration) FROM intervals LEFT OUTER JOIN vms ON intervals.vm = vms.name WHERE intervals.begin >= ? AND vms.group_id IS NULL GROUP BY intervals.vm ORDER BY intervals.vm ASC");
    assert_eq!(ints_and_texts(&q), vec!["i1000"]);
    let g = group_stats_query(&interval(1000, None), None);
    assert_eq!(g.sql, "SELECT groups.name, SUM(duration) FROM intervals INNER JOIN vms ON intervals.vm = vms.name INNER JOIN groups ON vms.group_id = groups.id WHERE intervals.begin >= ? GROUP BY groups.name ORDER BY groups.name ASC");
    assert_eq!(ints_and_texts(&g), vec!["i1000"]);
}

#[test]
fn open_interval_for_one_qube() {
    let q = qube_stats_query(&interval(5, None), Some("work"));
    assert_eq!(q.sql, "SELECT vm, SUM(duration) FROM intervals LEFT OUTER JOIN vms ON intervals.vm = vms.name WHERE intervals.begin >= ? AND intervals.vm = ? AND vms.group_id IS NULL");
    assert_eq!(ints_and_texts(&q), vec!["i5", "twork"]);
    let g = group_stats_query(&interval(5, None), Some("work"));
    assert_eq!(g.sql, "SELECT vm, SUM(duration) FROM intervals INNER JOIN vms ON intervals.vm = vms.name INNER JOIN groups ON vms.group_id = groups.id WHERE intervals.begin >= ? AND intervals.vm = ?");
    assert_eq!(ints_and_texts(&g), vec!["i5", "twork"]);
}

#[test]
fn bounded_interval_for_all_qubes() {
    let q = qube_stats_query(&interval(5, Some(9)), None);
    assert_eq!(q.sql, "SELECT vm, SUM(duration) FROM intervals LEFT OUTER JOIN vms ON intervals.vm = vms.name WHERE intervals.begin >= ? AND intervals.begin + intervals.duration < ? AND vms.group_id IS NULL GROUP BY intervals.vm ORDER BY intervals.vm ASC");
    assert_eq!(ints_and_texts(&q), vec!["i5", "i9"]);
    let g = group_stats_query(&interval(5, Some(9)), None);
    assert_eq!(g.sql, "SELECT vm, SUM(duration) FROM intervals INNER JOIN vms ON intervals.vm = vms.name INNER JOIN groups ON vms.group_id = groups.id WHERE intervals.begin >= ? AND intervals.begin + intervals.duration < ? GROUP BY intervals.vm ORDER BY intervals.vm ASC");
    assert_eq!(ints_and_texts(&g), vec!["i5", "i9"]);
}

#[test]
fn bounded_interval_for_one_qube() {
    let q = qube_stats_query(&interval(5, Some(9)), Some("work"));
    assert_eq!(q.sql, "SELECT vm, SUM(duration) FROM intervals LEFT OUTER JOIN vms ON intervals.vm = vms.name WHERE intervals.begin >= ? AND intervals.vm = ? AND intervals.begin + intervals.duration < ? AND vms.group_id IS NULL");
    assert_eq!(ints_and_texts(&q), vec!["i5", "i9", "twork"]);
    let g = group_stats_query(&interval(5, Some(9)), Some("work"));
    assert_eq!(g.sql, "SELECT vm, SUM(duration) FROM intervals INNER JOIN vms ON intervals.vm = vms.name INNER JOIN groups ON vms.group_id = groups.id WHERE intervals.begin >= ? AND intervals.vm = ? AND intervals.begin + intervals.duration < ?");
    assert_eq!(ints_and_texts(&g), vec!["i5", "i9", "twork"]);
}

#[test]
fn durations_split_into_hours_minutes_seconds() {
    assert_eq!(split_duration(3661), (1, 1, 1));
    assert_eq!(split_duration(59), (0, 0, 59));
    assert_eq!(split_duration(0), (0, 0, 0));
    assert_eq!(split_duration(7200), (2, 0, 0));
    assert_eq!(split_duration(-3661), (-1, -1, -1));
    assert_eq!(split_duration(-61), (0, -1, -1));
    let (h, m, s) = split_duration(i64::MIN);
    assert_eq!(h as i128 * 3600 + m as i128 * 60 + s as i128, i64::MIN as i128);
    let (h, m, s) = split_duration(i64::MAX);
    assert_eq!(h as i128 * 3600 + m as i128 * 60 + s as i128, i64::MAX as i128);
}

#[test]
fn duration_range() {
    assert_eq!(MAX_DURATION_SECONDS, i64::MAX / 1000);
    assert!(duration_seconds_valid(MAX_DURATION_SECONDS));
    assert!(duration_seconds_valid(-MAX_DURATION_SECONDS));
    assert!(!duration_seconds_valid(MAX_DURATION_SECONDS + 1));
    assert!(!duration_seconds_valid(-MAX_DURATION_SECONDS - 1));
}

fn row(name: &str, seconds: i64) -> TimeSpent {
    TimeSpent { name: name.to_string(), seconds }
}

#[test]
fn table_pads_to_the_widest_name() {
    let lines = table_lines("Qube", "Time spent", &vec![row("work", 3661), row("personal-long", 60)]);
    assert_eq!(
        lines,
        vec![
            "Qube          | Time spent".to_string(),
            "work          | 1:1:1".to_string(),
            "personal-long | 0:1:0".to_string(),
        ]
    );
}

#[test]
fn header_can_be_widest() {
    let lines = table_lines("Group", "Time spent", &vec![row("a", 0)]);
    assert_eq!(lines, vec!["Group | Time spent".to_string(), "a     | 0:0:0".to_string()]);
}

#[test]
fn empty_table_has_only_the_header() {
    let lines = table_lines("Qube", "Time spent", &vec![]);
    assert_eq!(lines, vec!["Qube | Time spent".to_string()]);
}

#[test]
fn widths_count_bytes() {
    let lines = table_lines("Qube", "T", &vec![row("żż", 1), row("abc", -1)]);
    assert_eq!(lines, vec!["Qube | T".to_string(), "żż | 0:0:1".to_string(), "abc  | 0:0:-1".to_string()]);
    for l in &lines {
        assert_eq!(l.find(" | "), Some(4));
    }
}

#[test]
fn report_has_groups_then_qubes() {
    let lines = stats_report(&vec![row("clients", 90061)], &vec![row("dom0", 5)]);
    assert_eq!(
        lines,
        vec![
            "Group   | Time spent".to_string(),
            "clients | 25:1:1".to_string(),
            String::new(),
            "Qube | Time spent".to_string(),
            "dom0 | 0:0:5".to_string(),
        ]
    );
}

#[test]
fn every_placeholder_has_a_parameter() {
    for to in [None, Some(9)] {
        for vm in [None, Some("work")] {
            for q in [qube_stats_query(&interval(5, to), vm), group_stats_query(&interval(5, to), vm)] {
                assert_eq!(q.sql.matches('?').count(), q.params.len(), "{}", q.sql);
            }
        }
    }
}
