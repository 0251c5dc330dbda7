//! Statistics: which queries select the time spent per qube and per group
//! over an interval, and how the results are laid out as a table.
use vstd::prelude::*;
use crate::sql::{SqlStatement, SqlValue, SqlValueView, params_view, statement};
use crate::text::{
    byte_len, decimal_text, lemma_byte_len_concat, lemma_byte_len_spaces,
    lemma_decimal_text_reads_back, push_decimal, push_spaces, spaces, writes_decimal,
};

verus! {

/// A point in time, in seconds since the Unix epoch.
pub struct Timestamp(i64);

impl View for Timestamp {
    type V = int;

    closed spec fn view(&self) -> int {
        self.0 as int
    }
}

impl Timestamp {
    /// The point `seconds` seconds after the Unix epoch.
    pub fn from_seconds(seconds: i64) -> (t: Timestamp)
        ensures
            t@ == seconds,
    {
        Timestamp(seconds)
    }

    /// Seconds since the Unix epoch.
    pub fn seconds(&self) -> (s: i64)
        ensures
            s == self@,
    {
        self.0
    }
}

/// The period over which statistics are gathered: from `from`, and up to
/// `to` where there is one.
pub struct Interval {
    pub from: Timestamp,
    pub to: Option<Timestamp>,
}

pub open spec fn optional_seconds(t: Option<Timestamp>) -> Option<int> {
    match t {
        Some(v) => Some(v@),
        None => None,
    }
}

pub open spec fn optional_text(t: Option<&str>) -> Option<Seq<char>> {
    match t {
        Some(v) => Some(v@),
        None => None,
    }
}

// ---------------------------------------------------------------------------
// Queries
// ---------------------------------------------------------------------------

/// The query for the time spent in each qube that belongs to no group.
pub open spec fn qube_stats_sql(bounded: bool, one_qube: bool) -> Seq<char> {
    if !bounded && !one_qube {
        "SELECT vm, SUM(duration) FROM intervals LEFT OUTER JOIN vms ON intervals.vm = vms.name WHERE intervals.begin >= ? AND vms.group_id IS NULL GROUP BY intervals.vm ORDER BY intervals.vm ASC"@
    } else if !bounded {
        "SELECT vm, SUM(duration) FROM intervals LEFT OUTER JOIN vms ON intervals.vm = vms.name WHERE intervals.begin >= ? AND intervals.vm = ? AND vms.group_id IS NULL"@
    } else if !one_qube {
        "SELECT vm, SUM(duration) FROM intervals LEFT OUTER JOIN vms ON intervals.vm = vms.name WHERE intervals.begin >= ? AND intervals.begin + intervals.duration < ? AND vms.group_id IS NULL GROUP BY intervals.vm ORDER BY intervals.vm ASC"@
    } else {
        "SELECT vm, SUM(duration) FROM intervals LEFT OUTER JOIN vms ON intervals.vm = vms.name WHERE intervals.begin >= ? AND intervals.vm = ? AND intervals.begin + intervals.duration < ? AND vms.group_id IS NULL"@
    }
}

/// The query for the time spent in each group (or, with one qube named,
/// in that qube where it belongs to a group).
pub open spec fn group_stats_sql(bounded: bool, one_qube: bool) -> Seq<char> {
    if !bounded && !one_qube {
        "SELECT groups.name, SUM(duration) FROM intervals INNER JOIN vms ON intervals.vm = vms.name INNER JOIN groups ON vms.group_id = groups.id WHERE intervals.begin >= ? GROUP BY groups.name ORDER BY groups.name ASC"@
    } else if !bounded {
        "SELECT vm, SUM(duration) FROM intervals INNER JOIN vms ON intervals.vm = vms.name INNER JOIN groups ON vms.group_id = groups.id WHERE intervals.begin >= ? AND intervals.vm = ?"@
    } else if !one_qube {
        "SELECT vm, SUM(duration) FROM intervals INNER JOIN vms ON intervals.vm = vms.name INNER JOIN groups ON vms.group_id = groups.id WHERE intervals.begin >= ? AND intervals.begin + intervals.duration < ? GROUP BY intervals.vm ORDER BY intervals.vm ASC"@
    } else {
        "SELECT vm, SUM(duration) FROM intervals INNER JOIN vms ON intervals.vm = vms.name INNER JOIN groups ON vms.group_id = groups.id WHERE intervals.begin >= ? AND intervals.vm = ? AND intervals.begin + intervals.duration < ?"@
    }
}

/// The parameters of both queries, bound in the order: start of the
/// interval, end of the interval where there is one, qube where one is named.
pub open spec fn stats_params(from: int, to: Option<int>, qube: Option<Seq<char>>) -> Seq<
    SqlValueView,
> {
    match (to, qube) {
        (None, None) => seq![SqlValueView::Integer(from)],
        (None, Some(q)) => seq![SqlValueView::Integer(from), SqlValueView::Text(q)],
        (Some(t), None) => seq![SqlValueView::Integer(from), SqlValueView::Integer(t)],
        (Some(t), Some(q)) => seq![
            SqlValueView::Integer(from),
            SqlValueView::Integer(t),
            SqlValueView::Text(q),
        ],
    }
}

fn stats_param_values(interval: &Interval, vm: Option<&str>) -> (ps: Vec<SqlValue>)
    ensures
        params_view(ps@) == stats_params(
            interval.from@,
            optional_seconds(interval.to),
            optional_text(vm),
        ),
{
    let mut ps: Vec<SqlValue> = Vec::new();
    ps.push(SqlValue::Integer(interval.from.seconds()));
    match &interval.to {
        Some(to) => ps.push(SqlValue::Integer(to.seconds())),
        None => {},
    }
    match vm {
        Some(v) => ps.push(SqlValue::Text(String::from_str(v))),
        None => {},
    }
    assert(params_view(ps@) == stats_params(
        interval.from@,
        optional_seconds(interval.to),
        optional_text(vm),
    ));
    ps
}

/// The statement that selects, for the interval, the time spent in each
/// qube that belongs to no group (or only in `vm`, where it is given).
pub fn qube_stats_query(interval: &Interval, vm: Option<&str>) -> (q: SqlStatement)
    ensures
        q.sql@ == qube_stats_sql(interval.to is Some, vm is Some),
        params_view(q.params@) == stats_params(
            interval.from@,
            optional_seconds(interval.to),
            optional_text(vm),
        ),
{
    let ps = stats_param_values(interval, vm);
    match (&interval.to, vm) {
        (None, None) => statement(
            "SELECT vm, SUM(duration) FROM intervals LEFT OUTER JOIN vms ON intervals.vm = vms.name WHERE intervals.begin >= ? AND vms.group_id IS NULL GROUP BY intervals.vm ORDER BY intervals.vm ASC",
            ps,
        ),
        (None, Some(_)) => statement(
            "SELECT vm, SUM(duration) FROM intervals LEFT OUTER JOIN vms ON intervals.vm = vms.name WHERE intervals.begin >= ? AND intervals.vm = ? AND vms.group_id IS NULL",
            ps,
        ),
        (Some(_), None) => statement(
            "SELECT vm, SUM(duration) FROM intervals LEFT OUTER JOIN vms ON intervals.vm = vms.name WHERE intervals.begin >= ? AND intervals.begin + intervals.duration < ? AND vms.group_id IS NULL GROUP BY intervals.vm ORDER BY intervals.vm ASC",
            ps,
        ),
        (Some(_), Some(_)) => statement(
            "SELECT vm, SUM(duration) FROM intervals LEFT OUTER JOIN vms ON intervals.vm = vms.name WHERE intervals.begin >= ? AND intervals.vm = ? AND intervals.begin + intervals.duration < ? AND vms.group_id IS NULL",
            ps,
        ),
    }
}

/// The statement that selects, for the interval, the time spent in each
/// group (or only in `vm`, where it is given and belongs to a group).
pub fn group_stats_query(interval: &Interval, vm: Option<&str>) -> (q: SqlStatement)
    ensures
        q.sql@ == group_stats_sql(interval.to is Some, vm is Some),
        params_view(q.params@) == stats_params(
            interval.from@,
            optional_seconds(interval.to),
            optional_text(vm),
        ),
{
    let ps = stats_param_values(interval, vm);
    match (&interval.to, vm) {
        (None, None) => statement(
            "SELECT groups.name, SUM(duration) FROM intervals INNER JOIN vms ON intervals.vm = vms.name INNER JOIN groups ON vms.group_id = groups.id WHERE intervals.begin >= ? GROUP BY groups.name ORDER BY groups.name ASC",
            ps,
        ),
        (None, Some(_)) => statement(
            "SELECT vm, SUM(duration) FROM intervals INNER JOIN vms ON intervals.vm = vms.name INNER JOIN groups ON vms.group_id = groups.id WHERE intervals.begin >= ? AND intervals.vm = ?",
            ps,
        ),
        (Some(_), None) => statement(
            "SELECT vm, SUM(duration) FROM intervals INNER JOIN vms ON intervals.vm = vms.name INNER JOIN groups ON vms.group_id = groups.id WHERE intervals.begin >= ? AND intervals.begin + intervals.duration < ? GROUP BY intervals.vm ORDER BY intervals.vm ASC",
            ps,
        ),
        (Some(_), Some(_)) => statement(
            "SELECT vm, SUM(duration) FROM intervals INNER JOIN vms ON intervals.vm = vms.name INNER JOIN groups ON vms.group_id = groups.id WHERE intervals.begin >= ? AND intervals.vm = ? AND intervals.begin + intervals.duration < ?",
            ps,
        ),
    }
}

// ---------------------------------------------------------------------------
// Durations
// ---------------------------------------------------------------------------

/// The largest number of seconds that a duration can hold (`i64::MAX` milliseconds).
pub const MAX_DURATION_SECONDS: i64 = 9223372036854775i64;

/// A number of seconds that a duration can hold.
pub open spec fn duration_in_range(seconds: int) -> bool {
    -MAX_DURATION_SECONDS <= seconds <= MAX_DURATION_SECONDS
}

/// Whether a duration can hold `seconds` seconds.
pub fn duration_seconds_valid(seconds: i64) -> (b: bool)
    ensures
        b == duration_in_range(seconds as int),
{
    -MAX_DURATION_SECONDS <= seconds && seconds <= MAX_DURATION_SECONDS
}

/// Division that rounds toward zero, as Rust's `/` does.
pub open spec fn div_toward_zero(a: int, b: int) -> int {
    if a >= 0 {
        a / b
    } else {
        -((-a) / b)
    }
}

/// The whole hours of a duration.
pub open spec fn whole_hours(seconds: int) -> int {
    div_toward_zero(seconds, 3600)
}

/// The whole minutes of a duration that are left after the whole hours.
pub open spec fn minutes_part(seconds: int) -> int {
    div_toward_zero(seconds, 60) - whole_hours(seconds) * 60
}

/// The seconds of a duration that are left after the whole minutes.
pub open spec fn seconds_part(seconds: int) -> int {
    seconds - whole_hours(seconds) * 3600 - minutes_part(seconds) * 60
}

/// A duration as `hours:minutes:seconds`, each written in decimal without padding.
pub open spec fn duration_text(seconds: int) -> Seq<char> {
    decimal_text(whole_hours(seconds)) + seq![':'] + decimal_text(minutes_part(seconds))
        + seq![':'] + decimal_text(seconds_part(seconds))
}

/// Splits a duration into hours, minutes and seconds.
pub fn split_duration(seconds: i64) -> (r: (i64, i64, i64))
    ensures
        r.0 == whole_hours(seconds as int),
        r.1 == minutes_part(seconds as int),
        r.2 == seconds_part(seconds as int),
        r.0 * 3600 + r.1 * 60 + r.2 == seconds,
        -60 < r.1 < 60,
        -60 < r.2 < 60,
        seconds >= 0 ==> r.0 >= 0 && r.1 >= 0 && r.2 >= 0,
        seconds <= 0 ==> r.0 <= 0 && r.1 <= 0 && r.2 <= 0,
{
    let negative = seconds < 0;
    let a: u64 = if negative {
        (-(seconds as i128)) as u64
    } else {
        seconds as u64
    };
    let h = a / 3600;
    let m = a / 60 - h * 60;
    let s = a - h * 3600 - m * 60;
    assert(m < 60 && s < 60) by (nonlinear_arith)
        requires
            h == a / 3600,
            m == a / 60 - h * 60,
            s == a - h * 3600 - m * 60,
    ;
    if negative {
        (-(h as i64), -(m as i64), -(s as i64))
    } else {
        (h as i64, m as i64, s as i64)
    }
}

/// Law: the text of a duration is three decimal numbers separated by `:`,
/// which read back as its whole hours, the minutes left after them and the
/// seconds left after the minutes; these add up to the duration, minutes
/// and seconds stay under 60 and all three share its sign.
pub proof fn lemma_duration_text_reads_back(seconds: int)
    ensures
        exists|h: Seq<char>, m: Seq<char>, s: Seq<char>|
            #![trigger writes_decimal(h, whole_hours(seconds)), writes_decimal(m, minutes_part(seconds)), writes_decimal(s, seconds_part(seconds))]
            {
                &&& duration_text(seconds) == h + seq![':'] + m + seq![':'] + s
                &&& writes_decimal(h, whole_hours(seconds))
                &&& writes_decimal(m, minutes_part(seconds))
                &&& writes_decimal(s, seconds_part(seconds))
            },
        whole_hours(seconds) * 3600 + minutes_part(seconds) * 60 + seconds_part(seconds) == seconds,
        -60 < minutes_part(seconds) < 60,
        -60 < seconds_part(seconds) < 60,
        seconds >= 0 ==> whole_hours(seconds) >= 0 && minutes_part(seconds) >= 0 && seconds_part(
            seconds,
        ) >= 0,
        seconds <= 0 ==> whole_hours(seconds) <= 0 && minutes_part(seconds) <= 0 && seconds_part(
            seconds,
        ) <= 0,
{
    lemma_decimal_text_reads_back(whole_hours(seconds));
    lemma_decimal_text_reads_back(minutes_part(seconds));
    lemma_decimal_text_reads_back(seconds_part(seconds));
    assert(writes_decimal(decimal_text(whole_hours(seconds)), whole_hours(seconds)));
    assert(writes_decimal(decimal_text(minutes_part(seconds)), minutes_part(seconds)));
    assert(writes_decimal(decimal_text(seconds_part(seconds)), seconds_part(seconds)));
    let a: int = if seconds >= 0 {
        seconds
    } else {
        -seconds
    };
    let h = a / 3600;
    let m = a / 60 - h * 60;
    let s = a - h * 3600 - m * 60;
    assert(0 <= m < 60 && 0 <= s < 60 && h >= 0 && h * 3600 + m * 60 + s == a) by (nonlinear_arith)
        requires
            a >= 0,
            h == a / 3600,
            m == a / 60 - h * 60,
            s == a - h * 3600 - m * 60,
    ;
}

/// Appends a duration as `hours:minutes:seconds` to `out`.
pub fn push_duration(out: &mut String, seconds: i64)
    ensures
        final(out)@ == old(out)@ + duration_text(seconds as int),
{
    let (h, m, s) = split_duration(seconds);
    proof {
        reveal_strlit(":");
        assert(":"@ == seq![':']);
    }
    push_decimal(out, h);
    out.append(":");
    push_decimal(out, m);
    out.append(":");
    push_decimal(out, s);
    assert(final(out)@ == old(out)@ + duration_text(seconds as int));
}

// ---------------------------------------------------------------------------
// Tables
// ---------------------------------------------------------------------------

/// A row of a statistics table: a qube or group and the seconds spent in it.
pub struct TimeSpent {
    pub name: String,
    pub seconds: i64,
}

impl View for TimeSpent {
    type V = (Seq<char>, int);

    open spec fn view(&self) -> (Seq<char>, int) {
        (self.name@, self.seconds as int)
    }
}

pub open spec fn rows_view(items: Seq<TimeSpent>) -> Seq<(Seq<char>, int)> {
    items.map_values(|t: TimeSpent| t@)
}

/// The width of the first column: the largest byte length among the
/// header and the names.
pub open spec fn column_width(header: Seq<char>, items: Seq<(Seq<char>, int)>) -> nat
    decreases items.len(),
{
    if items.len() == 0 {
        byte_len(header)
    } else {
        let w = column_width(header, items.drop_last());
        if byte_len(items.last().0) > w {
            byte_len(items.last().0)
        } else {
            w
        }
    }
}

/// `name` padded with spaces to `width` bytes.
pub open spec fn padded(name: Seq<char>, width: nat) -> Seq<char> {
    name + spaces((width - byte_len(name)) as nat)
}

pub open spec fn column_separator() -> Seq<char> {
    seq![' ', '|', ' ']
}

/// The header line of a table.
pub open spec fn header_line(header: Seq<char>, width: nat, duration_header: Seq<char>) -> Seq<
    char,
> {
    padded(header, width) + column_separator() + duration_header
}

/// The line of a table for one row.
pub open spec fn row_line(row: (Seq<char>, int), width: nat) -> Seq<char> {
    padded(row.0, width) + column_separator() + duration_text(row.1)
}

/// The lines of a table: the header line, then one line per row, in order.
pub open spec fn table_text(
    header: Seq<char>,
    duration_header: Seq<char>,
    items: Seq<(Seq<char>, int)>,
) -> Seq<Seq<char>> {
    let w = column_width(header, items);
    seq![header_line(header, w, duration_header)] + items.map_values(
        |r: (Seq<char>, int)| row_line(r, w),
    )
}

pub open spec fn lines_view(lines: Seq<String>) -> Seq<Seq<char>> {
    lines.map_values(|l: String| l@)
}

/// The width of the first column is at least the byte length of the header
/// and of every name, and it is the byte length of one of them.
pub proof fn lemma_column_width(header: Seq<char>, items: Seq<(Seq<char>, int)>)
    ensures
        column_width(header, items) >= byte_len(header),
        forall|k: int|
            0 <= k < items.len() ==> column_width(header, items) >= byte_len(#[trigger] items[k].0),
        column_width(header, items) == byte_len(header) || exists|k: int|
            0 <= k < items.len() && column_width(header, items) == byte_len(#[trigger] items[k].0),
    decreases items.len(),
{
    if items.len() > 0 {
        let p = items.drop_last();
        lemma_column_width(header, p);
        assert forall|k: int| 0 <= k < items.len() implies column_width(header, items) >= byte_len(
            #[trigger] items[k].0,
        ) by {
            if k < p.len() {
                assert(items[k] == p[k]);
            }
        }
        if column_width(header, items) != byte_len(header) {
            if byte_len(items.last().0) > column_width(header, p) {
                assert(column_width(header, items) == byte_len(items[items.len() - 1].0));
            } else {
                let k = choose|k: int|
                    0 <= k < p.len() && column_width(header, p) == byte_len(#[trigger] p[k].0);
                assert(items[k] == p[k]);
            }
        }
    }
}

/// Law: every line of a table has the column separator at the same byte
/// offset, the width of the first column.
pub proof fn lemma_table_aligned(
    header: Seq<char>,
    duration_header: Seq<char>,
    items: Seq<(Seq<char>, int)>,
)
    ensures
        forall|i: int|
            0 <= i < table_text(header, duration_header, items).len() ==> exists|
                first: Seq<char>,
                rest: Seq<char>,
            |
                #![trigger first + column_separator() + rest]
                #[trigger] table_text(header, duration_header, items)[i] == first
                    + column_separator() + rest && byte_len(first) == column_width(header, items),
{
    let w = column_width(header, items);
    let lines = table_text(header, duration_header, items);
    lemma_column_width(header, items);
    assert forall|i: int| 0 <= i < lines.len() implies exists|first: Seq<char>, rest: Seq<char>|
        #![trigger first + column_separator() + rest]
        #[trigger] lines[i] == first + column_separator() + rest && byte_len(first) == w by {
        if i == 0 {
            let pad = (w - byte_len(header)) as nat;
            lemma_byte_len_concat(header, spaces(pad));
            lemma_byte_len_spaces(pad);
            assert(lines[0] == padded(header, w) + column_separator() + duration_header);
        } else {
            let r = items[i - 1];
            let pad = (w - byte_len(r.0)) as nat;
            lemma_byte_len_concat(r.0, spaces(pad));
            lemma_byte_len_spaces(pad);
            assert(lines[i] == padded(r.0, w) + column_separator() + duration_text(r.1));
        }
    }
}

fn padded_line_start(name: &str, width: usize) -> (out: String)
    requires
        byte_len(name@) <= width,
    ensures
        out@ == padded(name@, width as nat) + column_separator(),
{
    let mut out = String::from_str(name);
    let len = name.as_bytes().len();
    push_spaces(&mut out, width - len);
    proof {
        reveal_strlit(" | ");
        assert(" | "@ == column_separator());
    }
    out.append(" | ");
    out
}

/// Lays out a table: a header line, then one line per row, the first column
/// padded with spaces to the widest entry, then `" | "` and the time spent
/// as `hours:minutes:seconds`.
pub fn table_lines(item_header: &str, duration_header: &str, items: &Vec<TimeSpent>) -> (lines: Vec<
    String,
>)
    ensures
        lines_view(lines@) == table_text(item_header@, duration_header@, rows_view(items@)),
{
    let ghost rows = rows_view(items@);
    let n = items.len();
    let mut width = item_header.as_bytes().len();
    assert(rows.take(0) == Seq::<(Seq<char>, int)>::empty());
    for i in 0..n
        invariant
            n == items@.len(),
            rows == rows_view(items@),
            width == column_width(item_header@, rows.take(i as int)),
    {
        assert(rows[i as int] == items@[i as int]@);
        let len = items[i].name.as_str().as_bytes().len();
        assert(rows.take(i + 1).drop_last() == rows.take(i as int));
        if len > width {
            width = len;
        }
    }
    assert(rows.take(n as int) == rows);
    proof {
        lemma_column_width(item_header@, rows);
    }
    let mut lines: Vec<String> = Vec::new();
    let mut head = padded_line_start(item_header, width);
    head.append(duration_header);
    lines.push(head);
    for i in 0..n
        invariant
            n == items@.len(),
            rows == rows_view(items@),
            width == column_width(item_header@, rows),
            forall|k: int| 0 <= k < rows.len() ==> width >= byte_len(#[trigger] rows[k].0),
            lines_view(lines@) == table_text(item_header@, duration_header@, rows).take(i + 1),
    {
        assert(rows[i as int] == items@[i as int]@);
        assert(byte_len(rows[i as int].0) <= width);
        let ghost before = lines@;
        let mut line = padded_line_start(items[i].name.as_str(), width);
        push_duration(&mut line, items[i].seconds);
        assert(line@ == row_line(rows[i as int], width as nat));
        lines.push(line);
        proof {
            let tt = table_text(item_header@, duration_header@, rows);
            assert(tt[i + 1] == row_line(rows[i as int], width as nat));
            assert(lines@ == before.push(line));
            assert(lines_view(lines@) == lines_view(before).push(line@));
            assert(tt.take(i + 2) == tt.take(i + 1).push(tt[i + 1]));
        }
    }
    assert(table_text(item_header@, duration_header@, rows).take(n + 1) == table_text(
        item_header@,
        duration_header@,
        rows,
    ));
    lines
}

/// The report: the table of groups, an empty line, then the table of qubes
/// that belong to no group.
pub open spec fn report_text(
    groups: Seq<(Seq<char>, int)>,
    qubes: Seq<(Seq<char>, int)>,
) -> Seq<Seq<char>> {
    table_text("Group"@, "Time spent"@, groups) + seq![Seq::<char>::empty()] + table_text(
        "Qube"@,
        "Time spent"@,
        qubes,
    )
}

/// The lines of the statistics report for the rows that the two queries returned.
pub fn stats_report(groups: &Vec<TimeSpent>, qubes: &Vec<TimeSpent>) -> (lines: Vec<String>)
    ensures
        lines_view(lines@) == report_text(rows_view(groups@), rows_view(qubes@)),
{
    let mut lines = table_lines("Group", "Time spent", groups);
    lines.push(String::new());
    let mut rest = table_lines("Qube", "Time spent", qubes);
    let ghost first = lines@;
    let ghost second = rest@;
    lines.append(&mut rest);
    assert(lines_view(lines@) == lines_view(first) + lines_view(second));
    lines
}

} // verus!
