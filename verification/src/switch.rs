//! Focus-switch events: reading one event line, and deciding what a switch
//! does to the stored current qube and to the recorded intervals.
//!
//! The tracker receives lines `"<unix time> <qube name>"`. The store holds
//! the qube that has the focus now with the time it got it, and the list of
//! finished intervals. The model of the store (`TrackerView`, `step`,
//! `replay`) is what the laws at the end of this file speak of.
use vstd::prelude::*;
use crate::sql::{params_view, statement, SqlStatement, SqlValue, SqlValueView};
use crate::text::{
    chars_of, decimal_text, digits_of, field_end, find_field_end, int_error_text, is_decimal_digit,
    is_white_space, lemma_decimal_text_parses_back, lemma_decimal_text_reads_back,
    lemma_field_end_bounds, lemma_trimmed_core, parse_i64_chars, parse_i64_text, trim_bounds, trimmed, IntError,
};

verus! {

/// A focus switch: at `time` (seconds since the epoch) the qube `qube` got the focus.
pub struct SwitchEvent {
    pub time: i64,
    pub qube: String,
}

/// Why an event line was refused.
#[derive(Debug, Clone, Copy, PartialEq, Eq)]
pub enum LineError {
    /// The first field is not an integer that fits in an `i64`.
    InvalidTimestamp(IntError),
    /// The line has no second field.
    MissingQube,
}

impl LineError {
    /// The text that describes the error.
    pub fn message(&self) -> (s: String)
        ensures
            s@ == line_error_text(*self),
    {
        match self {
            LineError::InvalidTimestamp(e) => e.message(),
            LineError::MissingQube => String::from_str("Missing name of the VM"),
        }
    }
}

pub open spec fn line_error_text(e: LineError) -> Seq<char> {
    match e {
        LineError::InvalidTimestamp(k) => int_error_text(k),
        LineError::MissingQube => "Missing name of the VM"@,
    }
}

/// What reading an event line gives: the line is trimmed and split at
/// single spaces; the first field is the time, the second the qube; other
/// fields are ignored.
pub open spec fn switch_line(line: Seq<char>) -> Result<(i64, Seq<char>), LineError> {
    let t = trimmed(line);
    let e1 = field_end(t, 0);
    match parse_i64_text(t.subrange(0, e1)) {
        Err(k) => Err(LineError::InvalidTimestamp(k)),
        Ok(time) => if e1 >= t.len() {
            Err(LineError::MissingQube)
        } else {
            Ok((time, t.subrange(e1 + 1, field_end(t, e1 + 1))))
        },
    }
}

/// Reads one event line.
pub fn parse_switch_line(line: &str) -> (r: Result<SwitchEvent, LineError>)
    ensures
        match r {
            Ok(ev) => switch_line(line@) == Ok::<(i64, Seq<char>), LineError>((ev.time, ev.qube@)),
            Err(e) => switch_line(line@) == Err::<(i64, Seq<char>), LineError>(e),
        },
{
    let cs = chars_of(line);
    let (lo, hi) = trim_bounds(&cs);
    let ghost t = cs@.subrange(lo as int, hi as int);
    assert(t == trimmed(line@));
    let e1 = find_field_end(&cs, lo, hi);
    proof {
        lemma_field_end_bounds(t, 0);
        assert(cs@.subrange(lo as int, e1 as int) == t.subrange(0, e1 - lo));
    }
    let time = match parse_i64_chars(&cs, lo, e1) {
        Err(k) => {
            return Err(LineError::InvalidTimestamp(k));
        },
        Ok(v) => v,
    };
    if e1 >= hi {
        return Err(LineError::MissingQube);
    }
    let e2 = find_field_end(&cs, e1 + 1, hi);
    proof {
        let t2 = cs@.subrange((e1 + 1) as int, hi as int);
        assert(t2 == t.subrange(e1 + 1 - lo, t.len() as int));
        lemma_field_end_shift(t, e1 + 1 - lo);
    }
    let name = line.substring_char(e1 + 1, e2);
    assert(name@ == t.subrange(e1 + 1 - lo, e2 - lo));
    Ok(SwitchEvent { time, qube: String::from_str(name) })
}

/// Looking for the end of a field in a suffix gives the same place as
/// looking in the whole sequence.
proof fn lemma_field_end_shift(t: Seq<char>, k: int)
    requires
        0 <= k <= t.len(),
    ensures
        k + field_end(t.subrange(k, t.len() as int), 0) == field_end(t, k),
    decreases t.len() - k,
{
    lemma_field_end_suffix(t, k, 0);
}

proof fn lemma_field_end_suffix(t: Seq<char>, k: int, j: int)
    requires
        0 <= k <= t.len(),
        0 <= j <= t.len() - k,
    ensures
        k + field_end(t.subrange(k, t.len() as int), j) == field_end(t, k + j),
    decreases t.len() - k - j,
{
    let u = t.subrange(k, t.len() as int);
    if j < u.len() && u[j] != ' ' {
        lemma_field_end_suffix(t, k, j + 1);
    }
}

// ---------------------------------------------------------------------------
// Deciding a switch
// ---------------------------------------------------------------------------

/// The stored current qube and the time it got the focus.
pub struct CurrentVm {
    pub qube: String,
    pub begin: i64,
}

/// A finished interval: `qube` had the focus for `duration` seconds from `begin`.
pub struct IntervalRecord {
    pub qube: String,
    pub begin: i64,
    pub duration: i64,
}

/// What a switch does to the store.
pub enum SwitchAction {
    /// Nothing was current: the new qube becomes current.
    Start,
    /// The new qube becomes current and the finished interval is recorded.
    Record(IntervalRecord),
    /// The switch is in the same second as the current one: the new qube
    /// becomes current and the zero-length interval is not recorded.
    Replace,
    /// The switch is earlier than the current one: nothing is stored.
    Discard,
}

/// The model of what a switch does, over mathematical values.
pub enum ActionView {
    Start,
    Record(Seq<char>, int, int),
    Replace,
    Discard,
}

pub open spec fn current_view(c: Option<CurrentVm>) -> Option<(Seq<char>, int)> {
    match c {
        Some(v) => Some((v.qube@, v.begin as int)),
        None => None,
    }
}

pub open spec fn action_view(a: SwitchAction) -> ActionView {
    match a {
        SwitchAction::Start => ActionView::Start,
        SwitchAction::Record(r) => ActionView::Record(r.qube@, r.begin as int, r.duration as int),
        SwitchAction::Replace => ActionView::Replace,
        SwitchAction::Discard => ActionView::Discard,
    }
}

/// The decision: with nothing current, start; otherwise the current qube
/// had the focus from its begin to `time`. That interval is recorded when
/// it is longer than zero seconds; when it is zero seconds long only the
/// current qube is replaced; a switch from before the current begin (the
/// clock went back) is discarded.
pub open spec fn switch_decision(current: Option<(Seq<char>, int)>, time: int) -> ActionView {
    match current {
        None => ActionView::Start,
        Some((q, b)) => if time - b > 0 {
            ActionView::Record(q, b, time - b)
        } else if time == b {
            ActionView::Replace
        } else {
            ActionView::Discard
        },
    }
}

/// `time - begin` fits in an `i64`, so that the duration can be computed.
pub open spec fn duration_fits(current: Option<CurrentVm>, time: i64) -> bool {
    match current {
        Some(c) => i64::MIN <= time - c.begin <= i64::MAX,
        None => true,
    }
}

/// Whether the duration since the stored current qube's begin can be
/// computed for a switch at `time`.
pub fn can_decide(current: &Option<CurrentVm>, time: i64) -> (b: bool)
    ensures
        b == duration_fits(*current, time),
        b == (current is None || i64::MIN <= time - current.unwrap().begin <= i64::MAX),
        current matches Some(c) && c.begin == time ==> b,
{
    match current {
        None => true,
        Some(c) => {
            let d = (time as i128) - (c.begin as i128);
            d >= i64::MIN as i128 && d <= i64::MAX as i128
        },
    }
}

/// Decides what the switch `event` does, given the stored current qube.
pub fn decide_switch(current: Option<CurrentVm>, event: &SwitchEvent) -> (a: SwitchAction)
    requires
        duration_fits(current, event.time),
    ensures
        action_view(a) == switch_decision(current_view(current), event.time as int),
        a matches SwitchAction::Record(r) ==> r.duration > 0 && current is Some && r.begin
            == current.unwrap().begin && r.begin + r.duration == event.time,
{
    match current {
        None => SwitchAction::Start,
        Some(c) => {
            let duration = event.time - c.begin;
            if duration > 0 {
                SwitchAction::Record(IntervalRecord { qube: c.qube, begin: c.begin, duration })
            } else if duration == 0 {
                SwitchAction::Replace
            } else {
                SwitchAction::Discard
            }
        },
    }
}

// ---------------------------------------------------------------------------
// Statements that the recorder runs
// ---------------------------------------------------------------------------

/// The query for the stored current qube and its begin.
pub open spec fn current_vm_sql() -> Seq<char> {
    "SELECT vm, begin FROM current_vm LIMIT 1"@
}

/// The statement that stores a new current qube, in place of the old one.
pub open spec fn replace_current_sql() -> Seq<char> {
    "REPLACE INTO current_vm VALUES(?, ?, 0);"@
}

/// The statement that records a finished interval.
pub open spec fn insert_interval_sql() -> Seq<char> {
    "INSERT INTO intervals VALUES(?, ?, ?)"@
}

/// The query for the stored current qube and its begin.
pub fn current_vm_query() -> (st: SqlStatement)
    ensures
        st.sql@ == current_vm_sql(),
        st.params@.len() == 0,
{
    statement("SELECT vm, begin FROM current_vm LIMIT 1", Vec::new())
}

/// The statement that makes the qube of `event` current from its time.
pub fn replace_current_statement(event: &SwitchEvent) -> (st: SqlStatement)
    ensures
        st.sql@ == replace_current_sql(),
        params_view(st.params@) == seq![
            SqlValueView::Text(event.qube@),
            SqlValueView::Integer(event.time as int),
        ],
{
    let mut ps: Vec<SqlValue> = Vec::new();
    ps.push(SqlValue::Text(event.qube.clone()));
    ps.push(SqlValue::Integer(event.time));
    assert(params_view(ps@) == seq![
        SqlValueView::Text(event.qube@),
        SqlValueView::Integer(event.time as int),
    ]);
    statement("REPLACE INTO current_vm VALUES(?, ?, 0);", ps)
}

/// The statement that records the interval `r` as (qube, begin, duration).
pub fn insert_interval_statement(r: &IntervalRecord) -> (st: SqlStatement)
    ensures
        st.sql@ == insert_interval_sql(),
        params_view(st.params@) == seq![
            SqlValueView::Text(r.qube@),
            SqlValueView::Integer(r.begin as int),
            SqlValueView::Integer(r.duration as int),
        ],
{
    let mut ps: Vec<SqlValue> = Vec::new();
    ps.push(SqlValue::Text(r.qube.clone()));
    ps.push(SqlValue::Integer(r.begin));
    ps.push(SqlValue::Integer(r.duration));
    assert(params_view(ps@) == seq![
        SqlValueView::Text(r.qube@),
        SqlValueView::Integer(r.begin as int),
        SqlValueView::Integer(r.duration as int),
    ]);
    statement("INSERT INTO intervals VALUES(?, ?, ?)", ps)
}

// ---------------------------------------------------------------------------
// The model of the store, and its laws
// ---------------------------------------------------------------------------

/// The store: the current qube with its begin, and the recorded intervals
/// as `(qube, begin, duration)`.
pub struct TrackerView {
    pub current: Option<(Seq<char>, int)>,
    pub intervals: Seq<(Seq<char>, int, int)>,
}

/// The store before any switch.
pub open spec fn empty_tracker() -> TrackerView {
    TrackerView { current: None, intervals: Seq::empty() }
}

/// The store after the switch `(time, qube)`.
pub open spec fn step(s: TrackerView, time: int, qube: Seq<char>) -> TrackerView {
    match switch_decision(s.current, time) {
        ActionView::Start => TrackerView { current: Some((qube, time)), intervals: s.intervals },
        ActionView::Record(q, b, d) => TrackerView {
            current: Some((qube, time)),
            intervals: s.intervals.push((q, b, d)),
        },
        ActionView::Replace => TrackerView { current: Some((qube, time)), intervals: s.intervals },
        ActionView::Discard => s,
    }
}

/// The store after the switches `events`, in order, from the empty store.
pub open spec fn replay(events: Seq<(int, Seq<char>)>) -> TrackerView
    decreases events.len(),
{
    if events.len() == 0 {
        empty_tracker()
    } else {
        step(replay(events.drop_last()), events.last().0, events.last().1)
    }
}

/// The total of the recorded durations.
pub open spec fn total_duration(iv: Seq<(Seq<char>, int, int)>) -> int
    decreases iv.len(),
{
    if iv.len() == 0 {
        0
    } else {
        total_duration(iv.drop_last()) + iv.last().2
    }
}

/// The recorded intervals are all longer than zero, follow each other
/// without gap or overlap, and the last one ends where the current qube
/// begins; their total is the time from the first begin to the current begin.
pub open spec fn tiled(s: TrackerView) -> bool {
    &&& forall|k: int| 0 <= k < s.intervals.len() ==> #[trigger] s.intervals[k].2 > 0
    &&& forall|k: int|
        0 <= k < s.intervals.len() - 1 ==> #[trigger] s.intervals[k].1 + s.intervals[k].2
            == s.intervals[k + 1].1
    &&& s.intervals.len() > 0 ==> {
        &&& s.current is Some
        &&& s.intervals.last().1 + s.intervals.last().2 == s.current.unwrap().1
        &&& total_duration(s.intervals) == s.current.unwrap().1 - s.intervals[0].1
    }
}

/// A switch from before the current qube's begin changes nothing.
pub proof fn lemma_earlier_switch_changes_nothing(s: TrackerView, time: int, qube: Seq<char>)
    requires
        s.current is Some,
        time < s.current.unwrap().1,
    ensures
        step(s, time, qube) == s,
{
}

/// A switch in the same second as the current qube's begin makes the new
/// qube current and records nothing.
pub proof fn lemma_same_second_switch_replaces(s: TrackerView, time: int, qube: Seq<char>)
    requires
        s.current is Some,
        time == s.current.unwrap().1,
    ensures
        step(s, time, qube) == (TrackerView { current: Some((qube, time)), intervals: s.intervals }),
{
}

/// Every switch keeps the recorded intervals tiled.
pub proof fn lemma_step_keeps_tiling(s: TrackerView, time: int, qube: Seq<char>)
    requires
        tiled(s),
    ensures
        tiled(step(s, time, qube)),
{
    let n = step(s, time, qube);
    match switch_decision(s.current, time) {
        ActionView::Record(q, b, d) => {
            let iv = n.intervals;
            assert(iv.drop_last() == s.intervals);
            assert forall|k: int| 0 <= k < iv.len() implies #[trigger] iv[k].2 > 0 by {
                if k < s.intervals.len() {
                    assert(iv[k] == s.intervals[k]);
                }
            }
            assert forall|k: int| 0 <= k < iv.len() - 1 implies #[trigger] iv[k].1 + iv[k].2
                == iv[k + 1].1 by {
                assert(iv[k] == s.intervals[k]);
                if k + 1 < s.intervals.len() {
                    assert(iv[k + 1] == s.intervals[k + 1]);
                }
            }
            if s.intervals.len() == 0 {
                assert(total_duration(iv) == total_duration(iv.drop_last()) + d);
            } else {
                assert(iv[0] == s.intervals[0]);
            }
        },
        _ => {},
    }
}

/// Law: whatever switches arrive, in whatever order, the recorded intervals
/// are longer than zero, follow each other without gap or overlap, end
/// where the current qube begins, and add up to the time between the first
/// recorded begin and the current begin.
pub proof fn lemma_replay_tiled(events: Seq<(int, Seq<char>)>)
    ensures
        tiled(replay(events)),
    decreases events.len(),
{
    if events.len() > 0 {
        lemma_replay_tiled(events.drop_last());
        lemma_step_keeps_tiling(replay(events.drop_last()), events.last().0, events.last().1);
    }
}

/// The times of `events` strictly increase.
pub open spec fn strictly_increasing(events: Seq<(int, Seq<char>)>) -> bool {
    forall|i: int, j: int| 0 <= i < j < events.len() ==> #[trigger] events[i].0 < #[trigger] events[j].0
}

/// Law: when the switch times strictly increase, every switch after the
/// first records exactly one interval: the previous qube, from its switch
/// time to the next switch time; the last qube is current.
pub proof fn lemma_replay_increasing(events: Seq<(int, Seq<char>)>)
    requires
        strictly_increasing(events),
    ensures
        events.len() > 0 ==> replay(events).current == Some((events.last().1, events.last().0)),
        events.len() > 0 ==> replay(events).intervals.len() == events.len() - 1,
        forall|k: int|
            0 <= k < events.len() - 1 ==> #[trigger] replay(events).intervals[k] == (
                events[k].1,
                events[k].0,
                events[k + 1].0 - events[k].0,
            ),
    decreases events.len(),
{
    if events.len() > 0 {
        let prefix = events.drop_last();
        assert(strictly_increasing(prefix)) by {
            assert forall|i: int, j: int| 0 <= i < j < prefix.len() implies #[trigger] prefix[i].0
                < #[trigger] prefix[j].0 by {
                assert(prefix[i] == events[i] && prefix[j] == events[j]);
            }
        }
        lemma_replay_increasing(prefix);
        let s = replay(prefix);
        let n = replay(events);
        if prefix.len() > 0 {
            assert(prefix.last() == events[events.len() - 2]);
            assert(events[events.len() - 2].0 < events.last().0);
            assert forall|k: int| 0 <= k < events.len() - 1 implies #[trigger] n.intervals[k] == (
                events[k].1,
                events[k].0,
                events[k + 1].0 - events[k].0,
            ) by {
                if k < prefix.len() - 1 {
                    assert(n.intervals[k] == s.intervals[k]);
                    assert(prefix[k] == events[k] && prefix[k + 1] == events[k + 1]);
                } else {
                    assert(n.intervals[k] == n.intervals.last());
                }
            }
        }
    }
}

/// The times of `events` never decrease.
pub open spec fn nondecreasing(events: Seq<(int, Seq<char>)>) -> bool {
    forall|i: int, j: int| 0 <= i < j < events.len() ==> #[trigger] events[i].0 <= #[trigger] events[j].0
}

/// Law: when the switch times never decrease, no switch is lost: the last
/// switch's qube is current, from the last switch's time.
pub proof fn lemma_replay_keeps_last_switch(events: Seq<(int, Seq<char>)>)
    requires
        nondecreasing(events),
        events.len() > 0,
    ensures
        replay(events).current == Some((events.last().1, events.last().0)),
    decreases events.len(),
{
    let prefix = events.drop_last();
    if prefix.len() > 0 {
        assert(nondecreasing(prefix)) by {
            assert forall|i: int, j: int| 0 <= i < j < prefix.len() implies #[trigger] prefix[i].0
                <= #[trigger] prefix[j].0 by {
                assert(prefix[i] == events[i] && prefix[j] == events[j]);
            }
        }
        lemma_replay_keeps_last_switch(prefix);
        assert(prefix.last() == events[events.len() - 2]);
        assert(events[events.len() - 2].0 <= events.last().0);
    }
    assert(replay(events) == step(replay(prefix), events.last().0, events.last().1));
}

/// Law: a switch can be decided exactly when nothing is current or the
/// time since the current begin fits in an `i64`; a switch in the same
/// second as the current one, or with nothing current, always can.
pub proof fn lemma_decidable_switches(current: Option<CurrentVm>, time: i64)
    ensures
        duration_fits(current, time) <==> (current is None || i64::MIN <= time
            - current.unwrap().begin <= i64::MAX),
        current is None ==> duration_fits(current, time),
        current matches Some(c) && c.begin == time ==> duration_fits(current, time),
        current matches Some(c) && 0 <= c.begin && 0 <= time ==> duration_fits(current, time),
{
}

proof fn lemma_field_end_at(s: Seq<char>, i: int, j: int)
    requires
        0 <= i <= j <= s.len(),
        forall|k: int| i <= k < j ==> s[k] != ' ',
        j == s.len() || s[j] == ' ',
    ensures
        field_end(s, i) == j,
    decreases j - i,
{
    if i < j {
        lemma_field_end_at(s, i + 1, j);
    }
}

/// Law: a line written as the decimal time, one space and a qube name
/// (without spaces, not ending in white space) reads back as that time and
/// that qube.
pub proof fn lemma_switch_line_reads_back(time: i64, qube: Seq<char>)
    requires
        qube.len() > 0,
        forall|k: int| 0 <= k < qube.len() ==> qube[k] != ' ',
        !is_white_space(qube.last()),
    ensures
        switch_line(decimal_text(time as int) + seq![' '] + qube) == Ok::<
            (i64, Seq<char>),
            LineError,
        >((time, qube)),
{
    let d = decimal_text(time as int);
    let line = d + seq![' '] + qube;
    lemma_decimal_text_reads_back(time as int);
    lemma_decimal_text_parses_back(time);
    assert(d.len() >= 1);
    assert forall|k: int| 0 <= k < d.len() implies #[trigger] d[k] != ' ' && (k == 0
        ==> !is_white_space(d[k])) by {
        if time < 0 {
            if k > 0 {
                assert(d[k] == d.drop_first()[k - 1]);
                assert(is_decimal_digit(d.drop_first()[k - 1]));
            }
        } else {
            assert(digits_of(d, time as int));
            assert(is_decimal_digit(d[k]));
        }
    }
    assert(line[0] == d[0]);
    assert(line[line.len() - 1] == qube.last());
    assert(trimmed(line) == line) by {
        assert(line.subrange(0, line.len() as int) == line);
    }
    lemma_field_end_at(line, 0, d.len() as int);
    assert(line.subrange(0, d.len() as int) == d);
    lemma_field_end_at(line, d.len() as int + 1, line.len() as int);
    assert(line.subrange(d.len() as int + 1, line.len() as int) == qube);
}

/// Law: white space around a line does not change what it reads as, and a
/// line with the decimal time, a space and a qube name reads back as that
/// time and qube whatever white space surrounds it.
pub proof fn lemma_switch_line_ignores_surrounding_space(
    lead: Seq<char>,
    time: i64,
    qube: Seq<char>,
    trail: Seq<char>,
)
    requires
        forall|k: int| 0 <= k < lead.len() ==> is_white_space(#[trigger] lead[k]),
        forall|k: int| 0 <= k < trail.len() ==> is_white_space(#[trigger] trail[k]),
        qube.len() > 0,
        forall|k: int| 0 <= k < qube.len() ==> qube[k] != ' ',
        !is_white_space(qube.last()),
    ensures
        switch_line(lead + (decimal_text(time as int) + seq![' '] + qube) + trail) == Ok::<
            (i64, Seq<char>),
            LineError,
        >((time, qube)),
{
    let core = decimal_text(time as int) + seq![' '] + qube;
    lemma_switch_line_reads_back(time, qube);
    lemma_decimal_text_reads_back(time as int);
    let d = decimal_text(time as int);
    assert(!is_white_space(d[0])) by {
        if time >= 0 {
            assert(digits_of(d, time as int));
            assert(is_decimal_digit(d[0]));
        }
    }
    assert(core[0] == d[0]);
    assert(core.last() == qube.last());
    lemma_trimmed_core(lead, core, trail);
    assert(trimmed(core) == core) by {
        lemma_trimmed_core(Seq::<char>::empty(), core, Seq::<char>::empty());
        assert(Seq::<char>::empty() + core + Seq::<char>::empty() == core);
    }
}

} // verus!
