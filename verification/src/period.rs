//! The command line: which command is asked for, and which period the
//! statistics cover.
//!
//! Calendar days are numbered as `chrono` numbers them: day 1 is
//! January 1 of year 1 in the proleptic Gregorian calendar.
use vstd::prelude::*;
use chrono::{Datelike, TimeZone};
use crate::stats::{Interval, Timestamp};

verus! {

// ---------------------------------------------------------------------------
// Commands
// ---------------------------------------------------------------------------

/// The commands of the command line tool.
#[derive(Debug, Clone, Copy, PartialEq, Eq)]
pub enum Command {
    /// Prints how much time was spent in each qube and group over a period.
    Stats,
}

/// Why the command line names no command that can run.
pub enum CommandError {
    /// Not even the program name is there.
    MissingProgramName,
    /// No command follows the program name.
    MissingCommand,
    /// The command is not known.
    UnknownCommand(String),
}

pub enum CommandErrorView {
    MissingProgramName,
    MissingCommand,
    UnknownCommand(Seq<char>),
}

impl View for CommandError {
    type V = CommandErrorView;

    open spec fn view(&self) -> CommandErrorView {
        match self {
            CommandError::MissingProgramName => CommandErrorView::MissingProgramName,
            CommandError::MissingCommand => CommandErrorView::MissingCommand,
            CommandError::UnknownCommand(s) => CommandErrorView::UnknownCommand(s@),
        }
    }
}

pub open spec fn args_view(args: Seq<String>) -> Seq<Seq<char>> {
    args.map_values(|a: String| a@)
}

/// Which command the arguments (the program name first) ask for.
pub open spec fn command_of(args: Seq<Seq<char>>) -> Result<Command, CommandErrorView> {
    if args.len() == 0 {
        Err(CommandErrorView::MissingProgramName)
    } else if args.len() == 1 {
        Err(CommandErrorView::MissingCommand)
    } else if args[1] == "stats"@ {
        Ok(Command::Stats)
    } else {
        Err(CommandErrorView::UnknownCommand(args[1]))
    }
}

fn text_equals(s: &String, literal: &str) -> (b: bool)
    ensures
        b == (s@ == literal@),
{
    let other = String::from_str(literal);
    *s == other
}

/// Reads the command from the arguments, the program name first.
pub fn parse_command(args: &Vec<String>) -> (r: Result<Command, CommandError>)
    ensures
        match r {
            Ok(c) => command_of(args_view(args@)) == Ok::<Command, CommandErrorView>(c),
            Err(e) => command_of(args_view(args@)) == Err::<Command, CommandErrorView>(e@),
        },
{
    if args.len() == 0 {
        return Err(CommandError::MissingProgramName);
    }
    if args.len() == 1 {
        return Err(CommandError::MissingCommand);
    }
    assert(args_view(args@)[1] == args@[1]@);
    if text_equals(&args[1], "stats") {
        Ok(Command::Stats)
    } else {
        Err(CommandError::UnknownCommand(args[1].clone()))
    }
}

impl CommandError {
    /// The text that describes the error.
    pub fn message(&self) -> (s: String)
        ensures
            s@ == command_error_text(self@),
    {
        match self {
            CommandError::MissingProgramName => String::from_str("not even zeroth argument present"),
            CommandError::MissingCommand => String::from_str(
                "no command given, available commands: stats",
            ),
            CommandError::UnknownCommand(c) => {
                let mut s = String::from_str("unknown command: ");
                s.append(c.as_str());
                s
            },
        }
    }
}

pub open spec fn command_error_text(e: CommandErrorView) -> Seq<char> {
    match e {
        CommandErrorView::MissingProgramName => "not even zeroth argument present"@,
        CommandErrorView::MissingCommand => "no command given, available commands: stats"@,
        CommandErrorView::UnknownCommand(c) => "unknown command: "@ + c,
    }
}

// ---------------------------------------------------------------------------
// Calendar
// ---------------------------------------------------------------------------

/// The first day that `chrono` can represent (January 1, year -262143).
pub const FIRST_CALENDAR_DAY: i32 = -95746129i32;

/// The last day that `chrono` can represent (December 31, year 262142).
pub const LAST_CALENDAR_DAY: i32 = 95745399i32;

/// `day` is a day that `chrono` can represent.
pub open spec fn in_calendar(day: int) -> bool {
    FIRST_CALENDAR_DAY <= day <= LAST_CALENDAR_DAY
}

/// The day of the week of `day`, Monday being 0: day 1 is a Monday.
pub open spec fn weekday_of(day: int) -> int {
    (day - 1) % 7
}

/// The day number of the first day of the month that holds `day`.
pub uninterp spec fn month_first_day(day: int) -> int;

/// The day number of January 1 of the year that holds `day`.
pub uninterp spec fn year_first_day(day: int) -> int;

/// The outcome of reading `text` as a date and time with an offset: the
/// seconds since the Unix epoch, or the reason it was refused.
pub uninterp spec fn datetime_parse(text: Seq<char>) -> Result<i64, Seq<char>>;

/// The day of the week of `day`, Monday being 0.
pub fn weekday_from_monday(day: i32) -> (w: i32)
    requires
        in_calendar(day as int),
    ensures
        w == weekday_of(day as int),
        0 <= w < 7,
{
    // Counted from the first calendar day, a Thursday.
    let offset: u32 = ((day as i64) - (FIRST_CALENDAR_DAY as i64)) as u32;
    let w: u32 = (offset + 3) % 7;
    assert((day - 1) % 7 == (offset + 3) % 7) by (nonlinear_arith)
        requires
            day - 1 == offset + 3 - 7 * 13678019,
    ;
    w as i32
}

/// `chrono`'s `TimeZone::from_local_datetime` on `Local` for midnight at
/// the start of the `NaiveDate` numbered `day`, when it names exactly one
/// instant (`LocalResult::single`), then `DateTime::timestamp`. The result
/// depends on the machine's time zone. Claimed: every UTC offset is less
/// than a day, so the instant lies less than a day from the UTC midnight
/// of `day`. Whether there is one, and which, is not stated.
#[verifier::external_body]
fn local_midnight_timestamp(day: i32) -> (r: Option<i64>)
    requires
        in_calendar(day as int),
    ensures
        r matches Some(t) ==> near_midnight(t as int, day as int),
{
    let date = chrono::NaiveDate::from_num_days_from_ce_opt(day).unwrap();
    match chrono::Local.from_local_datetime(&date.and_hms_opt(0, 0, 0).unwrap()).single() {
        Some(dt) => Some(dt.timestamp()),
        None => None,
    }
}

/// `chrono`'s `Datelike::with_day0(0)` on the `NaiveDate` numbered `day`.
/// Claimed: it gives the first day of the same month, which is not after
/// `day` and less than 31 days before it.
#[verifier::external_body]
fn first_day_of_month(day: i32) -> (r: i32)
    requires
        in_calendar(day as int),
    ensures
        r == month_first_day(day as int),
        r <= day < r + 31,
        in_calendar(r as int),
{
    chrono::NaiveDate::from_num_days_from_ce_opt(day).unwrap().with_day0(0).unwrap().num_days_from_ce()
}

/// `chrono`'s `Datelike::with_ordinal(1)` on the `NaiveDate` numbered
/// `day`. Claimed: it gives January 1 of the same year, which is not after
/// `day` and less than 366 days before it.
#[verifier::external_body]
fn first_day_of_year(day: i32) -> (r: i32)
    requires
        in_calendar(day as int),
    ensures
        r == year_first_day(day as int),
        r <= day < r + 366,
        in_calendar(r as int),
{
    chrono::NaiveDate::from_num_days_from_ce_opt(day).unwrap().with_ordinal(1).unwrap().num_days_from_ce()
}

/// `chrono`'s `FromStr` for `DateTime<FixedOffset>`, then
/// `DateTime::timestamp`, or the error's text. Claimed: the outcome depends
/// on `text` alone; nothing more is stated.
#[verifier::external_body]
fn parse_datetime(text: &str) -> (r: Result<i64, String>)
    ensures
        match r {
            Ok(t) => datetime_parse(text@) == Ok::<i64, Seq<char>>(t),
            Err(e) => datetime_parse(text@) == Err::<i64, Seq<char>>(e@),
        },
{
    match text.parse::<chrono::DateTime<chrono::FixedOffset>>() {
        Ok(dt) => Ok(dt.timestamp()),
        Err(e) => Err(e.to_string()),
    }
}

/// Steps back from `today` one day at a time until a Monday.
pub fn week_start(today: i32) -> (d: i32)
    requires
        in_calendar(today as int),
        in_calendar(today - weekday_of(today as int)),
    ensures
        d == today - weekday_of(today as int),
        weekday_of(d as int) == 0,
        today - 7 < d <= today,
{
    let ghost target = today - weekday_of(today as int);
    let mut day = today;
    while weekday_from_monday(day) != 0
        invariant
            target == today - weekday_of(today as int),
            in_calendar(target),
            in_calendar(today as int),
            target <= day <= today,
            weekday_of(day as int) == weekday_of(today as int) - (today - day),
        decreases day - target,
    {
        day = day - 1;
    }
    day
}

// ---------------------------------------------------------------------------
// Periods
// ---------------------------------------------------------------------------

/// The period that the arguments of `stats` ask for.
pub enum PeriodRequest {
    Today,
    Yesterday,
    ThisWeek,
    ThisMonth,
    ThisYear,
    /// From a date and time, up to another where one is given.
    Range { begin: String, end: Option<String> },
}

pub enum PeriodRequestView {
    Today,
    Yesterday,
    ThisWeek,
    ThisMonth,
    ThisYear,
    Range { begin: Seq<char>, end: Option<Seq<char>> },
}

impl View for PeriodRequest {
    type V = PeriodRequestView;

    open spec fn view(&self) -> PeriodRequestView {
        match self {
            PeriodRequest::Today => PeriodRequestView::Today,
            PeriodRequest::Yesterday => PeriodRequestView::Yesterday,
            PeriodRequest::ThisWeek => PeriodRequestView::ThisWeek,
            PeriodRequest::ThisMonth => PeriodRequestView::ThisMonth,
            PeriodRequest::ThisYear => PeriodRequestView::ThisYear,
            PeriodRequest::Range { begin, end } => PeriodRequestView::Range {
                begin: begin@,
                end: match end {
                    Some(e) => Some(e@),
                    None => None,
                },
            },
        }
    }
}

/// Why no period could be determined.
pub enum PeriodError {
    /// No argument names a period.
    MissingPeriod,
    /// `this` is not followed by a unit.
    MissingUnit,
    /// `this` is followed by something other than `week`, `month` or `year`.
    UnknownUnit(String),
    /// An argument is not a date and time; `reason` says why.
    InvalidDateTime { text: String, reason: String },
}

pub enum PeriodErrorView {
    MissingPeriod,
    MissingUnit,
    UnknownUnit(Seq<char>),
    InvalidDateTime { text: Seq<char>, reason: Seq<char> },
}

impl View for PeriodError {
    type V = PeriodErrorView;

    open spec fn view(&self) -> PeriodErrorView {
        match self {
            PeriodError::MissingPeriod => PeriodErrorView::MissingPeriod,
            PeriodError::MissingUnit => PeriodErrorView::MissingUnit,
            PeriodError::UnknownUnit(u) => PeriodErrorView::UnknownUnit(u@),
            PeriodError::InvalidDateTime { text, reason } => PeriodErrorView::InvalidDateTime {
                text: text@,
                reason: reason@,
            },
        }
    }
}

/// Which period the arguments that follow `stats` ask for. Arguments after
/// the ones that are read are ignored.
pub open spec fn period_request_of(args: Seq<Seq<char>>) -> Result<
    PeriodRequestView,
    PeriodErrorView,
> {
    if args.len() == 0 {
        Err(PeriodErrorView::MissingPeriod)
    } else if args[0] == "today"@ {
        Ok(PeriodRequestView::Today)
    } else if args[0] == "yesterday"@ {
        Ok(PeriodRequestView::Yesterday)
    } else if args[0] == "this"@ {
        if args.len() == 1 {
            Err(PeriodErrorView::MissingUnit)
        } else if args[1] == "week"@ {
            Ok(PeriodRequestView::ThisWeek)
        } else if args[1] == "month"@ {
            Ok(PeriodRequestView::ThisMonth)
        } else if args[1] == "year"@ {
            Ok(PeriodRequestView::ThisYear)
        } else {
            Err(PeriodErrorView::UnknownUnit(args[1]))
        }
    } else {
        Ok(
            PeriodRequestView::Range {
                begin: args[0],
                end: if args.len() > 1 {
                    Some(args[1])
                } else {
                    None
                },
            },
        )
    }
}

/// Reads the period from the arguments that follow `stats`.
pub fn parse_period_args(args: &Vec<String>) -> (r: Result<PeriodRequest, PeriodError>)
    ensures
        match r {
            Ok(p) => period_request_of(args_view(args@)) == Ok::<
                PeriodRequestView,
                PeriodErrorView,
            >(p@),
            Err(e) => period_request_of(args_view(args@)) == Err::<
                PeriodRequestView,
                PeriodErrorView,
            >(e@),
        },
        args@.len() >= 1 && !is_period_word(args@[0]@) ==> (r matches Ok(p) && p@
            == PeriodRequestView::Range {
            begin: args@[0]@,
            end: if args@.len() >= 2 {
                Some(args@[1]@)
            } else {
                None
            },
        }),
{
    let ghost a = args_view(args@);
    if args.len() == 0 {
        return Err(PeriodError::MissingPeriod);
    }
    assert(a[0] == args@[0]@);
    if text_equals(&args[0], "today") {
        return Ok(PeriodRequest::Today);
    }
    if text_equals(&args[0], "yesterday") {
        return Ok(PeriodRequest::Yesterday);
    }
    if text_equals(&args[0], "this") {
        if args.len() == 1 {
            return Err(PeriodError::MissingUnit);
        }
        assert(a[1] == args@[1]@);
        if text_equals(&args[1], "week") {
            return Ok(PeriodRequest::ThisWeek);
        }
        if text_equals(&args[1], "month") {
            return Ok(PeriodRequest::ThisMonth);
        }
        if text_equals(&args[1], "year") {
            return Ok(PeriodRequest::ThisYear);
        }
        return Err(PeriodError::UnknownUnit(args[1].clone()));
    }
    let end = if args.len() > 1 {
        assert(a[1] == args@[1]@);
        Some(args[1].clone())
    } else {
        None
    };
    Ok(PeriodRequest::Range { begin: args[0].clone(), end })
}

/// One end of a period.
pub enum Bound {
    /// Midnight, local time, at the start of the day numbered `0`.
    LocalMidnight(i32),
    /// A point in time.
    Instant(Timestamp),
}

pub enum BoundView {
    LocalMidnight(int),
    Instant(int),
}

impl View for Bound {
    type V = BoundView;

    open spec fn view(&self) -> BoundView {
        match self {
            Bound::LocalMidnight(d) => BoundView::LocalMidnight(*d as int),
            Bound::Instant(t) => BoundView::Instant(t@),
        }
    }
}

/// A period: from `begin`, up to `end` where there is one.
pub struct Period {
    pub begin: Bound,
    pub end: Option<Bound>,
}

pub open spec fn optional_bound(b: Option<Bound>) -> Option<BoundView> {
    match b {
        Some(v) => Some(v@),
        None => None,
    }
}

/// The days that `today` must be able to step back to for `request`.
pub open spec fn period_computable(request: PeriodRequestView, today: int) -> bool {
    &&& in_calendar(today)
    &&& request is Yesterday ==> in_calendar(today - 1)
    &&& request is ThisWeek ==> in_calendar(today - weekday_of(today))
}

/// The outcome of reading one end of a range.
pub open spec fn instant_of(text: Seq<char>, parsed: Result<i64, Seq<char>>) -> Result<
    BoundView,
    PeriodErrorView,
> {
    match parsed {
        Ok(t) => Ok(BoundView::Instant(t as int)),
        Err(reason) => Err(PeriodErrorView::InvalidDateTime { text, reason }),
    }
}

/// The period that `request` asks for when `today` is the current day.
pub open spec fn period_of(request: PeriodRequestView, today: int) -> Result<
    (BoundView, Option<BoundView>),
    PeriodErrorView,
> {
    match request {
        PeriodRequestView::Today => Ok((BoundView::LocalMidnight(today), None)),
        PeriodRequestView::Yesterday => Ok(
            (BoundView::LocalMidnight(today - 1), Some(BoundView::LocalMidnight(today))),
        ),
        PeriodRequestView::ThisWeek => Ok(
            (BoundView::LocalMidnight(today - weekday_of(today)), None),
        ),
        PeriodRequestView::ThisMonth => Ok((BoundView::LocalMidnight(month_first_day(today)), None)),
        PeriodRequestView::ThisYear => Ok((BoundView::LocalMidnight(year_first_day(today)), None)),
        PeriodRequestView::Range { begin, end } => match instant_of(begin, datetime_parse(begin)) {
            Err(e) => Err(e),
            Ok(b) => match end {
                None => Ok((b, None)),
                Some(e) => match instant_of(e, datetime_parse(e)) {
                    Err(err) => Err(err),
                    Ok(eb) => Ok((b, Some(eb))),
                },
            },
        },
    }
}

/// Turns the outcome of reading `text` as a date and time into an end of a period.
pub fn instant_bound(text: &String, parsed: Result<i64, String>) -> (r: Result<Bound, PeriodError>)
    ensures
        match r {
            Ok(b) => instant_of(text@, parsed_view(parsed)) == Ok::<BoundView, PeriodErrorView>(b@),
            Err(e) => instant_of(text@, parsed_view(parsed)) == Err::<BoundView, PeriodErrorView>(
                e@,
            ),
        },
{
    match parsed {
        Ok(t) => Ok(Bound::Instant(Timestamp::from_seconds(t))),
        Err(reason) => Err(PeriodError::InvalidDateTime { text: text.clone(), reason }),
    }
}

pub open spec fn parsed_view(p: Result<i64, String>) -> Result<i64, Seq<char>> {
    match p {
        Ok(t) => Ok(t),
        Err(e) => Err(e@),
    }
}

/// Whether `request` can be worked out when `today` is the current day.
pub fn can_resolve(request: &PeriodRequest, today: i32) -> (b: bool)
    ensures
        b == period_computable(request@, today as int),
{
    if today < FIRST_CALENDAR_DAY || today > LAST_CALENDAR_DAY {
        return false;
    }
    match request {
        PeriodRequest::Yesterday => today > FIRST_CALENDAR_DAY,
        PeriodRequest::ThisWeek => {
            let w = weekday_from_monday(today);
            (today as i64) - (w as i64) >= FIRST_CALENDAR_DAY as i64
        },
        _ => true,
    }
}

/// Works out the period that `request` asks for when `today` is the current day.
pub fn resolve_period(request: &PeriodRequest, today: i32) -> (r: Result<Period, PeriodError>)
    requires
        period_computable(request@, today as int),
    ensures
        match r {
            Ok(p) => period_of(request@, today as int) == Ok::<
                (BoundView, Option<BoundView>),
                PeriodErrorView,
            >((p.begin@, optional_bound(p.end))),
            Err(e) => period_of(request@, today as int) == Err::<
                (BoundView, Option<BoundView>),
                PeriodErrorView,
            >(e@),
        },
        r matches Ok(p) ==> (p.begin@ matches BoundView::LocalMidnight(d) ==> today - 366 < d
            <= today),
        r matches Ok(p) ==> period_days_in_calendar(p),
        request@ is ThisWeek ==> (r matches Ok(p) && p.end is None && (p.begin@ matches BoundView::LocalMidnight(d)
            && (d - 1) % 7 == 0 && today - 7 < d <= today)),
        request@ is Today ==> (r matches Ok(p) && p.end is None && p.begin@
            == BoundView::LocalMidnight(today as int)),
        request@ is Yesterday ==> (r matches Ok(p) && p.begin@ == BoundView::LocalMidnight(
            today - 1,
        ) && optional_bound(p.end) == Some(BoundView::LocalMidnight(today as int))),
{
    match request {
        PeriodRequest::Today => Ok(Period { begin: Bound::LocalMidnight(today), end: None }),
        PeriodRequest::Yesterday => Ok(
            Period {
                begin: Bound::LocalMidnight(today - 1),
                end: Some(Bound::LocalMidnight(today)),
            },
        ),
        PeriodRequest::ThisWeek => Ok(
            Period { begin: Bound::LocalMidnight(week_start(today)), end: None },
        ),
        PeriodRequest::ThisMonth => Ok(
            Period { begin: Bound::LocalMidnight(first_day_of_month(today)), end: None },
        ),
        PeriodRequest::ThisYear => Ok(
            Period { begin: Bound::LocalMidnight(first_day_of_year(today)), end: None },
        ),
        PeriodRequest::Range { begin, end } => {
            let b = match instant_bound(begin, parse_datetime(begin.as_str())) {
                Ok(b) => b,
                Err(e) => {
                    return Err(e);
                },
            };
            match end {
                None => Ok(Period { begin: b, end: None }),
                Some(e) => match instant_bound(e, parse_datetime(e.as_str())) {
                    Ok(eb) => Ok(Period { begin: b, end: Some(eb) }),
                    Err(err) => Err(err),
                },
            }
        },
    }
}

impl PeriodError {
    /// The text that describes the error.
    pub fn message(&self) -> (s: String)
        ensures
            s@ == period_error_text(self@),
    {
        match self {
            PeriodError::MissingPeriod => String::from_str(
                "udefined period, known periods: today, yesterday, this {week,month,year}, 'start datetime' {day,week,month,year}, 'start datetime' 'end datetime'",
            ),
            PeriodError::MissingUnit => String::from_str("missing either week, month, or year"),
            PeriodError::UnknownUnit(u) => {
                let mut s = String::from_str("unknown period ");
                s.append(u.as_str());
                s.append(", known periods: week, month, year");
                s
            },
            PeriodError::InvalidDateTime { text: _, reason } => reason.clone(),
        }
    }
}

pub open spec fn period_error_text(e: PeriodErrorView) -> Seq<char> {
    match e {
        PeriodErrorView::MissingPeriod => "udefined period, known periods: today, yesterday, this {week,month,year}, 'start datetime' {day,week,month,year}, 'start datetime' 'end datetime'"@,
        PeriodErrorView::MissingUnit => "missing either week, month, or year"@,
        PeriodErrorView::UnknownUnit(u) => "unknown period "@ + u
            + ", known periods: week, month, year"@,
        PeriodErrorView::InvalidDateTime { text: _, reason } => reason,
    }
}

/// Every day that names an end of `p` is one that `chrono` can represent.
pub open spec fn period_days_in_calendar(p: Period) -> bool {
    &&& p.begin@ matches BoundView::LocalMidnight(d) ==> in_calendar(d)
    &&& p.end matches Some(e) ==> (e@ matches BoundView::LocalMidnight(d) ==> in_calendar(d))
}

/// The day number of January 1, 1970.
pub const UNIX_EPOCH_DAY: i32 = 719163i32;

/// Seconds since the Unix epoch at UTC midnight at the start of `day`.
pub open spec fn utc_midnight(day: int) -> int {
    (day - UNIX_EPOCH_DAY) * 86400
}

/// `t` is less than a day away from the UTC midnight at the start of
/// `day`, as a local midnight in any time zone is.
pub open spec fn near_midnight(t: int, day: int) -> bool {
    -86400 < t - utc_midnight(day) < 86400
}

/// The point in time of one end of a period: an instant as it is, a day as
/// `midnight`, the local midnight that the time zone gives for it (if any).
pub open spec fn bound_instant(b: BoundView, midnight: Option<i64>) -> Option<int> {
    match b {
        BoundView::Instant(t) => Some(t),
        BoundView::LocalMidnight(_) => match midnight {
            Some(m) => Some(m as int),
            None => None,
        },
    }
}

/// The interval `(from, to)` of a period, given the local midnights of its
/// day ends; none where an end has no point in time.
pub open spec fn interval_spec(
    begin: BoundView,
    end: Option<BoundView>,
    begin_midnight: Option<i64>,
    end_midnight: Option<i64>,
) -> Option<(int, Option<int>)> {
    match bound_instant(begin, begin_midnight) {
        None => None,
        Some(f) => match end {
            None => Some((f, None)),
            Some(e) => match bound_instant(e, end_midnight) {
                None => None,
                Some(t) => Some((f, Some(t))),
            },
        },
    }
}

pub open spec fn interval_view(i: Option<Interval>) -> Option<(int, Option<int>)> {
    match i {
        Some(v) => Some((v.from@, crate::stats::optional_seconds(v.to))),
        None => None,
    }
}

fn bound_point(b: Bound, midnight: Option<i64>) -> (r: Option<Timestamp>)
    ensures
        match r {
            Some(t) => bound_instant(b@, midnight) == Some(t@),
            None => bound_instant(b@, midnight) is None,
        },
{
    match b {
        Bound::Instant(t) => Some(t),
        Bound::LocalMidnight(_) => match midnight {
            Some(s) => Some(Timestamp::from_seconds(s)),
            None => None,
        },
    }
}

/// The interval of a period, given the local midnights that the time zone
/// gives for its day ends (`None` where it gives no single one). Ends that
/// are instants ignore the midnight given for them.
pub fn interval_from_midnights(
    p: Period,
    begin_midnight: Option<i64>,
    end_midnight: Option<i64>,
) -> (r: Option<Interval>)
    ensures
        interval_view(r) == interval_spec(p.begin@, optional_bound(p.end), begin_midnight, end_midnight),
{
    let from = match bound_point(p.begin, begin_midnight) {
        Some(t) => t,
        None => {
            return None;
        },
    };
    match p.end {
        None => Some(Interval { from, to: None }),
        Some(e) => match bound_point(e, end_midnight) {
            Some(t) => Some(Interval { from, to: Some(t) }),
            None => None,
        },
    }
}

fn day_midnight(b: &Bound) -> (r: Option<i64>)
    requires
        b@ matches BoundView::LocalMidnight(d) ==> in_calendar(d),
    ensures
        b@ matches BoundView::LocalMidnight(d) ==> (r matches Some(t) ==> near_midnight(t as int, d)),
{
    match b {
        Bound::Instant(_) => None,
        Bound::LocalMidnight(d) => local_midnight_timestamp(*d),
    }
}

/// The interval that a period covers. A day stands for its local midnight,
/// which the machine's time zone decides and which lies less than a day
/// from the day's UTC midnight; there is no interval when a local midnight
/// names no single instant. Instants are kept as they are.
pub fn interval_of(p: Period) -> (r: Option<Interval>)
    requires
        period_days_in_calendar(p),
    ensures
        exists|bm: Option<i64>, em: Option<i64>|
            {
                &&& interval_view(r) == interval_spec(p.begin@, optional_bound(p.end), bm, em)
                &&& (p.begin@ matches BoundView::LocalMidnight(d) ==> (bm matches Some(t)
                    ==> near_midnight(t as int, d)))
                &&& (p.end matches Some(e) ==> (e@ matches BoundView::LocalMidnight(d) ==> (
                em matches Some(t) ==> near_midnight(t as int, d))))
            },
        p.begin@ matches BoundView::Instant(t) ==> (r matches Some(i) ==> i.from@ == t),
        p.begin@ matches BoundView::LocalMidnight(d) ==> (r matches Some(i) ==> near_midnight(
            i.from@,
            d,
        )),
        p.end is None ==> (r matches Some(i) ==> i.to is None),
        p.end matches Some(e) ==> (e@ matches BoundView::Instant(t) ==> (r matches Some(i) ==> (
        i.to is Some && i.to.unwrap()@ == t))),
        p.end matches Some(e) ==> (e@ matches BoundView::LocalMidnight(d) ==> (r matches Some(i)
            ==> (i.to is Some && near_midnight(i.to.unwrap()@, d)))),
        (p.begin@ is Instant && (p.end matches Some(e) ==> e@ is Instant)) ==> r is Some,
{
    let bm = day_midnight(&p.begin);
    let em = match &p.end {
        Some(e) => day_midnight(e),
        None => None,
    };
    let ghost pb = p.begin@;
    let ghost pe = optional_bound(p.end);
    let r = interval_from_midnights(p, bm, em);
    assert(interval_view(r) == interval_spec(pb, pe, bm, em));
    r
}

/// The first arguments that name a period by a word rather than by a date.
pub open spec fn is_period_word(a: Seq<char>) -> bool {
    a == "today"@ || a == "yesterday"@ || a == "this"@
}

/// Law: arguments that do not start with a period word ask for a range
/// from the first argument, up to the second exactly when there is one;
/// further arguments are ignored.
pub proof fn lemma_range_arguments(args: Seq<Seq<char>>)
    requires
        args.len() >= 1,
        !is_period_word(args[0]),
    ensures
        args.len() == 1 ==> period_request_of(args) == Ok::<PeriodRequestView, PeriodErrorView>(
            PeriodRequestView::Range { begin: args[0], end: None },
        ),
        args.len() >= 2 ==> period_request_of(args) == Ok::<PeriodRequestView, PeriodErrorView>(
            PeriodRequestView::Range { begin: args[0], end: Some(args[1]) },
        ),
{
}

/// Law: the period words ask for what they say, and `this` needs one of
/// `week`, `month` or `year` after it.
pub proof fn lemma_period_words(args: Seq<Seq<char>>)
    requires
        args.len() >= 1,
    ensures
        args[0] == "today"@ ==> period_request_of(args) == Ok::<PeriodRequestView, PeriodErrorView>(
            PeriodRequestView::Today,
        ),
        args[0] == "yesterday"@ ==> period_request_of(args) == Ok::<
            PeriodRequestView,
            PeriodErrorView,
        >(PeriodRequestView::Yesterday),
        args[0] == "this"@ && args.len() == 1 ==> period_request_of(args) == Err::<
            PeriodRequestView,
            PeriodErrorView,
        >(PeriodErrorView::MissingUnit),
        args[0] == "this"@ && args.len() >= 2 && args[1] == "week"@ ==> period_request_of(args)
            == Ok::<PeriodRequestView, PeriodErrorView>(PeriodRequestView::ThisWeek),
        args[0] == "this"@ && args.len() >= 2 && args[1] == "month"@ ==> period_request_of(args)
            == Ok::<PeriodRequestView, PeriodErrorView>(PeriodRequestView::ThisMonth),
        args[0] == "this"@ && args.len() >= 2 && args[1] == "year"@ ==> period_request_of(args)
            == Ok::<PeriodRequestView, PeriodErrorView>(PeriodRequestView::ThisYear),
{
    reveal_strlit("today");
    reveal_strlit("yesterday");
    reveal_strlit("this");
    reveal_strlit("week");
    reveal_strlit("month");
    reveal_strlit("year");
    assert("yesterday"@ != "today"@) by {
        assert("yesterday"@.len() != "today"@.len());
    }
    assert("this"@ != "today"@) by {
        assert("this"@.len() != "today"@.len());
    }
    assert("this"@ != "yesterday"@) by {
        assert("this"@.len() != "yesterday"@.len());
    }
    assert("month"@ != "week"@) by {
        assert("month"@.len() != "week"@.len());
    }
    assert("year"@ != "week"@) by {
        assert("year"@[0] != "week"@[0]);
    }
    assert("year"@ != "month"@) by {
        assert("year"@.len() != "month"@.len());
    }
}

/// Law: `today` covers the current day from its midnight; `yesterday`
/// covers the day before, up to the current day's midnight; `this week`
/// starts at the latest Monday (day 1 being a Monday) that is not after the
/// current day, so on a Monday it starts that day; `this month` and `this
/// year` start at the first day of the current month and year.
pub proof fn lemma_period_starts(today: int)
    ensures
        period_of(PeriodRequestView::Today, today) == Ok::<
            (BoundView, Option<BoundView>),
            PeriodErrorView,
        >((BoundView::LocalMidnight(today), None)),
        period_of(PeriodRequestView::Yesterday, today) == Ok::<
            (BoundView, Option<BoundView>),
            PeriodErrorView,
        >((BoundView::LocalMidnight(today - 1), Some(BoundView::LocalMidnight(today)))),
        period_of(PeriodRequestView::ThisWeek, today) matches Ok(
            (BoundView::LocalMidnight(d), None),
        ) && (d - 1) % 7 == 0 && today - 7 < d <= today,
        (today - 1) % 7 == 0 ==> period_of(PeriodRequestView::ThisWeek, today) == Ok::<
            (BoundView, Option<BoundView>),
            PeriodErrorView,
        >((BoundView::LocalMidnight(today), None)),
        period_of(PeriodRequestView::ThisMonth, today) == Ok::<
            (BoundView, Option<BoundView>),
            PeriodErrorView,
        >((BoundView::LocalMidnight(month_first_day(today)), None)),
        period_of(PeriodRequestView::ThisYear, today) == Ok::<
            (BoundView, Option<BoundView>),
            PeriodErrorView,
        >((BoundView::LocalMidnight(year_first_day(today)), None)),
{
}

/// Law: an interval starts at the begin instant, or at the local midnight
/// given for a begin day; it ends at the end instant or the local midnight
/// given for an end day, and has no end when the period has none; it exists
/// exactly when every day end was given a local midnight.
pub proof fn lemma_interval_ends(
    begin: BoundView,
    end: Option<BoundView>,
    begin_midnight: Option<i64>,
    end_midnight: Option<i64>,
)
    ensures
        (interval_spec(begin, end, begin_midnight, end_midnight) is Some) <==> ((begin is Instant
            || begin_midnight is Some) && (end matches Some(e) ==> (e is Instant
            || end_midnight is Some))),
        interval_spec(begin, end, begin_midnight, end_midnight) matches Some((f, t)) ==> {
            &&& begin matches BoundView::Instant(x) ==> f == x
            &&& begin is LocalMidnight ==> f == begin_midnight.unwrap()
            &&& end is None ==> t is None
            &&& end matches Some(e) ==> (t is Some && (e matches BoundView::Instant(x) ==> t.unwrap()
                == x) && (e is LocalMidnight ==> t.unwrap() == end_midnight.unwrap()))
        },
{
}

} // verus!
