//! Wall-clock times of day and the arithmetic on them.
use crate::error::TimesheetError;
use crate::hours::{digit_char, digit_str};
use chrono::Timelike;
use std::str::FromStr;
use vstd::prelude::*;

verus! {

pub const NANOS_PER_SEC: i64 = 1_000_000_000;

pub const SECS_PER_DAY: u32 = 86_400;

/// A time of day: whole seconds since midnight and a nanosecond part.
/// A nanosecond part of one second or more marks a leap second.
#[derive(Debug, Clone, Copy, PartialEq, Eq, Structural)]
pub struct TimeOfDay {
    pub secs: u32,
    pub frac: u32,
}

impl TimeOfDay {
    pub open spec fn wf(self) -> bool {
        self.secs < SECS_PER_DAY && self.frac < 2_000_000_000
    }

    /// A time on a whole minute, as written `HH:MM`.
    pub open spec fn on_minute(self) -> bool {
        self.secs % 60 == 0 && self.frac == 0
    }
}

/// What `chrono::NaiveTime::from_str` makes of a text: `None` where it fails,
/// else the seconds since midnight and the nanosecond part of the time.
pub uninterp spec fn naive_time_of(s: Seq<char>) -> Option<(u32, u32)>;

pub open spec fn time_model(t: Option<TimeOfDay>) -> Option<(u32, u32)> {
    match t {
        Some(t) => Some((t.secs, t.frac)),
        None => None,
    }
}

/// Relies on `chrono::NaiveTime::from_str` (via `num_seconds_from_midnight`
/// and `nanosecond`): a deterministic parse whose times lie within one day and
/// carry a nanosecond part below two seconds; an empty text is no time.
#[verifier::external_body]
fn parse_naive_time(s: &str) -> (r: Option<TimeOfDay>)
    ensures
        time_model(r) == naive_time_of(s@),
        r matches Some(t) ==> t.wf(),
        s@.len() == 0 ==> r is None,
{
    match chrono::NaiveTime::from_str(s) {
        Ok(t) => Some(TimeOfDay { secs: t.num_seconds_from_midnight(), frac: t.nanosecond() }),
        Err(_) => None,
    }
}

/// Integer division that rounds toward zero.
pub open spec fn div_toward_zero(x: int, d: int) -> int {
    if x >= 0 {
        x / d
    } else {
        -((-x) / d)
    }
}

/// The signed length of `end - start` in nanoseconds, a leap second of either
/// end counted when the other end lies past it.
pub open spec fn span_nanos(start: TimeOfDay, end: TimeOfDay) -> int {
    let adjust: int = if end.secs > start.secs && start.frac >= 1_000_000_000 {
        1
    } else if end.secs < start.secs && end.frac >= 1_000_000_000 {
        -1
    } else {
        0
    };
    (end.secs - start.secs + adjust) * NANOS_PER_SEC + (end.frac - start.frac)
}

/// Whole minutes from `start` to `end`, rounded toward zero.
pub open spec fn span_minutes(start: TimeOfDay, end: TimeOfDay) -> int {
    div_toward_zero(span_nanos(start, end), 60 * NANOS_PER_SEC)
}

/// The whole minutes from `start` to `end`, negative where `end` comes first.
pub fn minutes_between(start: TimeOfDay, end: TimeOfDay) -> (r: i64)
    requires
        start.wf(),
        end.wf(),
    ensures
        r == span_minutes(start, end),
        -1441 <= r <= 1441,
{
    let mut secs: i64 = end.secs as i64 - start.secs as i64;
    if end.secs > start.secs && start.frac >= 1_000_000_000 {
        secs = secs + 1;
    } else if end.secs < start.secs && end.frac >= 1_000_000_000 {
        secs = secs - 1;
    }
    let total: i64 = secs * NANOS_PER_SEC + (end.frac as i64 - start.frac as i64);
    let per_minute: i64 = 60 * NANOS_PER_SEC;
    let r: i64 = if total >= 0 {
        total / per_minute
    } else {
        -((-total) / per_minute)
    };
    assert(-1441 <= r <= 1441) by {
        assert(-87_402 * NANOS_PER_SEC <= total <= 87_402 * NANOS_PER_SEC);
    }
    r
}

/// Minutes worked between a clock-in and a clock-out given as text.
pub open spec fn worked_minutes_spec(in_time: Seq<char>, out_time: Seq<char>) -> Result<int, TimesheetError> {
    match (naive_time_of(in_time), naive_time_of(out_time)) {
        (Some((si, fi)), Some((so, fo))) => Ok(
            span_minutes(TimeOfDay { secs: si, frac: fi }, TimeOfDay { secs: so, frac: fo }),
        ),
        _ => Err(TimesheetError::Parse),
    }
}

/// Parses a clock-in and a clock-out time and returns the whole minutes
/// between them. A clock-out before the clock-in (past midnight) gives a
/// negative count; it is not corrected.
pub fn worked_minutes(in_time: &str, out_time: &str) -> (r: Result<i64, TimesheetError>)
    ensures
        match r {
            Ok(m) => worked_minutes_spec(in_time@, out_time@) == Ok::<int, TimesheetError>(m as int),
            Err(e) => worked_minutes_spec(in_time@, out_time@) == Err::<int, TimesheetError>(e),
        },
        r matches Ok(m) ==> -1441 <= m <= 1441,
        in_time@.len() == 0 || out_time@.len() == 0 ==> r is Err,
{
    let start = match parse_naive_time(in_time) {
        Some(t) => t,
        None => return Err(TimesheetError::Parse),
    };
    let end = match parse_naive_time(out_time) {
        Some(t) => t,
        None => return Err(TimesheetError::Parse),
    };
    Ok(minutes_between(start, end))
}

/// Worked minutes less a break. The result may be negative where the break
/// is longer than the time worked: it is not clamped.
pub fn minutes_after_break(worked: i64, break_minutes: i32) -> (r: i64)
    requires
        -1441 <= worked <= 1441,
    ensures
        r == worked - break_minutes,
{
    worked - break_minutes as i64
}

/// The second of the day at which a day begun at `start` (seconds since
/// midnight) reaches its target: the whole hours of the target and the break
/// added, past midnight wrapping to the next day.
pub open spec fn leave_secs(start: int, workinghours: int, break_minutes: int) -> int {
    (start + div_toward_zero(workinghours, 60) * 3600 + break_minutes * 60) % (SECS_PER_DAY as int)
}

/// A time of day as `HH:MM`.
pub open spec fn clock_text(secs: int) -> Seq<char> {
    let h = secs / 3600;
    let m = secs % 3600 / 60;
    seq![digit_char(h / 10), digit_char(h % 10), ':', digit_char(m / 10), digit_char(m % 10)]
}

fn wrap_day(x: i128) -> (r: u32)
    requires
        x > i128::MIN,
    ensures
        r == (x as int) % (SECS_PER_DAY as int),
        r < SECS_PER_DAY,
{
    let d: i128 = SECS_PER_DAY as i128;
    if x >= 0 {
        (x % d) as u32
    } else {
        let back: i128 = (-x) % d;
        assert(back == (-x) % 86400);
        if back == 0 {
            assert(x % 86400 == 0) by (nonlinear_arith)
                requires (-x) % 86400 == 0, x < 0;
            0
        } else {
            assert(x % 86400 == 86400 - back) by (nonlinear_arith)
                requires back == (-x) % 86400, back != 0, x < 0;
            (d - back) as u32
        }
    }
}

/// The time, as `HH:MM`, at which a day clocked in at `in_time` reaches its
/// target of `workinghours` minutes, counted in whole hours, plus the break;
/// `Parse` where `in_time` does not read as a time.
pub fn leave_time(in_time: &str, workinghours: i64, break_minutes: i32) -> (r: Result<String, TimesheetError>)
    ensures
        match naive_time_of(in_time@) {
            Some((secs, _frac)) => r matches Ok(t) && t@ == clock_text(
                leave_secs(secs as int, workinghours as int, break_minutes as int),
            ),
            None => r == Err::<String, TimesheetError>(TimesheetError::Parse),
        },
{
    let start = match parse_naive_time(in_time) {
        Some(t) => t,
        None => return Err(TimesheetError::Parse),
    };
    let whole_hours: i128 = if workinghours >= 0 {
        (workinghours / 60) as i128
    } else {
        -(((-(workinghours as i128)) / 60))
    };
    let at: u32 = wrap_day(start.secs as i128 + whole_hours * 3600 + break_minutes as i128 * 60);
    let h: u32 = at / 3600;
    let m: u32 = at % 3600 / 60;
    let mut out = String::new();
    out.append(digit_str((h / 10) as u64));
    out.append(digit_str((h % 10) as u64));
    proof {
        reveal_strlit(":");
    }
    out.append(":");
    out.append(digit_str((m / 10) as u64));
    out.append(digit_str((m % 10) as u64));
    assert(out@ =~= clock_text(at as int));
    Ok(out)
}

/// For two times on whole minutes, the second not before the first, the
/// minutes between them are their distance in seconds divided by sixty.
pub proof fn lemma_whole_minute_span(start: TimeOfDay, end: TimeOfDay)
    requires
        start.wf(),
        end.wf(),
        start.on_minute(),
        end.on_minute(),
        start.secs <= end.secs,
    ensures
        span_minutes(start, end) == (end.secs - start.secs) / 60,
        span_minutes(start, end) * 60 == end.secs - start.secs,
{
    let d: int = end.secs - start.secs;
    assert(d % 60 == 0) by {
        assert(start.secs % 60 == 0 && end.secs % 60 == 0);
    }
    assert(span_nanos(start, end) == d * NANOS_PER_SEC);
    assert((d * NANOS_PER_SEC) / (60 * NANOS_PER_SEC) == d / 60) by (nonlinear_arith)
        requires d >= 0, d % 60 == 0;
}

/// Two clock times on whole minutes, the clock-out not before the clock-in,
/// are worked for the minutes between them: their distance in seconds over
/// sixty.
pub proof fn lemma_worked_whole_minutes(in_time: Seq<char>, out_time: Seq<char>, start: TimeOfDay, end: TimeOfDay)
    requires
        naive_time_of(in_time) == Some((start.secs, start.frac)),
        naive_time_of(out_time) == Some((end.secs, end.frac)),
        start.wf(),
        end.wf(),
        start.on_minute(),
        end.on_minute(),
        start.secs <= end.secs,
    ensures
        worked_minutes_spec(in_time, out_time) == Ok::<int, TimesheetError>((end.secs - start.secs) / 60),
{
    lemma_whole_minute_span(start, end);
    assert(TimeOfDay { secs: start.secs, frac: start.frac } == start);
    assert(TimeOfDay { secs: end.secs, frac: end.frac } == end);
}

} // verus!
