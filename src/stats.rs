//! Monthly statistics: hours worked against hours required.
use crate::calendar::{naive_date_of, CalendarDate};
use crate::error::TimesheetError;
use crate::hours::{is_hours, MAX_MINUTES};
use crate::record::{record_views, Record, RecordModel};
use vstd::prelude::*;

verus! {

/// The sums over the records of one month, in minutes.
#[derive(Debug, Clone, Copy, PartialEq, Eq, Structural)]
pub struct MonthSummary {
    /// Minutes worked.
    pub total: i128,
    /// Minutes required.
    pub required: i128,
    /// `required - total`: positive while behind the target, negative when ahead.
    pub diff: i128,
}

/// Minutes worked over the records whose month is `month`; `months[i]` is
/// the month of `rs[i]`.
pub open spec fn worked_in_month(rs: Seq<RecordModel>, months: Seq<int>, month: int) -> int
    decreases rs.len(),
{
    if rs.len() == 0 || months.len() != rs.len() {
        0
    } else {
        worked_in_month(rs.drop_last(), months.drop_last(), month) + if months.last() == month {
            rs.last().hours
        } else {
            0
        }
    }
}

/// Minutes required over the records whose month is `month`.
pub open spec fn required_in_month(rs: Seq<RecordModel>, months: Seq<int>, month: int) -> int
    decreases rs.len(),
{
    if rs.len() == 0 || months.len() != rs.len() {
        0
    } else {
        required_in_month(rs.drop_last(), months.drop_last(), month) + if months.last() == month {
            rs.last().workinghours
        } else {
            0
        }
    }
}

pub open spec fn summary_of(rs: Seq<RecordModel>, months: Seq<int>, month: int) -> (int, int, int) {
    let total = worked_in_month(rs, months, month);
    let required = required_in_month(rs, months, month);
    (total, required, required - total)
}

pub open spec fn summary_model(s: MonthSummary) -> (int, int, int) {
    (s.total as int, s.required as int, s.diff as int)
}

/// The months of the records' dates read as ISO dates, `None` where one
/// does not read as a date.
pub open spec fn record_months(rs: Seq<RecordModel>) -> Option<Seq<int>>
    decreases rs.len(),
{
    if rs.len() == 0 {
        Some(Seq::empty())
    } else {
        match (record_months(rs.drop_last()), naive_date_of(rs.last().date)) {
            (Some(ms), Some((_y, m, _d))) => Some(ms.push(m as int)),
            _ => None,
        }
    }
}

pub open spec fn hours_bounded(rs: Seq<RecordModel>) -> bool {
    forall|i: int| 0 <= i < rs.len() ==> is_hours(#[trigger] rs[i].hours) && is_hours(rs[i].workinghours)
}

/// Sums the hours worked and required over the records whose month, given
/// in `months`, is `month`, whatever their year.
pub fn summarize(records: &Vec<Record>, months: &Vec<u32>, month: u32) -> (r: MonthSummary)
    requires
        months@.len() == records@.len(),
        hours_bounded(record_views(records@)),
    ensures
        summary_model(r) == summary_of(record_views(records@), months@.map_values(|m: u32| m as int), month as int),
{
    let ghost rs = record_views(records@);
    let ghost ms = months@.map_values(|m: u32| m as int);
    let mut total: i128 = 0;
    let mut required: i128 = 0;
    let mut i: usize = 0;
    while i < records.len()
        invariant
            rs == record_views(records@),
            ms == months@.map_values(|m: u32| m as int),
            months@.len() == records@.len(),
            hours_bounded(rs),
            i <= records.len(),
            total == worked_in_month(rs.take(i as int), ms.take(i as int), month as int),
            required == required_in_month(rs.take(i as int), ms.take(i as int), month as int),
            -(i * MAX_MINUTES) <= total <= i * MAX_MINUTES,
            -(i * MAX_MINUTES) <= required <= i * MAX_MINUTES,
        decreases records.len() - i,
    {
        assert(rs.take(i + 1).drop_last() =~= rs.take(i as int));
        assert(ms.take(i + 1).drop_last() =~= ms.take(i as int));
        assert(is_hours(rs[i as int].hours) && is_hours(rs[i as int].workinghours));
        if months[i] == month {
            total = total + records[i].hours as i128;
            required = required + records[i].workinghours as i128;
        }
        i = i + 1;
        assert(i * MAX_MINUTES == (i - 1) * MAX_MINUTES + MAX_MINUTES) by (nonlinear_arith);
    }
    assert(rs.take(i as int) =~= rs);
    assert(ms.take(i as int) =~= ms);
    MonthSummary { total, required, diff: required - total }
}

/// The month summary of the records: each record's date is read as an ISO
/// date, and `Parse` is returned where one does not read as a date.
pub fn month_summary(records: &Vec<Record>, month: u32) -> (r: Result<MonthSummary, TimesheetError>)
    requires
        hours_bounded(record_views(records@)),
    ensures
        match record_months(record_views(records@)) {
            Some(ms) => r matches Ok(s) && summary_model(s) == summary_of(record_views(records@), ms, month as int),
            None => r == Err::<MonthSummary, TimesheetError>(TimesheetError::Parse),
        },
{
    let ghost rs = record_views(records@);
    let mut months: Vec<u32> = Vec::new();
    let mut i: usize = 0;
    assert(rs.take(0) =~= Seq::<RecordModel>::empty());
    while i < records.len()
        invariant
            rs == record_views(records@),
            i <= records.len(),
            months@.len() == i,
            record_months(rs.take(i as int)) == Some(months@.map_values(|m: u32| m as int)),
        decreases records.len() - i,
    {
        assert(rs.take(i + 1).drop_last() =~= rs.take(i as int));
        match CalendarDate::parse(records[i].date.as_str()) {
            Some(d) => {
                let ghost before = months@;
                months.push(d.month);
                assert(months@.map_values(|m: u32| m as int) =~= before.map_values(|m: u32| m as int).push(d.month as int));
            },
            None => {
                proof {
                    lemma_months_fail(rs, i as int + 1);
                }
                return Err(TimesheetError::Parse);
            },
        }
        i = i + 1;
    }
    assert(rs.take(i as int) =~= rs);
    Ok(summarize(records, &months, month))
}

proof fn lemma_months_fail(rs: Seq<RecordModel>, k: int)
    requires
        0 <= k <= rs.len(),
        record_months(rs.take(k)) is None,
    ensures
        record_months(rs) is None,
    decreases rs.len() - k,
{
    if k < rs.len() {
        assert(rs.take(k + 1).drop_last() =~= rs.take(k));
        lemma_months_fail(rs, k + 1);
    } else {
        assert(rs.take(k) =~= rs);
    }
}

/// Over records that all lie outside the month, the summary is all zero.
pub proof fn lemma_other_months_zero(rs: Seq<RecordModel>, months: Seq<int>, month: int)
    requires
        months.len() == rs.len(),
        forall|i: int| 0 <= i < months.len() ==> #[trigger] months[i] != month,
    ensures
        summary_of(rs, months, month) == (0int, 0int, 0int),
    decreases rs.len(),
{
    if rs.len() > 0 {
        let ms = months.drop_last();
        assert forall|i: int| 0 <= i < ms.len() implies #[trigger] ms[i] != month by {
            assert(ms[i] == months[i]);
        }
        lemma_other_months_zero(rs.drop_last(), ms, month);
        assert(months.last() == months[months.len() - 1]);
    }
}

} // verus!
