//! Today's record in the timesheet: seeding it, punching in and punching out.
//!
//! Each operation takes every record of the file, in file order, and gives
//! back every record to write, in the same order: the file is rewritten whole.
use crate::calendar::{date_text_of, same_text, weekday_index_of, CalendarDate, Weekday};
use crate::clock::{minutes_after_break, worked_minutes, worked_minutes_spec};
use crate::cli::Config;
use crate::error::TimesheetError;
use crate::hours::is_hours;
use crate::record::{
    lemma_text_round_trip, parse_records, plain_field, record_views, records_text, text_records, write_records,
    Record, RecordModel,
};
use vstd::prelude::*;

verus! {

pub open spec fn has_date(rs: Seq<RecordModel>, date: Seq<char>) -> bool {
    exists|i: int| 0 <= i < rs.len() && (#[trigger] rs[i]).date == date
}

/// No two records share a date.
pub open spec fn distinct_dates(rs: Seq<RecordModel>) -> bool {
    forall|i: int, j: int| 0 <= i < rs.len() && 0 <= j < rs.len() && i != j ==> (#[trigger] rs[i]).date != (#[trigger] rs[j]).date
}

/// A fresh record for a day: nothing punched, no hours.
pub open spec fn blank_record(date: Seq<char>, weekday: Seq<char>) -> RecordModel {
    RecordModel {
        date,
        weekday,
        in_time: Seq::empty(),
        out_time: Seq::empty(),
        workinghours: 0,
        hours: 0,
    }
}

/// The records with one for `today` added at the end where none has its date.
pub open spec fn seeded(rs: Seq<RecordModel>, today: Seq<char>, weekday: Seq<char>) -> Seq<RecordModel> {
    if has_date(rs, today) {
        rs
    } else {
        rs.push(blank_record(today, weekday))
    }
}

pub open spec fn punch_in_record(r: RecordModel, in_time: Seq<char>, workinghours: int) -> RecordModel {
    RecordModel {
        date: r.date,
        weekday: r.weekday,
        in_time,
        out_time: r.out_time,
        workinghours,
        hours: r.hours,
    }
}

pub open spec fn punch_out_record(r: RecordModel, out_time: Seq<char>, hours: int) -> RecordModel {
    RecordModel {
        date: r.date,
        weekday: r.weekday,
        in_time: r.in_time,
        out_time,
        workinghours: r.workinghours,
        hours,
    }
}

/// The records after punching in today: today's record, seeded where
/// missing, gets the clock-in time and the target minutes.
pub open spec fn punched_in(
    rs: Seq<RecordModel>,
    today: Seq<char>,
    weekday: Seq<char>,
    in_time: Seq<char>,
    workinghours: int,
) -> Seq<RecordModel> {
    let s = seeded(rs, today, weekday);
    Seq::new(
        s.len(),
        |i: int|
            if s[i].date == today {
                punch_in_record(s[i], in_time, workinghours)
            } else {
                s[i]
            },
    )
}

/// Whether today's record cannot be closed at `out_time`: its clock-in or the
/// clock-out does not read as a time.
pub open spec fn out_fails(s: Seq<RecordModel>, today: Seq<char>, out_time: Seq<char>) -> bool {
    exists|i: int|
        0 <= i < s.len() && (#[trigger] s[i]).date == today && worked_minutes_spec(s[i].in_time, out_time) is Err
}

/// No record of today has a clock-in time.
pub open spec fn no_clock_in(rs: Seq<RecordModel>, today: Seq<char>) -> bool {
    forall|i: int| 0 <= i < rs.len() && (#[trigger] rs[i]).date == today ==> rs[i].in_time.len() == 0
}

/// The hours of a record closed at `out_time`: the minutes worked less the break.
pub open spec fn closed_hours(r: RecordModel, out_time: Seq<char>, break_minutes: int) -> int {
    match worked_minutes_spec(r.in_time, out_time) {
        Ok(m) => m - break_minutes,
        Err(_) => 0,
    }
}

/// The records after punching out today: today's record, seeded where
/// missing, gets the clock-out time and the minutes worked less the break;
/// `Parse` where its clock-in or the clock-out does not read as a time.
pub open spec fn punched_out(
    rs: Seq<RecordModel>,
    today: Seq<char>,
    weekday: Seq<char>,
    out_time: Seq<char>,
    break_minutes: int,
) -> Result<Seq<RecordModel>, TimesheetError> {
    let s = seeded(rs, today, weekday);
    if out_fails(s, today, out_time) {
        Err(TimesheetError::Parse)
    } else {
        Ok(
            Seq::new(
                s.len(),
                |i: int|
                    if s[i].date == today {
                        punch_out_record(s[i], out_time, closed_hours(s[i], out_time, break_minutes))
                    } else {
                        s[i]
                    },
            ),
        )
    }
}

/// The date text and the weekday name of the record for `today`: the date
/// written with the configured pattern, `Config` where it cannot be.
pub fn today_labels(today: CalendarDate, date_format: &str) -> (r: Result<(String, String), TimesheetError>)
    ensures
        match (date_text_of(today.year, today.month, today.day, date_format@), weekday_index_of(today.year, today.month, today.day)) {
            (Some(t), Some(i)) => r matches Ok((date, weekday)) && date@ == t
                && weekday@ == Weekday::from_index_spec(i as int).name_spec(),
            _ => r == Err::<(String, String), TimesheetError>(TimesheetError::Config),
        },
{
    let date = match today.format(date_format) {
        Some(d) => d,
        None => return Err(TimesheetError::Config),
    };
    let weekday = match today.weekday() {
        Some(w) => w,
        None => return Err(TimesheetError::Config),
    };
    Ok((date, String::from_str(weekday.name())))
}

/// The position of the record dated `date`: the first where several are.
pub fn find_date(records: &Vec<Record>, date: &str) -> (r: Option<usize>)
    ensures
        match r {
            Some(i) => i < records@.len() && records@[i as int].date@ == date@ && forall|j: int|
                0 <= j < i ==> (#[trigger] records@[j]).date@ != date@,
            None => !has_date(record_views(records@), date@),
        },
{
    let mut i: usize = 0;
    while i < records.len()
        invariant
            i <= records@.len(),
            forall|j: int| 0 <= j < i ==> (#[trigger] records@[j]).date@ != date@,
        decreases records.len() - i,
    {
        if same_text(records[i].date.as_str(), date) {
            return Some(i);
        }
        i = i + 1;
    }
    assert forall|j: int| 0 <= j < records@.len() implies (#[trigger] record_views(records@)[j]).date != date@ by {
        assert(record_views(records@)[j] == records@[j]@);
    }
    None
}

/// The date text and weekday name of today's record, as `today_labels`
/// gives them.
pub open spec fn labels_of(today: CalendarDate, date_format: Seq<char>) -> Option<(Seq<char>, Seq<char>)> {
    match (date_text_of(today.year, today.month, today.day, date_format), weekday_index_of(today.year, today.month, today.day)) {
        (Some(t), Some(i)) => Some((t, Weekday::from_index_spec(i as int).name_spec())),
        _ => None,
    }
}

pub open spec fn all_storable(rs: Seq<RecordModel>) -> bool {
    forall|i: int| 0 <= i < rs.len() ==> (#[trigger] rs[i]).storable()
}

/// The new text of the file after an update of its records: `Parse` where a
/// record cannot be written.
pub open spec fn rewritten(rs: Seq<RecordModel>) -> Result<Seq<char>, TimesheetError> {
    if all_storable(rs) {
        Ok(records_text(rs))
    } else {
        Err(TimesheetError::Parse)
    }
}

pub open spec fn text_result(r: Result<String, TimesheetError>) -> Result<Seq<char>, TimesheetError> {
    match r {
        Ok(t) => Ok(t@),
        Err(e) => Err(e),
    }
}

/// The timesheet file and the settings that shape its records. Every
/// operation starts from the whole text of the file, as it stands on disk.
pub struct Timesheet {
    pub timesheet_path: String,
    pub config: Config,
}

impl Timesheet {
    pub fn new(timesheet_path: String, config: Config) -> (r: Timesheet)
        ensures
            r.timesheet_path == timesheet_path,
            r.config == config,
    {
        Timesheet { timesheet_path, config }
    }

    /// The records of the file, with a blank one for today where none has
    /// today's date; nothing is written.
    pub fn get_records(&self, text: &str, today: CalendarDate) -> (r: Result<Vec<Record>, TimesheetError>)
        ensures
            match (text_records(text@), labels_of(today, self.config.date_format@)) {
                (None, _) => r == Err::<Vec<Record>, TimesheetError>(TimesheetError::Parse),
                (Some(_), None) => r == Err::<Vec<Record>, TimesheetError>(TimesheetError::Config),
                (Some(rs), Some((date, weekday))) => r matches Ok(v) && record_views(v@) == seeded(rs, date, weekday),
            },
    {
        let records = parse_records(text)?;
        let (date, weekday) = today_labels(today, self.config.date_format.as_str())?;
        Ok(seed_today(records, date.as_str(), weekday.as_str()))
    }

    /// Today's record, blank where the file holds none.
    pub fn get_today(&self, text: &str, today: CalendarDate) -> (r: Result<Record, TimesheetError>)
        ensures
            match (text_records(text@), labels_of(today, self.config.date_format@)) {
                (None, _) => r == Err::<Record, TimesheetError>(TimesheetError::Parse),
                (Some(_), None) => r == Err::<Record, TimesheetError>(TimesheetError::Config),
                (Some(rs), Some((date, weekday))) => r matches Ok(rec) && rec@.date == date && (has_date(rs, date)
                    ==> exists|i: int| 0 <= i < rs.len() && rs[i] == rec@) && (!has_date(rs, date) ==> rec@ == blank_record(date, weekday)),
            },
    {
        let records = parse_records(text)?;
        let (date, weekday) = today_labels(today, self.config.date_format.as_str())?;
        let ghost rs = record_views(records@);
        let all = seed_today(records, date.as_str(), weekday.as_str());
        match find_date(&all, date.as_str()) {
            Some(i) => {
                assert(record_views(all@)[i as int] == all@[i as int]@);
                let rec = copy_record(&all[i]);
                proof {
                    if !has_date(rs, date@) {
                        assert(record_views(all@) == rs.push(blank_record(date@, weekday@)));
                        if (i as int) < rs.len() {
                            assert(rs[i as int] == record_views(all@)[i as int]);
                        }
                    } else {
                        assert(rs[i as int] == record_views(all@)[i as int]);
                    }
                }
                Ok(rec)
            },
            None => {
                proof {
                    if has_date(rs, date@) {
                        let k = choose|k: int| 0 <= k < rs.len() && (#[trigger] rs[k]).date == date@;
                        assert(record_views(all@)[k].date == date@);
                    } else {
                        assert(record_views(all@)[rs.len() as int].date == date@);
                    }
                }
                Err(TimesheetError::Parse)
            },
        }
    }

    /// The new text of the file after punching in today at `in_time` with a
    /// target of `workinghours` minutes.
    pub fn write_today_in(&self, text: &str, today: CalendarDate, in_time: &str, workinghours: i64) -> (r: Result<String, TimesheetError>)
        ensures
            text_result(r) == match (text_records(text@), labels_of(today, self.config.date_format@)) {
                (None, _) => Err(TimesheetError::Parse),
                (Some(_), None) => Err(TimesheetError::Config),
                (Some(rs), Some((date, weekday))) => rewritten(punched_in(rs, date, weekday, in_time@, workinghours as int)),
            },
    {
        let records = parse_records(text)?;
        let (date, weekday) = today_labels(today, self.config.date_format.as_str())?;
        let updated = punch_in(records, date.as_str(), weekday.as_str(), in_time, workinghours);
        Self::rewrite(&updated)
    }

    /// The new text of the file after punching out today at `out_time`, the
    /// configured break deducted. Where today was never punched in, this
    /// fails with `Parse` and gives no text to write.
    pub fn write_today_out(&self, text: &str, today: CalendarDate, out_time: &str) -> (r: Result<String, TimesheetError>)
        ensures
            text_result(r) == match (text_records(text@), labels_of(today, self.config.date_format@)) {
                (None, _) => Err(TimesheetError::Parse),
                (Some(_), None) => Err(TimesheetError::Config),
                (Some(rs), Some((date, weekday))) => match punched_out(rs, date, weekday, out_time@, self.config.break_min as int) {
                    Ok(out) => rewritten(out),
                    Err(e) => Err(e),
                },
            },
            match (text_records(text@), labels_of(today, self.config.date_format@)) {
                (Some(rs), Some((date, _))) => no_clock_in(rs, date) ==> r == Err::<String, TimesheetError>(
                    TimesheetError::Parse,
                ),
                _ => true,
            },
    {
        let records = parse_records(text)?;
        let (date, weekday) = today_labels(today, self.config.date_format.as_str())?;
        let updated = punch_out(records, date.as_str(), weekday.as_str(), out_time, self.config.break_min)?;
        Self::rewrite(&updated)
    }

    fn rewrite(records: &Vec<Record>) -> (r: Result<String, TimesheetError>)
        ensures
            text_result(r) == rewritten(record_views(records@)),
    {
        let r = write_records(records);
        proof {
            let rs = record_views(records@);
            if r is Err {
                let i = choose|i: int| 0 <= i < records@.len() && !(#[trigger] records@[i]).storable();
                assert(!rs[i].storable());
            } else {
                assert forall|i: int| 0 <= i < rs.len() implies (#[trigger] rs[i]).storable() by {
                    assert(records@[i].storable());
                }
            }
        }
        r
    }
}

fn copy_record(r: &Record) -> (c: Record)
    ensures
        c@ == r@,
{
    Record {
        date: r.date.clone(),
        weekday: r.weekday.clone(),
        in_time: r.in_time.clone(),
        out_time: r.out_time.clone(),
        workinghours: r.workinghours,
        hours: r.hours,
    }
}

/// The records of the file with one for today added at the end where none
/// has today's date. Nothing is written.
pub fn seed_today(records: Vec<Record>, today: &str, weekday: &str) -> (r: Vec<Record>)
    ensures
        record_views(r@) == seeded(record_views(records@), today@, weekday@),
{
    let mut all = records;
    let ghost rs = record_views(records@);
    let mut i: usize = 0;
    while i < all.len()
        invariant
            rs == record_views(all@),
            rs == record_views(records@),
            i <= all.len(),
            forall|j: int| 0 <= j < i ==> (#[trigger] rs[j]).date != today@,
        decreases all.len() - i,
    {
        if same_text(all[i].date.as_str(), today) {
            assert(rs[i as int].date == today@);
            assert(has_date(rs, today@));
            return all;
        }
        i = i + 1;
    }
    let blank = Record {
        date: String::from_str(today),
        weekday: String::from_str(weekday),
        in_time: String::new(),
        out_time: String::new(),
        workinghours: 0,
        hours: 0,
    };
    all.push(blank);
    assert(record_views(all@) =~= rs.push(blank_record(today@, weekday@)));
    all
}

/// Punches in today: seeds today's record where missing, then sets its
/// clock-in time and target minutes. A second punch-in replaces the first.
pub fn punch_in(records: Vec<Record>, today: &str, weekday: &str, in_time: &str, workinghours: i64) -> (r: Vec<Record>)
    ensures
        record_views(r@) == punched_in(record_views(records@), today@, weekday@, in_time@, workinghours as int),
{
    let all = seed_today(records, today, weekday);
    let ghost s = record_views(all@);
    let mut out: Vec<Record> = Vec::new();
    let mut i: usize = 0;
    while i < all.len()
        invariant
            s == record_views(all@),
            s == seeded(record_views(records@), today@, weekday@),
            i <= all.len(),
            record_views(out@) == punched_in(record_views(records@), today@, weekday@, in_time@, workinghours as int).take(i as int),
        decreases all.len() - i,
    {
        let r = &all[i];
        let next = if same_text(r.date.as_str(), today) {
            Record {
                date: r.date.clone(),
                weekday: r.weekday.clone(),
                in_time: String::from_str(in_time),
                out_time: r.out_time.clone(),
                workinghours,
                hours: r.hours,
            }
        } else {
            copy_record(r)
        };
        let ghost before = out@;
        out.push(next);
        assert(record_views(out@) =~= punched_in(record_views(records@), today@, weekday@, in_time@, workinghours as int).take(i + 1)) by {
            assert(record_views(out@) =~= record_views(before).push(next@));
        }
        i = i + 1;
    }
    assert(punched_in(record_views(records@), today@, weekday@, in_time@, workinghours as int).take(i as int)
        =~= punched_in(record_views(records@), today@, weekday@, in_time@, workinghours as int));
    out
}

/// Punches out today: seeds today's record where missing, then sets its
/// clock-out time and its hours, the minutes worked since its clock-in less
/// the break. Fails with `Parse` where the clock-in or the clock-out does not
/// read as a time, as when today was never punched in.
pub fn punch_out(records: Vec<Record>, today: &str, weekday: &str, out_time: &str, break_minutes: i32) -> (r: Result<Vec<Record>, TimesheetError>)
    ensures
        match punched_out(record_views(records@), today@, weekday@, out_time@, break_minutes as int) {
            Ok(rs) => r matches Ok(v) && record_views(v@) == rs,
            Err(e) => r == Err::<Vec<Record>, TimesheetError>(e),
        },
        no_clock_in(record_views(records@), today@) ==> r == Err::<Vec<Record>, TimesheetError>(TimesheetError::Parse),
{
    let all = seed_today(records, today, weekday);
    let ghost s = record_views(all@);
    let ghost goal = Seq::new(
        s.len(),
        |j: int|
            if s[j].date == today@ {
                punch_out_record(s[j], out_time@, closed_hours(s[j], out_time@, break_minutes as int))
            } else {
                s[j]
            },
    );
    let mut out: Vec<Record> = Vec::new();
    let mut i: usize = 0;
    while i < all.len()
        invariant
            s == record_views(all@),
            s == seeded(record_views(records@), today@, weekday@),
            goal.len() == s.len(),
            forall|j: int| 0 <= j < s.len() ==> #[trigger] goal[j] == if s[j].date == today@ {
                punch_out_record(s[j], out_time@, closed_hours(s[j], out_time@, break_minutes as int))
            } else {
                s[j]
            },
            i <= all.len(),
            record_views(out@) == goal.take(i as int),
            forall|j: int| 0 <= j < i ==> !((#[trigger] s[j]).date == today@ && worked_minutes_spec(s[j].in_time, out_time@) is Err),
            forall|j: int| 0 <= j < i && (#[trigger] s[j]).date == today@ ==> s[j].in_time.len() > 0,
        decreases all.len() - i,
    {
        let r = &all[i];
        let next = if same_text(r.date.as_str(), today) {
            let worked = match worked_minutes(r.in_time.as_str(), out_time) {
                Ok(m) => m,
                Err(e) => {
                    assert(s[i as int].date == today@);
                    assert(out_fails(s, today@, out_time@));
                    return Err(e);
                },
            };
            Record {
                date: r.date.clone(),
                weekday: r.weekday.clone(),
                in_time: r.in_time.clone(),
                out_time: String::from_str(out_time),
                workinghours: r.workinghours,
                hours: minutes_after_break(worked, break_minutes),
            }
        } else {
            copy_record(r)
        };
        let ghost before = out@;
        out.push(next);
        assert(record_views(out@) =~= goal.take(i + 1)) by {
            assert(record_views(out@) =~= record_views(before).push(next@));
        }
        i = i + 1;
    }
    assert(goal.take(i as int) =~= goal);
    assert(!out_fails(s, today@, out_time@));
    proof {
        if no_clock_in(record_views(records@), today@) {
            let rs = record_views(records@);
            if has_date(rs, today@) {
                let j = choose|j: int| 0 <= j < rs.len() && (#[trigger] rs[j]).date == today@;
                assert(s[j].date == today@);
            } else {
                assert(s[rs.len() as int].date == today@);
            }
        }
    }
    Ok(out)
}

/// Seeding today keeps dates distinct, and leaves a record with today's date.
proof fn lemma_seeded(rs: Seq<RecordModel>, today: Seq<char>, weekday: Seq<char>)
    requires
        distinct_dates(rs),
    ensures
        distinct_dates(seeded(rs, today, weekday)),
        has_date(seeded(rs, today, weekday), today),
        forall|i: int| 0 <= i < rs.len() ==> #[trigger] seeded(rs, today, weekday)[i] == rs[i],
        seeded(rs, today, weekday).len() == rs.len() || seeded(rs, today, weekday).len() == rs.len() + 1,
{
    let s = seeded(rs, today, weekday);
    if !has_date(rs, today) {
        assert(s[rs.len() as int].date == today);
        assert forall|i: int, j: int| 0 <= i < s.len() && 0 <= j < s.len() && i != j implies (#[trigger] s[i]).date != (#[trigger] s[j]).date by {
            if i == rs.len() {
                assert(rs[j].date != today);
            } else if j == rs.len() {
                assert(rs[i].date != today);
            }
        }
    } else {
        let k = choose|k: int| 0 <= k < rs.len() && (#[trigger] rs[k]).date == today;
        assert(s[k].date == today);
    }
}

/// Punching in and reading the written file back gives exactly one record
/// for today, which holds the clock-in time and target just written, and
/// gives no date a second record.
pub proof fn lemma_punch_in_then_load(
    rs: Seq<RecordModel>,
    today: Seq<char>,
    weekday: Seq<char>,
    in_time: Seq<char>,
    workinghours: int,
)
    requires
        forall|i: int| 0 <= i < rs.len() ==> (#[trigger] rs[i]).storable(),
        distinct_dates(rs),
        plain_field(today),
        plain_field(weekday),
        plain_field(in_time),
        is_hours(workinghours),
    ensures
        ({
            let written = punched_in(rs, today, weekday, in_time, workinghours);
            &&& text_records(records_text(written)) == Some(written)
            &&& distinct_dates(written)
            &&& exists|i: int|
                0 <= i < written.len() && (#[trigger] written[i]).date == today && written[i].in_time == in_time
                    && written[i].workinghours == workinghours
            &&& forall|i: int, j: int|
                0 <= i < written.len() && 0 <= j < written.len() && (#[trigger] written[i]).date == today
                    && (#[trigger] written[j]).date == today ==> i == j
        }),
{
    let s = seeded(rs, today, weekday);
    let written = punched_in(rs, today, weekday, in_time, workinghours);
    lemma_seeded(rs, today, weekday);
    assert forall|i: int| 0 <= i < s.len() implies (#[trigger] s[i]).storable() by {
        if i < rs.len() {
            assert(s[i] == rs[i]);
        } else {
            assert(s[i] == blank_record(today, weekday));
            assert(plain_field(Seq::<char>::empty()));
        }
    }
    assert forall|i: int| 0 <= i < written.len() implies (#[trigger] written[i]).storable() by {
        assert(s[i].storable());
    }
    lemma_text_round_trip(written);
    assert forall|i: int, j: int| 0 <= i < written.len() && 0 <= j < written.len() && i != j implies (#[trigger] written[i]).date != (#[trigger] written[j]).date by {
        assert(s[i].date != s[j].date);
    }
    let k = choose|k: int| 0 <= k < s.len() && (#[trigger] s[k]).date == today;
    assert(written[k].date == today && written[k].in_time == in_time);
}

} // verus!
