use punchrs::calendar::{CalendarDate, Weekday, WorkdayHours};
use punchrs::cli::select_month;
use punchrs::clock::{leave_time, minutes_after_break, minutes_between, worked_minutes, TimeOfDay};
use punchrs::error::TimesheetError;
use punchrs::hours::{format_hours, parse_hours};
use punchrs::record::{parse_line, parse_records, records_to_text, write_records, Record};
use punchrs::stats::{month_summary, summarize, MonthSummary};
use punchrs::timesheet::{find_date, punch_in, punch_out, seed_today, today_labels};

fn record(date: &str, weekday: &str, in_time: &str, out_time: &str, workinghours: i64, hours: i64) -> Record {
    Record {
        date: date.to_string(),
        weekday: weekday.to_string(),
        in_time: in_time.to_string(),
        out_time: out_time.to_string(),
        workinghours,
        hours,
    }
}

fn same(a: &Record, b: &Record) -> bool {
    a.date == b.date
        && a.weekday == b.weekday
        && a.in_time == b.in_time
        && a.out_time == b.out_time
        && a.workinghours == b.workinghours
        && a.hours == b.hours
}

#[test]
fn worked_minutes_of_whole_minutes() {
    assert_eq!(worked_minutes("08:00", "16:30"), Ok(510));
    assert_eq!(worked_minutes("09:15", "09:15"), Ok(0));
    assert_eq!(worked_minutes("00:00", "23:59"), Ok(1439));
}

#[test]
fn worked_minutes_before_clock_in_is_negative() {
    assert_eq!(worked_minutes("16:30", "08:00"), Ok(-510));
}

#[test]
fn worked_minutes_rejects_bad_times() {
    assert_eq!(worked_minutes("", "16:30"), Err(TimesheetError::Parse));
    assert_eq!(worked_minutes("08:00", "25:00"), Err(TimesheetError::Parse));
    assert_eq!(worked_minutes("eight", "16:30"), Err(TimesheetError::Parse));
}

#[test]
fn minutes_between_rounds_toward_zero() {
    let a = TimeOfDay { secs: 8 * 3600, frac: 0 };
    let b = TimeOfDay { secs: 8 * 3600 + 119, frac: 0 };
    assert_eq!(minutes_between(a, b), 1);
    assert_eq!(minutes_between(b, a), -1);
    let c = TimeOfDay { secs: 9 * 3600, frac: 0 };
    let d = TimeOfDay { secs: 8 * 3600, frac: 500_000_000 };
    assert_eq!(minutes_between(d, c), 59);
}

#[test]
fn break_is_not_clamped() {
    assert_eq!(minutes_after_break(510, 30), 480);
    assert_eq!(minutes_after_break(20, 30), -10);
}

#[test]
fn hours_are_written_as_decimal_hours() {
    assert_eq!(format_hours(480), "8");
    assert_eq!(format_hours(510), "8.50");
    assert_eq!(format_hours(500), "8.33");
    assert_eq!(format_hours(-30), "-0.50");
    assert_eq!(format_hours(0), "0");
}

#[test]
fn hours_are_read_to_the_nearest_minute() {
    assert_eq!(parse_hours("8"), Some(480));
    assert_eq!(parse_hours("8.5"), Some(510));
    assert_eq!(parse_hours("8.0"), Some(480));
    assert_eq!(parse_hours("8.333333333333334"), Some(500));
    assert_eq!(parse_hours("-0.5"), Some(-30));
    assert_eq!(parse_hours("999999999"), Some(59_999_999_940));
}

#[test]
fn hours_reject_other_text() {
    assert_eq!(parse_hours(""), None);
    assert_eq!(parse_hours("8."), None);
    assert_eq!(parse_hours(".5"), None);
    assert_eq!(parse_hours("8h"), None);
    assert_eq!(parse_hours("1000000000"), None);
    assert_eq!(parse_hours("-"), None);
}

#[test]
fn written_hours_read_back() {
    for m in [-1441i64, -59, -1, 0, 1, 7, 20, 59, 60, 61, 499, 500, 510, 1439] {
        assert_eq!(parse_hours(&format_hours(m)), Some(m));
    }
}

#[test]
fn line_reads_as_record() {
    let r = parse_line("2024-01-10;Wed;08:00;16:30;8;8").unwrap();
    assert!(same(&r, &record("2024-01-10", "Wed", "08:00", "16:30", 480, 480)));
    assert!(parse_line("2024-01-10;Wed;08:00;16:30;8").is_none());
    assert!(parse_line("2024-01-10;Wed;08:00;16:30;8;x").is_none());
}

#[test]
fn file_text_reads_every_line() {
    let text = "2024-01-10;Wed;08:00;16:30;8;8\r\n\r\n2024-01-11;Thu;;;8;0\r\n";
    let rs = parse_records(text).unwrap();
    assert_eq!(rs.len(), 2);
    assert!(same(&rs[1], &record("2024-01-11", "Thu", "", "", 480, 0)));
    assert_eq!(parse_records("").unwrap().len(), 0);
}

#[test]
fn malformed_file_fails_whole() {
    let text = "2024-01-10;Wed;08:00;16:30;8;8\r\nnot a record\r\n";
    assert!(matches!(parse_records(text), Err(TimesheetError::Parse)));
}

#[test]
fn records_round_trip_through_text() {
    let rs = vec![
        record("2024-01-10", "Wed", "08:00", "16:30", 480, 480),
        record("10.01.24", "Thu", "", "", 510, -15),
        record("2024-01-12", "Fri", "7:45", "", 500, 0),
    ];
    let text = records_to_text(&rs);
    assert_eq!(
        text,
        "2024-01-10;Wed;08:00;16:30;8;8\r\n10.01.24;Thu;;;8.50;-0.25\r\n2024-01-12;Fri;7:45;;8.33;0\r\n"
    );
    let back = parse_records(&text).unwrap();
    assert_eq!(back.len(), rs.len());
    for (a, b) in back.iter().zip(rs.iter()) {
        assert!(same(a, b));
    }
}

#[test]
fn unstorable_record_is_refused() {
    let rs = vec![record("2024-01-10", "Wed", "08;00", "", 480, 0)];
    assert_eq!(write_records(&rs), Err(TimesheetError::Parse));
    let ok = vec![record("2024-01-10", "Wed", "08:00", "", 480, 0)];
    assert_eq!(write_records(&ok).unwrap(), "2024-01-10;Wed;08:00;;8;0\r\n");
}

#[test]
fn month_summary_of_one_record() {
    let rs = parse_records("2024-01-10;Wed;08:00;16:30;8;8\r\n").unwrap();
    let s = month_summary(&rs, 1).unwrap();
    assert_eq!(s, MonthSummary { total: 480, required: 480, diff: 0 });
}

#[test]
fn month_summary_outside_month_is_zero() {
    let rs = vec![
        record("2024-01-10", "Wed", "08:00", "16:30", 480, 480),
        record("2023-03-01", "Wed", "08:00", "12:00", 480, 240),
    ];
    let s = month_summary(&rs, 2).unwrap();
    assert_eq!(s, MonthSummary { total: 0, required: 0, diff: 0 });
    assert_eq!(month_summary(&Vec::new(), 5).unwrap(), MonthSummary { total: 0, required: 0, diff: 0 });
}

#[test]
fn month_summary_matches_month_of_any_year() {
    let rs = vec![
        record("2024-01-10", "Wed", "08:00", "16:30", 480, 480),
        record("2023-01-02", "Mon", "08:00", "12:00", 480, 240),
        record("2024-02-01", "Thu", "08:00", "12:00", 480, 240),
    ];
    let s = month_summary(&rs, 1).unwrap();
    assert_eq!(s, MonthSummary { total: 720, required: 960, diff: 240 });
}

#[test]
fn month_summary_needs_iso_dates() {
    let rs = vec![record("10.01.24", "Wed", "08:00", "16:30", 480, 480)];
    assert_eq!(month_summary(&rs, 1), Err(TimesheetError::Parse));
}

#[test]
fn summarize_takes_given_months() {
    let rs = vec![
        record("a", "Mon", "", "", 60, 30),
        record("b", "Tue", "", "", 120, 150),
    ];
    assert_eq!(summarize(&rs, &vec![4, 4], 4), MonthSummary { total: 180, required: 180, diff: 0 });
    assert_eq!(summarize(&rs, &vec![4, 5], 5), MonthSummary { total: 150, required: 120, diff: -30 });
}

#[test]
fn seeding_adds_today_once() {
    let rs = seed_today(Vec::new(), "2024-01-10", "Wed");
    assert_eq!(rs.len(), 1);
    assert!(same(&rs[0], &record("2024-01-10", "Wed", "", "", 0, 0)));
    let again = seed_today(rs, "2024-01-10", "Wed");
    assert_eq!(again.len(), 1);
}

#[test]
fn punch_in_then_out_on_empty_file() {
    let loaded = parse_records("").unwrap();
    let after_in = punch_in(loaded, "2024-01-10", "Wed", "08:00", 480);
    let text = write_records(&after_in).unwrap();
    assert_eq!(text, "2024-01-10;Wed;08:00;;8;0\r\n");
    let reloaded = parse_records(&text).unwrap();
    assert_eq!(reloaded.len(), 1);
    assert!(same(&reloaded[0], &record("2024-01-10", "Wed", "08:00", "", 480, 0)));
    let after_out = punch_out(reloaded, "2024-01-10", "Wed", "16:30", 30).unwrap();
    assert!(same(&after_out[0], &record("2024-01-10", "Wed", "08:00", "16:30", 480, 480)));
}

#[test]
fn punch_in_keeps_one_record_per_date() {
    let rs = vec![
        record("2024-01-09", "Tue", "08:00", "16:00", 480, 450),
        record("2024-01-10", "Wed", "07:00", "", 480, 0),
    ];
    let after = punch_in(rs, "2024-01-10", "Wed", "09:00", 420);
    let back = parse_records(&write_records(&after).unwrap()).unwrap();
    assert_eq!(back.len(), 2);
    assert!(same(&back[0], &record("2024-01-09", "Tue", "08:00", "16:00", 480, 450)));
    assert!(same(&back[1], &record("2024-01-10", "Wed", "09:00", "", 420, 0)));
    assert_eq!(back.iter().filter(|r| r.date == "2024-01-10").count(), 1);
}

#[test]
fn punch_out_without_punch_in_fails() {
    assert!(matches!(punch_out(Vec::new(), "2024-01-10", "Wed", "16:30", 30), Err(TimesheetError::Parse)));
    let rs = vec![record("2024-01-10", "Wed", "", "", 480, 0)];
    assert!(matches!(punch_out(rs, "2024-01-10", "Wed", "16:30", 30), Err(TimesheetError::Parse)));
}

#[test]
fn punch_out_leaves_other_days() {
    let rs = vec![
        record("2024-01-09", "Tue", "08:00", "", 480, 0),
        record("2024-01-10", "Wed", "08:00", "", 480, 0),
    ];
    let after = punch_out(rs, "2024-01-10", "Wed", "12:00", 0).unwrap();
    assert!(same(&after[0], &record("2024-01-09", "Tue", "08:00", "", 480, 0)));
    assert!(same(&after[1], &record("2024-01-10", "Wed", "08:00", "12:00", 480, 240)));
}

#[test]
fn today_labels_follow_pattern() {
    let d = CalendarDate { year: 2024, month: 1, day: 10 };
    let (date, weekday) = today_labels(d, "%F").unwrap();
    assert_eq!(date, "2024-01-10");
    assert_eq!(weekday, "Wed");
    let (date, _) = today_labels(d, "%d.%m.%y").unwrap();
    assert_eq!(date, "10.01.24");
    let bad = CalendarDate { year: 2024, month: 2, day: 30 };
    assert_eq!(today_labels(bad, "%F"), Err(TimesheetError::Config));
}

#[test]
fn dates_parse_as_iso() {
    assert_eq!(CalendarDate::parse("2024-01-10"), Some(CalendarDate { year: 2024, month: 1, day: 10 }));
    assert_eq!(CalendarDate::parse("10.01.24"), None);
    let r = record("2024-12-31", "Tue", "", "", 0, 0);
    assert_eq!(r.naive_date(), Some(CalendarDate { year: 2024, month: 12, day: 31 }));
}

#[test]
fn weekdays_by_name() {
    assert_eq!(Weekday::from_name("Sat"), Some(Weekday::Sat));
    assert_eq!(Weekday::from_name("Saturday"), None);
    assert_eq!(Weekday::Thu.name(), "Thu");
}

#[test]
fn target_minutes_from_config_or_override() {
    let hours = WorkdayHours {
        monday: Some(480),
        tuesday: Some(480),
        wednesday: Some(480),
        thursday: Some(480),
        friday: Some(360),
        saturday: None,
        sunday: None,
    };
    assert_eq!(hours.get(Weekday::Fri), Some(360));
    assert_eq!(hours.target_minutes(Weekday::Mon, None), Ok(480));
    assert_eq!(hours.target_minutes(Weekday::Sun, Some(120)), Ok(120));
    assert_eq!(hours.target_minutes(Weekday::Sun, None), Err(TimesheetError::Config));
}

#[test]
fn leave_time_adds_whole_target_hours_and_break() {
    assert_eq!(leave_time("08:00", 480, 30), Ok("16:30".to_string()));
    assert_eq!(leave_time("08:00", 510, 30), Ok("16:30".to_string()));
    assert_eq!(leave_time("22:15", 480, 45), Ok("07:00".to_string()));
    assert_eq!(leave_time("", 480, 30), Err(TimesheetError::Parse));
}

#[test]
fn month_selection() {
    assert_eq!(select_month(None, 7), Some(7));
    assert_eq!(select_month(Some("3"), 7), Some(3));
    assert_eq!(select_month(Some("+12"), 7), Some(12));
    assert_eq!(select_month(Some("march"), 7), Some(1));
    assert_eq!(select_month(Some("13"), 7), None);
}

#[test]
fn find_date_gives_first_match() {
    let rs = vec![
        record("2024-01-09", "Tue", "", "", 0, 0),
        record("2024-01-10", "Wed", "", "", 0, 0),
    ];
    assert_eq!(find_date(&rs, "2024-01-10"), Some(1));
    assert_eq!(find_date(&rs, "2024-01-11"), None);
}

fn sheet(date_format: &str, break_min: i32) -> punchrs::timesheet::Timesheet {
    let config = punchrs::cli::Config {
        time_format: "%H:%M".to_string(),
        date_format: date_format.to_string(),
        app_path: "/tmp".to_string(),
        break_min,
        work_hours: WorkdayHours {
            monday: Some(480),
            tuesday: Some(480),
            wednesday: Some(480),
            thursday: Some(480),
            friday: Some(480),
            saturday: None,
            sunday: None,
        },
        work_hours_month: 160,
    };
    punchrs::timesheet::Timesheet::new("/tmp/timesheet.csv".to_string(), config)
}

const JAN_10: CalendarDate = CalendarDate { year: 2024, month: 1, day: 10 };

#[test]
fn file_punch_in_then_out() {
    let s = sheet("%F", 30);
    let text = s.write_today_in("", JAN_10, "08:00", 480).unwrap();
    assert_eq!(text, "2024-01-10;Wed;08:00;;8;0\r\n");
    let text = s.write_today_out(&text, JAN_10, "16:30").unwrap();
    assert_eq!(text, "2024-01-10;Wed;08:00;16:30;8;8\r\n");
}

#[test]
fn file_punch_in_twice_replaces_time() {
    let s = sheet("%F", 30);
    let text = s.write_today_in("2024-01-09;Tue;08:00;16:00;8;7.50\r\n", JAN_10, "08:00", 480).unwrap();
    let text = s.write_today_in(&text, JAN_10, "08:15", 480).unwrap();
    assert_eq!(text, "2024-01-09;Tue;08:00;16:00;8;7.50\r\n2024-01-10;Wed;08:15;;8;0\r\n");
}

#[test]
fn file_punch_out_without_in_fails() {
    let s = sheet("%F", 30);
    assert_eq!(s.write_today_out("", JAN_10, "16:30"), Err(TimesheetError::Parse));
    assert_eq!(
        s.write_today_out("2024-01-10;Wed;;;8;0\r\n", JAN_10, "16:30"),
        Err(TimesheetError::Parse)
    );
}

#[test]
fn file_errors() {
    let s = sheet("%F", 30);
    assert_eq!(s.write_today_in("garbage\r\n", JAN_10, "08:00", 480), Err(TimesheetError::Parse));
    assert_eq!(s.write_today_in("", JAN_10, "08;00", 480), Err(TimesheetError::Parse));
    let bad = sheet("%Q", 30);
    assert_eq!(bad.write_today_in("", JAN_10, "08:00", 480), Err(TimesheetError::Config));
}

#[test]
fn file_today_record() {
    let s = sheet("%d.%m.%y", 0);
    let rs = s.get_records("", JAN_10).unwrap();
    assert_eq!(rs.len(), 1);
    assert!(same(&rs[0], &record("10.01.24", "Wed", "", "", 0, 0)));
    let today = s.get_today("10.01.24;Wed;07:30;;8;0\r\n", JAN_10).unwrap();
    assert!(same(&today, &record("10.01.24", "Wed", "07:30", "", 480, 0)));
}
