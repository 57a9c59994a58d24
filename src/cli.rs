//! The commands of the command line, as plain values.
use crate::calendar::WorkdayHours;
use crate::hours::{all_digits, digits_value};
use vstd::prelude::*;

verus! {

/// The command line: one command.
pub struct Cli {
    pub command: PunchDirection,
}

/// What the user asks for.
pub enum PunchDirection {
    /// Punch in for today.
    In(PunchArgs),
    /// Punch out for today.
    Out(PunchArgs),
    /// Hours worked against hours required in a month.
    Stats(StatsArgs),
    /// When the target hours of today are reached.
    When,
    /// All records of the file as a table.
    Print,
}

/// A time to record, with an optional date and target hours (in minutes).
pub struct PunchArgs {
    pub time: String,
    pub date: Option<String>,
    pub workinghours: Option<i64>,
}

/// The month to summarise, as given on the command line.
pub struct StatsArgs {
    pub month: Option<String>,
}

/// The settings of the tool.
pub struct Config {
    pub time_format: String,
    pub date_format: String,
    /// The directory that holds the timesheet file.
    pub app_path: String,
    /// The break deducted from each day, in minutes.
    pub break_min: i32,
    pub work_hours: WorkdayHours,
    pub work_hours_month: i32,
}

/// What `str::parse::<u32>` reads: an optional plus sign and at least one
/// decimal digit, whose value fits in a `u32`.
pub open spec fn u32_text_value(s: Seq<char>) -> Option<u32> {
    let body = if s.len() > 0 && s[0] == '+' { s.skip(1) } else { s };
    if body.len() > 0 && all_digits(body) && digits_value(body) <= u32::MAX {
        Some(digits_value(body) as u32)
    } else {
        None
    }
}

/// Relies on `str::parse::<u32>`: an optional `+` followed by decimal digits
/// only, failing on anything else and on a value past `u32::MAX`.
#[verifier::external_body]
fn parse_u32(s: &str) -> (r: Option<u32>)
    ensures
        r == u32_text_value(s@),
{
    s.parse::<u32>().ok()
}

/// The month to summarise: the current one where none is given, else the
/// given number, with January for a text that is no number; `None` where
/// the number is no month.
pub fn select_month(arg: Option<&str>, current: u32) -> (r: Option<u32>)
    ensures
        r == match arg {
            None => if 1 <= current <= 12 { Some(current) } else { None },
            Some(text) => match u32_text_value(text@) {
                Some(m) => if 1 <= m <= 12 { Some(m) } else { None },
                None => Some(1u32),
            },
        },
{
    let m = match arg {
        None => current,
        Some(text) => match parse_u32(text) {
            Some(m) => m,
            None => 1,
        },
    };
    if 1 <= m && m <= 12 {
        Some(m)
    } else {
        None
    }
}

} // verus!
