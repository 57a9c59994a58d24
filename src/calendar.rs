//! Calendar dates, weekdays and the per-weekday target hours.
use crate::error::TimesheetError;
use chrono::Datelike;
use std::fmt::Write;
use std::str::FromStr;
use vstd::prelude::*;

verus! {

/// A calendar date as year, month (1 to 12) and day of the month.
#[derive(Debug, Clone, Copy, PartialEq, Eq, Structural)]
pub struct CalendarDate {
    pub year: i32,
    pub month: u32,
    pub day: u32,
}

/// What `chrono::NaiveDate::from_str` makes of a text (`%Y-%m-%d`): `None`
/// where it fails, else year, month and day.
pub uninterp spec fn naive_date_of(s: Seq<char>) -> Option<(i32, u32, u32)>;

/// The text `chrono` writes for a date with a format pattern: `None` where
/// the date does not exist or the pattern cannot be written.
pub uninterp spec fn date_text_of(year: i32, month: u32, day: u32, pattern: Seq<char>) -> Option<Seq<char>>;

/// The days from Monday to a date, as `chrono` counts them: `None` where the
/// date does not exist.
pub uninterp spec fn weekday_index_of(year: i32, month: u32, day: u32) -> Option<u32>;

pub open spec fn date_model(d: Option<CalendarDate>) -> Option<(i32, u32, u32)> {
    match d {
        Some(d) => Some((d.year, d.month, d.day)),
        None => None,
    }
}

pub open spec fn text_model(t: Option<String>) -> Option<Seq<char>> {
    match t {
        Some(t) => Some(t@),
        None => None,
    }
}

/// Relies on `chrono::NaiveDate::from_str`: a deterministic parse of
/// `%Y-%m-%d`, whose months lie in 1 to 12 and days in 1 to 31.
#[verifier::external_body]
fn parse_naive_date(s: &str) -> (r: Option<CalendarDate>)
    ensures
        date_model(r) == naive_date_of(s@),
        r matches Some(d) ==> 1 <= d.month <= 12 && 1 <= d.day <= 31,
{
    match chrono::NaiveDate::from_str(s) {
        Ok(d) => Some(CalendarDate { year: d.year(), month: d.month(), day: d.day() }),
        Err(_) => None,
    }
}

/// Relies on `chrono::NaiveDate::from_ymd_opt` and `NaiveDate::format`:
/// the date written with a `strftime`-like pattern, `None` where the date
/// does not exist or the pattern holds an item that cannot be written.
#[verifier::external_body]
fn format_naive_date(d: CalendarDate, pattern: &str) -> (r: Option<String>)
    ensures
        text_model(r) == date_text_of(d.year, d.month, d.day, pattern@),
{
    let date = match chrono::NaiveDate::from_ymd_opt(d.year, d.month, d.day) {
        Some(date) => date,
        None => return None,
    };
    let mut out = String::new();
    match write!(out, "{}", date.format(pattern)) {
        Ok(()) => Some(out),
        Err(_) => None,
    }
}

/// Relies on `chrono::NaiveDate::from_ymd_opt` and
/// `Weekday::num_days_from_monday`: a number from 0 (Monday) to 6 (Sunday).
#[verifier::external_body]
fn naive_weekday_index(d: CalendarDate) -> (r: Option<u32>)
    ensures
        r == weekday_index_of(d.year, d.month, d.day),
        r matches Some(i) ==> i < 7,
{
    match chrono::NaiveDate::from_ymd_opt(d.year, d.month, d.day) {
        Some(date) => Some(date.weekday().num_days_from_monday()),
        None => None,
    }
}

impl CalendarDate {
    /// Reads an ISO date (`2024-01-10`).
    pub fn parse(s: &str) -> (r: Option<CalendarDate>)
        ensures
            date_model(r) == naive_date_of(s@),
            r matches Some(d) ==> 1 <= d.month <= 12 && 1 <= d.day <= 31,
    {
        parse_naive_date(s)
    }

    /// Writes the date with a format pattern (`%F`, `%d.%m.%y`, ...).
    pub fn format(self, pattern: &str) -> (r: Option<String>)
        ensures
            text_model(r) == date_text_of(self.year, self.month, self.day, pattern@),
    {
        format_naive_date(self, pattern)
    }

    /// The day of the week, `None` where the date does not exist.
    pub fn weekday(self) -> (r: Option<Weekday>)
        ensures
            match weekday_index_of(self.year, self.month, self.day) {
                Some(i) => r == Some(Weekday::from_index_spec(i as int)),
                None => r is None,
            },
    {
        match naive_weekday_index(self) {
            Some(i) => Some(Weekday::from_index(i)),
            None => None,
        }
    }
}

/// A day of the week.
#[derive(Debug, Clone, Copy, PartialEq, Eq, Structural)]
pub enum Weekday {
    Mon,
    Tue,
    Wed,
    Thu,
    Fri,
    Sat,
    Sun,
}

impl Weekday {
    pub open spec fn from_index_spec(i: int) -> Weekday {
        if i == 0 {
            Weekday::Mon
        } else if i == 1 {
            Weekday::Tue
        } else if i == 2 {
            Weekday::Wed
        } else if i == 3 {
            Weekday::Thu
        } else if i == 4 {
            Weekday::Fri
        } else if i == 5 {
            Weekday::Sat
        } else {
            Weekday::Sun
        }
    }

    /// The weekday that lies `i` days after Monday.
    pub fn from_index(i: u32) -> (r: Weekday)
        requires
            i < 7,
        ensures
            r == Weekday::from_index_spec(i as int),
    {
        if i == 0 {
            Weekday::Mon
        } else if i == 1 {
            Weekday::Tue
        } else if i == 2 {
            Weekday::Wed
        } else if i == 3 {
            Weekday::Thu
        } else if i == 4 {
            Weekday::Fri
        } else if i == 5 {
            Weekday::Sat
        } else {
            Weekday::Sun
        }
    }

    /// The three-letter English name of the weekday.
    pub open spec fn name_spec(self) -> Seq<char> {
        match self {
            Weekday::Mon => seq!['M', 'o', 'n'],
            Weekday::Tue => seq!['T', 'u', 'e'],
            Weekday::Wed => seq!['W', 'e', 'd'],
            Weekday::Thu => seq!['T', 'h', 'u'],
            Weekday::Fri => seq!['F', 'r', 'i'],
            Weekday::Sat => seq!['S', 'a', 't'],
            Weekday::Sun => seq!['S', 'u', 'n'],
        }
    }

    pub fn name(self) -> (r: &'static str)
        ensures
            r@ == self.name_spec(),
    {
        proof {
            reveal_strlit("Mon");
            reveal_strlit("Tue");
            reveal_strlit("Wed");
            reveal_strlit("Thu");
            reveal_strlit("Fri");
            reveal_strlit("Sat");
            reveal_strlit("Sun");
        }
        match self {
            Weekday::Mon => "Mon",
            Weekday::Tue => "Tue",
            Weekday::Wed => "Wed",
            Weekday::Thu => "Thu",
            Weekday::Fri => "Fri",
            Weekday::Sat => "Sat",
            Weekday::Sun => "Sun",
        }
    }

    /// The weekday with a three-letter name (`Mon` to `Sun`).
    pub fn from_name(s: &str) -> (r: Option<Weekday>)
        ensures
            match r {
                Some(w) => w.name_spec() == s@,
                None => forall|w: Weekday| w.name_spec() != s@,
            },
    {
        let mut i: u32 = 0;
        while i < 7
            invariant
                i <= 7,
                forall|j: int| 0 <= j < i ==> Weekday::from_index_spec(j).name_spec() != s@,
            decreases 7 - i,
        {
            let w = Weekday::from_index(i);
            if same_text(w.name(), s) {
                return Some(w);
            }
            i = i + 1;
        }
        assert forall|w: Weekday| w.name_spec() != s@ by {
            let j: int = match w {
                Weekday::Mon => 0,
                Weekday::Tue => 1,
                Weekday::Wed => 2,
                Weekday::Thu => 3,
                Weekday::Fri => 4,
                Weekday::Sat => 5,
                Weekday::Sun => 6,
            };
            assert(Weekday::from_index_spec(j) == w);
        }
        None
    }
}

/// Whether two texts are the same.
pub fn same_text(a: &str, b: &str) -> (r: bool)
    ensures
        r == (a@ == b@),
{
    let n: usize = a.unicode_len();
    if n != b.unicode_len() {
        return false;
    }
    let mut i: usize = 0;
    while i < n
        invariant
            n == a@.len(),
            n == b@.len(),
            i <= n,
            forall|j: int| 0 <= j < i ==> a@[j] == b@[j],
        decreases n - i,
    {
        if a.get_char(i) != b.get_char(i) {
            return false;
        }
        i = i + 1;
    }
    assert(a@ =~= b@);
    true
}

/// The target hours of each weekday, in minutes; `None` where none are
/// configured.
#[derive(Debug, Clone, Copy, PartialEq, Eq, Structural)]
pub struct WorkdayHours {
    pub monday: Option<i64>,
    pub tuesday: Option<i64>,
    pub wednesday: Option<i64>,
    pub thursday: Option<i64>,
    pub friday: Option<i64>,
    pub saturday: Option<i64>,
    pub sunday: Option<i64>,
}

impl WorkdayHours {
    pub open spec fn get_spec(self, weekday: Weekday) -> Option<i64> {
        match weekday {
            Weekday::Mon => self.monday,
            Weekday::Tue => self.tuesday,
            Weekday::Wed => self.wednesday,
            Weekday::Thu => self.thursday,
            Weekday::Fri => self.friday,
            Weekday::Sat => self.saturday,
            Weekday::Sun => self.sunday,
        }
    }

    /// The target minutes configured for a weekday.
    pub fn get(&self, weekday: Weekday) -> (r: Option<i64>)
        ensures
            r == self.get_spec(weekday),
    {
        match weekday {
            Weekday::Mon => self.monday,
            Weekday::Tue => self.tuesday,
            Weekday::Wed => self.wednesday,
            Weekday::Thu => self.thursday,
            Weekday::Fri => self.friday,
            Weekday::Sat => self.saturday,
            Weekday::Sun => self.sunday,
        }
    }

    /// The target minutes for a day: the override where one is given, else
    /// the configured target of its weekday, else `Config`.
    pub fn target_minutes(&self, weekday: Weekday, override_minutes: Option<i64>) -> (r: Result<i64, TimesheetError>)
        ensures
            r == match override_minutes {
                Some(m) => Ok(m),
                None => match self.get_spec(weekday) {
                    Some(m) => Ok(m),
                    None => Err(TimesheetError::Config),
                },
            },
    {
        match override_minutes {
            Some(m) => Ok(m),
            None => match self.get(weekday) {
                Some(m) => Ok(m),
                None => Err(TimesheetError::Config),
            },
        }
    }
}

} // verus!
