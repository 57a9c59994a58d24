//! One day of the timesheet and its line in the backing file.
//!
//! The file holds one line per record, no header, the fields in the order
//! `date;weekday;in_time;out_time;workinghours;hours`, each line ended by CRLF.
use crate::calendar::{date_model, naive_date_of, CalendarDate};
use crate::error::TimesheetError;
use crate::hours::{
    format_hours, hours_minutes_of, hours_text, is_hours, MAX_MINUTES, lemma_hours_round_trip, lemma_hours_text_chars,
    parse_hours,
};
use vstd::prelude::*;

verus! {

/// One calendar day: its date and weekday as text, the clock-in and
/// clock-out times as text (empty until punched), the target hours and the
/// hours worked, both in whole minutes.
#[derive(Debug, Clone)]
pub struct Record {
    pub date: String,
    pub weekday: String,
    pub in_time: String,
    pub out_time: String,
    pub workinghours: i64,
    pub hours: i64,
}

/// The value a `Record` stands for.
pub struct RecordModel {
    pub date: Seq<char>,
    pub weekday: Seq<char>,
    pub in_time: Seq<char>,
    pub out_time: Seq<char>,
    pub workinghours: int,
    pub hours: int,
}

impl View for Record {
    type V = RecordModel;

    open spec fn view(&self) -> RecordModel {
        RecordModel {
            date: self.date@,
            weekday: self.weekday@,
            in_time: self.in_time@,
            out_time: self.out_time@,
            workinghours: self.workinghours as int,
            hours: self.hours as int,
        }
    }
}

/// A text field the file can hold as it is: no delimiter and no line break.
pub open spec fn plain_field(f: Seq<char>) -> bool {
    forall|i: int| 0 <= i < f.len() ==> #[trigger] f[i] != ';' && f[i] != '\r' && f[i] != '\n'
}

impl RecordModel {
    /// A record that its line in the file reads back as.
    pub open spec fn storable(self) -> bool {
        &&& plain_field(self.date)
        &&& plain_field(self.weekday)
        &&& plain_field(self.in_time)
        &&& plain_field(self.out_time)
        &&& is_hours(self.workinghours)
        &&& is_hours(self.hours)
    }
}

impl Record {
    pub open spec fn storable(&self) -> bool {
        self@.storable()
    }
}

/// The pieces of `s` between the occurrences of `sep`, as `str::split` gives
/// them: one more piece than there are separators.
pub open spec fn split_on(s: Seq<char>, sep: char) -> Seq<Seq<char>>
    decreases s.len(),
{
    if s.len() == 0 {
        seq![Seq::<char>::empty()]
    } else {
        let prev = split_on(s.drop_last(), sep);
        if s.last() == sep {
            prev.push(Seq::<char>::empty())
        } else {
            prev.update(prev.len() - 1, prev.last().push(s.last()))
        }
    }
}

/// The line of a record, without its terminator.
pub open spec fn record_line(r: RecordModel) -> Seq<char> {
    r.date + seq![';'] + r.weekday + seq![';'] + r.in_time + seq![';'] + r.out_time + seq![';']
        + hours_text(r.workinghours) + seq![';'] + hours_text(r.hours)
}

/// What a line without its terminator reads as: six fields, the last two
/// decimal hours.
pub open spec fn line_record(l: Seq<char>) -> Option<RecordModel> {
    let f = split_on(l, ';');
    if f.len() == 6 {
        match (hours_minutes_of(f[4]), hours_minutes_of(f[5])) {
            (Some(w), Some(h)) => Some(
                RecordModel {
                    date: f[0],
                    weekday: f[1],
                    in_time: f[2],
                    out_time: f[3],
                    workinghours: w,
                    hours: h,
                },
            ),
            _ => None,
        }
    } else {
        None
    }
}

/// A line with a carriage return before its line feed loses it.
pub open spec fn strip_cr(l: Seq<char>) -> Seq<char> {
    if l.len() > 0 && l.last() == '\r' {
        l.drop_last()
    } else {
        l
    }
}

/// What a sequence of lines reads as: empty lines are skipped, and one line
/// that is not a record fails the whole.
pub open spec fn lines_records(ls: Seq<Seq<char>>) -> Option<Seq<RecordModel>>
    decreases ls.len(),
{
    if ls.len() == 0 {
        Some(Seq::empty())
    } else {
        let l = strip_cr(ls.last());
        match lines_records(ls.drop_last()) {
            Some(prev) => if l.len() == 0 {
                Some(prev)
            } else {
                match line_record(l) {
                    Some(r) => Some(prev.push(r)),
                    None => None,
                }
            },
            None => None,
        }
    }
}

/// What the text of a timesheet file reads as.
pub open spec fn text_records(text: Seq<char>) -> Option<Seq<RecordModel>> {
    lines_records(split_on(text, '\n'))
}

/// The text of a timesheet file holding `rs`, in order.
pub open spec fn records_text(rs: Seq<RecordModel>) -> Seq<char>
    decreases rs.len(),
{
    if rs.len() == 0 {
        Seq::empty()
    } else {
        records_text(rs.drop_last()) + record_line(rs.last()) + seq!['\r', '\n']
    }
}

pub open spec fn views(v: Seq<String>) -> Seq<Seq<char>> {
    v.map_values(|f: String| f@)
}

pub open spec fn record_views(v: Seq<Record>) -> Seq<RecordModel> {
    v.map_values(|r: Record| r@)
}

/// Splits `s` at each occurrence of `sep`.
pub fn split_text(s: &str, sep: char) -> (r: Vec<String>)
    ensures
        views(r@) == split_on(s@, sep),
{
    let n: usize = s.unicode_len();
    let mut pieces: Vec<String> = Vec::new();
    let mut from: usize = 0;
    let mut i: usize = 0;
    assert(s@.take(0) =~= Seq::<char>::empty());
    assert(s@.subrange(0, 0) =~= Seq::<char>::empty());
    assert(views(pieces@) =~= Seq::<Seq<char>>::empty());
    assert(split_on(s@.take(0), sep) =~= views(pieces@).push(s@.subrange(0, 0)));
    while i < n
        invariant
            n == s@.len(),
            from <= i <= n,
            split_on(s@.take(i as int), sep) == views(pieces@).push(s@.subrange(from as int, i as int)),
        decreases n - i,
    {
        let c = s.get_char(i);
        let ghost prev = split_on(s@.take(i as int), sep);
        assert(s@.take(i + 1).drop_last() =~= s@.take(i as int));
        assert(s@.take(i + 1).last() == c);
        if c == sep {
            let piece = String::from_str(s.substring_char(from, i));
            let ghost before = pieces@;
            pieces.push(piece);
            from = i + 1;
            assert(views(pieces@) =~= views(before).push(piece@));
            assert(s@.subrange(from as int, i + 1) =~= Seq::<char>::empty());
            assert(split_on(s@.take(i + 1), sep) =~= views(pieces@).push(s@.subrange(from as int, i + 1)));
        } else {
            assert(s@.subrange(from as int, i + 1) =~= s@.subrange(from as int, i as int).push(c));
            assert(split_on(s@.take(i + 1), sep) =~= views(pieces@).push(s@.subrange(from as int, i + 1)));
        }
        i = i + 1;
    }
    assert(s@.take(n as int) =~= s@);
    let last = String::from_str(s.substring_char(from, n));
    let ghost before = pieces@;
    pieces.push(last);
    assert(views(pieces@) =~= views(before).push(last@));
    pieces
}

fn strip_cr_text(l: &str) -> (r: &str)
    ensures
        r@ == strip_cr(l@),
{
    let n: usize = l.unicode_len();
    if n > 0 && l.get_char(n - 1) == '\r' {
        assert(l@.subrange(0, n - 1) =~= l@.drop_last());
        l.substring_char(0, n - 1)
    } else {
        l
    }
}

/// Reads one line, without its terminator, as a record.
pub fn parse_line(l: &str) -> (r: Option<Record>)
    ensures
        match r {
            Some(rec) => line_record(l@) == Some(rec@),
            None => line_record(l@) is None,
        },
        r matches Some(rec) ==> is_hours(rec.workinghours as int) && is_hours(rec.hours as int),
{
    let fields = split_text(l, ';');
    if fields.len() != 6 {
        return None;
    }
    assert(views(fields@)[4] == fields@[4]@ && views(fields@)[5] == fields@[5]@);
    let workinghours = match parse_hours(fields[4].as_str()) {
        Some(m) => m,
        None => return None,
    };
    let hours = match parse_hours(fields[5].as_str()) {
        Some(m) => m,
        None => return None,
    };
    assert(views(fields@)[0] == fields@[0]@ && views(fields@)[1] == fields@[1]@);
    assert(views(fields@)[2] == fields@[2]@ && views(fields@)[3] == fields@[3]@);
    Some(
        Record {
            date: fields[0].clone(),
            weekday: fields[1].clone(),
            in_time: fields[2].clone(),
            out_time: fields[3].clone(),
            workinghours,
            hours,
        },
    )
}

/// Reads the text of a timesheet file: every non-empty line must be a
/// record, else the whole read fails with `Parse`.
pub fn parse_records(text: &str) -> (r: Result<Vec<Record>, TimesheetError>)
    ensures
        match text_records(text@) {
            Some(rs) => r matches Ok(v) && record_views(v@) == rs,
            None => r == Err::<Vec<Record>, TimesheetError>(TimesheetError::Parse),
        },
        r matches Ok(v) ==> forall|i: int|
            0 <= i < v@.len() ==> is_hours((#[trigger] v@[i]).workinghours as int) && is_hours(v@[i].hours as int),
{
    let lines = split_text(text, '\n');
    let ghost ls = views(lines@);
    let mut out: Vec<Record> = Vec::new();
    let mut i: usize = 0;
    assert(ls.take(0) =~= Seq::<Seq<char>>::empty());
    assert(record_views(out@) =~= Seq::<RecordModel>::empty());
    while i < lines.len()
        invariant
            ls == views(lines@),
            ls == split_on(text@, '\n'),
            i <= lines.len(),
            lines_records(ls.take(i as int)) == Some(record_views(out@)),
            forall|j: int|
                0 <= j < out@.len() ==> is_hours((#[trigger] out@[j]).workinghours as int) && is_hours(out@[j].hours as int),
        decreases lines.len() - i,
    {
        let line = strip_cr_text(lines[i].as_str());
        assert(ls.take(i + 1).drop_last() =~= ls.take(i as int));
        assert(ls.take(i + 1).last() == lines@[i as int]@);
        if line.unicode_len() > 0 {
            match parse_line(line) {
                Some(rec) => {
                    let ghost before = out@;
                    out.push(rec);
                    assert(record_views(out@) =~= record_views(before).push(rec@));
                },
                None => {
                    proof {
                        lemma_lines_fail(ls, i as int + 1);
                    }
                    return Err(TimesheetError::Parse);
                },
            }
        }
        i = i + 1;
    }
    assert(ls.take(i as int) =~= ls);
    Ok(out)
}

/// Once a prefix of the lines fails to read, so do all the lines.
proof fn lemma_lines_fail(ls: Seq<Seq<char>>, k: int)
    requires
        0 <= k <= ls.len(),
        lines_records(ls.take(k)) is None,
    ensures
        lines_records(ls) is None,
    decreases ls.len() - k,
{
    if k < ls.len() {
        assert(ls.take(k + 1).drop_last() =~= ls.take(k));
        lemma_lines_fail(ls, k + 1);
    } else {
        assert(ls.take(k) =~= ls);
    }
}

/// Whether a text can stand as a field of the file.
pub fn is_plain(f: &str) -> (r: bool)
    ensures
        r == plain_field(f@),
{
    let n: usize = f.unicode_len();
    let mut i: usize = 0;
    while i < n
        invariant
            n == f@.len(),
            i <= n,
            forall|j: int| 0 <= j < i ==> #[trigger] f@[j] != ';' && f@[j] != '\r' && f@[j] != '\n',
        decreases n - i,
    {
        let c = f.get_char(i);
        if c == ';' || c == '\r' || c == '\n' {
            return false;
        }
        i = i + 1;
    }
    true
}

impl Record {
    /// The record's date read as an ISO date.
    pub fn naive_date(&self) -> (r: Option<CalendarDate>)
        ensures
            date_model(r) == naive_date_of(self.date@),
    {
        CalendarDate::parse(self.date.as_str())
    }

    /// Whether the record's line in the file reads back as the record.
    pub fn is_storable(&self) -> (r: bool)
        ensures
            r == self.storable(),
    {
        is_plain(self.date.as_str()) && is_plain(self.weekday.as_str()) && is_plain(self.in_time.as_str())
            && is_plain(self.out_time.as_str()) && -MAX_MINUTES <= self.workinghours
            && self.workinghours <= MAX_MINUTES && -MAX_MINUTES <= self.hours && self.hours <= MAX_MINUTES
    }
}

/// The text of a timesheet file holding `records`, or `Parse` where one of
/// them holds a field the file cannot (a delimiter, a line break, too many
/// hours).
pub fn write_records(records: &Vec<Record>) -> (r: Result<String, TimesheetError>)
    ensures
        match r {
            Ok(text) => (forall|i: int| 0 <= i < records@.len() ==> (#[trigger] records@[i]).storable())
                && text@ == records_text(record_views(records@)),
            Err(e) => e == TimesheetError::Parse && exists|i: int|
                0 <= i < records@.len() && !(#[trigger] records@[i]).storable(),
        },
{
    let mut i: usize = 0;
    while i < records.len()
        invariant
            i <= records@.len(),
            forall|j: int| 0 <= j < i ==> (#[trigger] records@[j]).storable(),
        decreases records.len() - i,
    {
        if !records[i].is_storable() {
            return Err(TimesheetError::Parse);
        }
        i = i + 1;
    }
    Ok(records_to_text(records))
}

fn push_field(out: &mut String, f: &str)
    ensures
        final(out)@ == old(out)@ + f@ + seq![';'],
{
    out.append(f);
    proof {
        reveal_strlit(";");
    }
    out.append(";");
}

/// Appends the line of a record, with its terminator.
fn push_line(out: &mut String, r: &Record)
    requires
        r.storable(),
    ensures
        final(out)@ == old(out)@ + record_line(r@) + seq!['\r', '\n'],
{
    let ghost start = out@;
    push_field(out, r.date.as_str());
    push_field(out, r.weekday.as_str());
    push_field(out, r.in_time.as_str());
    push_field(out, r.out_time.as_str());
    let w = format_hours(r.workinghours);
    push_field(out, w.as_str());
    let h = format_hours(r.hours);
    out.append(h.as_str());
    proof {
        reveal_strlit("\r\n");
    }
    out.append("\r\n");
    assert(out@ =~= start + record_line(r@) + seq!['\r', '\n']);
}

/// The text of a timesheet file holding `records`, in order.
pub fn records_to_text(records: &Vec<Record>) -> (r: String)
    requires
        forall|i: int| 0 <= i < records@.len() ==> (#[trigger] records@[i]).storable(),
    ensures
        r@ == records_text(record_views(records@)),
{
    let mut out = String::new();
    let mut i: usize = 0;
    assert(record_views(records@).take(0) =~= Seq::<RecordModel>::empty());
    while i < records.len()
        invariant
            i <= records@.len(),
            forall|j: int| 0 <= j < records@.len() ==> (#[trigger] records@[j]).storable(),
            out@ == records_text(record_views(records@).take(i as int)),
        decreases records.len() - i,
    {
        push_line(&mut out, &records[i]);
        assert(record_views(records@).take(i + 1).drop_last() =~= record_views(records@).take(i as int));
        i = i + 1;
    }
    assert(record_views(records@).take(i as int) =~= record_views(records@));
    out
}

proof fn lemma_split_nonempty(s: Seq<char>, sep: char)
    ensures
        split_on(s, sep).len() >= 1,
    decreases s.len(),
{
    if s.len() > 0 {
        lemma_split_nonempty(s.drop_last(), sep);
    }
}

/// Text without the separator extends the last piece.
proof fn lemma_split_plain(a: Seq<char>, b: Seq<char>, sep: char)
    requires
        forall|i: int| 0 <= i < b.len() ==> #[trigger] b[i] != sep,
    ensures
        split_on(a + b, sep) == split_on(a, sep).update(
            split_on(a, sep).len() - 1,
            split_on(a, sep).last() + b,
        ),
    decreases b.len(),
{
    lemma_split_nonempty(a, sep);
    let p = split_on(a, sep);
    if b.len() == 0 {
        assert(a + b =~= a);
        assert(p.last() + b =~= p.last());
        assert(p.update(p.len() - 1, p.last()) =~= p);
    } else {
        let b0 = b.drop_last();
        assert(b0.len() < b.len());
        assert forall|i: int| 0 <= i < b0.len() implies #[trigger] b0[i] != sep by {
            assert(b0[i] == b[i]);
        }
        lemma_split_plain(a, b0, sep);
        assert((a + b).drop_last() =~= a + b0);
        assert((a + b).last() == b.last());
        assert(b.last() == b[b.len() - 1]);
        assert((p.last() + b0).push(b.last()) =~= p.last() + b);
        assert(split_on(a + b, sep) =~= p.update(p.len() - 1, p.last() + b));
    }
}

/// A separator followed by a piece without one adds that piece.
proof fn lemma_split_field(a: Seq<char>, f: Seq<char>, sep: char)
    requires
        forall|i: int| 0 <= i < f.len() ==> #[trigger] f[i] != sep,
    ensures
        split_on(a + seq![sep] + f, sep) == split_on(a, sep).push(f),
{
    let a1 = a + seq![sep];
    assert(a1.drop_last() =~= a);
    let after_sep = split_on(a1, sep);
    assert(after_sep == split_on(a, sep).push(Seq::<char>::empty()));
    lemma_split_plain(a1, f, sep);
    assert(Seq::<char>::empty() + f =~= f);
    assert(after_sep.update(after_sep.len() - 1, after_sep.last() + f) =~= split_on(a, sep).push(f));
}

proof fn lemma_hours_plain(m: int)
    ensures
        plain_field(hours_text(m)),
{
    lemma_hours_text_chars(m);
    assert forall|i: int| 0 <= i < hours_text(m).len() implies {
        let c = #[trigger] hours_text(m)[i];
        c != ';' && c != '\r' && c != '\n'
    } by {
        let c = hours_text(m)[i];
        assert(crate::hours::is_digit(c) || c == '-' || c == '.');
    }
}

/// A storable record's line splits into its six fields.
proof fn lemma_line_fields(r: RecordModel)
    requires
        r.storable(),
    ensures
        split_on(record_line(r), ';') == seq![
            r.date,
            r.weekday,
            r.in_time,
            r.out_time,
            hours_text(r.workinghours),
            hours_text(r.hours),
        ],
{
    let w = hours_text(r.workinghours);
    let h = hours_text(r.hours);
    lemma_hours_plain(r.workinghours);
    lemma_hours_plain(r.hours);
    assert forall|i: int| 0 <= i < r.date.len() implies #[trigger] r.date[i] != ';' by {
        assert(r.date[i] != ';');
    }
    lemma_split_plain(Seq::<char>::empty(), r.date, ';');
    assert(Seq::<char>::empty() + r.date =~= r.date);
    assert(split_on(Seq::<char>::empty(), ';') =~= seq![Seq::<char>::empty()]);
    let a0 = r.date;
    let a1 = a0 + seq![';'] + r.weekday;
    let a2 = a1 + seq![';'] + r.in_time;
    let a3 = a2 + seq![';'] + r.out_time;
    let a4 = a3 + seq![';'] + w;
    let a5 = a4 + seq![';'] + h;
    assert forall|i: int| 0 <= i < r.weekday.len() implies #[trigger] r.weekday[i] != ';' by {
        assert(r.weekday[i] != ';');
    }
    assert forall|i: int| 0 <= i < r.in_time.len() implies #[trigger] r.in_time[i] != ';' by {
        assert(r.in_time[i] != ';');
    }
    assert forall|i: int| 0 <= i < r.out_time.len() implies #[trigger] r.out_time[i] != ';' by {
        assert(r.out_time[i] != ';');
    }
    assert forall|i: int| 0 <= i < w.len() implies #[trigger] w[i] != ';' by {
        assert(w[i] != ';');
    }
    assert forall|i: int| 0 <= i < h.len() implies #[trigger] h[i] != ';' by {
        assert(h[i] != ';');
    }
    lemma_split_field(a0, r.weekday, ';');
    lemma_split_field(a1, r.in_time, ';');
    lemma_split_field(a2, r.out_time, ';');
    lemma_split_field(a3, w, ';');
    lemma_split_field(a4, h, ';');
    assert(a5 == record_line(r));
    assert(split_on(a5, ';') =~= seq![r.date, r.weekday, r.in_time, r.out_time, w, h]);
}

/// A storable record's line reads back as the record.
pub proof fn lemma_line_round_trip(r: RecordModel)
    requires
        r.storable(),
    ensures
        line_record(record_line(r)) == Some(r),
{
    lemma_line_fields(r);
    lemma_hours_round_trip(r.workinghours);
    lemma_hours_round_trip(r.hours);
}

/// A record's line holds no line break, and it is never empty.
proof fn lemma_line_plain(r: RecordModel)
    requires
        r.storable(),
    ensures
        forall|i: int| 0 <= i < record_line(r).len() ==> #[trigger] record_line(r)[i] != '\n' && record_line(r)[i] != '\r',
        record_line(r).len() > 0,
{
    let l = record_line(r);
    lemma_hours_plain(r.workinghours);
    lemma_hours_plain(r.hours);
    let w = hours_text(r.workinghours);
    let h = hours_text(r.hours);
    assert forall|i: int| 0 <= i < l.len() implies #[trigger] l[i] != '\n' && l[i] != '\r' by {
        let d = r.date.len();
        let e = d + 1 + r.weekday.len();
        let f = e + 1 + r.in_time.len();
        let g = f + 1 + r.out_time.len();
        let k = g + 1 + w.len();
        if i < d {
            assert(l[i] == r.date[i]);
        } else if i == d {
        } else if i < e {
            assert(l[i] == r.weekday[i - d - 1]);
        } else if i == e {
        } else if i < f {
            assert(l[i] == r.in_time[i - e - 1]);
        } else if i == f {
        } else if i < g {
            assert(l[i] == r.out_time[i - f - 1]);
        } else if i == g {
        } else if i < k {
            assert(l[i] == w[i - g - 1]);
        } else if i == k {
        } else {
            assert(l[i] == h[i - k - 1]);
        }
    }
}

/// The lines of the text of storable records: each record's line with its
/// carriage return, then an empty piece after the last line feed.
proof fn lemma_text_lines(rs: Seq<RecordModel>)
    requires
        forall|i: int| 0 <= i < rs.len() ==> (#[trigger] rs[i]).storable(),
    ensures
        split_on(records_text(rs), '\n').len() == rs.len() + 1,
        split_on(records_text(rs), '\n').last() == Seq::<char>::empty(),
        forall|i: int|
            0 <= i < rs.len() ==> #[trigger] split_on(records_text(rs), '\n')[i] == record_line(rs[i])
                + seq!['\r'],
    decreases rs.len(),
{
    if rs.len() == 0 {
        assert(split_on(Seq::<char>::empty(), '\n') =~= seq![Seq::<char>::empty()]);
    } else {
        let prev = rs.drop_last();
        assert forall|i: int| 0 <= i < prev.len() implies (#[trigger] prev[i]).storable() by {
            assert(prev[i] == rs[i]);
        }
        lemma_text_lines(prev);
        let r = rs.last();
        assert(r == rs[rs.len() - 1]);
        lemma_line_plain(r);
        let t = records_text(prev);
        let l = record_line(r) + seq!['\r'];
        assert forall|i: int| 0 <= i < l.len() implies #[trigger] l[i] != '\n' by {
            if i < record_line(r).len() {
                assert(l[i] == record_line(r)[i]);
            }
        }
        lemma_split_plain(t, l, '\n');
        assert(records_text(rs) =~= (t + l) + seq!['\n']);
        assert((t + l + seq!['\n']).drop_last() =~= t + l);
        let p = split_on(t, '\n');
        assert(Seq::<char>::empty() + l =~= l);
        let q = p.update(p.len() - 1, l);
        assert(split_on(records_text(rs), '\n') == q.push(Seq::<char>::empty()));
        assert forall|i: int| 0 <= i < rs.len() implies #[trigger] split_on(records_text(rs), '\n')[i]
            == record_line(rs[i]) + seq!['\r'] by {
            if i < prev.len() {
                assert(prev[i] == rs[i]);
            }
        }
    }
}

/// Writing storable records and reading the text back gives the same
/// records, in the same order.
pub proof fn lemma_text_round_trip(rs: Seq<RecordModel>)
    requires
        forall|i: int| 0 <= i < rs.len() ==> (#[trigger] rs[i]).storable(),
    ensures
        text_records(records_text(rs)) == Some(rs),
{
    lemma_text_lines(rs);
    let ls = split_on(records_text(rs), '\n');
    let body = ls.drop_last();
    assert forall|k: int| 0 <= k <= rs.len() implies lines_records(#[trigger] body.take(k)) == Some(rs.take(k)) by {
        lemma_lines_prefix(rs, body, k);
    }
    assert(body.take(rs.len() as int) =~= body);
    assert(rs.take(rs.len() as int) =~= rs);
    assert(ls.drop_last() == body);
    assert(strip_cr(ls.last()) =~= Seq::<char>::empty());
}

proof fn lemma_lines_prefix(rs: Seq<RecordModel>, body: Seq<Seq<char>>, k: int)
    requires
        forall|i: int| 0 <= i < rs.len() ==> (#[trigger] rs[i]).storable(),
        body.len() == rs.len(),
        forall|i: int| 0 <= i < rs.len() ==> #[trigger] body[i] == record_line(rs[i]) + seq!['\r'],
        0 <= k <= rs.len(),
    ensures
        lines_records(body.take(k)) == Some(rs.take(k)),
    decreases k,
{
    if k == 0 {
        assert(body.take(0) =~= Seq::<Seq<char>>::empty());
        assert(rs.take(0) =~= Seq::<RecordModel>::empty());
    } else {
        lemma_lines_prefix(rs, body, k - 1);
        assert(body.take(k).drop_last() =~= body.take(k - 1));
        let r = rs[k - 1];
        assert(body.take(k).last() == record_line(r) + seq!['\r']);
        assert((record_line(r) + seq!['\r']).drop_last() =~= record_line(r));
        lemma_line_plain(r);
        lemma_line_round_trip(r);
        assert(rs.take(k) =~= rs.take(k - 1).push(r));
    }
}

} // verus!
