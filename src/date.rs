//! Calendar dates of transactions and the monthly window they are selected by.
use vstd::prelude::*;

verus! {

/// A calendar date as year, month (1 to 12) and day of the month (1 to 31).
#[derive(Clone, Copy, Debug, PartialEq, Eq, Structural)]
pub struct Date {
    pub year: i32,
    pub month: u32,
    pub day: u32,
}

impl View for Date {
    type V = (int, int, int);

    open spec fn view(&self) -> (int, int, int) {
        (self.year as int, self.month as int, self.day as int)
    }
}

/// The format of dates in the bank's files: month/day/year.
pub const DATE_FORMAT: &'static str = "%m/%d/%Y";

/// What chrono reads from a text with a format, as year, month and day.
pub uninterp spec fn parsed_date_of(text: Seq<char>, format: Seq<char>) -> Option<(int, int, int)>;

/// What chrono writes for a date in a format; `None` where no such date exists.
pub uninterp spec fn formatted_date_of(date: (int, int, int), format: Seq<char>) -> Option<Seq<char>>;

/// `a` is on or before `b`, in calendar order.
pub open spec fn date_le(a: (int, int, int), b: (int, int, int)) -> bool {
    a.0 < b.0 || (a.0 == b.0 && (a.1 < b.1 || (a.1 == b.1 && a.2 <= b.2)))
}

/// The first day of the month after `month` of `year`.
pub open spec fn first_of_next_month(month: int, year: int) -> (int, int, int) {
    if month == 12 {
        (year + 1, 1, 1)
    } else {
        (year, month + 1, 1)
    }
}

/// The window of a month: from its second day to the first day of the next
/// month, both included.
pub open spec fn in_window_spec(d: (int, int, int), month: int, year: int) -> bool {
    date_le((year, month, 2), d) && date_le(d, first_of_next_month(month, year))
}

/// Relies on chrono's `NaiveDate::parse_from_str`, and on `Datelike::month` and
/// `Datelike::day`, whose results range over 1 to 12 and 1 to 31.
#[verifier::external_body]
fn parse_naive_date(text: &str, format: &str) -> (r: Option<(i32, u32, u32)>)
    ensures
        match r {
            Some(t) => parsed_date_of(text@, format@) == Some((t.0 as int, t.1 as int, t.2 as int))
                && 1 <= t.1 <= 12 && 1 <= t.2 <= 31,
            None => parsed_date_of(text@, format@) is None,
        },
{
    let date = chrono::NaiveDate::parse_from_str(text, format).ok()?;
    Some((
        chrono::Datelike::year(&date),
        chrono::Datelike::month(&date),
        chrono::Datelike::day(&date),
    ))
}

/// Relies on chrono's `NaiveDate::from_ymd_opt`, `None` where the date does not
/// exist, and `NaiveDate::format`, whose text depends on the date and the format.
/// The format is the one of the bank's files, which chrono can write.
#[verifier::external_body]
fn format_naive_date(date: &Date, format: &str) -> (r: Option<String>)
    requires
        format@ == DATE_FORMAT@,
    ensures
        match r {
            Some(t) => formatted_date_of(date@, format@) == Some(t@),
            None => formatted_date_of(date@, format@) is None,
        },
{
    let d = chrono::NaiveDate::from_ymd_opt(date.year, date.month, date.day)?;
    Some(d.format(format).to_string())
}

impl Date {
    /// Writes the date month/day/year; `None` where no such date exists.
    pub fn format(&self) -> (r: Option<String>)
        ensures
            match r {
                Some(t) => formatted_date_of(self@, DATE_FORMAT@) == Some(t@),
                None => formatted_date_of(self@, DATE_FORMAT@) is None,
            },
    {
        format_naive_date(self, DATE_FORMAT)
    }

    /// `self` is on or before `other`.
    pub fn is_on_or_before(&self, other: &Date) -> (r: bool)
        ensures
            r == date_le(self@, other@),
    {
        self.year < other.year || (self.year == other.year && (self.month < other.month || (
        self.month == other.month && self.day <= other.day)))
    }

    /// Reads a date written month/day/year; `None` where the text is no such date.
    pub fn parse(text: &str) -> (r: Option<Date>)
        ensures
            match r {
                Some(d) => parsed_date_of(text@, DATE_FORMAT@) == Some(d@) && 1 <= d.month <= 12
                    && 1 <= d.day <= 31,
                None => parsed_date_of(text@, DATE_FORMAT@) is None,
            },
    {
        match parse_naive_date(text, DATE_FORMAT) {
            Some(t) => Some(Date { year: t.0, month: t.1, day: t.2 }),
            None => None,
        }
    }
}

/// Whether a transaction of date `date` belongs to `month` of `year`: whether it
/// lies between the second day of that month and the first day of the next one.
pub fn is_date_transaction_in_month_year(date: Date, month: u32, year: i32) -> (r: bool)
    requires
        1 <= month <= 12,
    ensures
        r == in_window_spec(date@, month as int, year as int),
{
    let second = Date { year, month, day: 2 };
    if !second.is_on_or_before(&date) {
        return false;
    }
    let y = date.year as i64;
    let m = date.month;
    let d = date.day;
    if month == 12 {
        let ny = year as i64 + 1;
        y < ny || (y == ny && (m < 1 || (m == 1 && d <= 1)))
    } else {
        let nm = month + 1;
        let ny = year as i64;
        y < ny || (y == ny && (m < nm || (m == nm && d <= 1)))
    }
}

/// The window of a month holds its second day and the first day of the next
/// month, and neither its first day nor the second day of the next month.
pub proof fn lemma_window_bounds(month: int, year: int)
    requires
        1 <= month <= 12,
    ensures
        in_window_spec((year, month, 2), month, year),
        in_window_spec(first_of_next_month(month, year), month, year),
        !in_window_spec((year, month, 1), month, year),
        !in_window_spec(
            (first_of_next_month(month, year).0, first_of_next_month(month, year).1, 2),
            month,
            year,
        ),
{
}

} // verus!
