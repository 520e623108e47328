//! Calendar days, the directories that hold the logs of a day, and the names of its files.

use chrono::{Datelike, Duration, NaiveDate};
use vstd::prelude::*;
use vstd::string::*;

use crate::text;

verus! {

/// A calendar day.
#[derive(Debug, Clone, Copy, PartialEq, Eq, Structural)]
pub struct LogDate {
    /// The year of the Gregorian calendar.
    pub year: i32,
    /// The month, from 1 to 12.
    pub month: u32,
    /// The day of the month, from 1 on.
    pub day: u32,
}

/// Whether a year of the Gregorian calendar has a 29th of February.
pub open spec fn leap_year(year: int) -> bool {
    year % 4 == 0 && (year % 100 != 0 || year % 400 == 0)
}

/// How many days a month has.
pub open spec fn days_in_month(year: int, month: int) -> int {
    if month == 2 {
        if leap_year(year) {
            29
        } else {
            28
        }
    } else if month == 4 || month == 6 || month == 9 || month == 11 {
        30
    } else {
        31
    }
}

/// How many days lie between the first day of the year 1 and the first day of `year`.
pub open spec fn days_before_year(year: int) -> int {
    365 * (year - 1) + (year - 1) / 4 - (year - 1) / 100 + (year - 1) / 400
}

/// How many days of a year come before `month`.
pub open spec fn days_before_month(year: int, month: int) -> int
    decreases month,
{
    if month <= 1 {
        0
    } else {
        days_before_month(year, month - 1) + days_in_month(year, month - 1)
    }
}

/// The first year that chrono's dates reach back to.
pub const FIRST_YEAR: i32 = -262_143;

/// The last year that chrono's dates reach.
pub const LAST_YEAR: i32 = 262_142;

/// The number of the first day that chrono's dates reach back to.
pub open spec fn first_day() -> int {
    days_before_year(FIRST_YEAR as int) + 1
}

impl LogDate {
    /// Whether the calendar has this day.
    pub open spec fn in_calendar(self) -> bool {
        &&& 1 <= self.month <= 12
        &&& 1 <= self.day <= days_in_month(self.year as int, self.month as int)
    }

    /// Whether the calendar has this day and chrono's dates reach it.
    pub open spec fn valid(self) -> bool {
        &&& self.in_calendar()
        &&& FIRST_YEAR <= self.year <= LAST_YEAR
    }

    /// The number of the day, counted from the first day of the year 1, which has number 1.
    pub open spec fn day_number(self) -> int {
        days_before_year(self.year as int) + days_before_month(self.year as int, self.month as int)
            + self.day
    }

    /// Whether this day comes before `other`, by year, month and day.
    pub open spec fn earlier_than(self, other: LogDate) -> bool {
        ||| self.year < other.year
        ||| self.year == other.year && self.month < other.month
        ||| self.year == other.year && self.month == other.month && self.day < other.day
    }
}

/// `NaiveDate::from_ymd_opt` of chrono: gives the day exactly when the calendar has it and its
/// year lies within chrono's range.
#[verifier::external_body]
fn calendar_date(year: i32, month: u32, day: u32) -> (date: Option<LogDate>)
    ensures
        date is Some <==> (LogDate { year, month, day }).valid(),
        date matches Some(date) ==> date == (LogDate { year, month, day }),
{
    NaiveDate::from_ymd_opt(year, month, day).map(
        |date| LogDate { year: date.year(), month: date.month(), day: date.day() },
    )
}

/// `NaiveDate - Duration::days(..)` of chrono: the day that lies `days` days before `date`.
/// chrono panics where that day is out of its range, which is ruled out here.
#[verifier::external_body]
fn days_before(date: LogDate, days: i64) -> (earlier: LogDate)
    requires
        date.valid(),
        days >= 0,
        date.day_number() - days >= first_day(),
    ensures
        earlier.valid(),
        earlier.day_number() == date.day_number() - days,
{
    let start = NaiveDate::from_ymd_opt(date.year, date.month, date.day).unwrap();
    let earlier = start - Duration::days(days);
    LogDate { year: earlier.year(), month: earlier.month(), day: earlier.day() }
}

/// `chrono::Local::now`: the present day in the machine's time zone. The clock decides which day
/// it is; that the calendar has it is all that is claimed. chrono panics where the clock stands
/// before 1970, or where the machine's time zone data give no offset for the present time.
#[verifier::external_body]
fn local_date() -> (date: LogDate)
    ensures
        date.in_calendar(),
{
    let now = chrono::Local::now();
    LogDate { year: now.year(), month: now.month(), day: now.day() }
}

/// Whether the machine's calendar can give `date` as the present day.
pub closed spec fn is_local_date(date: LogDate) -> bool {
    call_ensures(local_date, (), date)
}

/// A day that the machine's calendar can give is one that reading it returns, as it stands.
proof fn lemma_local_date_is_read(date: LogDate)
    ensures
        is_local_date(date) == call_ensures(local_date, (), date),
{
}

/// `LogDate::today` hands on the day that the machine's calendar gave, unaltered.
proof fn lemma_today_is_the_day_read(date: LogDate)
    requires
        call_ensures(LogDate::today, (), date),
    ensures
        call_ensures(local_date, (), date),
{
}

/// Seven hundred cycles of 400 years have the same number of days wherever they begin.
proof fn lemma_shifted_years(years: int)
    ensures
        (years + 280_000) / 4 == years / 4 + 70_000,
        (years + 280_000) / 100 == years / 100 + 2_800,
        (years + 280_000) / 400 == years / 400 + 700,
{
}

/// A year is as long as its calendar says.
#[verifier::spinoff_prover]
proof fn lemma_year_length(year: int)
    ensures
        days_before_year(year + 1) == days_before_year(year) + if leap_year(year) {
            366int
        } else {
            365int
        },
{
    assert(year / 4 == (year - 1) / 4 + if year % 4 == 0 {
        1int
    } else {
        0int
    });
    assert(year / 100 == (year - 1) / 100 + if year % 100 == 0 {
        1int
    } else {
        0int
    });
    assert(year / 400 == (year - 1) / 400 + if year % 400 == 0 {
        1int
    } else {
        0int
    });
}

proof fn lemma_years_monotonic(a: int, b: int)
    requires
        a <= b,
    ensures
        days_before_year(a) <= days_before_year(b),
    decreases b - a,
{
    if a < b {
        lemma_years_monotonic(a, b - 1);
        lemma_year_length(b - 1);
    }
}

proof fn lemma_months_monotonic(year: int, a: int, b: int)
    requires
        1 <= a <= b,
    ensures
        days_before_month(year, a) <= days_before_month(year, b),
    decreases b - a,
{
    if a < b {
        lemma_months_monotonic(year, a, b - 1);
    }
}

proof fn lemma_month_table(year: int)
    ensures
        days_before_month(year, 13) == if leap_year(year) {
            366int
        } else {
            365int
        },
{
    reveal_with_fuel(days_before_month, 14);
}

proof fn lemma_day_within_year(date: LogDate)
    requires
        date.in_calendar(),
    ensures
        days_before_year(date.year as int) < date.day_number() <= days_before_year(date.year + 1),
{
    let year = date.year as int;
    let month = date.month as int;
    lemma_year_length(year);
    lemma_month_table(year);
    lemma_months_monotonic(year, 1, month);
    lemma_months_monotonic(year, month + 1, 13);
}

proof fn lemma_earlier_has_smaller_number(a: LogDate, b: LogDate)
    requires
        a.in_calendar(),
        b.in_calendar(),
        a.earlier_than(b),
    ensures
        a.day_number() < b.day_number(),
{
    if a.year < b.year {
        lemma_day_within_year(a);
        lemma_day_within_year(b);
        lemma_years_monotonic(a.year + 1, b.year as int);
    } else if a.month < b.month {
        lemma_months_monotonic(a.year as int, a.month + 1, b.month as int);
    }
}

/// Days are in the order of their numbers, and only one day has a given number.
pub proof fn day_numbers_follow_the_calendar(a: LogDate, b: LogDate)
    requires
        a.in_calendar(),
        b.in_calendar(),
    ensures
        a.earlier_than(b) <==> a.day_number() < b.day_number(),
        a == b <==> a.day_number() == b.day_number(),
{
    if a.earlier_than(b) {
        lemma_earlier_has_smaller_number(a, b);
    } else if b.earlier_than(a) {
        lemma_earlier_has_smaller_number(b, a);
    }
}

/// The name of the `part`th log file of a day, `suffix` being what all of them end in.
pub open spec fn file_name_of(date: LogDate, part: u32, suffix: Seq<char>) -> Seq<char> {
    let day = day_text(date);
    if part == 0 {
        day + seq!['.'] + suffix
    } else {
        day + seq!['.'] + text::decimal(part as nat) + seq!['.'] + suffix
    }
}

/// A day as year, month and day with hyphens between them.
pub open spec fn day_text(date: LogDate) -> Seq<char> {
    text::signed_zero_padded(date.year as int, 4) + seq!['-'] + text::zero_padded(
        date.month as nat,
        2,
    ) + seq!['-'] + text::zero_padded(date.day as nat, 2)
}

/// The names of the directories that lead from a log root to the logs of a day.
pub open spec fn day_directories(date: LogDate) -> Seq<Seq<char>> {
    seq![
        text::signed_zero_padded(date.year as int, 4),
        text::zero_padded(date.month as nat, 2),
        text::zero_padded(date.day as nat, 2),
    ]
}

/// A place below a root directory: the names to descend through, in order.
#[derive(Debug)]
pub struct LogPath<R> {
    /// The directory that the names start from.
    pub root: R,
    /// The names below it.
    pub names: Vec<String>,
}

impl<R> LogPath<R> {
    /// The names below the root, as texts.
    pub open spec fn spec_names(self) -> Seq<Seq<char>> {
        Seq::new(self.names@.len(), |i: int| self.names@[i]@)
    }
}

impl LogDate {
    /// The present day in the machine's time zone.
    pub fn today() -> (date: LogDate)
        ensures
            date.in_calendar(),
            is_local_date(date),
    {
        local_date()
    }

    fn append_day(self, out: &mut String)
        ensures
            final(out)@ == old(out)@ + day_text(self),
    {
        proof {
            reveal_strlit("-");
        }
        text::append_signed_zero_padded(out, self.year, 4);
        out.append("-");
        text::append_zero_padded(out, self.month as u64, 2);
        out.append("-");
        text::append_zero_padded(out, self.day as u64, 2);
        assert(out@ =~= old(out)@ + day_text(self));
    }

    /// The name of the day's first log file.
    pub fn file_name(self, suffix: &str) -> (name: String)
        ensures
            name@ == file_name_of(self, 0, suffix@),
    {
        proof {
            reveal_strlit(".");
        }
        let mut name: String = String::new();
        self.append_day(&mut name);
        name.append(".");
        name.append(suffix);
        assert(name@ =~= file_name_of(self, 0, suffix@));
        name
    }

    /// The name of the day's `part`th log file.
    pub fn rolled_file_name(self, part: u32, suffix: &str) -> (name: String)
        ensures
            name@ == file_name_of(self, part, suffix@),
    {
        if part == 0 {
            return self.file_name(suffix);
        }
        proof {
            reveal_strlit(".");
        }
        let mut name: String = String::new();
        self.append_day(&mut name);
        name.append(".");
        text::append_decimal(&mut name, part as u64);
        name.append(".");
        name.append(suffix);
        assert(name@ =~= file_name_of(self, part, suffix@));
        name
    }

    /// The day, if it is one that chrono's dates reach.
    pub fn naive_date(self) -> (date: Option<LogDate>)
        ensures
            date is Some <==> self.valid(),
            date matches Some(date) ==> date == self,
    {
        calendar_date(self.year, self.month, self.day)
    }

    /// The number of the day, counted from the first day of the year 1, which has number 1.
    #[verifier::spinoff_prover]
    pub fn number(self) -> (n: i64)
        requires
            self.valid(),
        ensures
            n == self.day_number(),
            -200_000_000 < n < 200_000_000,
    {
        // Seven hundred cycles of 400 years later no year is negative.
        let year: i64 = self.year as i64 + 279_999;
        let before_year: i64 = 365 * year + year / 4 - year / 100 + year / 400 - 102_267_900;
        assert(before_year == days_before_year(self.year as int)) by {
            lemma_shifted_years(self.year - 1);
        }
        assert(-190_000_000 < before_year < 190_000_000);
        let mut before_month: i64 = 0;
        let mut month: u32 = 1;
        while month < self.month
            invariant
                self.valid(),
                year == self.year + 279_999,
                1 <= month <= self.month,
                before_month == days_before_month(self.year as int, month as int),
                0 <= before_month <= 31 * (month - 1),
            decreases self.month - month,
        {
            let leap: bool = (year + 1) % 4 == 0 && ((year + 1) % 100 != 0 || (year + 1) % 400
                == 0);
            let days: i64 = if month == 2 {
                if leap {
                    29
                } else {
                    28
                }
            } else if month == 4 || month == 6 || month == 9 || month == 11 {
                30
            } else {
                31
            };
            before_month += days;
            month += 1;
        }
        before_year + before_month + self.day as i64
    }

    /// The day that lies `days` days before this one.
    pub fn minus_days(self, days: i64) -> (earlier: LogDate)
        requires
            self.valid(),
            days >= 0,
            self.day_number() - days >= first_day(),
        ensures
            earlier.valid(),
            earlier.day_number() == self.day_number() - days,
    {
        days_before(self, days)
    }

    /// Tells whether this day comes before `other`.
    pub fn is_before(self, other: LogDate) -> (r: bool)
        requires
            self.in_calendar(),
            other.in_calendar(),
        ensures
            r == (self.day_number() < other.day_number()),
    {
        proof {
            day_numbers_follow_the_calendar(self, other);
        }
        if self.year != other.year {
            self.year < other.year
        } else if self.month != other.month {
            self.month < other.month
        } else {
            self.day < other.day
        }
    }
}

/// The directory for the logs of the present day.
pub fn dated_log_dir<R>(log_root: R) -> (dir: LogPath<R>)
    ensures
        dir.root == log_root,
        exists|date: LogDate|
            date.in_calendar() && is_local_date(date) && dir.spec_names()
                == #[trigger] day_directories(date),
{
    dated_log_dir_for(log_root, LogDate::today())
}

/// The directory for the logs of a day.
pub fn dated_log_dir_for<R>(log_root: R, date: LogDate) -> (dir: LogPath<R>)
    ensures
        dir.root == log_root,
        dir.spec_names() == day_directories(date),
{
    let mut year: String = String::new();
    text::append_signed_zero_padded(&mut year, date.year, 4);
    let mut month: String = String::new();
    text::append_zero_padded(&mut month, date.month as u64, 2);
    let mut day: String = String::new();
    text::append_zero_padded(&mut day, date.day as u64, 2);
    proof {
        assert(year@ =~= day_directories(date)[0]);
        assert(month@ =~= day_directories(date)[1]);
        assert(day@ =~= day_directories(date)[2]);
    }
    let mut names: Vec<String> = Vec::new();
    names.push(year);
    names.push(month);
    names.push(day);
    let dir = LogPath { root: log_root, names };
    assert(dir.spec_names() =~= day_directories(date));
    dir
}

/// The place of the `part`th log file of a day.
pub fn rolled_log_file_path<R>(log_root: R, date: LogDate, part: u32, suffix: &str) -> (path: LogPath<
    R,
>)
    ensures
        path.root == log_root,
        path.spec_names() == day_directories(date).push(file_name_of(date, part, suffix@)),
{
    let mut path = dated_log_dir_for(log_root, date);
    let ghost names = path.spec_names();
    path.names.push(date.rolled_file_name(part, suffix));
    assert(path.spec_names() =~= names.push(file_name_of(date, part, suffix@)));
    path
}

/// The day that three directory names stand for: four bytes of year, two of month and two of day,
/// each a number, that the calendar has.
pub open spec fn partition_date(year: Seq<char>, month: Seq<char>, day: Seq<char>) -> Option<
    LogDate,
> {
    match (text::signed_value(year), text::unsigned_value(month), text::unsigned_value(day)) {
        (Some(y), Some(m), Some(d)) => {
            let date = LogDate { year: y as i32, month: m as u32, day: d as u32 };
            if text::byte_len(year) == 4 && text::byte_len(month) == 2 && text::byte_len(day) == 2
                && date.valid() {
                Some(date)
            } else {
                None
            }
        },
        _ => None,
    }
}

/// Reads the day that three directory names stand for.
pub fn parse_log_partition(year: &str, month: &str, day: &str) -> (date: Option<LogDate>)
    ensures
        date == partition_date(year@, month@, day@),
{
    if text::str_byte_len(year) != 4 || text::str_byte_len(month) != 2 || text::str_byte_len(day)
        != 2 {
        return None;
    }
    proof {
        text::lemma_byte_len_bounds(year@);
        text::lemma_byte_len_bounds(month@);
        text::lemma_byte_len_bounds(day@);
    }
    match (text::parse_signed(year), text::parse_unsigned(month), text::parse_unsigned(day)) {
        (Some(y), Some(m), Some(d)) => calendar_date(y, m, d),
        _ => None,
    }
}

/// The directories that are made for a day are read back as that day, for the years that fit
/// into four characters.
pub proof fn day_directories_read_back(date: LogDate)
    requires
        date.valid(),
        -999 <= date.year <= 9999,
    ensures
        ({
            let names = day_directories(date);
            partition_date(names[0], names[1], names[2]) == Some(date)
        }),
{
    let names = day_directories(date);
    text::lemma_signed_zero_padded_value(date.year as int, 4);
    text::lemma_zero_padded_value(date.month as nat, 2);
    text::lemma_zero_padded_value(date.day as nat, 2);
    text::lemma_decimal_len(date.month as nat);
    text::lemma_decimal_len(date.day as nat);
    text::lemma_digits_byte_len(names[1]);
    text::lemma_digits_byte_len(names[2]);
    if date.year < 0 {
        text::lemma_decimal_len((-date.year) as nat);
        text::lemma_zero_padded_value((-date.year) as nat, 3);
    } else {
        text::lemma_decimal_len(date.year as nat);
        text::lemma_zero_padded_value(date.year as nat, 4);
    }
    text::lemma_digits_byte_len(names[0]);
}

/// `LogDate::today` gives a day just as the machine's calendar gave it, and the directory for
/// the present day is the one that is made for such a day.
pub proof fn present_day_is_the_local_date<R>(log_root: R, today: LogDate, dir: LogPath<R>)
    requires
        call_ensures(LogDate::today, (), today),
        call_ensures(dated_log_dir::<R>, (log_root,), dir),
    ensures
        is_local_date(today),
        dir.root == log_root,
        exists|date: LogDate|
            is_local_date(date) && dir.spec_names() == #[trigger] day_directories(date),
{
    lemma_today_is_the_day_read(today);
    lemma_local_date_is_read(today);
}

/// No two log files of a day have the same name.
pub proof fn parts_have_different_names(date: LogDate, a: u32, b: u32, suffix: Seq<char>)
    requires
        file_name_of(date, a, suffix) == file_name_of(date, b, suffix),
    ensures
        a == b,
{
    let head = day_text(date) + seq!['.'];
    let name_a = file_name_of(date, a, suffix);
    let name_b = file_name_of(date, b, suffix);
    text::lemma_decimal_value(a as nat);
    text::lemma_decimal_value(b as nat);
    if a > 0 && b > 0 {
        let n = head.len() as int;
        let m = suffix.len() + 1;
        assert(name_a.subrange(n, name_a.len() - m) =~= text::decimal(a as nat));
        assert(name_b.subrange(n, name_b.len() - m) =~= text::decimal(b as nat));
    } else if a > 0 {
        let long = head + text::decimal(a as nat) + seq!['.'] + suffix;
        assert(name_a =~= long);
        assert(long.len() > (head + suffix).len());
        assert(name_b =~= head + suffix);
    } else if b > 0 {
        let long = head + text::decimal(b as nat) + seq!['.'] + suffix;
        assert(name_b =~= long);
        assert(long.len() > (head + suffix).len());
        assert(name_a =~= head + suffix);
    }
}

} // verus!
