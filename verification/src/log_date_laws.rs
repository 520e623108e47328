//! What the calendar and the names of log files come to, told by numbers and characters.

use vstd::prelude::*;
use vstd::string::*;

use crate::log_date;
use crate::log_date::{LogDate, LogPath};
use crate::text;

verus! {

/// Days are numbered one by one from the first day of the year 1: after the last day of a month
/// comes the first of the next, after the last of a year the first of the next. February has a
/// 29th in every fourth year but the full centuries that 400 does not divide.
#[verifier::spinoff_prover]
#[verifier::rlimit(50)]
pub proof fn days_are_numbered_one_by_one(day: LogDate, next: LogDate, n: i64, m: i64)
    requires
        1 <= day.month <= 12,
        1 <= day.day <= (if day.month == 2 {
            if day.year % 4 == 0 && (day.year % 100 != 0 || day.year % 400 == 0) {
                29
            } else {
                28int
            }
        } else if day.month == 4 || day.month == 6 || day.month == 9 || day.month == 11 {
            30
        } else {
            31
        }),
        next == if day.day < (if day.month == 2 {
            if day.year % 4 == 0 && (day.year % 100 != 0 || day.year % 400 == 0) {
                29
            } else {
                28int
            }
        } else if day.month == 4 || day.month == 6 || day.month == 9 || day.month == 11 {
            30
        } else {
            31
        }) {
            LogDate { day: (day.day + 1) as u32, ..day }
        } else if day.month < 12 {
            LogDate { month: (day.month + 1) as u32, day: 1, ..day }
        } else {
            LogDate { year: (day.year + 1) as i32, month: 1, day: 1 }
        },
        day.year < i32::MAX,
        call_ensures(LogDate::number, (day,), n),
        call_ensures(LogDate::number, (next,), m),
    ensures
        m == n + 1,
        day == (LogDate { year: 1, month: 1, day: 1 }) ==> n == 1,
{
    let year = day.year as int;
    assert(log_date::days_before_month(year, day.month + 1) == log_date::days_before_month(
        year,
        day.month as int,
    ) + log_date::days_in_month(year, day.month as int));
    reveal_with_fuel(log_date::days_before_month, 14);
}

/// A date stands for a day just where its month is one of twelve, the month has that many days,
/// and the year is one that chrono's dates reach.
pub proof fn dates_are_those_of_the_calendar(date: LogDate, day: Option<LogDate>)
    requires
        call_ensures(LogDate::naive_date, (date,), day),
    ensures
        day is Some <==> -262_143 <= date.year <= 262_142 && 1 <= date.month <= 12 && 1 <= date.day
            <= (if date.month == 2 {
            if date.year % 4 == 0 && (date.year % 100 != 0 || date.year % 400 == 0) {
                29
            } else {
                28int
            }
        } else if date.month == 4 || date.month == 6 || date.month == 9 || date.month == 11 {
            30
        } else {
            31
        }),
        day matches Some(day) ==> day == date,
{
}

/// Going back some days lowers the number of the day by as many.
pub proof fn days_are_counted_back(date: LogDate, days: i64, earlier: LogDate, n: i64, m: i64)
    requires
        call_ensures(LogDate::minus_days, (date, days), earlier),
        call_ensures(LogDate::number, (date,), n),
        call_ensures(LogDate::number, (earlier,), m),
    ensures
        m == n - days,
{
}

/// A day comes before another by its year, in the same year by its month, and in the same month by
/// its day.
pub proof fn days_are_ordered_by_year_month_and_day(a: LogDate, b: LogDate, r: bool)
    requires
        a.in_calendar(),
        b.in_calendar(),
        call_ensures(LogDate::is_before, (a, b), r),
    ensures
        r <==> a.year < b.year || a.year == b.year && a.month < b.month || a.year == b.year
            && a.month == b.month && a.day < b.day,
{
    log_date::day_numbers_follow_the_calendar(a, b);
}

/// The directories of a day are its year in four digits, its month in two and its day in two,
/// below the log root.
pub proof fn directories_are_digits<R>(log_root: R, date: LogDate, dir: LogPath<R>)
    requires
        call_ensures(log_date::dated_log_dir_for::<R>, (log_root, date), dir),
        0 <= date.year <= 9999,
        date.month < 100,
        date.day < 100,
    ensures
        dir.root == log_root,
        dir.names@.len() == 3,
        dir.names@[0]@ == seq![
            (48 + date.year / 1000) as char,
            (48 + date.year / 100 % 10) as char,
            (48 + date.year / 10 % 10) as char,
            (48 + date.year % 10) as char,
        ],
        dir.names@[1]@ == seq![
            (48 + date.month / 10) as char,
            (48 + date.month % 10) as char,
        ],
        dir.names@[2]@ == seq![
            (48 + date.day / 10) as char,
            (48 + date.day % 10) as char,
        ],
{
    let names = dir.spec_names();
    assert(names.len() == dir.names@.len());
    assert(names[0] == dir.names@[0]@);
    assert(names[1] == dir.names@[1]@);
    assert(names[2] == dir.names@[2]@);
    lemma_two_digits(date.month as nat);
    lemma_two_digits(date.day as nat);
    lemma_four_digits(date.year as nat);
}

proof fn lemma_two_digits(n: nat)
    requires
        n < 100,
    ensures
        text::zero_padded(n, 2) == seq![(48 + n / 10) as char, (48 + n % 10) as char],
{
    reveal_with_fuel(text::decimal, 3);
    assert(text::zero_padded(n, 2) =~= seq![(48 + n / 10) as char, (48 + n % 10) as char]);
}

#[verifier::spinoff_prover]
proof fn lemma_four_digits(n: nat)
    requires
        n <= 9999,
    ensures
        text::zero_padded(n, 4) == seq![
            (48 + n / 1000) as char,
            (48 + n / 100 % 10) as char,
            (48 + n / 10 % 10) as char,
            (48 + n % 10) as char,
        ],
{
    reveal_with_fuel(text::decimal, 5);
    assert(n / 10 / 10 == n / 100);
    assert(n / 10 / 10 / 10 == n / 1000);
    assert(text::zero_padded(n, 4) =~= seq![
        (48 + n / 1000) as char,
        (48 + n / 100 % 10) as char,
        (48 + n / 10 % 10) as char,
        (48 + n % 10) as char,
    ]);
}

/// The first file of a day is named by its directories, with hyphens between them, a dot and the
/// ending; the others have their number and another dot before the ending. Each lies in the
/// directory of its day.
pub proof fn files_are_named_by_their_day<R>(
    log_root: R,
    date: LogDate,
    part: u32,
    suffix: &str,
    dir: LogPath<R>,
    first: String,
    rolled: String,
    number: &mut String,
    path: LogPath<R>,
)
    requires
        call_ensures(log_date::dated_log_dir_for::<R>, (log_root, date), dir),
        call_ensures(LogDate::file_name, (date, suffix), first),
        call_ensures(LogDate::rolled_file_name, (date, part, suffix), rolled),
        old(number)@.len() == 0,
        call_ensures(text::append_decimal, (number, part as u64), ()),
        call_ensures(log_date::rolled_log_file_path::<R>, (log_root, date, part, suffix), path),
    ensures
        ({
            let day = dir.names@[0]@ + "-"@ + dir.names@[1]@ + "-"@ + dir.names@[2]@;
            &&& dir.names@.len() == 3
            &&& first@ == day + "."@ + suffix@
            &&& part == 0 ==> rolled@ == first@
            &&& part > 0 ==> rolled@ == day + "."@ + final(number)@ + "."@ + suffix@
        }),
        path.root == log_root,
        path.names@.len() == 4,
        path.names@[0]@ == dir.names@[0]@,
        path.names@[1]@ == dir.names@[1]@,
        path.names@[2]@ == dir.names@[2]@,
        path.names@[3]@ == rolled@,
{
    reveal_strlit("-");
    reveal_strlit(".");
    let names = dir.spec_names();
    assert(names.len() == dir.names@.len());
    assert(names[0] == dir.names@[0]@);
    assert(names[1] == dir.names@[1]@);
    assert(names[2] == dir.names@[2]@);
    let path_names = path.spec_names();
    assert(path_names.len() == path.names@.len());
    assert(path_names[0] == path.names@[0]@);
    assert(path_names[1] == path.names@[1]@);
    assert(path_names[2] == path.names@[2]@);
    assert(path_names[3] == path.names@[3]@);
    let day = dir.names@[0]@ + "-"@ + dir.names@[1]@ + "-"@ + dir.names@[2]@;
    assert(day =~= log_date::day_text(date));
    assert(first@ =~= day + "."@ + suffix@);
    assert(final(number)@ =~= text::decimal(part as nat));
    if part > 0 {
        assert(rolled@ =~= day + "."@ + final(number)@ + "."@ + suffix@);
    }
}

/// Three names that are digits, four, two and two of them, are read as the year, month and day
/// that they say, where the calendar has that day.
pub proof fn digits_are_read_as_a_day(
    year: &str,
    month: &str,
    day: &str,
    date: Option<LogDate>,
    said: LogDate,
    known: Option<LogDate>,
)
    requires
        call_ensures(log_date::parse_log_partition, (year, month, day), date),
        call_ensures(LogDate::naive_date, (said,), known),
        year@.len() == 4,
        month@.len() == 2,
        day@.len() == 2,
        forall|i: int| 0 <= i < 4 ==> '0' <= #[trigger] year@[i] <= '9',
        forall|i: int| 0 <= i < 2 ==> '0' <= #[trigger] month@[i] <= '9',
        forall|i: int| 0 <= i < 2 ==> '0' <= #[trigger] day@[i] <= '9',
        said.year == 1000 * (year@[0] as int - 48) + 100 * (year@[1] as int - 48) + 10 * (
        year@[2] as int - 48) + (year@[3] as int - 48),
        said.month == 10 * (month@[0] as int - 48) + (month@[1] as int - 48),
        said.day == 10 * (day@[0] as int - 48) + (day@[1] as int - 48),
    ensures
        date == known,
{
    text::lemma_digits_byte_len(year@);
    text::lemma_digits_byte_len(month@);
    text::lemma_digits_byte_len(day@);
    assert(!('0' <= '-' <= '9'));
    assert(year@[0] != '-');
    lemma_digits_of_four(year@);
    lemma_digits_of_two(month@);
    lemma_digits_of_two(day@);
}

proof fn lemma_digits_of_two(s: Seq<char>)
    requires
        s.len() == 2,
        forall|i: int| 0 <= i < 2 ==> '0' <= #[trigger] s[i] <= '9',
    ensures
        text::digits_value(s) == 10 * (s[0] as int - 48) + (s[1] as int - 48),
{
    reveal_with_fuel(text::digits_value, 3);
    let one = s.drop_last();
    assert(one.last() == s[0]);
    assert(one.drop_last().len() == 0);
}

proof fn lemma_digits_of_four(s: Seq<char>)
    requires
        s.len() == 4,
        forall|i: int| 0 <= i < 4 ==> '0' <= #[trigger] s[i] <= '9',
    ensures
        text::digits_value(s) == 1000 * (s[0] as int - 48) + 100 * (s[1] as int - 48) + 10 * (
        s[2] as int - 48) + (s[3] as int - 48),
{
    reveal_with_fuel(text::digits_value, 5);
    let three = s.drop_last();
    let two = three.drop_last();
    let one = two.drop_last();
    assert(three.last() == s[2]);
    assert(two.last() == s[1]);
    assert(one.last() == s[0]);
    assert(one.drop_last().len() == 0);
}

/// Names of another size, and names with anything in them but digits and a leading sign, are read
/// as no day. A year may have either sign, a month and a day a plus sign alone.
pub proof fn other_names_are_no_day(
    year: &str,
    month: &str,
    day: &str,
    date: Option<LogDate>,
    i: int,
)
    requires
        call_ensures(log_date::parse_log_partition, (year, month, day), date),
    ensures
        text::byte_len(year@) != 4 || text::byte_len(month@) != 2 || text::byte_len(day@) != 2
            ==> date is None,
        0 <= i < year@.len() && !('0' <= year@[i] <= '9') && !(i == 0 && (year@[0] == '+'
            || year@[0] == '-')) ==> date is None,
        0 <= i < month@.len() && !('0' <= month@[i] <= '9') && !(i == 0 && month@[0] == '+')
            ==> date is None,
        0 <= i < day@.len() && !('0' <= day@[i] <= '9') && !(i == 0 && day@[0] == '+') ==> date
            is None,
{
    if 0 < i < year@.len() {
        assert(year@.skip(1)[i - 1] == year@[i]);
    }
    if 0 < i < month@.len() {
        assert(month@.skip(1)[i - 1] == month@[i]);
    }
    if 0 < i < day@.len() {
        assert(day@.skip(1)[i - 1] == day@[i]);
    }
}

/// Three names of four, two and two bytes are read as the day of the numbers that they stand for,
/// signs included, where all three stand for a number and the calendar has that day.
pub proof fn names_are_read_as_numbers(
    year: &str,
    month: &str,
    day: &str,
    date: Option<LogDate>,
    y: Option<i32>,
    m: Option<u32>,
    d: Option<u32>,
    said: LogDate,
    known: Option<LogDate>,
)
    requires
        call_ensures(log_date::parse_log_partition, (year, month, day), date),
        call_ensures(text::parse_signed, (year,), y),
        call_ensures(text::parse_unsigned, (month,), m),
        call_ensures(text::parse_unsigned, (day,), d),
        call_ensures(LogDate::naive_date, (said,), known),
        text::byte_len(year@) == 4,
        text::byte_len(month@) == 2,
        text::byte_len(day@) == 2,
    ensures
        y is None || m is None || d is None ==> date is None,
        y == Some(said.year) && m == Some(said.month) && d == Some(said.day) ==> date == known,
{
}

} // verus!
