//! Which dated log directories are past their retention.

use vstd::prelude::*;

use crate::log_date;
use crate::log_date::LogDate;
use crate::text;

verus! {

/// A directory of a year's directory, which stands for a month.
#[derive(Debug)]
pub struct MonthListing {
    /// Its name.
    pub name: String,
    /// The names of the directories in it; none where it could not be read.
    pub days: Option<Vec<String>>,
}

/// A directory of the log root, which stands for a year.
#[derive(Debug)]
pub struct YearListing {
    /// Its name.
    pub name: String,
    /// The directories in it; none where it could not be read.
    pub months: Option<Vec<MonthListing>>,
}

/// One step of a cleanup. Directories are given by their places in the listing.
#[derive(Debug, Clone, Copy, PartialEq, Eq, Structural)]
pub enum CleanupStep {
    /// Remove the directory of a day with all that is in it.
    RemoveDay { year: usize, month: usize, day: usize },
    /// Remove the directory of a month if nothing is left in it.
    RemoveMonthIfEmpty { year: usize, month: usize },
    /// Remove the directory of a year if nothing is left in it.
    RemoveYearIfEmpty { year: usize },
}

/// How many days a retention keeps: at least one.
pub open spec fn kept_days(retention_days: i64) -> int {
    if retention_days < 1 {
        1
    } else {
        retention_days as int
    }
}

/// The number of the first day that is kept: the present day is the last of those kept.
pub open spec fn first_kept_day(today: LogDate, retention_days: i64) -> int {
    today.day_number() - (kept_days(retention_days) - 1)
}

/// Whether the first day that is kept lies within the range of chrono's dates, as far as there
/// is such a day at all.
pub open spec fn retention_in_range(today: LogDate, retention_days: i64) -> bool {
    today.valid() ==> first_kept_day(today, retention_days) >= log_date::first_day()
}

/// Whether three directory names stand for a day before the one with the number `first_kept`.
pub open spec fn is_expired(
    year: Seq<char>,
    month: Seq<char>,
    day: Seq<char>,
    first_kept: int,
) -> bool {
    match log_date::partition_date(year, month, day) {
        Some(date) => date.day_number() < first_kept,
        None => false,
    }
}

/// The steps for the first `n` directories of a month.
pub open spec fn day_steps(
    years: Seq<YearListing>,
    y: int,
    m: int,
    n: nat,
    first_kept: int,
) -> Seq<CleanupStep>
    decreases n,
{
    if n == 0 {
        Seq::empty()
    } else {
        let before = day_steps(years, y, m, (n - 1) as nat, first_kept);
        let month = years[y].months->0@[m];
        if is_expired(years[y].name@, month.name@, month.days->0@[n - 1]@, first_kept) {
            before.push(
                CleanupStep::RemoveDay {
                    year: y as usize,
                    month: m as usize,
                    day: (n - 1) as usize,
                },
            )
        } else {
            before
        }
    }
}

/// The steps for the first `n` directories of a year. A month that could not be read is left
/// alone.
pub open spec fn month_steps(
    years: Seq<YearListing>,
    y: int,
    n: nat,
    first_kept: int,
) -> Seq<CleanupStep>
    decreases n,
{
    if n == 0 {
        Seq::empty()
    } else {
        let m = n - 1;
        let before = month_steps(years, y, m as nat, first_kept);
        match years[y].months->0@[m].days {
            Some(days) => (before + day_steps(years, y, m, days@.len(), first_kept)).push(
                CleanupStep::RemoveMonthIfEmpty { year: y as usize, month: m as usize },
            ),
            None => before,
        }
    }
}

/// The steps for the first `n` directories of the log root. A year that could not be read is left
/// alone.
pub open spec fn year_steps(years: Seq<YearListing>, n: nat, first_kept: int) -> Seq<CleanupStep>
    decreases n,
{
    if n == 0 {
        Seq::empty()
    } else {
        let y = n - 1;
        let before = year_steps(years, y as nat, first_kept);
        match years[y].months {
            Some(months) => (before + month_steps(years, y, months@.len(), first_kept)).push(
                CleanupStep::RemoveYearIfEmpty { year: y as usize },
            ),
            None => before,
        }
    }
}

/// The steps of a cleanup: those for every year where the present day is one of chrono's dates,
/// and none where it is not.
pub open spec fn cleanup_steps(
    years: Seq<YearListing>,
    today: LogDate,
    retention_days: i64,
) -> Seq<CleanupStep> {
    if today.valid() {
        year_steps(years, years.len(), first_kept_day(today, retention_days))
    } else {
        Seq::empty()
    }
}

/// Whether a listing has a directory at these places, below directories that could be read.
pub open spec fn listed(years: Seq<YearListing>, y: int, m: int, d: int) -> bool {
    &&& 0 <= y < years.len()
    &&& years[y].months is Some
    &&& 0 <= m < years[y].months->0@.len()
    &&& years[y].months->0@[m].days is Some
    &&& 0 <= d < years[y].months->0@[m].days->0@.len()
}

/// Whether the directory at these places is past its retention.
pub open spec fn listed_expired(
    years: Seq<YearListing>,
    y: int,
    m: int,
    d: int,
    first_kept: int,
) -> bool {
    let month = years[y].months->0@[m];
    listed(years, y, m, d) && is_expired(
        years[y].name@,
        month.name@,
        month.days->0@[d]@,
        first_kept,
    )
}

/// The days that a cleanup removes are just the listed ones that are past their retention: the
/// present day, the days before it that are kept, and directories whose names stand for no day
/// all stay.
pub proof fn cleanup_removes_exactly_expired_days(
    years: Seq<YearListing>,
    today: LogDate,
    retention_days: i64,
    year: usize,
    month: usize,
    day: usize,
)
    requires
        today.valid(),
        years.len() <= usize::MAX,
    ensures
        cleanup_steps(years, today, retention_days).contains(
            CleanupStep::RemoveDay { year, month, day },
        ) <==> listed_expired(
            years,
            year as int,
            month as int,
            day as int,
            first_kept_day(today, retention_days),
        ),
{
    let first_kept = first_kept_day(today, retention_days);
    lemma_year_steps_contain(years, years.len(), first_kept, year, month, day);
}

/// A cleanup with a present day that is not one of chrono's dates does nothing.
pub proof fn cleanup_needs_a_date(years: Seq<YearListing>, today: LogDate, retention_days: i64)
    requires
        !today.valid(),
    ensures
        cleanup_steps(years, today, retention_days).len() == 0,
{
}

/// A day that is kept is not past its retention: the present day and the days before it, as many
/// as the retention says.
pub proof fn retention_window_is_kept(date: LogDate, today: LogDate, retention_days: i64)
    requires
        date.valid(),
        today.valid(),
        0 <= today.day_number() - date.day_number() < kept_days(retention_days),
    ensures
        ({
            let names = log_date::day_directories(date);
            !is_expired(names[0], names[1], names[2], first_kept_day(today, retention_days))
        }),
{
    if -999 <= date.year <= 9999 {
        log_date::day_directories_read_back(date);
    } else {
        lemma_long_year(date.year as int);
    }
}

/// A year that does not fit into four characters is written with more of them.
proof fn lemma_long_year(year: int)
    requires
        year < -999 || year > 9999,
    ensures
        text::byte_len(text::signed_zero_padded(year, 4)) > 4,
{
    reveal_with_fuel(text::decimal, 6);
    text::lemma_byte_len_bounds(text::signed_zero_padded(year, 4));
}

/// A day before those that are kept is past its retention.
pub proof fn older_days_expire(date: LogDate, today: LogDate, retention_days: i64)
    requires
        date.valid(),
        today.valid(),
        -999 <= date.year <= 9999,
        today.day_number() - date.day_number() >= kept_days(retention_days),
    ensures
        ({
            let names = log_date::day_directories(date);
            is_expired(names[0], names[1], names[2], first_kept_day(today, retention_days))
        }),
{
    log_date::day_directories_read_back(date);
}

proof fn lemma_day_steps_contain(
    years: Seq<YearListing>,
    y: int,
    m: int,
    n: nat,
    first_kept: int,
    year: usize,
    month: usize,
    day: usize,
)
    requires
        0 <= y < years.len() <= usize::MAX,
        years[y].months is Some,
        0 <= m < years[y].months->0@.len(),
        years[y].months->0@[m].days is Some,
        n <= years[y].months->0@[m].days->0@.len(),
    ensures
        day_steps(years, y, m, n, first_kept).contains(
            CleanupStep::RemoveDay { year, month, day },
        ) <==> year == y && month == m && day < n && listed_expired(
            years,
            y,
            m,
            day as int,
            first_kept,
        ),
    decreases n,
{
    let step = CleanupStep::RemoveDay { year, month, day };
    // A vector's length is a machine number.
    assert(years[y].months->0.len() == years[y].months->0@.len());
    assert(years[y].months->0@[m].days->0.len() == years[y].months->0@[m].days->0@.len());
    if n > 0 {
        let before = day_steps(years, y, m, (n - 1) as nat, first_kept);
        lemma_day_steps_contain(years, y, m, (n - 1) as nat, first_kept, year, month, day);
        let last = CleanupStep::RemoveDay {
            year: y as usize,
            month: m as usize,
            day: (n - 1) as usize,
        };
        lemma_push_contains(before, last, step);
    }
}

proof fn lemma_push_contains(s: Seq<CleanupStep>, last: CleanupStep, step: CleanupStep)
    ensures
        s.push(last).contains(step) <==> s.contains(step) || last == step,
{
    if s.contains(step) {
        let i = choose|i: int| 0 <= i < s.len() && s[i] == step;
        assert(s.push(last)[i] == step);
    }
    if last == step {
        assert(s.push(last)[s.len() as int] == step);
    }
    if s.push(last).contains(step) {
        let i = choose|i: int| 0 <= i < s.push(last).len() && s.push(last)[i] == step;
        if i < s.len() {
            assert(s[i] == step);
        }
    }
}

proof fn lemma_concat_contains(a: Seq<CleanupStep>, b: Seq<CleanupStep>, step: CleanupStep)
    ensures
        (a + b).contains(step) <==> a.contains(step) || b.contains(step),
{
    if a.contains(step) {
        let i = choose|i: int| 0 <= i < a.len() && a[i] == step;
        assert((a + b)[i] == step);
    }
    if b.contains(step) {
        let i = choose|i: int| 0 <= i < b.len() && b[i] == step;
        assert((a + b)[a.len() + i] == step);
    }
    if (a + b).contains(step) {
        let i = choose|i: int| 0 <= i < (a + b).len() && (a + b)[i] == step;
        if i < a.len() {
            assert(a[i] == step);
        } else {
            assert(b[i - a.len()] == step);
        }
    }
}

proof fn lemma_month_steps_contain(
    years: Seq<YearListing>,
    y: int,
    n: nat,
    first_kept: int,
    year: usize,
    month: usize,
    day: usize,
)
    requires
        0 <= y < years.len() <= usize::MAX,
        years[y].months is Some,
        n <= years[y].months->0@.len(),
    ensures
        month_steps(years, y, n, first_kept).contains(
            CleanupStep::RemoveDay { year, month, day },
        ) <==> year == y && month < n && listed_expired(
            years,
            y,
            month as int,
            day as int,
            first_kept,
        ),
    decreases n,
{
    let step = CleanupStep::RemoveDay { year, month, day };
    assert(years[y].months->0.len() == years[y].months->0@.len());
    if n > 0 {
        let m = n - 1;
        let before = month_steps(years, y, m as nat, first_kept);
        lemma_month_steps_contain(years, y, m as nat, first_kept, year, month, day);
        if let Some(days) = years[y].months->0@[m].days {
            let new = day_steps(years, y, m, days@.len(), first_kept);
            lemma_day_steps_contain(years, y, m, days@.len(), first_kept, year, month, day);
            lemma_concat_contains(before, new, step);
            lemma_push_contains(
                before + new,
                CleanupStep::RemoveMonthIfEmpty { year: y as usize, month: m as usize },
                step,
            );
        }
    }
}

proof fn lemma_year_steps_contain(
    years: Seq<YearListing>,
    n: nat,
    first_kept: int,
    year: usize,
    month: usize,
    day: usize,
)
    requires
        n <= years.len() <= usize::MAX,
    ensures
        year_steps(years, n, first_kept).contains(
            CleanupStep::RemoveDay { year, month, day },
        ) <==> year < n && listed_expired(
            years,
            year as int,
            month as int,
            day as int,
            first_kept,
        ),
    decreases n,
{
    let step = CleanupStep::RemoveDay { year, month, day };
    if n > 0 {
        let y = n - 1;
        let before = year_steps(years, y as nat, first_kept);
        lemma_year_steps_contain(years, y as nat, first_kept, year, month, day);
        if let Some(months) = years[y].months {
            let new = month_steps(years, y, months@.len(), first_kept);
            lemma_month_steps_contain(years, y, months@.len(), first_kept, year, month, day);
            lemma_concat_contains(before, new, step);
            lemma_push_contains(
                before + new,
                CleanupStep::RemoveYearIfEmpty { year: y as usize },
                step,
            );
        }
    }
}

/// Tells whether the first day that is kept lies within the range of chrono's dates.
pub fn is_retention_in_range(today: LogDate, retention_days: i64) -> (r: bool)
    ensures
        r == retention_in_range(today, retention_days),
{
    match today.naive_date() {
        Some(today) => {
            let first = LogDate { year: log_date::FIRST_YEAR, month: 1, day: 1 };
            let back: i64 = if retention_days < 1 {
                0
            } else {
                retention_days - 1
            };
            today.number() - first.number() >= back
        },
        None => true,
    }
}

/// The first day that is kept, if the present day is one of chrono's dates.
pub fn first_kept_date(today: LogDate, retention_days: i64) -> (first: Option<LogDate>)
    requires
        retention_in_range(today, retention_days),
    ensures
        first is Some <==> today.valid(),
        first matches Some(first) ==> first.valid() && first.day_number() == first_kept_day(
            today,
            retention_days,
        ),
{
    match today.naive_date() {
        Some(today) => {
            let back: i64 = if retention_days < 1 {
                0
            } else {
                retention_days - 1
            };
            Some(today.minus_days(back))
        },
        None => None,
    }
}

/// Tells whether three directory names stand for a day before `first_kept`.
pub fn is_expired_partition(year: &str, month: &str, day: &str, first_kept: LogDate) -> (r: bool)
    requires
        first_kept.valid(),
    ensures
        r == is_expired(year@, month@, day@, first_kept.day_number()),
{
    match log_date::parse_log_partition(year, month, day) {
        Some(date) => date.is_before(first_kept),
        None => false,
    }
}

/// The steps that remove the days of `years` which are past their retention, and the directories
/// that are empty then.
pub fn cleanup_expired_log_partitions(
    years: &Vec<YearListing>,
    today: LogDate,
    retention_days: i64,
) -> (steps: Vec<CleanupStep>)
    requires
        retention_in_range(today, retention_days),
    ensures
        steps@ == cleanup_steps(years@, today, retention_days),
{
    let mut steps: Vec<CleanupStep> = Vec::new();
    let first_kept: LogDate = match first_kept_date(today, retention_days) {
        Some(date) => date,
        None => {
            return steps;
        },
    };
    let ghost first = first_kept.day_number();
    let mut y: usize = 0;
    while y < years.len()
        invariant
            y <= years@.len(),
            first_kept.valid(),
            first == first_kept.day_number(),
            steps@ == year_steps(years@, y as nat, first),
        decreases years@.len() - y,
    {
        if let Some(months) = &years[y].months {
            let ghost before = steps@;
            append_month_steps(&mut steps, years, y, months, first_kept);
            steps.push(CleanupStep::RemoveYearIfEmpty { year: y });
            assert(steps@ =~= (before + month_steps(
                years@,
                y as int,
                months@.len(),
                first,
            )).push(CleanupStep::RemoveYearIfEmpty { year: y }));
        }
        y += 1;
    }
    steps
}

fn append_month_steps(
    steps: &mut Vec<CleanupStep>,
    years: &Vec<YearListing>,
    y: usize,
    months: &Vec<MonthListing>,
    first_kept: LogDate,
)
    requires
        first_kept.valid(),
        y < years@.len(),
        years@[y as int].months == Some(*months),
    ensures
        final(steps)@ == old(steps)@ + month_steps(
            years@,
            y as int,
            months@.len(),
            first_kept.day_number(),
        ),
{
    let ghost first = first_kept.day_number();
    let mut m: usize = 0;
    assert(steps@ =~= old(steps)@ + month_steps(years@, y as int, 0, first));
    while m < months.len()
        invariant
            first_kept.valid(),
            first == first_kept.day_number(),
            y < years@.len(),
            years@[y as int].months == Some(*months),
            m <= months@.len(),
            steps@ == old(steps)@ + month_steps(years@, y as int, m as nat, first),
        decreases months@.len() - m,
    {
        if let Some(days) = &months[m].days {
            let ghost before = steps@;
            append_day_steps(steps, years, y, months, m, days, first_kept);
            steps.push(CleanupStep::RemoveMonthIfEmpty { year: y, month: m });
            assert(steps@ =~= old(steps)@ + month_steps(years@, y as int, (m + 1) as nat, first));
        }
        m += 1;
    }
}

fn append_day_steps(
    steps: &mut Vec<CleanupStep>,
    years: &Vec<YearListing>,
    y: usize,
    months: &Vec<MonthListing>,
    m: usize,
    days: &Vec<String>,
    first_kept: LogDate,
)
    requires
        first_kept.valid(),
        y < years@.len(),
        years@[y as int].months == Some(*months),
        m < months@.len(),
        months@[m as int].days == Some(*days),
    ensures
        final(steps)@ == old(steps)@ + day_steps(
            years@,
            y as int,
            m as int,
            days@.len(),
            first_kept.day_number(),
        ),
{
    let ghost first = first_kept.day_number();
    let mut d: usize = 0;
    assert(steps@ =~= old(steps)@ + day_steps(years@, y as int, m as int, 0, first));
    while d < days.len()
        invariant
            first_kept.valid(),
            first == first_kept.day_number(),
            y < years@.len(),
            years@[y as int].months == Some(*months),
            m < months@.len(),
            months@[m as int].days == Some(*days),
            d <= days@.len(),
            steps@ == old(steps)@ + day_steps(years@, y as int, m as int, d as nat, first),
        decreases days@.len() - d,
    {
        if is_expired_partition(
            years[y].name.as_str(),
            months[m].name.as_str(),
            days[d].as_str(),
            first_kept,
        ) {
            steps.push(CleanupStep::RemoveDay { year: y, month: m, day: d });
        }
        assert(steps@ =~= old(steps)@ + day_steps(
            years@,
            y as int,
            m as int,
            (d + 1) as nat,
            first,
        ));
        d += 1;
    }
}

/// A cleanup removes a listed directory of a day just where its names stand for a day that lies at
/// least `retention_days` days before the present one, or at least one day where fewer are given.
/// Without a present day that chrono's dates reach it removes none.
pub proof fn days_are_removed_by_their_age(
    years: &Vec<YearListing>,
    today: LogDate,
    retention_days: i64,
    steps: Vec<CleanupStep>,
    year: usize,
    month: usize,
    day: usize,
    date: LogDate,
)
    requires
        call_ensures(
            cleanup_expired_log_partitions,
            (years, today, retention_days),
            steps,
        ),
        listed(years@, year as int, month as int, day as int),
    ensures
        ({
            let step = CleanupStep::RemoveDay { year, month, day };
            let months = years@[year as int].months->0@;
            let read = log_date::partition_date(
                years@[year as int].name@,
                months[month as int].name@,
                months[month as int].days->0@[day as int]@,
            );
            &&& !today.valid() ==> steps@.len() == 0
            &&& read is None ==> !steps@.contains(step)
            &&& today.valid() && read == Some(date) ==> (steps@.contains(step) <==> date.day_number()
                + retention_days <= today.day_number() && date.day_number() + 1
                <= today.day_number())
        }),
{
    assert(years.len() == years@.len());
    if today.valid() {
        cleanup_removes_exactly_expired_days(
            years@,
            today,
            retention_days,
            year,
            month,
            day,
        );
    }
}

/// A cleanup removes nothing that is not listed.
pub proof fn only_listed_days_are_removed(
    years: &Vec<YearListing>,
    today: LogDate,
    retention_days: i64,
    steps: Vec<CleanupStep>,
    year: usize,
    month: usize,
    day: usize,
)
    requires
        call_ensures(
            cleanup_expired_log_partitions,
            (years, today, retention_days),
            steps,
        ),
        steps@.contains(CleanupStep::RemoveDay { year, month, day }),
    ensures
        listed(years@, year as int, month as int, day as int),
{
    assert(years.len() == years@.len());
    if today.valid() {
        cleanup_removes_exactly_expired_days(
            years@,
            today,
            retention_days,
            year,
            month,
            day,
        );
    }
}

/// The first day that is kept lies `retention_days - 1` days before the present one, or is the
/// present one where fewer than two days are kept.
pub proof fn first_kept_date_is_counted_back(
    today: LogDate,
    retention_days: i64,
    first: Option<LogDate>,
)
    requires
        call_ensures(first_kept_date, (today, retention_days), first),
    ensures
        first is Some <==> today.valid(),
        first matches Some(first) ==> {
            &&& retention_days <= 1 ==> first.day_number() == today.day_number()
            &&& retention_days > 1 ==> first.day_number() == today.day_number() - retention_days
                + 1
        },
{
}

/// A retention is in range just where the present day is not one of chrono's dates, or the first
/// day that is kept is one.
pub proof fn range_is_that_of_the_first_kept_day(today: LogDate, retention_days: i64, r: bool)
    requires
        call_ensures(is_retention_in_range, (today, retention_days), r),
    ensures
        !today.valid() ==> r,
        today.valid() && retention_days <= 1 ==> r,
        today.valid() && retention_days > 1 ==> (r <==> today.day_number() - retention_days + 1
            >= (LogDate { year: -262_143i32, month: 1, day: 1 }).day_number()),
{
    let first = LogDate { year: -262_143i32, month: 1, day: 1 };
    assert(first.day_number() == log_date::first_day());
    if today.valid() {
        log_date::day_numbers_follow_the_calendar(first, today);
    }
}

/// A directory counts as expired just where its names stand for a day before the first one kept.
pub proof fn expiry_goes_by_the_day(
    year: &str,
    month: &str,
    day: &str,
    first_kept: LogDate,
    expired: bool,
    read: Option<LogDate>,
)
    requires
        call_ensures(is_expired_partition, (year, month, day, first_kept), expired),
        call_ensures(log_date::parse_log_partition, (year, month, day), read),
        first_kept.in_calendar(),
    ensures
        expired <==> (read matches Some(date) && (date.year < first_kept.year || date.year
            == first_kept.year && date.month < first_kept.month || date.year == first_kept.year
            && date.month == first_kept.month && date.day < first_kept.day)),
{
    if let Some(date) = read {
        log_date::day_numbers_follow_the_calendar(date, first_kept);
    }
}

/// The place of a step in the order of a cleanup: by year, in a year by month and at last the year
/// itself, in a month by day and at last the month itself.
spec fn place(step: CleanupStep) -> (int, int, int) {
    match step {
        CleanupStep::RemoveDay { year, month, day } => (year as int, month as int, day as int),
        CleanupStep::RemoveMonthIfEmpty { year, month } => (
            year as int,
            month as int,
            usize::MAX + 1,
        ),
        CleanupStep::RemoveYearIfEmpty { year } => (year as int, usize::MAX + 1, 0),
    }
}

spec fn comes_first(a: CleanupStep, b: CleanupStep) -> bool {
    let (ya, ma, da) = place(a);
    let (yb, mb, db) = place(b);
    ||| ya < yb
    ||| ya == yb && ma < mb
    ||| ya == yb && ma == mb && da < db
}

spec fn ordered(steps: Seq<CleanupStep>) -> bool {
    forall|i: int, j: int|
        0 <= i < j < steps.len() ==> comes_first(#[trigger] steps[i], #[trigger] steps[j])
}

proof fn lemma_day_steps_ordered(
    years: Seq<YearListing>,
    y: int,
    m: int,
    n: nat,
    first_kept: int,
)
    requires
        0 <= y <= usize::MAX,
        0 <= m <= usize::MAX,
        n <= usize::MAX,
    ensures
        ordered(day_steps(years, y, m, n, first_kept)),
        forall|i: int|
            0 <= i < day_steps(years, y, m, n, first_kept).len() ==> (
            #[trigger] day_steps(years, y, m, n, first_kept)[i] matches CleanupStep::RemoveDay {
                year,
                month,
                day,
            } && year == y && month == m && day < n),
    decreases n,
{
    if n > 0 {
        lemma_day_steps_ordered(years, y, m, (n - 1) as nat, first_kept);
    }
}

proof fn lemma_month_steps_ordered(
    years: Seq<YearListing>,
    y: int,
    n: nat,
    first_kept: int,
)
    requires
        0 <= y <= usize::MAX,
        n <= years[y].months->0@.len(),
    ensures
        ordered(month_steps(years, y, n, first_kept)),
        forall|i: int|
            0 <= i < month_steps(years, y, n, first_kept).len() ==> place(
                #[trigger] month_steps(years, y, n, first_kept)[i],
            ).0 == y && place(month_steps(years, y, n, first_kept)[i]).1 < n,
    decreases n,
{
    assert(years[y].months->0.len() == years[y].months->0@.len());
    if n > 0 {
        let m = n - 1;
        lemma_month_steps_ordered(years, y, m as nat, first_kept);
        if let Some(days) = years[y].months->0@[m].days {
            assert(days.len() == days@.len());
            lemma_day_steps_ordered(years, y, m, days@.len(), first_kept);
        }
    }
}

proof fn lemma_year_steps_ordered(years: Seq<YearListing>, n: nat, first_kept: int)
    requires
        n <= years.len() <= usize::MAX,
    ensures
        ordered(year_steps(years, n, first_kept)),
        forall|i: int|
            0 <= i < year_steps(years, n, first_kept).len() ==> place(
                #[trigger] year_steps(years, n, first_kept)[i],
            ).0 < n,
    decreases n,
{
    if n > 0 {
        let y = n - 1;
        lemma_year_steps_ordered(years, y as nat, first_kept);
        if let Some(months) = years[y].months {
            assert(months.len() == months@.len());
            lemma_month_steps_ordered(years, y, months@.len(), first_kept);
        }
    }
}

/// A directory is tried only once all that lies in it has been: the days of a month come before
/// the month, the days and months of a year before the year. No step comes twice.
pub proof fn directories_are_removed_from_within(
    years: &Vec<YearListing>,
    today: LogDate,
    retention_days: i64,
    steps: Vec<CleanupStep>,
    i: int,
    j: int,
)
    requires
        call_ensures(
            cleanup_expired_log_partitions,
            (years, today, retention_days),
            steps,
        ),
        0 <= i < j < steps@.len(),
    ensures
        steps@[i] != steps@[j],
        steps@[i] matches CleanupStep::RemoveMonthIfEmpty { year, month } ==> (
        steps@[j] matches CleanupStep::RemoveDay { year: y, month: m, .. } ==> !(y == year && m
            == month)),
        steps@[i] matches CleanupStep::RemoveYearIfEmpty { year } ==> (
        steps@[j] matches CleanupStep::RemoveDay { year: y, .. } ==> y != year),
        steps@[i] matches CleanupStep::RemoveYearIfEmpty { year } ==> (
        steps@[j] matches CleanupStep::RemoveMonthIfEmpty { year: y, .. } ==> y != year),
{
    assert(years.len() == years@.len());
    lemma_year_steps_ordered(years@, years@.len(), first_kept_day(today, retention_days));
    assert(comes_first(steps@[i], steps@[j]));
}

proof fn lemma_month_is_tried(
    years: Seq<YearListing>,
    y: int,
    n: nat,
    first_kept: int,
    step: CleanupStep,
    year: usize,
    month: usize,
)
    requires
        0 <= y <= usize::MAX,
        n <= years[y].months->0@.len(),
        step == (CleanupStep::RemoveMonthIfEmpty { year, month }),
    ensures
        month_steps(years, y, n, first_kept).contains(step) <==> year == y && month < n
            && years[y].months->0@[month as int].days is Some,
    decreases n,
{
    assert(years[y].months->0.len() == years[y].months->0@.len());
    if n > 0 {
        let m = n - 1;
        let before = month_steps(years, y, m as nat, first_kept);
        lemma_month_is_tried(years, y, m as nat, first_kept, step, year, month);
        if let Some(days) = years[y].months->0@[m].days {
            assert(days.len() == days@.len());
            let new = day_steps(years, y, m, days@.len(), first_kept);
            lemma_day_steps_ordered(years, y, m, days@.len(), first_kept);
            lemma_concat_contains(before, new, step);
            lemma_push_contains(
                before + new,
                CleanupStep::RemoveMonthIfEmpty { year: y as usize, month: m as usize },
                step,
            );
        }
    }
}

proof fn lemma_directory_is_tried(
    years: Seq<YearListing>,
    n: nat,
    first_kept: int,
    year: usize,
    month: usize,
)
    requires
        n <= years.len() <= usize::MAX,
    ensures
        year_steps(years, n, first_kept).contains(CleanupStep::RemoveYearIfEmpty { year }) <==> year
            < n && years[year as int].months is Some,
        year_steps(years, n, first_kept).contains(
            CleanupStep::RemoveMonthIfEmpty { year, month },
        ) <==> year < n && years[year as int].months is Some && month
            < years[year as int].months->0@.len()
            && years[year as int].months->0@[month as int].days is Some,
    decreases n,
{
    if n > 0 {
        let y = n - 1;
        let before = year_steps(years, y as nat, first_kept);
        lemma_directory_is_tried(years, y as nat, first_kept, year, month);
        if let Some(months) = years[y].months {
            assert(months.len() == months@.len());
            let new = month_steps(years, y, months@.len(), first_kept);
            let last = CleanupStep::RemoveYearIfEmpty { year: y as usize };
            let of_month = CleanupStep::RemoveMonthIfEmpty { year, month };
            let of_year = CleanupStep::RemoveYearIfEmpty { year };
            lemma_month_steps_ordered(years, y, months@.len(), first_kept);
            lemma_month_is_tried(years, y, months@.len(), first_kept, of_month, year, month);
            lemma_concat_contains(before, new, of_month);
            lemma_concat_contains(before, new, of_year);
            lemma_push_contains(before + new, last, of_month);
            lemma_push_contains(before + new, last, of_year);
        }
    }
}

/// Every month and every year that could be read is tried, whether or not a day of it expired, and
/// none that could not be read is.
pub proof fn readable_directories_are_tried(
    years: &Vec<YearListing>,
    today: LogDate,
    retention_days: i64,
    steps: Vec<CleanupStep>,
    year: usize,
    month: usize,
)
    requires
        call_ensures(
            cleanup_expired_log_partitions,
            (years, today, retention_days),
            steps,
        ),
        today.valid(),
    ensures
        steps@.contains(CleanupStep::RemoveYearIfEmpty { year }) <==> year < years@.len()
            && years@[year as int].months is Some,
        steps@.contains(CleanupStep::RemoveMonthIfEmpty { year, month }) <==> year < years@.len()
            && years@[year as int].months is Some && month < years@[year as int].months->0@.len()
            && years@[year as int].months->0@[month as int].days is Some,
{
    assert(years.len() == years@.len());
    lemma_directory_is_tried(
        years@,
        years@.len(),
        first_kept_day(today, retention_days),
        year,
        month,
    );
}

} // verus!
