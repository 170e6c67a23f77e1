//! Dates of the proleptic Gregorian calendar, counted and written by the `chrono` crate.
use crate::text;
use chrono::Datelike;
use vstd::prelude::*;
use vstd::string::*;

verus! {

/// A day of the calendar; the year 0 is the one before the year 1.
#[derive(Debug, Clone, Copy, PartialEq, Eq, Structural)]
pub struct Date {
    pub year: i32,
    pub month: u32,
    pub day: u32,
}

/// The first year that `chrono` has dates for.
pub const FIRST_YEAR: i32 = -262143;

/// The last year that `chrono` has dates for.
pub const LAST_YEAR: i32 = 262142;

/// Whether a year has a 29th of February.
pub open spec fn is_leap(year: int) -> bool {
    year % 4 == 0 && (year % 100 != 0 || year % 400 == 0)
}

/// How many days a month has.
pub open spec fn month_len(year: int, month: int) -> int {
    if month == 2 {
        if is_leap(year) {
            29
        } else {
            28
        }
    } else if month == 4 || month == 6 || month == 9 || month == 11 {
        30
    } else {
        31
    }
}

/// How many days of a year pass before a month begins.
pub open spec fn before_month(year: int, month: int) -> int
    decreases month,
{
    if month <= 1 {
        0
    } else {
        before_month(year, month - 1) + month_len(year, month - 1)
    }
}

/// How many days pass from the beginning of the year 1 until a year begins.
pub open spec fn before_year(year: int) -> int {
    let y = year - 1;
    365 * y + y / 4 - y / 100 + y / 400
}

/// `n` in decimal, filled up with zeros to `width` digits.
pub open spec fn padded(n: nat, width: nat) -> Seq<char> {
    let digits = text::decimal(n);
    if digits.len() < width {
        Seq::new((width - digits.len()) as nat, |i: int| '0') + digits
    } else {
        digits
    }
}

/// A year in four digits or more; one that does not fit in four digits has a sign.
pub open spec fn year_text(year: int) -> Seq<char> {
    if year < 0 {
        seq!['-'] + padded((-year) as nat, 4)
    } else if year > 9999 {
        seq!['+'] + padded(year as nat, 4)
    } else {
        padded(year as nat, 4)
    }
}

impl Date {
    /// Whether the calendar has this day, within the years of `chrono`.
    pub open spec fn is_date(self) -> bool {
        &&& FIRST_YEAR <= self.year <= LAST_YEAR
        &&& 1 <= self.month <= 12
        &&& 1 <= self.day <= month_len(self.year as int, self.month as int)
    }

    /// The number of the day, counted from 1 for the first day of the year 1.
    pub open spec fn number(self) -> int {
        before_year(self.year as int) + before_month(self.year as int, self.month as int)
            + self.day
    }

    /// The day `days` days before this one.
    pub open spec fn days_before(self, days: int) -> Date {
        choose|d: Date| d.is_date() && #[trigger] d.number() == self.number() - days
    }

    /// Whether the day `days` days before this one is a date.
    pub open spec fn reaches(self, days: int) -> bool {
        self.number() - days > before_year(FIRST_YEAR as int)
    }

    /// The date as "YYYY-MM-DD".
    pub open spec fn text(self) -> Seq<char> {
        year_text(self.year as int) + seq!['-'] + padded(self.month as nat, 2) + seq!['-']
            + padded(self.day as nat, 2)
    }

    /// The date with this year, month and day, if there is one.
    pub fn new(year: i32, month: u32, day: u32) -> (r: Option<Date>)
        ensures
            ({
                let d = Date { year, month, day };
                r == (if d.is_date() {
                    Some(d)
                } else {
                    None
                })
            }),
    {
        if FIRST_YEAR <= year && year <= LAST_YEAR && 1 <= month && month <= 12 && 1 <= day && day
            <= len_of_month(year, month) {
            Some(Date { year, month, day })
        } else {
            None
        }
    }

    /// Whether the day `days` days before this one is a date.
    pub fn can_go_back(self, days: u64) -> (r: bool)
        requires
            self.is_date(),
        ensures
            r == self.reaches(days as int),
    {
        let n: i64 = years_before(self.year) + months_before(self.year, self.month)
            + self.day as i64;
        let floor: i64 = years_before(FIRST_YEAR);
        n > floor && days < (n - floor) as u64
    }
}

/// How many days pass from the beginning of the year 1 until `year` begins.
fn years_before(year: i32) -> (r: i64)
    requires
        FIRST_YEAR <= year <= LAST_YEAR,
    ensures
        r == before_year(year as int),
        -100_000_000 <= r <= 100_000_000,
{
    // counted from 400 000 years earlier, where no year is negative
    let y: i64 = year as i64 + 399_999;
    let ghost z = year - 1;
    assert((z + 400_000) / 4 == z / 4 + 100_000);
    assert((z + 400_000) / 100 == z / 100 + 4_000);
    assert((z + 400_000) / 400 == z / 400 + 1_000);
    365 * y + y / 4 - y / 100 + y / 400 - 146_097_000
}

/// How many days of `year` pass before `month` begins.
fn months_before(year: i32, month: u32) -> (r: i64)
    requires
        FIRST_YEAR <= year <= LAST_YEAR,
        1 <= month <= 12,
    ensures
        r == before_month(year as int, month as int),
        0 <= r <= 372,
{
    let mut n: i64 = 0;
    let mut m: u32 = 1;
    while m < month
        invariant
            1 <= m <= month <= 12,
            FIRST_YEAR <= year <= LAST_YEAR,
            n == before_month(year as int, m as int),
            0 <= n <= 31 * (m - 1),
        decreases month - m,
    {
        n = n + len_of_month(year, m) as i64;
        m = m + 1;
    }
    n
}

fn len_of_month(year: i32, month: u32) -> (r: u32)
    requires
        FIRST_YEAR <= year <= LAST_YEAR,
    ensures
        r == month_len(year as int, month as int),
{
    if month == 2 {
        let y: u32 = (year as i64 + 400_000) as u32;
        if y % 4 == 0 && (y % 100 != 0 || y % 400 == 0) {
            29
        } else {
            28
        }
    } else if month == 4 || month == 6 || month == 9 || month == 11 {
        30
    } else {
        31
    }
}

/// The months of a year fill it.
proof fn lemma_before_month(year: int, month: int)
    requires
        1 <= month <= 12,
    ensures
        0 <= before_month(year, month) <= 31 * (month - 1),
        before_month(year, month) + month_len(year, month) <= before_month(year, 12) + 31,
        before_month(year, 12) + 31 == (if is_leap(year) {
            366int
        } else {
            365int
        }),
{
    reveal_with_fuel(before_month, 13);
}

/// How a quotient grows with each step.
proof fn lemma_quotient(y: int, d: int)
    requires
        d == 4 || d == 100 || d == 400,
    ensures
        y / d - (y - 1) / d == (if y % d == 0 {
            1int
        } else {
            0int
        }),
{
}

/// A hundredth year is a fourth one, and a four hundredth year a hundredth one.
proof fn lemma_multiples(year: int)
    ensures
        year % 100 == 0 ==> year % 4 == 0,
        year % 400 == 0 ==> year % 100 == 0,
{
}

/// A year begins where the one before it ends.
#[verifier::spinoff_prover]
proof fn lemma_next_year(year: int)
    ensures
        before_year(year + 1) == before_year(year) + (if is_leap(year) {
            366int
        } else {
            365int
        }),
{
    lemma_quotient(year, 4);
    lemma_quotient(year, 100);
    lemma_quotient(year, 400);
    lemma_multiples(year);
}

/// A year ends before a later one begins.
proof fn lemma_before_year(a: int, b: int)
    requires
        a < b,
    ensures
        before_year(a) + (if is_leap(a) {
            366int
        } else {
            365int
        }) <= before_year(b),
    decreases b - a,
{
    lemma_next_year(b - 1);
    if a + 1 < b {
        lemma_before_year(a, b - 1);
    }
}

/// The months of a year begin one after the other.
proof fn lemma_months_in_order(year: int, a: int, b: int)
    requires
        1 <= a < b <= 12,
    ensures
        before_month(year, a) + month_len(year, a) <= before_month(year, b),
{
    reveal_with_fuel(before_month, 13);
}

/// No two dates have the same number.
pub proof fn law_numbers_identify_dates(a: Date, b: Date)
    requires
        a.is_date(),
        b.is_date(),
        a.number() == b.number(),
    ensures
        a == b,
{
    lemma_before_month(a.year as int, a.month as int);
    lemma_before_month(b.year as int, b.month as int);
    if a.year < b.year {
        lemma_before_year(a.year as int, b.year as int);
    } else if b.year < a.year {
        lemma_before_year(b.year as int, a.year as int);
    } else if a.month < b.month {
        lemma_months_in_order(a.year as int, a.month as int, b.month as int);
    } else if b.month < a.month {
        lemma_months_in_order(a.year as int, b.month as int, a.month as int);
    }
}

/// The day before is the date whose number is that much smaller.
pub proof fn law_days_before(d: Date, days: int, earlier: Date)
    requires
        earlier.is_date(),
        earlier.number() == d.number() - days,
    ensures
        d.days_before(days) == earlier,
{
    law_numbers_identify_dates(d.days_before(days), earlier);
}

/// Go back by days, with `chrono::NaiveDate`'s `-` on a `chrono::Duration::days`.
/// It counts days in the proleptic Gregorian calendar, and fails only where it
/// would pass the first date of `chrono`, the first of January of its first year.
#[verifier::external_body]
pub(crate) fn go_back(d: Date, days: u64) -> (r: Date)
    requires
        d.is_date(),
        d.reaches(days as int),
    ensures
        r.is_date(),
        r.number() == d.number() - days,
{
    let day = chrono::NaiveDate::from_ymd_opt(d.year, d.month, d.day).unwrap();
    let earlier = day - chrono::Duration::days(days as i64);
    Date { year: earlier.year(), month: earlier.month(), day: earlier.day() }
}

/// Write a date with `chrono::NaiveDate::format` and "%Y-%m-%d": the year in four
/// digits, the month and the day in two. A year beyond four digits comes with a
/// sign.
#[verifier::external_body]
pub(crate) fn write_date(d: Date) -> (r: String)
    requires
        d.is_date(),
    ensures
        r@ == d.text(),
{
    let day = chrono::NaiveDate::from_ymd_opt(d.year, d.month, d.day).unwrap();
    day.format("%Y-%m-%d").to_string()
}

/// How the days are counted: the first day of the year 1 is the first, and each day
/// is followed by the next of its month; the last of a month, by the first of the
/// next month; and the last of a year, by the first of the next year.
pub proof fn law_days_follow_each_other(d: Date, next: Date)
    requires
        d.is_date(),
        next.is_date(),
    ensures
        d.year == 1 && d.month == 1 && d.day == 1 ==> d.number() == 1,
        next.year == d.year && next.month == d.month && next.day == d.day + 1 ==> next.number()
            == d.number() + 1,
        next.year == d.year && next.month == d.month + 1 && next.day == 1 && d.day == month_len(
            d.year as int,
            d.month as int,
        ) ==> next.number() == d.number() + 1,
        d.month == 12 && d.day == 31 && next.month == 1 && next.day == 1 && next.year == d.year
            + 1 ==> next.number() == d.number() + 1,
{
    lemma_before_month(d.year as int, d.month as int);
    lemma_next_year(d.year as int);
}

/// How long the months are, and which years have a 29th of February: every fourth,
/// but of the hundredth years every fourth only.
pub proof fn law_month_lengths(year: int, month: int)
    ensures
        month == 1 || month == 3 || month == 5 || month == 7 || month == 8 || month == 10 || month
            == 12 ==> month_len(year, month) == 31,
        month == 4 || month == 6 || month == 9 || month == 11 ==> month_len(year, month) == 30,
        year % 4 != 0 ==> month_len(year, 2) == 28,
        year % 4 == 0 && year % 100 != 0 ==> month_len(year, 2) == 29,
        year % 100 == 0 && year % 400 != 0 ==> month_len(year, 2) == 28,
        year % 400 == 0 ==> month_len(year, 2) == 29,
{
}

/// Going back by some days, and then by some more, is going back by all of them.
pub proof fn law_going_back_adds_up(d: Date, a: int, b: int, mid: Date, earlier: Date)
    requires
        mid.is_date(),
        earlier.is_date(),
        d.days_before(a) == mid && mid.number() == d.number() - a,
        mid.days_before(b) == earlier && earlier.number() == mid.number() - b,
    ensures
        d.days_before(a + b) == earlier,
{
    law_days_before(d, a + b, earlier);
}

/// A day is within reach just where it is no earlier than the first of January of
/// the first year.
pub proof fn law_the_first_date_is_the_limit(d: Date, days: int, first: Date)
    requires
        first.year == FIRST_YEAR,
        first.month == 1,
        first.day == 1,
    ensures
        d.reaches(days) <==> d.number() - days >= first.number(),
{
}

/// Zeros in front make no difference to what digits stand for.
proof fn lemma_zeros(zeros: nat, digits: Seq<char>)
    ensures
        text::value_of(Seq::new(zeros, |i: int| '0') + digits) == text::value_of(digits),
    decreases zeros + digits.len(),
{
    let s = Seq::new(zeros, |i: int| '0') + digits;
    if digits.len() > 0 {
        assert(s.drop_last() =~= Seq::new(zeros, |i: int| '0') + digits.drop_last());
        lemma_zeros(zeros, digits.drop_last());
    } else if zeros > 0 {
        assert(s.drop_last() =~= Seq::new((zeros - 1) as nat, |i: int| '0') + digits);
        lemma_zeros((zeros - 1) as nat, digits);
    } else {
        assert(s =~= digits);
    }
}

/// What a padded number is: digits that stand for it, as many as are wanted, or
/// where it needs more just those.
pub proof fn law_padded_numbers(n: nat, width: nat)
    ensures
        text::value_of(padded(n, width)) == n,
        padded(n, width).len() >= width,
        padded(n, width).len() > width ==> padded(n, width) == text::decimal(n),
        forall|i: int|
            0 <= i < padded(n, width).len() ==> '0' <= #[trigger] padded(n, width)[i] <= '9',
{
    text::law_decimal(n);
    let digits = text::decimal(n);
    if digits.len() < width {
        lemma_zeros((width - digits.len()) as nat, digits);
    }
}

proof fn lemma_digits(n: nat, width: nat)
    requires
        (width == 2 && n < 100) || (width == 4 && n < 10000),
    ensures
        padded(n, width).len() == width,
{
    reveal_with_fuel(text::decimal, 5);
}

/// How a date of a year in four digits is written: four digits for the year, two
/// for the month and two for the day, with a hyphen in between.
pub proof fn law_dates_are_written_in_ten_characters(d: Date)
    requires
        d.is_date(),
        0 <= d.year <= 9999,
    ensures
        d.text().len() == 10,
        d.text()[4] == '-',
        d.text()[7] == '-',
        text::value_of(d.text().subrange(0, 4)) == d.year,
        text::value_of(d.text().subrange(5, 7)) == d.month,
        text::value_of(d.text().subrange(8, 10)) == d.day,
{
    lemma_digits(d.year as nat, 4);
    lemma_digits(d.month as nat, 2);
    lemma_digits(d.day as nat, 2);
    law_padded_numbers(d.year as nat, 4);
    law_padded_numbers(d.month as nat, 2);
    law_padded_numbers(d.day as nat, 2);
    assert(d.text().subrange(0, 4) =~= padded(d.year as nat, 4));
    assert(d.text().subrange(5, 7) =~= padded(d.month as nat, 2));
    assert(d.text().subrange(8, 10) =~= padded(d.day as nat, 2));
}

/// A year beyond four digits is written behind a plus, and one before the year 0
/// behind a minus.
pub proof fn law_years_beyond_four_digits_have_a_sign(year: int)
    ensures
        year > 9999 ==> year_text(year)[0] == '+' && text::value_of(year_text(year).skip(1))
            == year,
        year < 0 ==> year_text(year)[0] == '-' && text::value_of(year_text(year).skip(1)) == -year,
        0 <= year <= 9999 ==> year_text(year).len() == 4 && text::value_of(year_text(year))
            == year,
        year < 0 || year > 9999 ==> year_text(year).len() >= 5,
{
    if year < 0 {
        law_padded_numbers((-year) as nat, 4);
        assert(year_text(year).skip(1) =~= padded((-year) as nat, 4));
    } else {
        law_padded_numbers(year as nat, 4);
        if year > 9999 {
            assert(year_text(year).skip(1) =~= padded(year as nat, 4));
        } else {
            lemma_digits(year as nat, 4);
        }
    }
}

} // verus!
