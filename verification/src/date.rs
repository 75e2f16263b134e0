//! Calendar dates of the proleptic Gregorian calendar, and the date arithmetic
//! that is delegated to `chrono`.
//!
//! A [`Date`] holds a year, a month and a day that exist together, in the
//! years that `chrono::NaiveDate` holds too, so a `Date` can always be handed
//! to `chrono` as a `NaiveDate`. What `chrono` computes is stated over
//! [`Ymd`], the mathematical model of a date.

use crate::text::{decimal, digit, has_white_space, is_blank, is_white_space, two_digits};
use vstd::string::StrSliceExecFns;
use chrono::Datelike;
use vstd::prelude::*;

verus! {

/// The earliest year a date can have.
pub const MIN_YEAR: i32 = -262143;

/// The latest year a date can have.
pub const MAX_YEAR: i32 = 262142;

/// A year, a month and a day as mathematical integers: the model of a [`Date`].
pub struct Ymd {
    pub year: int,
    pub month: int,
    pub day: int,
}

/// Whether `year` has a 29th of February.
pub open spec fn is_leap_year(year: int) -> bool {
    year % 4 == 0 && (year % 100 != 0 || year % 400 == 0)
}

/// The number of days of month `month` (1 to 12) in `year`.
pub open spec fn days_in_month(year: int, month: int) -> int {
    if month == 2 {
        if is_leap_year(year) {
            29
        } else {
            28
        }
    } else if month == 4 || month == 6 || month == 9 || month == 11 {
        30
    } else {
        31
    }
}

/// The number of days of `year` that lie before the first of month `month` (1 to 12).
pub open spec fn days_before_month(year: int, month: int) -> int {
    let leap: int = if month > 2 && is_leap_year(year) {
        1
    } else {
        0
    };
    let base: int = if month <= 1 {
        0
    } else if month == 2 {
        31
    } else if month == 3 {
        59
    } else if month == 4 {
        90
    } else if month == 5 {
        120
    } else if month == 6 {
        151
    } else if month == 7 {
        181
    } else if month == 8 {
        212
    } else if month == 9 {
        243
    } else if month == 10 {
        273
    } else if month == 11 {
        304
    } else {
        334
    };
    base + leap
}

/// The number of days from the first of January of year 1 up to, and not
/// including, the first of January of `year` (negative before year 1).
pub open spec fn days_before_year(year: int) -> int {
    let y = year - 1;
    365 * y + y / 4 - y / 100 + y / 400
}

/// A year as text: four digits from 0 to 9999; otherwise a sign and at least
/// four digits.
pub open spec fn year_text(year: int) -> Seq<char> {
    let n = if year < 0 {
        -year
    } else {
        year
    };
    let sign = if year < 0 {
        seq!['-']
    } else if year > 9999 {
        seq!['+']
    } else {
        Seq::<char>::empty()
    };
    let digits = if n <= 9999 {
        two_digits(n / 100) + two_digits(n % 100)
    } else {
        decimal(n)
    };
    sign + digits
}

/// Whether `c` is one of the ten decimal digits.
pub open spec fn is_digit(c: char) -> bool {
    0x30 <= c as u32 <= 0x39
}

/// Whether the character at index `k` of a ten-character text fits a date:
/// a hyphen after the year and after the month, and a digit elsewhere.
pub open spec fn shaped_at(s: Seq<char>, k: int) -> bool {
    if k == 4 || k == 7 {
        s[k] == '-'
    } else {
        is_digit(s[k])
    }
}

/// Whether `s` has the fixed shape of a date: four digits, a hyphen, two
/// digits, a hyphen and two digits.
pub open spec fn date_shaped(s: Seq<char>) -> bool {
    s.len() == 10 && forall|k: int| 0 <= k < 10 ==> #[trigger] shaped_at(s, k)
}

/// The date that a token gives: what `chrono` reads from it, where it has the
/// fixed shape of a date.
pub open spec fn token_date(token: Seq<char>) -> Option<Ymd> {
    if date_shaped(token) {
        chrono_ymd(token, date_format())
    } else {
        None
    }
}

/// The format of a date in text: year, month and day, with a hyphen between
/// them.
pub open spec fn date_format() -> Seq<char> {
    "%Y-%m-%d"@
}

impl Ymd {
    /// The date as text: the year, a hyphen, the month in two digits, a
    /// hyphen, and the day in two digits.
    pub open spec fn text(self) -> Seq<char> {
        year_text(self.year) + seq!['-'] + two_digits(self.month) + seq!['-'] + two_digits(
            self.day,
        )
    }

    /// Whether the three numbers name a day that exists, in a year that a
    /// [`Date`] can hold.
    pub open spec fn valid(self) -> bool {
        &&& MIN_YEAR <= self.year <= MAX_YEAR
        &&& 1 <= self.month <= 12
        &&& 1 <= self.day <= days_in_month(self.year, self.month)
    }

    /// Whether this date's month and day come before `other`'s within a year.
    pub open spec fn month_day_before(self, other: Ymd) -> bool {
        self.month < other.month || (self.month == other.month && self.day < other.day)
    }

    /// Whether this date is strictly earlier than `other`.
    pub open spec fn before(self, other: Ymd) -> bool {
        self.year < other.year || (self.year == other.year && self.month_day_before(other))
    }

    /// The running number of this day, where 0001-01-01 is day 1.
    pub open spec fn day_number(self) -> int {
        days_before_year(self.year) + days_before_month(self.year, self.month) + self.day
    }

    /// These numbers, where they name a day that exists.
    pub open spec fn checked(self) -> Option<Ymd> {
        if self.valid() {
            Some(self)
        } else {
            None
        }
    }

    /// The same month and day in `year`, where that day exists.
    pub open spec fn with_year(self, year: int) -> Option<Ymd> {
        (Ymd { year, month: self.month, day: self.day }).checked()
    }

    /// The number of whole years from `base` up to this date; `None` where
    /// `base` is the later of the two.
    pub open spec fn years_since(self, base: Ymd) -> Option<int> {
        let years = self.year - base.year - if self.month_day_before(base) {
            1int
        } else {
            0int
        };
        if years >= 0 {
            Some(years)
        } else {
            None
        }
    }

    /// This date `months` months later. A day that the target month lacks
    /// becomes that month's last day; `None` where the year leaves the range.
    pub open spec fn add_months(self, months: int) -> Option<Ymd> {
        let total = self.year * 12 + (self.month - 1) + months;
        let year = total / 12;
        let month = total % 12 + 1;
        let last = days_in_month(year, month);
        if year > MAX_YEAR {
            None
        } else {
            Some(
                Ymd {
                    year,
                    month,
                    day: if self.day > last {
                        last
                    } else {
                        self.day
                    },
                },
            )
        }
    }
}

/// Whether no character of `s` is white space.
spec fn has_no_white_space(s: Seq<char>) -> bool {
    forall|i: int| 0 <= i < s.len() ==> !is_white_space(#[trigger] s[i])
}

proof fn lemma_joined_has_no_white_space(a: Seq<char>, b: Seq<char>)
    requires
        has_no_white_space(a),
        has_no_white_space(b),
    ensures
        has_no_white_space(a + b),
{
    assert forall|i: int| 0 <= i < (a + b).len() implies !is_white_space(#[trigger] (a + b)[i]) by {
        if i < a.len() {
            assert((a + b)[i] == a[i]);
        } else {
            assert((a + b)[i] == b[i - a.len()]);
        }
    }
}

proof fn lemma_decimal_has_no_white_space(n: int)
    ensures
        has_no_white_space(decimal(n)),
    decreases n,
{
    if n >= 10 {
        lemma_decimal_has_no_white_space(n / 10);
        lemma_joined_has_no_white_space(decimal(n / 10), seq![digit(n % 10)]);
        assert(decimal(n) =~= decimal(n / 10) + seq![digit(n % 10)]);
    }
}

/// The text of a date holds no white space and is not empty.
pub proof fn lemma_text_is_a_token(d: Ymd)
    ensures
        !has_white_space(d.text()),
        !is_blank(d.text()),
{
    let n = if d.year < 0 {
        -d.year
    } else {
        d.year
    };
    lemma_decimal_has_no_white_space(n);
    let year = year_text(d.year);
    assert(has_no_white_space(year)) by {
        let sign = if d.year < 0 {
            seq!['-']
        } else if d.year > 9999 {
            seq!['+']
        } else {
            Seq::<char>::empty()
        };
        lemma_joined_has_no_white_space(two_digits(n / 100), two_digits(n % 100));
        if n <= 9999 {
            lemma_joined_has_no_white_space(sign, two_digits(n / 100) + two_digits(n % 100));
        } else {
            lemma_joined_has_no_white_space(sign, decimal(n));
        }
    }
    assert(year.len() >= 4) by {
        lemma_decimal_length(n);
    }
    lemma_joined_has_no_white_space(year, seq!['-']);
    lemma_joined_has_no_white_space(year + seq!['-'], two_digits(d.month));
    lemma_joined_has_no_white_space(year + seq!['-'] + two_digits(d.month), seq!['-']);
    lemma_joined_has_no_white_space(
        year + seq!['-'] + two_digits(d.month) + seq!['-'],
        two_digits(d.day),
    );
    let text = d.text();
    assert(!is_white_space(text[text.len() - 1]));
}

/// The text of a date has the fixed shape exactly where its year has four
/// digits and no sign.
pub proof fn lemma_text_shape(d: Ymd)
    requires
        d.valid(),
    ensures
        date_shaped(d.text()) <==> 0 <= d.year <= 9999,
{
    let text = d.text();
    let y = d.year;
    if 0 <= y <= 9999 {
        let digits = seq![
            digit(y / 100 / 10),
            digit(y / 100 % 10),
            digit(y % 100 / 10),
            digit(y % 100 % 10),
            '-',
            digit(d.month / 10),
            digit(d.month % 10),
            '-',
            digit(d.day / 10),
            digit(d.day % 10),
        ];
        assert(text =~= digits);
        assert forall|k: int| 0 <= k < 10 implies shaped_at(text, k) by {
            assert(text[k] == digits[k]);
        }
    } else {
        let year = year_text(y);
        assert(year.len() >= 1);
        assert(text[0] == year[0]);
        assert(!shaped_at(text, 0));
    }
}

proof fn lemma_decimal_length(n: int)
    ensures
        decimal(n).len() >= 1,
        n >= 1000 ==> decimal(n).len() >= 4,
    decreases n,
{
    if n >= 10 {
        lemma_decimal_length(n / 10);
        if n >= 1000 {
            lemma_decimal_length(n / 100);
            assert(decimal(n / 10) == decimal(n / 10 / 10).push(digit(n / 10 % 10)));
            assert(n / 10 / 10 == n / 100);
            assert(decimal(n / 100) == decimal(n / 100 / 10).push(digit(n / 100 % 10)));
            assert(n / 100 / 10 == n / 1000);
            lemma_decimal_length(n / 1000);
        }
    }
}

/// The model of an optional date.
pub open spec fn view_opt(d: Option<Date>) -> Option<Ymd> {
    match d {
        Some(d) => Some(d@),
        None => None,
    }
}

/// A day of the calendar. Every value is a day that exists.
#[derive(Clone, Copy, Debug, PartialEq, Eq, Hash)]
pub struct Date {
    year: i32,
    month: u32,
    day: u32,
}

impl View for Date {
    type V = Ymd;

    closed spec fn view(&self) -> Ymd {
        Ymd { year: self.year as int, month: self.month as int, day: self.day as int }
    }
}

/// Whether `s` has the fixed shape of a date.
pub fn is_date_shaped(s: &str) -> (r: bool)
    ensures
        r == date_shaped(s@),
{
    if s.unicode_len() != 10 {
        return false;
    }
    let mut i: usize = 0;
    while i < 10
        invariant
            i <= 10,
            s@.len() == 10,
            forall|k: int| 0 <= k < i ==> #[trigger] shaped_at(s@, k),
        decreases 10 - i,
    {
        let c = s.get_char(i);
        let code: u32 = c as u32;
        let fits = if i == 4 || i == 7 {
            c == '-'
        } else {
            48 <= code && code <= 57
        };
        if !fits {
            assert(!shaped_at(s@, i as int));
            return false;
        }
        i += 1;
    }
    true
}

fn leap_year(year: i32) -> (r: bool)
    requires
        MIN_YEAR <= year <= MAX_YEAR,
    ensures
        r == is_leap_year(year as int),
{
    let shifted: u32 = (year + 400000) as u32;
    shifted % 4 == 0 && (shifted % 100 != 0 || shifted % 400 == 0)
}

fn month_length(year: i32, month: u32) -> (r: u32)
    requires
        MIN_YEAR <= year <= MAX_YEAR,
    ensures
        r == days_in_month(year as int, month as int),
{
    if month == 2 {
        if leap_year(year) {
            29
        } else {
            28
        }
    } else if month == 4 || month == 6 || month == 9 || month == 11 {
        30
    } else {
        31
    }
}

impl Date {
    #[verifier::type_invariant]
    spec fn wf(self) -> bool {
        self@.valid()
    }

    /// The date with the given year, month (1 to 12) and day of the month,
    /// if there is such a day.
    pub fn from_ymd_opt(year: i32, month: u32, day: u32) -> (r: Option<Date>)
        ensures
            view_opt(r) == (Ymd { year: year as int, month: month as int, day: day as int })
                .checked(),
    {
        if year < MIN_YEAR || year > MAX_YEAR || month < 1 || month > 12 || day < 1 {
            return None;
        }
        if day > month_length(year, month) {
            return None;
        }
        Some(Date { year, month, day })
    }

    /// The year.
    pub fn year(&self) -> (r: i32)
        ensures
            r == self@.year,
            self@.valid(),
    {
        proof {
            use_type_invariant(self);
        }
        self.year
    }

    /// The month, from 1 to 12.
    pub fn month(&self) -> (r: u32)
        ensures
            r == self@.month,
            self@.valid(),
    {
        proof {
            use_type_invariant(self);
        }
        self.month
    }

    /// The day of the month, from 1.
    pub fn day(&self) -> (r: u32)
        ensures
            r == self@.day,
            self@.valid(),
    {
        proof {
            use_type_invariant(self);
        }
        self.day
    }

    /// Whether this date is strictly earlier than `other`. Both are days that exist.
    pub fn is_before(&self, other: &Date) -> (r: bool)
        ensures
            r == self@.before(other@),
            self@.valid(),
            other@.valid(),
    {
        proof {
            use_type_invariant(self);
            use_type_invariant(other);
        }
        self.year < other.year || (self.year == other.year && (self.month < other.month || (
        self.month == other.month && self.day < other.day)))
    }

    /// The date as text, in the form that a record gives it in.
    pub fn to_text(&self) -> (r: String)
        ensures
            r@ == self@.text(),
            chrono_ymd(r@, date_format()) == Some(self@),
            self@.valid(),
    {
        proof {
            use_type_invariant(self);
        }
        date_to_string(*self)
    }

    /// Whether this date and `other` are the same day.
    pub fn same_day(&self, other: &Date) -> (r: bool)
        ensures
            r == (self@ == other@),
    {
        self.year == other.year && self.month == other.month && self.day == other.day
    }
}

/// `chrono::Datelike::with_year` on a `chrono::NaiveDate`: keeps month and day
/// and replaces the year. Trusted: the result is `None` exactly where the day
/// does not exist in `year` or `year` is out of range.
#[verifier::external_body]
pub(crate) fn with_year(d: Date, year: i32) -> (r: Option<Date>)
    ensures
        view_opt(r) == d@.with_year(year as int),
{
    let n = chrono::NaiveDate::from_ymd_opt(d.year, d.month, d.day).unwrap();
    match n.with_year(year) {
        Some(m) => Some(Date { year: m.year(), month: m.month(), day: m.day() }),
        None => None,
    }
}

/// `chrono::NaiveDate::years_since`. Trusted: the result is the difference of
/// the years, less one where `d`'s month and day come before `base`'s, and
/// `None` where that is negative.
#[verifier::external_body]
pub(crate) fn years_since(d: Date, base: Date) -> (r: Option<u32>)
    ensures
        match r {
            Some(y) => d@.years_since(base@) == Some(y as int),
            None => d@.years_since(base@) is None,
        },
{
    let n = chrono::NaiveDate::from_ymd_opt(d.year, d.month, d.day).unwrap();
    let b = chrono::NaiveDate::from_ymd_opt(base.year, base.month, base.day).unwrap();
    n.years_since(b)
}

/// `chrono::NaiveDate::checked_add_months` with `chrono::Months::new(months)`.
/// Trusted: the month count moves on by `months`, a day past the end of the
/// target month becomes its last day, and the result is `None` exactly where
/// the year would pass `MAX_YEAR`.
#[verifier::external_body]
pub(crate) fn add_months(d: Date, months: u32) -> (r: Option<Date>)
    ensures
        view_opt(r) == d@.add_months(months as int),
{
    let n = chrono::NaiveDate::from_ymd_opt(d.year, d.month, d.day).unwrap();
    match n.checked_add_months(chrono::Months::new(months)) {
        Some(m) => Some(Date { year: m.year(), month: m.month(), day: m.day() }),
        None => None,
    }
}

/// `chrono::NaiveDate::signed_duration_since`, read in whole days with
/// `chrono::TimeDelta::num_days`. Trusted: the result is the difference of the
/// two days' running numbers.
#[verifier::external_body]
pub(crate) fn days_between(later: Date, earlier: Date) -> (r: i64)
    ensures
        r == later@.day_number() - earlier@.day_number(),
{
    let a = chrono::NaiveDate::from_ymd_opt(later.year, later.month, later.day).unwrap();
    let b = chrono::NaiveDate::from_ymd_opt(earlier.year, earlier.month, earlier.day).unwrap();
    a.signed_duration_since(b).num_days()
}

/// `chrono`'s `Display` for `chrono::NaiveDate`, through `to_string`. Trusted:
/// the text is the year in four digits (with a sign and at least four digits
/// outside 0 to 9999), the month and the day in two digits each, with hyphens
/// between them; and `chrono::NaiveDate::parse_from_str` reads this text back
/// as the same date under the format `%Y-%m-%d`.
#[verifier::external_body]
pub(crate) fn date_to_string(d: Date) -> (r: String)
    ensures
        r@ == d@.text(),
        chrono_ymd(r@, date_format()) == Some(d@),
{
    chrono::NaiveDate::from_ymd_opt(d.year, d.month, d.day).unwrap().to_string()
}

/// The error of `chrono`'s parser.
#[verifier::external_type_specification]
#[verifier::external_body]
pub struct ExParseError(chrono::ParseError);

/// What `chrono::NaiveDate::parse_from_str` makes of the text `text` under the
/// format `format`: the date it reads, or `None` where it reports an error.
pub uninterp spec fn chrono_ymd(text: Seq<char>, format: Seq<char>) -> Option<Ymd>;

/// `chrono::NaiveDate::parse_from_str`. Trusted: the outcome depends on the
/// two texts alone, and is therefore given the name [`chrono_ymd`].
#[verifier::external_body]
pub(crate) fn parse_from_str(text: &str, format: &str) -> (r: Result<Date, chrono::ParseError>)
    ensures
        match r {
            Ok(d) => chrono_ymd(text@, format@) == Some(d@),
            Err(_) => chrono_ymd(text@, format@) is None,
        },
{
    match chrono::NaiveDate::parse_from_str(text, format) {
        Ok(m) => Ok(Date { year: m.year(), month: m.month(), day: m.day() }),
        Err(e) => Err(e),
    }
}

} // verus!
