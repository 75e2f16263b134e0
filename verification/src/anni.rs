//! Anniversary records: reading one from a line of text, and finding its next
//! occurrence as seen from a given day.

use crate::date::{
    add_months, days_between, is_date_shaped, is_leap_year, lemma_text_is_a_token,
    lemma_text_shape, parse_from_str, token_date, with_year, years_since, Date, Ymd, MAX_YEAR,
};
use crate::text::{
    has_white_space, is_blank, is_blank_str, is_white_space, split_once_white_space,
};
use vstd::prelude::*;
use vstd::string::StringExecFns;

verus! {

/// Why a line is not an anniversary record.
#[derive(Clone, Copy, Debug, PartialEq, Eq, Structural)]
pub enum ParseFailure {
    /// The line holds no white space.
    MissingSeparator,
    /// Nothing stands before the first white-space character.
    EmptyDate,
    /// Nothing but white space stands after the first white-space character.
    EmptyDescription,
    /// The text before the first white-space character is not a date.
    MalformedDate,
}

impl ParseFailure {
    /// The words that name this failure.
    pub open spec fn message_text(self) -> Seq<char> {
        match self {
            ParseFailure::MissingSeparator => "No space separator"@,
            ParseFailure::EmptyDate => "Empty date"@,
            ParseFailure::EmptyDescription => "Empty description"@,
            ParseFailure::MalformedDate => "parse error"@,
        }
    }
}

/// The error of reading an anniversary record.
#[derive(Clone, Copy, Debug, PartialEq, Eq, Structural)]
pub struct DiaryErr(pub ParseFailure);

impl DiaryErr {
    /// The words that name the failure.
    pub fn message(&self) -> (r: &'static str)
        ensures
            r@ == self.0.message_text(),
    {
        match self.0 {
            ParseFailure::MissingSeparator => "No space separator",
            ParseFailure::EmptyDate => "Empty date",
            ParseFailure::EmptyDescription => "Empty description",
            ParseFailure::MalformedDate => "parse error",
        }
    }

    /// The error as a sentence.
    pub fn to_text(&self) -> (r: String)
        ensures
            r@ == "Invalid anniversary definition: "@ + self.0.message_text(),
    {
        String::from_str("Invalid anniversary definition: ").concat(self.message())
    }
}

impl From<chrono::ParseError> for DiaryErr {
    fn from(_e: chrono::ParseError) -> (r: DiaryErr) {
        DiaryErr(ParseFailure::MalformedDate)
    }
}

impl vstd::std_specs::convert::FromSpecImpl<chrono::ParseError> for DiaryErr {
    open spec fn obeys_from_spec() -> bool {
        true
    }

    open spec fn from_spec(_e: chrono::ParseError) -> DiaryErr {
        DiaryErr(ParseFailure::MalformedDate)
    }
}

/// The model of an [`Anniversary`].
pub struct Record {
    pub date: Ymd,
    pub description: Seq<char>,
}

/// Represents an anniversary: the date and its description.
#[derive(Debug)]
pub struct Anniversary {
    pub date: Date,
    pub description: String,
}

impl View for Anniversary {
    type V = Record;

    open spec fn view(&self) -> Record {
        Record { date: self.date@, description: self.description@ }
    }
}

/// Which anniversary comes next, and in how many days.
#[derive(Debug, PartialEq, Eq, Structural)]
pub struct AnnoDiff {
    pub which_anni: u32,
    pub days_till: u32,
}

/// Whether the first white-space character of `s` stands at index `i`.
pub open spec fn is_first_white_space(s: Seq<char>, i: int) -> bool {
    &&& 0 <= i < s.len()
    &&& is_white_space(s[i])
    &&& forall|j: int| 0 <= j < i ==> !is_white_space(#[trigger] s[j])
}

/// The index of the first white-space character of a text that has one.
pub open spec fn first_white_space(s: Seq<char>) -> int {
    choose|i: int| is_first_white_space(s, i)
}

/// What a line of text says: the record it holds, or why it holds none.
/// The date is what stands before the first white-space character, the
/// description all that stands after it.
pub open spec fn spec_parse(s: Seq<char>) -> Result<Record, ParseFailure> {
    if !has_white_space(s) {
        Err(ParseFailure::MissingSeparator)
    } else {
        let at = first_white_space(s);
        let head = s.subrange(0, at);
        let tail = s.subrange(at + 1, s.len() as int);
        if is_blank(head) {
            Err(ParseFailure::EmptyDate)
        } else if is_blank(tail) {
            Err(ParseFailure::EmptyDescription)
        } else {
            spec_from_parsed(token_date(head), tail)
        }
    }
}

/// The record of a date token as it was read, and a description.
pub open spec fn spec_from_parsed(date: Option<Ymd>, description: Seq<char>) -> Result<
    Record,
    ParseFailure,
> {
    match date {
        Some(d) => Ok(Record { date: d, description }),
        None => Err(ParseFailure::MalformedDate),
    }
}

/// The anniversary that comes next as seen from `current`, and the days until
/// it: the number of whole years gone by since `date`, counting one more
/// unless `current` is a later return of the anniversary's day, and the
/// distance to that day in this year or, where it has passed, twelve months
/// later. On the first day itself the number is 1 and no days remain. `None`
/// where `current` is earlier than `date`, or a date needed does not exist.
pub open spec fn spec_anni_diff(date: Ymd, current: Ymd) -> Option<(int, int)> {
    let this_year = date.with_year(current.year);
    if current.before(date) || this_year is None {
        None
    } else {
        let candidate = this_year->0;
        let years = current.year - date.year - if current.month_day_before(date) {
            1int
        } else {
            0int
        };
        let next = if candidate.before(current) {
            candidate.add_months(12)
        } else {
            Some(candidate)
        };
        match next {
            Some(n) => Some(
                (
                    years + if candidate == current && current != date {
                        0int
                    } else {
                        1int
                    },
                    n.day_number() - current.day_number(),
                ),
            ),
            None => None,
        }
    }
}

/// A text made of a part without white space, one white-space character and
/// a second part is cut at that character.
pub proof fn lemma_first_white_space(s: Seq<char>, head: Seq<char>, c: char, tail: Seq<char>)
    requires
        s == head + seq![c] + tail,
        is_white_space(c),
        !has_white_space(head),
    ensures
        has_white_space(s),
        first_white_space(s) == head.len(),
        s.subrange(0, first_white_space(s)) == head,
        s.subrange(first_white_space(s) + 1, s.len() as int) == tail,
{
    let at = head.len() as int;
    assert(s[at] == c);
    assert forall|j: int| 0 <= j < at implies !is_white_space(#[trigger] s[j]) by {
        assert(s[j] == head[j]);
    }
    assert(is_first_white_space(s, at));
    let chosen = first_white_space(s);
    assert(is_first_white_space(s, chosen));
    if chosen < at {
        assert(s[chosen] == head[chosen]);
    }
    assert(chosen == at);
    assert(s.subrange(0, at) =~= head);
    assert(s.subrange(at + 1, s.len() as int) =~= tail);
}

/// A date token and a description that are joined by one white-space
/// character are read back as they were: where the token is not empty and
/// holds no white space, and the description is not blank, the joined line
/// gives the date of the token, and the description letter for letter.
pub proof fn lemma_parse_joined(token: Seq<char>, c: char, description: Seq<char>)
    requires
        is_white_space(c),
        !has_white_space(token),
        token.len() > 0,
        !is_blank(description),
    ensures
        spec_parse(token + seq![c] + description) == spec_from_parsed(
            token_date(token),
            description,
        ),
{
    assert(!is_white_space(token[0]));
    lemma_first_white_space(token + seq![c] + description, token, c, description);
}

/// A line that holds a record is its date token, one white-space character
/// and its description.
pub proof fn lemma_parse_splits(s: Seq<char>)
    requires
        spec_parse(s) is Ok,
    ensures
        ({
            let at = first_white_space(s);
            let token = s.subrange(0, at);
            let record = spec_parse(s)->Ok_0;
            &&& 0 <= at < s.len()
            &&& is_white_space(s[at])
            &&& s == token + seq![s[at]] + record.description
            &&& !has_white_space(token)
            &&& token_date(token) == Some(record.date)
            &&& !is_blank(record.description)
        }),
{
    let i = choose|i: int| 0 <= i < s.len() && is_white_space(#[trigger] s[i]);
    lemma_has_first_white_space(s, i);
    let at = first_white_space(s);
    let token = s.subrange(0, at);
    let tail = s.subrange(at + 1, s.len() as int);
    assert(s =~= token + seq![s[at]] + tail);
    if has_white_space(token) {
        let j = choose|j: int| 0 <= j < token.len() && is_white_space(#[trigger] token[j]);
        assert(token[j] == s[j]);
    }
}

/// A text with a white-space character at `i` has a first one.
proof fn lemma_has_first_white_space(s: Seq<char>, i: int)
    requires
        0 <= i < s.len(),
        is_white_space(s[i]),
    ensures
        is_first_white_space(s, first_white_space(s)),
    decreases i,
{
    if exists|j: int| 0 <= j < i && is_white_space(#[trigger] s[j]) {
        let j = choose|j: int| 0 <= j < i && is_white_space(#[trigger] s[j]);
        lemma_has_first_white_space(s, j);
    } else {
        assert(is_first_white_space(s, i));
    }
}

/// No anniversary is counted before its first day.
pub proof fn lemma_none_before(date: Ymd, current: Ymd)
    requires
        current.before(date),
    ensures
        spec_anni_diff(date, current) is None,
{
}

/// Exactly when there is no result: the day asked from is before the first
/// day, or the anniversary is a 29th of February and the year asked from has
/// none, or the next occurrence would fall past the last year.
pub proof fn lemma_none_exactly(date: Ymd, current: Ymd)
    requires
        date.valid(),
        current.valid(),
    ensures
        spec_anni_diff(date, current) is None <==> {
            ||| current.before(date)
            ||| (date.month == 2 && date.day == 29 && !is_leap_year(current.year))
            ||| (date.month_day_before(current) && current.year == MAX_YEAR)
        },
{
}

/// The days that remain are never negative and never more than a year, and
/// the number of the anniversary is at least 1.
pub proof fn lemma_result_bounds(date: Ymd, current: Ymd)
    requires
        date.valid(),
        current.valid(),
    ensures
        match spec_anni_diff(date, current) {
            Some((which, days)) => {
                &&& 0 <= days <= 365
                &&& 1 <= which <= current.year - date.year + 1
            },
            None => true,
        },
{
}

/// On the anniversary's own day of the year nothing remains. The number is
/// that of the years gone by, and 1 on the first day itself.
pub proof fn lemma_on_the_day(date: Ymd, current: Ymd)
    requires
        date.valid(),
        current.valid(),
        !current.before(date),
        current.month == date.month,
        current.day == date.day,
    ensures
        spec_anni_diff(date, current) == Some(
            (
                if current == date {
                    1int
                } else {
                    current.year - date.year
                },
                0int,
            ),
        ),
{
}

/// The day of `date`'s month and day in `year`.
pub open spec fn occurrence_in(date: Ymd, year: int) -> Ymd {
    Ymd { year, month: date.month, day: date.day }
}

/// The year of the earliest return of `date`'s month and day that is not
/// before `current`.
pub open spec fn next_occurrence_year(date: Ymd, current: Ymd) -> int {
    if date.month_day_before(current) {
        current.year + 1
    } else {
        current.year
    }
}

/// Seen from a day after the first day, and for an anniversary that is not a
/// 29th of February, the result counts down to the earliest day of that month
/// and day that is not before the day asked from: the number is that day's
/// year less the first year, and the days are the distance to it. There is
/// no result where that day lies past the last year.
pub proof fn lemma_next_occurrence(date: Ymd, current: Ymd)
    requires
        date.valid(),
        current.valid(),
        date.before(current),
        !(date.month == 2 && date.day == 29),
    ensures
        ({
            let year = next_occurrence_year(date, current);
            let next = occurrence_in(date, year);
            &&& !next.before(current)
            &&& forall|y: int| !(#[trigger] occurrence_in(date, y)).before(current) ==> year <= y
            &&& spec_anni_diff(date, current) == if year > MAX_YEAR {
                None
            } else {
                Some((year - date.year, next.day_number() - current.day_number()))
            }
        }),
{
}

impl Anniversary {
    /// An anniversary with the given date and description.
    pub fn from(d: Date, s: String) -> (r: Anniversary)
        ensures
            r.date == d,
            r.description == s,
    {
        Anniversary { date: d, description: s }
    }

    /// Whether the description says something.
    pub open spec fn wf(&self) -> bool {
        !is_blank(self.description@)
    }

    /// The record of a date token as `chrono` read it, and a description.
    pub fn from_parsed(parsed: Result<Date, chrono::ParseError>, description: &str) -> (r: Result<
        Anniversary,
        DiaryErr,
    >)
        ensures
            match (parsed, r) {
                (Ok(d), Ok(a)) => a.date == d && a.description@ == description@,
                (Err(_), Err(e)) => e == DiaryErr(ParseFailure::MalformedDate),
                _ => false,
            },
    {
        match parsed {
            Ok(d) => Ok(Anniversary::from(d, description.to_owned())),
            Err(e) => Err(DiaryErr::from(e)),
        }
    }

    /// The anniversary in words.
    pub fn to_text(&self) -> (r: String)
        ensures
            r@ == "Anniversary date: "@ + self.date@.text() + " description: "@
                + self.description@,
    {
        let date = self.date.to_text();
        let mut r = String::from_str("Anniversary date: ");
        r.append(date.as_str());
        r.append(" description: ");
        r.append(self.description.as_str());
        r
    }

    /// The line that holds this record: the date as text, one space, and the
    /// description. Read again, the line gives this record back, where the
    /// description is not blank and the year has four digits.
    pub fn to_record(&self) -> (r: String)
        ensures
            r@ == self.date@.text() + seq![' '] + self.description@,
            spec_parse(r@) == if !self.wf() {
                Err::<Record, ParseFailure>(ParseFailure::EmptyDescription)
            } else if 0 <= self.date@.year <= 9999 {
                Ok::<Record, ParseFailure>(self@)
            } else {
                Err::<Record, ParseFailure>(ParseFailure::MalformedDate)
            },
    {
        let mut r = self.date.to_text();
        proof {
            reveal_strlit(" ");
            assert(" "@ =~= seq![' ']);
            let token = self.date@.text();
            lemma_text_is_a_token(self.date@);
            lemma_text_shape(self.date@);
            lemma_first_white_space(
                token + seq![' '] + self.description@,
                token,
                ' ',
                self.description@,
            );
        }
        r.append(" ");
        r.append(self.description.as_str());
        r
    }

    /// Reads a record: a date of four, two and two digits with hyphens
    /// between them, one white-space character, and a description.
    pub fn try_from(value: &str) -> (r: Result<Anniversary, DiaryErr>)
        ensures
            match r {
                Ok(a) => spec_parse(value@) == Ok::<Record, ParseFailure>(a@) && a.wf(),
                Err(e) => spec_parse(value@) == Err::<Record, ParseFailure>(e.0),
            },
    {
        match split_once_white_space(value) {
            None => Err(DiaryErr(ParseFailure::MissingSeparator)),
            Some((date, desc)) => {
                proof {
                    let c = choose|c: char|
                        is_white_space(c) && value@ == date@ + seq![c] + desc@;
                    lemma_first_white_space(value@, date@, c, desc@);
                }
                if is_blank_str(date) {
                    Err(DiaryErr(ParseFailure::EmptyDate))
                } else if is_blank_str(desc) {
                    Err(DiaryErr(ParseFailure::EmptyDescription))
                } else if !is_date_shaped(date) {
                    Err(DiaryErr(ParseFailure::MalformedDate))
                } else {
                    Anniversary::from_parsed(parse_from_str(date, "%Y-%m-%d"), desc)
                }
            },
        }
    }

    /// Calculates which anniversary is ahead of the `current` date, and how
    /// many days are left until it.
    pub fn anni_diff(&self, current: Date) -> (r: Option<AnnoDiff>)
        ensures
            match r {
                Some(d) => spec_anni_diff(self.date@, current@) == Some(
                    (d.which_anni as int, d.days_till as int),
                ),
                None => spec_anni_diff(self.date@, current@) is None,
            },
            current@.before(self.date@) ==> r is None,
            r matches Some(d) ==> d.which_anni >= 1 && d.days_till <= 365,
    {
        if current.is_before(&self.date) {
            return None;
        }
        let candidate = match with_year(self.date, current.year()) {
            Some(c) => c,
            None => { return None; },
        };
        let years: u32 = match years_since(current, self.date) {
            Some(y) => y,
            None => { return None; },
        };
        let extra: u32 = if candidate.same_day(&current) && !current.same_day(&self.date) {
            0
        } else {
            1
        };
        let next = if candidate.is_before(&current) {
            match add_months(candidate, 12) {
                Some(n) => n,
                None => { return None; },
            }
        } else {
            candidate
        };
        let days: i64 = days_between(next, current);
        proof {
            lemma_result_bounds(self.date@, current@);
        }
        Some(AnnoDiff { which_anni: years + extra, days_till: days as u32 })
    }
}

} // verus!
