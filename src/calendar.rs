//! Calendar dates and the layouts statements write them in.
use chrono::Datelike;
use vstd::prelude::*;

verus! {

/// A calendar date.
#[derive(Clone, Copy, Debug, PartialEq, Eq, Structural)]
pub struct Date {
    pub year: i32,
    pub month: u32,
    pub day: u32,
}

/// How a statement writes its dates.
#[derive(Clone, Copy, Debug, PartialEq, Eq, Structural)]
pub enum DateLayout {
    /// `YYYY-MM-DD`
    YearMonthDay,
    /// `MM/DD/YYYY`
    MonthDayYear,
}

impl DateLayout {
    /// The chrono format string of the layout.
    pub open spec fn pattern_view(self) -> Seq<char> {
        match self {
            DateLayout::YearMonthDay => "%Y-%m-%d"@,
            DateLayout::MonthDayYear => "%m/%d/%Y"@,
        }
    }

    pub fn pattern(self) -> (r: &'static str)
        ensures
            r@ == self.pattern_view(),
    {
        match self {
            DateLayout::YearMonthDay => "%Y-%m-%d",
            DateLayout::MonthDayYear => "%m/%d/%Y",
        }
    }
}

impl Date {
    /// Month within 1..=12 and day within 1..=31.
    pub open spec fn wf(self) -> bool {
        1 <= self.month <= 12 && 1 <= self.day <= 31
    }

    /// `self` falls strictly before `other`.
    pub open spec fn before(self, other: Date) -> bool {
        ||| self.year < other.year
        ||| (self.year == other.year && self.month < other.month)
        ||| (self.year == other.year && self.month == other.month && self.day < other.day)
    }

    pub fn is_before(&self, other: &Date) -> (r: bool)
        ensures
            r == self.before(*other),
    {
        self.year < other.year || (self.year == other.year && self.month < other.month) || (
        self.year == other.year && self.month == other.month && self.day < other.day)
    }
}

/// What chrono reads from a text under a format string, as `(year, month, day)`.
pub uninterp spec fn date_of_text(text: Seq<char>, format: Seq<char>) -> Option<(int, int, int)>;

/// Relies on chrono's `NaiveDate::parse_from_str`, read back with
/// `Datelike::year`, `month` (1..=12) and `day` (1..=31).
#[verifier::external_body]
fn chrono_parse_date(text: &str, format: &str) -> (r: Option<Date>)
    ensures
        r.is_some() == date_of_text(text@, format@).is_some(),
        r matches Some(d) ==> {
            &&& d.wf()
            &&& date_of_text(text@, format@) == Some((d.year as int, d.month as int, d.day as int))
        },
{
    match chrono::NaiveDate::parse_from_str(text, format) {
        Ok(d) => Some(Date { year: d.year(), month: d.month(), day: d.day() }),
        Err(_) => None,
    }
}

/// The date that `text` reads as under `layout`, if any.
pub open spec fn date_in_layout(text: Seq<char>, layout: DateLayout) -> Option<(int, int, int)> {
    date_of_text(text, layout.pattern_view())
}

/// Reads a date written in `layout`.
pub fn parse_date(text: &str, layout: DateLayout) -> (r: Option<Date>)
    ensures
        r.is_some() == date_in_layout(text@, layout).is_some(),
        r matches Some(d) ==> {
            &&& d.wf()
            &&& date_in_layout(text@, layout) == Some((d.year as int, d.month as int, d.day as int))
        },
{
    chrono_parse_date(text, layout.pattern())
}

} // verus!
