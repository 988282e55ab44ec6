//! Statement sources, their raw rows, and the canonical transaction.
use crate::amount::{decimal_of_text, parse_amount, Amount};
use crate::calendar::{date_in_layout, parse_date, Date, DateLayout};
use vstd::prelude::*;

verus! {

/// Where a statement comes from; decides how its rows are read.
#[derive(Clone, Copy, Debug, PartialEq, Eq, Structural)]
pub enum StatementSource {
    Discover,
    Chase,
}

/// A source together with the date layout its export uses.
#[derive(Clone, Copy, Debug, PartialEq, Eq, Structural)]
pub struct StatementFormat {
    pub source: StatementSource,
    pub date_layout: DateLayout,
}

impl StatementFormat {
    /// A Discover export; both of its observed date layouts are accepted.
    pub fn discover(date_layout: DateLayout) -> (r: StatementFormat)
        ensures
            r.source == StatementSource::Discover,
            r.date_layout == date_layout,
    {
        StatementFormat { source: StatementSource::Discover, date_layout }
    }

    /// A Chase export, dated `MM/DD/YYYY`.
    pub fn chase() -> (r: StatementFormat)
        ensures
            r.source == StatementSource::Chase,
            r.date_layout == DateLayout::MonthDayYear,
    {
        StatementFormat { source: StatementSource::Chase, date_layout: DateLayout::MonthDayYear }
    }
}

/// Header names of a source's columns, in order.
pub open spec fn header_view(source: StatementSource) -> Seq<Seq<char>> {
    match source {
        StatementSource::Discover => seq!["Trans. Date"@, "Description"@, "Amount"@, "Category"@],
        StatementSource::Chase => seq![
            "Transaction Date"@,
            "Post Date"@,
            "Description"@,
            "Category"@,
            "Type"@,
            "Amount"@,
            "Memo"@,
        ],
    }
}

/// The header names of `source`, as the file must carry them.
pub fn expected_header(source: StatementSource) -> (r: Vec<String>)
    ensures
        r@.map_values(|s: String| s@) == header_view(source),
{
    let r = match source {
        StatementSource::Discover => vec![
            "Trans. Date".to_owned(),
            "Description".to_owned(),
            "Amount".to_owned(),
            "Category".to_owned(),
        ],
        StatementSource::Chase => vec![
            "Transaction Date".to_owned(),
            "Post Date".to_owned(),
            "Description".to_owned(),
            "Category".to_owned(),
            "Type".to_owned(),
            "Amount".to_owned(),
            "Memo".to_owned(),
        ],
    };
    assert(r@.map_values(|s: String| s@) =~= header_view(source));
    r
}

/// A Discover row: `Trans. Date,Description,Amount,Category`.
#[derive(Clone, Debug)]
pub struct DiscoverRecord {
    pub trans_date: String,
    pub description: String,
    pub amount: String,
    pub category: String,
}

/// A Chase row: `Transaction Date,Post Date,Description,Category,Type,Amount,Memo`.
#[derive(Clone, Debug)]
pub struct ChaseRecord {
    pub trans_date: String,
    pub post_date: String,
    pub description: String,
    pub category: String,
    pub trans_type: String,
    pub amount: String,
    pub memo: String,
}

/// One row of a statement, typed by its source.
#[derive(Clone, Debug)]
pub enum RawRecord {
    Discover(DiscoverRecord),
    Chase(ChaseRecord),
}

impl RawRecord {
    pub open spec fn source_view(&self) -> StatementSource {
        match self {
            RawRecord::Discover(_) => StatementSource::Discover,
            RawRecord::Chase(_) => StatementSource::Chase,
        }
    }

    /// The row's fields in column order.
    pub open spec fn fields_view(&self) -> Seq<Seq<char>> {
        match self {
            RawRecord::Discover(r) => seq![r.trans_date@, r.description@, r.amount@, r.category@],
            RawRecord::Chase(r) => seq![
                r.trans_date@,
                r.post_date@,
                r.description@,
                r.category@,
                r.trans_type@,
                r.amount@,
                r.memo@,
            ],
        }
    }

    pub open spec fn date_text(&self) -> Seq<char> {
        match self {
            RawRecord::Discover(r) => r.trans_date@,
            RawRecord::Chase(r) => r.trans_date@,
        }
    }

    pub open spec fn description_text(&self) -> Seq<char> {
        match self {
            RawRecord::Discover(r) => r.description@,
            RawRecord::Chase(r) => r.description@,
        }
    }

    pub open spec fn amount_text(&self) -> Seq<char> {
        match self {
            RawRecord::Discover(r) => r.amount@,
            RawRecord::Chase(r) => r.amount@,
        }
    }

    pub fn source(&self) -> (r: StatementSource)
        ensures
            r == self.source_view(),
    {
        match self {
            RawRecord::Discover(_) => StatementSource::Discover,
            RawRecord::Chase(_) => StatementSource::Chase,
        }
    }

    /// Maps a row's fields onto the columns of `source`; `None` when the
    /// row does not have exactly one field per column.
    pub fn from_fields(source: StatementSource, fields: &Vec<String>) -> (r: Option<RawRecord>)
        ensures
            r.is_some() == (fields@.len() == header_view(source).len()),
            r matches Some(rec) ==> {
                &&& rec.source_view() == source
                &&& rec.fields_view() == fields@.map_values(|s: String| s@)
            },
    {
        match source {
            StatementSource::Discover => {
                if fields.len() != 4 {
                    return None;
                }
                let rec = RawRecord::Discover(
                    DiscoverRecord {
                        trans_date: fields[0].clone(),
                        description: fields[1].clone(),
                        amount: fields[2].clone(),
                        category: fields[3].clone(),
                    },
                );
                assert(rec.fields_view() =~= fields@.map_values(|s: String| s@));
                Some(rec)
            },
            StatementSource::Chase => {
                if fields.len() != 7 {
                    return None;
                }
                let rec = RawRecord::Chase(
                    ChaseRecord {
                        trans_date: fields[0].clone(),
                        post_date: fields[1].clone(),
                        description: fields[2].clone(),
                        category: fields[3].clone(),
                        trans_type: fields[4].clone(),
                        amount: fields[5].clone(),
                        memo: fields[6].clone(),
                    },
                );
                assert(rec.fields_view() =~= fields@.map_values(|s: String| s@));
                Some(rec)
            },
        }
    }
}

/// A normalized transaction, whatever its source.
#[derive(Clone, Debug)]
pub struct Transaction {
    pub amount: Amount,
    pub category: String,
    pub date: Date,
    pub description: String,
    pub memo: Option<String>,
    pub post_date: Option<Date>,
    pub source: StatementSource,
    pub transaction_type: Option<String>,
}

impl Transaction {
    /// The amount lies in the range of a parsed decimal.
    pub open spec fn wf(&self) -> bool {
        self.amount.in_decimal_range()
    }
}

/// A transaction with its texts as character sequences.
pub struct TransactionModel {
    pub amount: Amount,
    pub category: Seq<char>,
    pub date: Date,
    pub description: Seq<char>,
    pub memo: Option<Seq<char>>,
    pub post_date: Option<Date>,
    pub source: StatementSource,
    pub transaction_type: Option<Seq<char>>,
}

pub open spec fn text_view(o: Option<String>) -> Option<Seq<char>> {
    match o {
        Some(s) => Some(s@),
        None => None,
    }
}

impl View for Transaction {
    type V = TransactionModel;

    open spec fn view(&self) -> TransactionModel {
        TransactionModel {
            amount: self.amount,
            category: self.category@,
            date: self.date,
            description: self.description@,
            memo: text_view(self.memo),
            post_date: self.post_date,
            source: self.source,
            transaction_type: text_view(self.transaction_type),
        }
    }
}

/// Why one row could not become a transaction.
#[derive(Clone, Copy, Debug, PartialEq, Eq, Structural)]
pub enum RowErrorKind {
    /// The transaction date does not parse in the source's layout.
    InvalidDate,
    /// The post date does not parse in the source's layout.
    InvalidPostDate,
    /// The amount is not a decimal number.
    InvalidAmount,
    /// The row does not have one field per column.
    MissingField,
    /// The row could not be decoded as text.
    Unreadable,
}

pub open spec fn date_from(d: (int, int, int)) -> Date {
    Date { year: d.0 as i32, month: d.1 as u32, day: d.2 as u32 }
}

pub open spec fn amount_from(a: (int, int)) -> Amount {
    Amount { mantissa: a.0 as i128, scale: a.1 as u32 }
}

/// The transaction that a row of `source` with fields `f` becomes, or the
/// first field that fails: transaction date, then post date, then amount.
pub open spec fn normalized(source: StatementSource, f: Seq<Seq<char>>, layout: DateLayout) -> Result<
    TransactionModel,
    RowErrorKind,
> {
    if f.len() != header_view(source).len() {
        Err(RowErrorKind::MissingField)
    } else {
        match source {
            StatementSource::Discover => match date_in_layout(f[0], layout) {
                None => Err(RowErrorKind::InvalidDate),
                Some(d) => match decimal_of_text(f[2]) {
                    None => Err(RowErrorKind::InvalidAmount),
                    Some(a) => Ok(
                        TransactionModel {
                            amount: amount_from(a),
                            category: f[3],
                            date: date_from(d),
                            description: f[1],
                            memo: None,
                            post_date: None,
                            source,
                            transaction_type: None,
                        },
                    ),
                },
            },
            StatementSource::Chase => match date_in_layout(f[0], layout) {
                None => Err(RowErrorKind::InvalidDate),
                Some(d) => match date_in_layout(f[1], layout) {
                    None => Err(RowErrorKind::InvalidPostDate),
                    Some(p) => match decimal_of_text(f[5]) {
                        None => Err(RowErrorKind::InvalidAmount),
                        Some(a) => Ok(
                            TransactionModel {
                                amount: amount_from(a),
                                category: f[3],
                                date: date_from(d),
                                description: f[2],
                                memo: Some(f[6]),
                                post_date: Some(date_from(p)),
                                source,
                                transaction_type: Some(f[4]),
                            },
                        ),
                    },
                },
            },
        }
    }
}

pub open spec fn result_view(r: Result<Transaction, RowErrorKind>) -> Result<
    TransactionModel,
    RowErrorKind,
> {
    match r {
        Ok(t) => Ok(t@),
        Err(e) => Err(e),
    }
}

/// Turns one raw row into a transaction, dating it by `layout` and keeping
/// the amount's sign as written.
pub fn normalize(record: RawRecord, layout: DateLayout) -> (r: Result<Transaction, RowErrorKind>)
    ensures
        result_view(r) == normalized(record.source_view(), record.fields_view(), layout),
        r matches Ok(t) ==> {
            &&& date_in_layout(record.date_text(), layout) == Some(
                (t.date.year as int, t.date.month as int, t.date.day as int),
            )
            &&& t.description@ == record.description_text()
            &&& decimal_of_text(record.amount_text()) == Some(
                (t.amount.mantissa as int, t.amount.scale as int),
            )
            &&& t.source == record.source_view()
            &&& t.wf()
            &&& (record matches RawRecord::Chase(c) ==> t.post_date matches Some(p)
                && date_in_layout(c.post_date@, layout) == Some(
                (p.year as int, p.month as int, p.day as int),
            ))
        },
{
    let ghost f = record.fields_view();
    match record {
        RawRecord::Discover(rec) => {
            let date = match parse_date(rec.trans_date.as_str(), layout) {
                Some(d) => d,
                None => return Err(RowErrorKind::InvalidDate),
            };
            let amount = match parse_amount(rec.amount.as_str()) {
                Some(a) => a,
                None => return Err(RowErrorKind::InvalidAmount),
            };
            Ok(
                Transaction {
                    amount,
                    category: rec.category,
                    date,
                    description: rec.description,
                    memo: None,
                    post_date: None,
                    source: StatementSource::Discover,
                    transaction_type: None,
                },
            )
        },
        RawRecord::Chase(rec) => {
            let date = match parse_date(rec.trans_date.as_str(), layout) {
                Some(d) => d,
                None => return Err(RowErrorKind::InvalidDate),
            };
            let post_date = match parse_date(rec.post_date.as_str(), layout) {
                Some(d) => d,
                None => return Err(RowErrorKind::InvalidPostDate),
            };
            let amount = match parse_amount(rec.amount.as_str()) {
                Some(a) => a,
                None => return Err(RowErrorKind::InvalidAmount),
            };
            Ok(
                Transaction {
                    amount,
                    category: rec.category,
                    date,
                    description: rec.description,
                    memo: Some(rec.memo),
                    post_date: Some(post_date),
                    source: StatementSource::Chase,
                    transaction_type: Some(rec.trans_type),
                },
            )
        },
    }
}

} // verus!
