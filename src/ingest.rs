//! Reading a whole statement: rows, header check, and per-row outcomes.
use crate::statement::{
    expected_header, header_view, normalize, normalized, RawRecord, RowErrorKind,
    StatementFormat, StatementSource, Transaction, TransactionModel,
};
use vstd::prelude::*;

verus! {

/// What the csv reader splits a buffer into: one entry per row, header
/// included, `None` for a row that is not valid text.
pub uninterp spec fn rows_of_csv(bytes: Seq<u8>) -> Seq<Option<Seq<Seq<char>>>>;

pub open spec fn rows_view(rows: Seq<Option<Vec<String>>>) -> Seq<Option<Seq<Seq<char>>>> {
    rows.map_values(
        |o: Option<Vec<String>>|
            match o {
                Some(v) => Some(v@.map_values(|s: String| s@)),
                None => None,
            },
    )
}

/// Relies on csv's `ReaderBuilder` (header read as a row, rows of any width)
/// and `Reader::records` over an in-memory buffer; the only error a row can
/// then carry is invalid UTF-8.
#[verifier::external_body]
fn split_csv_rows(bytes: &[u8]) -> (r: Vec<Option<Vec<String>>>)
    ensures
        rows_view(r@) == rows_of_csv(bytes@),
{
    let mut reader = csv::ReaderBuilder::new().has_headers(false).flexible(true).from_reader(bytes);
    reader.records().map(|row| row.ok().map(|rec| rec.iter().map(|f| f.to_string()).collect())).collect()
}

/// A row that did not become a transaction. `row` counts data rows from 1,
/// the header excluded.
#[derive(Clone, Copy, Debug, PartialEq, Eq, Structural)]
pub struct RowFailure {
    pub row: usize,
    pub source: StatementSource,
    pub kind: RowErrorKind,
}

/// The outcome of reading one statement.
#[derive(Clone, Debug)]
pub struct Ingestion {
    pub transactions: Vec<Transaction>,
    pub failures: Vec<RowFailure>,
    /// Data rows read, successful or not.
    pub rows_attempted: usize,
}

impl Ingestion {
    /// Rows that became transactions.
    pub fn rows_normalized(&self) -> (r: usize)
        ensures
            r == self.transactions@.len(),
    {
        self.transactions.len()
    }
}

/// Why a whole statement was refused.
#[derive(Clone, Copy, Debug, PartialEq, Eq, Structural)]
pub enum IngestError {
    /// The statement holds no row at all.
    MissingHeader,
    /// The header is not the source's column list.
    SchemaMismatch,
}

/// What one data row becomes.
pub open spec fn row_outcome(row: Option<Seq<Seq<char>>>, format: StatementFormat) -> Result<
    TransactionModel,
    RowErrorKind,
> {
    match row {
        None => Err(RowErrorKind::Unreadable),
        Some(f) => normalized(format.source, f, format.date_layout),
    }
}

/// The transactions of the data rows `rows`, in order.
pub open spec fn successes(rows: Seq<Option<Seq<Seq<char>>>>, format: StatementFormat) -> Seq<
    TransactionModel,
>
    decreases rows.len(),
{
    if rows.len() == 0 {
        seq![]
    } else {
        let prev = successes(rows.drop_last(), format);
        match row_outcome(rows.last(), format) {
            Ok(t) => prev.push(t),
            Err(_) => prev,
        }
    }
}

/// The failures of the data rows `rows`, in order, numbered from 1.
pub open spec fn failures(rows: Seq<Option<Seq<Seq<char>>>>, format: StatementFormat) -> Seq<
    RowFailure,
>
    decreases rows.len(),
{
    if rows.len() == 0 {
        seq![]
    } else {
        let prev = failures(rows.drop_last(), format);
        match row_outcome(rows.last(), format) {
            Ok(_) => prev,
            Err(k) => prev.push(RowFailure { row: rows.len() as usize, source: format.source, kind: k }),
        }
    }
}

pub open spec fn texts_view(v: Seq<String>) -> Seq<Seq<char>> {
    v.map_values(|s: String| s@)
}

fn same_texts(a: &Vec<String>, b: &Vec<String>) -> (r: bool)
    ensures
        r == (texts_view(a@) == texts_view(b@)),
{
    if a.len() != b.len() {
        assert(texts_view(a@).len() != texts_view(b@).len());
        return false;
    }
    let mut k: usize = 0;
    while k < a.len()
        invariant
            a@.len() == b@.len(),
            k <= a@.len(),
            forall|j: int| 0 <= j < k ==> a@[j]@ == b@[j]@,
        decreases a@.len() - k,
    {
        if a[k] != b[k] {
            assert(texts_view(a@)[k as int] != texts_view(b@)[k as int]);
            return false;
        }
        k = k + 1;
    }
    assert(texts_view(a@) =~= texts_view(b@));
    true
}

/// Reads a statement of `format` from its bytes. The whole statement is
/// refused only when it has no header or the header is not the source's;
/// otherwise each data row yields a transaction or a recorded failure.
pub fn ingest_statement(bytes: &[u8], format: StatementFormat) -> (r: Result<Ingestion, IngestError>)
    ensures
        (r == Err::<Ingestion, IngestError>(IngestError::MissingHeader)) <==> rows_of_csv(
            bytes@,
        ).len() == 0,
        (r == Err::<Ingestion, IngestError>(IngestError::SchemaMismatch)) <==> (rows_of_csv(
            bytes@,
        ).len() > 0 && rows_of_csv(bytes@)[0] != Some(header_view(format.source))),
        r matches Ok(ing) ==> {
            let data = rows_of_csv(bytes@).skip(1);
            &&& ing.transactions@.map_values(|t: Transaction| t@) == successes(data, format)
            &&& ing.failures@ == failures(data, format)
            &&& ing.rows_attempted == data.len()
            &&& forall|k: int| 0 <= k < ing.transactions@.len() ==> #[trigger] ing.transactions@[k].wf()
        },
{
    let rows = split_csv_rows(bytes);
    let ghost all = rows_view(rows@);
    if rows.len() == 0 {
        return Err(IngestError::MissingHeader);
    }
    let expected = expected_header(format.source);
    let header_ok = match &rows[0] {
        Some(h) => same_texts(h, &expected),
        None => false,
    };
    if !header_ok {
        return Err(IngestError::SchemaMismatch);
    }
    let ghost data = all.skip(1);
    let mut transactions: Vec<Transaction> = Vec::new();
    let mut row_failures: Vec<RowFailure> = Vec::new();
    let mut i: usize = 1;
    while i < rows.len()
        invariant
            1 <= i <= rows@.len(),
            all == rows_view(rows@),
            data == all.skip(1),
            transactions@.map_values(|t: Transaction| t@) == successes(data.take(i - 1), format),
            row_failures@ == failures(data.take(i - 1), format),
            forall|k: int| 0 <= k < transactions@.len() ==> #[trigger] transactions@[k].wf(),
        decreases rows@.len() - i,
    {
        let outcome = match &rows[i] {
            None => Err(RowErrorKind::Unreadable),
            Some(fields) => match RawRecord::from_fields(format.source, fields) {
                None => Err(RowErrorKind::MissingField),
                Some(rec) => normalize(rec, format.date_layout),
            },
        };
        let ghost prefix = data.take(i as int);
        assert(prefix.drop_last() =~= data.take(i - 1));
        assert(prefix.last() == all[i as int]);
        assert(prefix.len() == i);
        match outcome {
            Ok(t) => {
                transactions.push(t);
                assert(transactions@.map_values(|t: Transaction| t@) =~= successes(
                    prefix,
                    format,
                ));
            },
            Err(k) => {
                row_failures.push(RowFailure { row: i, source: format.source, kind: k });
            },
        }
        i = i + 1;
    }
    assert(data.take(rows@.len() - 1) =~= data);
    Ok(Ingestion { transactions, failures: row_failures, rows_attempted: rows.len() - 1 })
}

} // verus!
