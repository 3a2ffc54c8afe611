//! Parsing raw tabular rows into validated journal entries.

use vstd::prelude::*;
use crate::dates::{Date, date_of_str, parse_date};
use crate::text::{lines_of, split_on, split_str};

verus! {

/// The fatal error kinds: every error aborts the whole run.
#[derive(Clone, Copy, Debug, PartialEq, Eq, Structural)]
pub enum BookError {
    /// The row source failed to produce a row.
    SourceReadError,
    /// A row has fewer than four fields.
    MissingField,
    /// The date field failed calendar parsing.
    MalformedDate,
    /// A month number outside `1..=12` reached rendering (defensive;
    /// unreachable for a well-formed book).
    InvalidMonth,
}

/// One logical record from the row source: either its text fields, in order,
/// or a source-level read failure.
pub enum RawRow {
    Fields(Vec<String>),
    ReadError,
}

/// One parsed journal record.
#[derive(Clone, Debug)]
pub struct Entry {
    pub date: Date,
    pub name: String,
    pub content: String,
    pub tags: Vec<String>,
}

/// The error a row produces, or `None` where it parses: a read failure is
/// `SourceReadError`, fewer than four fields is `MissingField`, and a date
/// field the calendar collaborator rejects is `MalformedDate`.
pub open spec fn row_error(row: RawRow) -> Option<BookError> {
    match row {
        RawRow::ReadError => Some(BookError::SourceReadError),
        RawRow::Fields(fields) => if fields@.len() < 4 {
            Some(BookError::MissingField)
        } else if date_of_str(fields@[0]@) is None {
            Some(BookError::MalformedDate)
        } else {
            None
        },
    }
}

/// The entry `e` is exactly what parsing `row` yields: the date is the parsed
/// first field, the name and content are the second and fourth fields
/// verbatim, and the tags are the third field split on `','`.
pub open spec fn entry_matches_row(e: Entry, row: RawRow) -> bool {
    &&& row matches RawRow::Fields(fields)
    &&& fields@.len() >= 4
    &&& date_of_str(fields@[0]@) == Some((e.date.year, e.date.month, e.date.day))
    &&& e.date.wf()
    &&& e.name@ == fields@[1]@
    &&& lines_of(e.tags@) == split_on(fields@[2]@, ',')
    &&& e.content@ == fields@[3]@
}

/// Turns one raw row into a validated entry, or reports the row's failure.
pub fn parse_record(row: RawRow) -> (r: Result<Entry, BookError>)
    ensures
        r matches Ok(e) ==> entry_matches_row(e, row),
        r matches Err(err) ==> row_error(row) == Some(err),
        r is Ok <==> row_error(row) is None,
{
    match row {
        RawRow::ReadError => Err(BookError::SourceReadError),
        RawRow::Fields(fields) => {
            if fields.len() < 4 {
                Err(BookError::MissingField)
            } else {
                match parse_date(fields[0].as_str()) {
                    None => Err(BookError::MalformedDate),
                    Some(date) => {
                        let name = fields[1].clone();
                        let tags = split_str(fields[2].as_str(), ',');
                        let content = fields[3].clone();
                        Ok(Entry { date, name, content, tags })
                    }
                }
            }
        }
    }
}

/// Parses every row in order, stopping at the first failing row.
pub fn parse_rows(rows: Vec<RawRow>) -> (r: Result<Vec<Entry>, BookError>)
    ensures
        r matches Ok(es) ==> es@.len() == rows@.len() && (forall|j: int|
            0 <= j < rows@.len() ==> entry_matches_row(#[trigger] es@[j], rows@[j])),
        r matches Err(err) ==> exists|i: int|
            0 <= i < rows@.len() && row_error(#[trigger] rows@[i]) == Some(err) && (forall|j: int|
                0 <= j < i ==> row_error(#[trigger] rows@[j]) is None),
        r is Ok <==> (forall|i: int| 0 <= i < rows@.len() ==> row_error(#[trigger] rows@[i]) is None),
{
    let ghost orig = rows@;
    let mut rest = rows;
    let mut es: Vec<Entry> = Vec::new();
    while rest.len() > 0
        invariant
            orig == rows@,
            es@.len() + rest@.len() == orig.len(),
            rest@ =~= orig.skip(es@.len() as int),
            forall|j: int| 0 <= j < es@.len() ==> entry_matches_row(#[trigger] es@[j], orig[j]),
            forall|j: int| 0 <= j < es@.len() ==> row_error(#[trigger] orig[j]) is None,
        decreases rest@.len(),
    {
        let row = rest.remove(0);
        proof {
            assert(row == orig[es@.len() as int]);
            assert(rest@ =~= orig.skip(es@.len() as int + 1));
        }
        match parse_record(row) {
            Ok(e) => {
                es.push(e);
            }
            Err(err) => {
                proof {
                    let i = es@.len() as int;
                    assert(row_error(rows@[i]) == Some(err));
                    assert(0 <= i < rows@.len() && row_error(#[trigger] rows@[i]) == Some(err)
                        && (forall|j: int| 0 <= j < i ==> row_error(#[trigger] rows@[j]) is None));
                }
                return Err(err);
            }
        }
    }
    Ok(es)
}

} // verus!
