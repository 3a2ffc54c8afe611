//! Converts a flat, dated log of journal records into a hierarchically
//! organized outline document: rows are parsed into entries, entries are
//! grouped by year, month and day, and the hierarchy is rendered as nested
//! headings with line-continued text blocks.

pub mod book;
pub mod dates;
pub mod parse;
pub mod render;
pub mod text;

use vstd::prelude::*;
use crate::book::{DayBook, book_bucket, book_wf, construct_book, has_date};
use crate::dates::Date;
use crate::parse::{BookError, Entry, RawRow, entry_matches_row, parse_rows, row_error};
use crate::render::{adoc, doc_lines};
use crate::text::lines_of;

verus! {

/// The document `lines` is what the pipeline owes for `rows`: `es` are the
/// parsed entries, row by row; `b` is the well-formed hierarchy whose every
/// bucket holds exactly the entries of its date, in arrival order; and the
/// lines render `b` under `title`.
pub open spec fn built_from(
    title: Seq<char>,
    rows: Seq<RawRow>,
    lines: Seq<Seq<char>>,
    es: Seq<Entry>,
    b: DayBook,
) -> bool {
    &&& es.len() == rows.len()
    &&& forall|j: int| 0 <= j < rows.len() ==> entry_matches_row(#[trigger] es[j], rows[j])
    &&& book_wf(b)
    &&& forall|dt: Date| #[trigger] book_bucket(b, dt) == es.filter(has_date(dt))
    &&& lines == doc_lines(title, b)
}

/// Runs the whole pipeline: parses every row, groups the entries, renders
/// the document. Succeeds exactly where every row parses; otherwise the
/// first failing row's error aborts the run and no document is produced.
pub fn build_document(title: &str, rows: Vec<RawRow>) -> (r: Result<Vec<String>, BookError>)
    ensures
        r is Ok <==> (forall|i: int|
            0 <= i < rows@.len() ==> row_error(#[trigger] rows@[i]) is None),
        r matches Ok(lines) ==> exists|es: Seq<Entry>, b: DayBook|
            built_from(title@, rows@, lines_of(lines@), es, b),
        r matches Err(err) ==> exists|i: int|
            0 <= i < rows@.len() && row_error(#[trigger] rows@[i]) == Some(err) && (forall|j: int|
                0 <= j < i ==> row_error(rows@[j]) is None),
{
    let entries = match parse_rows(rows) {
        Ok(es) => es,
        Err(err) => {
            return Err(err);
        }
    };
    let ghost esv = entries@;
    proof {
        assert forall|i: int| 0 <= i < entries@.len()
            implies (#[trigger] entries@[i]).date.wf() by {
            assert(entry_matches_row(entries@[i], rows@[i]));
        }
    }
    let book = construct_book(entries);
    let ghost bk = book;
    match adoc(title, &book) {
        Ok(lines) => {
            proof {
                assert(built_from(title@, rows@, lines_of(lines@), esv, bk));
            }
            Ok(lines)
        }
        Err(err) => {
            proof {
                assert(false);
            }
            Err(err)
        }
    }
}

} // verus!
