use daybook::book::construct_book;
use daybook::build_document;
use daybook::dates::{parse_date, Date};
use daybook::parse::{parse_record, parse_rows, BookError, Entry, RawRow};
use daybook::render::adoc;

fn field_row(fields: &[&str]) -> RawRow {
    RawRow::Fields(fields.iter().map(|f| String::from(*f)).collect())
}

fn expect_lines(lines: &[&str]) -> Vec<String> {
    lines.iter().map(|l| String::from(*l)).collect()
}

#[test]
fn parse_date_decomposes_the_token() {
    let d = parse_date("2024-03-07").expect("a plain calendar date parses");
    assert_eq!(d, Date { year: 2024, month: 3, day: 7 });
    assert!(parse_date("not-a-date").is_none());
    assert!(parse_date("2024-13-07").is_none());
    assert!(parse_date("").is_none());
}

#[test]
fn parse_record_maps_the_four_fields() {
    let row = field_row(&["2024-03-07", "Morning Note", "work,personal", "Line one\nLine two"]);
    let e = parse_record(row).expect("a full row parses");
    assert_eq!(e.date, Date { year: 2024, month: 3, day: 7 });
    assert_eq!(e.name, "Morning Note");
    assert_eq!(e.tags, vec![String::from("work"), String::from("personal")]);
    assert_eq!(e.content, "Line one\nLine two");
}

#[test]
fn parse_record_splits_tags_verbatim() {
    let row = field_row(&["2024-03-07", "N", "", "c"]);
    let e = parse_record(row).unwrap();
    assert_eq!(e.tags, vec![String::from("")]);

    let row = field_row(&["2024-03-07", "N", "a,,b", "c"]);
    let e = parse_record(row).unwrap();
    assert_eq!(e.tags, vec![String::from("a"), String::from(""), String::from("b")]);
}

#[test]
fn parse_record_rejects_short_rows() {
    let row = field_row(&["2024-03-07", "Morning Note", "work"]);
    assert_eq!(parse_record(row).err(), Some(BookError::MissingField));
}

#[test]
fn parse_record_rejects_read_failures() {
    assert_eq!(parse_record(RawRow::ReadError).err(), Some(BookError::SourceReadError));
}

#[test]
fn parse_record_rejects_bad_dates() {
    let row = field_row(&["07/03/2024", "Morning Note", "work", "text"]);
    assert_eq!(parse_record(row).err(), Some(BookError::MalformedDate));
}

#[test]
fn parse_rows_stops_at_the_first_failure() {
    let rows = vec![
        field_row(&["2024-03-07", "A", "", "a"]),
        field_row(&["2024-03-08", "B", "b"]),
        field_row(&["bad-date", "C", "", "c"]),
    ];
    assert_eq!(parse_rows(rows).err(), Some(BookError::MissingField));
}

#[test]
fn short_row_aborts_with_missing_field_and_no_document() {
    let rows = vec![
        field_row(&["2024-03-07", "A", "", "a"]),
        field_row(&["2024-03-08", "B", "b"]),
    ];
    let r = build_document("Journal", rows);
    assert_eq!(r, Err(BookError::MissingField));
}

#[test]
fn round_trip_single_row() {
    let rows = vec![field_row(&[
        "2024-03-07",
        "Morning Note",
        "work,personal",
        "Line one\nLine two",
    ])];
    let lines = build_document("Journal", rows).expect("one good row builds");
    let expected = expect_lines(&[
        "= Journal",
        ":toc: left",
        ":toclevels: 4",
        "",
        "== 2024",
        "",
        "=== 2024 March",
        "",
        "==== March 7",
        "",
        "===== Morning Note",
        "",
        "Line one +",
        "Line two",
        "",
    ]);
    assert_eq!(lines, expected);
}

#[test]
fn two_entries_share_one_day_heading_in_input_order() {
    let rows = vec![
        field_row(&["2024-03-07", "Morning Note", "", "early"]),
        field_row(&["2024-03-07", "Evening Note", "", "late"]),
    ];
    let lines = build_document("Journal", rows).unwrap();
    let expected = expect_lines(&[
        "= Journal",
        ":toc: left",
        ":toclevels: 4",
        "",
        "== 2024",
        "",
        "=== 2024 March",
        "",
        "==== March 7",
        "",
        "===== Morning Note",
        "",
        "early",
        "",
        "===== Evening Note",
        "",
        "late",
        "",
    ]);
    assert_eq!(lines, expected);
}

#[test]
fn years_months_and_days_ascend_whatever_the_input_order() {
    let rows = vec![
        field_row(&["2023-05-01", "A", "", "a"]),
        field_row(&["2021-12-31", "B", "", "b"]),
        field_row(&["2023-01-15", "C", "", "c"]),
    ];
    let lines = build_document("T", rows).unwrap();
    let expected = expect_lines(&[
        "= T",
        ":toc: left",
        ":toclevels: 4",
        "",
        "== 2021",
        "",
        "=== 2021 December",
        "",
        "==== December 31",
        "",
        "===== B",
        "",
        "b",
        "",
        "== 2023",
        "",
        "=== 2023 January",
        "",
        "==== January 15",
        "",
        "===== C",
        "",
        "c",
        "",
        "=== 2023 May",
        "",
        "==== May 1",
        "",
        "===== A",
        "",
        "a",
        "",
    ]);
    assert_eq!(lines, expected);
}

#[test]
fn days_ascend_within_one_month() {
    let rows = vec![
        field_row(&["2022-04-09", "Later", "", "x"]),
        field_row(&["2022-04-02", "Earlier", "", "y"]),
    ];
    let lines = build_document("T", rows).unwrap();
    let early = lines.iter().position(|l| l.as_str() == "==== April 2").unwrap();
    let late = lines.iter().position(|l| l.as_str() == "==== April 9").unwrap();
    assert!(early < late);
    let month_headings = lines.iter().filter(|l| l.starts_with("=== ")).count();
    assert_eq!(month_headings, 1);
}

#[test]
fn construct_book_then_adoc_matches_the_pipeline() {
    let e = Entry {
        date: Date { year: 1999, month: 12, day: 31 },
        name: String::from("Eve"),
        content: String::from("last day"),
        tags: Vec::new(),
    };
    let book = construct_book(vec![e]);
    let lines = adoc("Book", &book).unwrap();
    let expected = expect_lines(&[
        "= Book",
        ":toc: left",
        ":toclevels: 4",
        "",
        "== 1999",
        "",
        "=== 1999 December",
        "",
        "==== December 31",
        "",
        "===== Eve",
        "",
        "last day",
        "",
    ]);
    assert_eq!(lines, expected);
}

#[test]
fn empty_input_yields_only_the_header() {
    let lines = build_document("Empty", Vec::new()).unwrap();
    let expected = expect_lines(&["= Empty", ":toc: left", ":toclevels: 4", ""]);
    assert_eq!(lines, expected);
}
