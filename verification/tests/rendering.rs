use daybook::dates::Date;
use daybook::parse::{BookError, Entry};
use daybook::render::{
    append_day, append_entry, append_header, append_month, append_year, month_number_to_name,
};

fn entry(name: &str, content: &str) -> Entry {
    Entry {
        date: Date { year: 2024, month: 1, day: 1 },
        name: String::from(name),
        content: String::from(content),
        tags: Vec::new(),
    }
}

#[test]
fn month_number_to_name_covers_the_calendar() {
    let names = [
        "January", "February", "March", "April", "May", "June", "July", "August", "September",
        "October", "November", "December",
    ];
    for (i, expected) in names.iter().enumerate() {
        assert_eq!(month_number_to_name(i as u32 + 1), Some(*expected));
    }
    assert_eq!(month_number_to_name(0), None);
    assert_eq!(month_number_to_name(13), None);
}

#[test]
fn append_header_emits_title_directives_and_separator() {
    let mut doc: Vec<String> = Vec::new();
    append_header("Memory Map", &mut doc);
    assert_eq!(doc, vec!["= Memory Map", ":toc: left", ":toclevels: 4", ""]);
}

#[test]
fn append_year_emits_heading_and_separator() {
    let mut doc: Vec<String> = Vec::new();
    append_year(2024, &mut doc);
    append_year(805, &mut doc);
    assert_eq!(doc, vec!["== 2024", "", "== 805", ""]);
}

#[test]
fn append_month_emits_heading_and_hands_back_the_name() {
    let mut doc: Vec<String> = Vec::new();
    let name = append_month(3, 2024, &mut doc).expect("a calendar month renders");
    assert_eq!(name, "March");
    assert_eq!(doc, vec!["=== 2024 March", ""]);
}

#[test]
fn append_month_rejects_a_month_out_of_range() {
    let mut doc: Vec<String> = Vec::new();
    assert_eq!(append_month(13, 2024, &mut doc).err(), Some(BookError::InvalidMonth));
    assert!(doc.is_empty());
}

#[test]
fn append_day_emits_heading_and_separator() {
    let mut doc: Vec<String> = Vec::new();
    append_day("March", 7, &mut doc);
    assert_eq!(doc, vec!["==== March 7", ""]);
}

#[test]
fn single_line_body_has_no_continuation_marker() {
    let mut doc: Vec<String> = Vec::new();
    append_entry(&entry("Note", "just one line"), &mut doc);
    assert_eq!(doc, vec!["===== Note", "", "just one line", ""]);
}

#[test]
fn multi_line_body_continues_every_line_but_the_last() {
    let mut doc: Vec<String> = Vec::new();
    append_entry(&entry("Note", "first\nsecond\nthird"), &mut doc);
    assert_eq!(doc, vec!["===== Note", "", "first +", "second +", "third", ""]);
}

#[test]
fn body_whitespace_is_trimmed_before_splitting() {
    let mut doc: Vec<String> = Vec::new();
    append_entry(&entry("Note", "  \t a\nb \u{00A0}\n"), &mut doc);
    assert_eq!(doc, vec!["===== Note", "", "a +", "b", ""]);
}

#[test]
fn blank_content_still_yields_one_empty_body_line() {
    let mut doc: Vec<String> = Vec::new();
    append_entry(&entry("Note", "   "), &mut doc);
    assert_eq!(doc, vec!["===== Note", "", "", ""]);
}
