//! Rendering the hierarchy as an outline document: one heading per year,
//! month, day and entry, each followed by a blank separator line, and each
//! entry's body as a line-continued text block.

use vstd::prelude::*;
use vstd::string::StrSliceExecFns;
use vstd::string::StringExecFns;
use crate::book::{DayBook, DayGroup, MonthGroup, YearGroup, book_wf};
use crate::parse::{BookError, Entry};
use crate::text::{dec_str, lemma_lines_of_push, lines_of, split_on, split_str, trim_spec,
    trim_str, u32_to_string};

verus! {

/// A blank separator line.
pub open spec fn blank() -> Seq<char> {
    Seq::<char>::empty()
}

/// The display name of a month number in `1..=12`.
pub open spec fn month_name(m: int) -> Seq<char> {
    if m == 1 { "January"@ }
    else if m == 2 { "February"@ }
    else if m == 3 { "March"@ }
    else if m == 4 { "April"@ }
    else if m == 5 { "May"@ }
    else if m == 6 { "June"@ }
    else if m == 7 { "July"@ }
    else if m == 8 { "August"@ }
    else if m == 9 { "September"@ }
    else if m == 10 { "October"@ }
    else if m == 11 { "November"@ }
    else if m == 12 { "December"@ }
    else { Seq::<char>::empty() }
}

/// The document header block: title line, the two directives that enable a
/// left-positioned table of contents four levels deep, and a blank line.
pub open spec fn header_lines(title: Seq<char>) -> Seq<Seq<char>> {
    seq!["= "@ + title, ":toc: left"@, ":toclevels: 4"@, blank()]
}

pub open spec fn year_heading(y: u32) -> Seq<char> {
    "== "@ + dec_str(y as int)
}

pub open spec fn month_heading(y: u32, mname: Seq<char>) -> Seq<char> {
    "=== "@ + dec_str(y as int) + " "@ + mname
}

pub open spec fn day_heading(mname: Seq<char>, d: u32) -> Seq<char> {
    "==== "@ + mname + " "@ + dec_str(d as int)
}

pub open spec fn entry_heading(name: Seq<char>) -> Seq<char> {
    "===== "@ + name
}

/// The rendered body of one entry: the trimmed content split on line breaks,
/// every line but the last suffixed with the continuation marker.
pub open spec fn body_lines(content: Seq<char>) -> Seq<Seq<char>> {
    let pieces = split_on(trim_spec(content), '\n');
    Seq::new(pieces.len(), |i: int| if i + 1 < pieces.len() { pieces[i] + " +"@ } else { pieces[i] })
}

/// One entry block: heading, blank line, body, blank line.
pub open spec fn entry_lines(e: Entry) -> Seq<Seq<char>> {
    seq![entry_heading(e.name@), blank()] + body_lines(e.content@) + seq![blank()]
}

pub open spec fn entries_lines(es: Seq<Entry>) -> Seq<Seq<char>>
    decreases es.len(),
{
    if es.len() == 0 {
        Seq::<Seq<char>>::empty()
    } else {
        entry_lines(es[0]) + entries_lines(es.drop_first())
    }
}

/// One day block: heading, blank line, the day's entry blocks in order.
pub open spec fn day_lines(mname: Seq<char>, g: DayGroup) -> Seq<Seq<char>> {
    seq![day_heading(mname, g.day), blank()] + entries_lines(g.entries@)
}

pub open spec fn days_lines(mname: Seq<char>, days: Seq<DayGroup>) -> Seq<Seq<char>>
    decreases days.len(),
{
    if days.len() == 0 {
        Seq::<Seq<char>>::empty()
    } else {
        day_lines(mname, days[0]) + days_lines(mname, days.drop_first())
    }
}

/// One month block: heading, blank line, the month's day blocks in order.
pub open spec fn month_lines(y: u32, g: MonthGroup) -> Seq<Seq<char>> {
    seq![month_heading(y, month_name(g.month as int)), blank()]
        + days_lines(month_name(g.month as int), g.days@)
}

pub open spec fn months_lines(y: u32, months: Seq<MonthGroup>) -> Seq<Seq<char>>
    decreases months.len(),
{
    if months.len() == 0 {
        Seq::<Seq<char>>::empty()
    } else {
        month_lines(y, months[0]) + months_lines(y, months.drop_first())
    }
}

/// One year block: heading, blank line, the year's month blocks in order.
pub open spec fn year_lines(g: YearGroup) -> Seq<Seq<char>> {
    seq![year_heading(g.year), blank()] + months_lines(g.year, g.months@)
}

pub open spec fn years_lines(years: Seq<YearGroup>) -> Seq<Seq<char>>
    decreases years.len(),
{
    if years.len() == 0 {
        Seq::<Seq<char>>::empty()
    } else {
        year_lines(years[0]) + years_lines(years.drop_first())
    }
}

/// The whole document: header block, then the year blocks ascending.
pub open spec fn doc_lines(title: Seq<char>, b: DayBook) -> Seq<Seq<char>> {
    header_lines(title) + years_lines(b.years@)
}

proof fn lemma_entries_lines_add(a: Seq<Entry>, b: Seq<Entry>)
    ensures
        entries_lines(a + b) == entries_lines(a) + entries_lines(b),
    decreases a.len(),
{
    if a.len() == 0 {
        assert(a + b =~= b);
        assert(Seq::<Seq<char>>::empty() + entries_lines(b) =~= entries_lines(b));
    } else {
        assert((a + b)[0] == a[0]);
        assert((a + b).drop_first() =~= a.drop_first() + b);
        lemma_entries_lines_add(a.drop_first(), b);
        assert(entry_lines(a[0]) + (entries_lines(a.drop_first()) + entries_lines(b))
            =~= (entry_lines(a[0]) + entries_lines(a.drop_first())) + entries_lines(b));
    }
}

pub proof fn lemma_entries_lines_take(es: Seq<Entry>, i: int)
    requires
        0 <= i < es.len(),
    ensures
        entries_lines(es.take(i + 1)) == entries_lines(es.take(i)) + entry_lines(es[i]),
{
    assert(es.take(i + 1) =~= es.take(i) + seq![es[i]]);
    lemma_entries_lines_add(es.take(i), seq![es[i]]);
    assert(seq![es[i]].drop_first() =~= Seq::<Entry>::empty());
    assert(entries_lines(Seq::<Entry>::empty()) == Seq::<Seq<char>>::empty());
    assert(entry_lines(es[i]) + Seq::<Seq<char>>::empty() =~= entry_lines(es[i]));
    assert(entries_lines(seq![es[i]]) == entry_lines(es[i]));
}

proof fn lemma_days_lines_add(mname: Seq<char>, a: Seq<DayGroup>, b: Seq<DayGroup>)
    ensures
        days_lines(mname, a + b) == days_lines(mname, a) + days_lines(mname, b),
    decreases a.len(),
{
    if a.len() == 0 {
        assert(a + b =~= b);
        assert(Seq::<Seq<char>>::empty() + days_lines(mname, b) =~= days_lines(mname, b));
    } else {
        assert((a + b)[0] == a[0]);
        assert((a + b).drop_first() =~= a.drop_first() + b);
        lemma_days_lines_add(mname, a.drop_first(), b);
        assert(day_lines(mname, a[0]) + (days_lines(mname, a.drop_first()) + days_lines(mname, b))
            =~= (day_lines(mname, a[0]) + days_lines(mname, a.drop_first()))
                + days_lines(mname, b));
    }
}

pub proof fn lemma_days_lines_take(mname: Seq<char>, days: Seq<DayGroup>, i: int)
    requires
        0 <= i < days.len(),
    ensures
        days_lines(mname, days.take(i + 1))
            == days_lines(mname, days.take(i)) + day_lines(mname, days[i]),
{
    assert(days.take(i + 1) =~= days.take(i) + seq![days[i]]);
    lemma_days_lines_add(mname, days.take(i), seq![days[i]]);
    assert(seq![days[i]].drop_first() =~= Seq::<DayGroup>::empty());
    assert(days_lines(mname, Seq::<DayGroup>::empty()) == Seq::<Seq<char>>::empty());
    assert(day_lines(mname, days[i]) + Seq::<Seq<char>>::empty() =~= day_lines(mname, days[i]));
    assert(days_lines(mname, seq![days[i]]) == day_lines(mname, days[i]));
}

proof fn lemma_months_lines_add(y: u32, a: Seq<MonthGroup>, b: Seq<MonthGroup>)
    ensures
        months_lines(y, a + b) == months_lines(y, a) + months_lines(y, b),
    decreases a.len(),
{
    if a.len() == 0 {
        assert(a + b =~= b);
        assert(Seq::<Seq<char>>::empty() + months_lines(y, b) =~= months_lines(y, b));
    } else {
        assert((a + b)[0] == a[0]);
        assert((a + b).drop_first() =~= a.drop_first() + b);
        lemma_months_lines_add(y, a.drop_first(), b);
        assert(month_lines(y, a[0]) + (months_lines(y, a.drop_first()) + months_lines(y, b))
            =~= (month_lines(y, a[0]) + months_lines(y, a.drop_first())) + months_lines(y, b));
    }
}

pub proof fn lemma_months_lines_take(y: u32, months: Seq<MonthGroup>, i: int)
    requires
        0 <= i < months.len(),
    ensures
        months_lines(y, months.take(i + 1))
            == months_lines(y, months.take(i)) + month_lines(y, months[i]),
{
    assert(months.take(i + 1) =~= months.take(i) + seq![months[i]]);
    lemma_months_lines_add(y, months.take(i), seq![months[i]]);
    assert(seq![months[i]].drop_first() =~= Seq::<MonthGroup>::empty());
    assert(months_lines(y, Seq::<MonthGroup>::empty()) == Seq::<Seq<char>>::empty());
    assert(month_lines(y, months[i]) + Seq::<Seq<char>>::empty() =~= month_lines(y, months[i]));
    assert(months_lines(y, seq![months[i]]) == month_lines(y, months[i]));
}

proof fn lemma_years_lines_add(a: Seq<YearGroup>, b: Seq<YearGroup>)
    ensures
        years_lines(a + b) == years_lines(a) + years_lines(b),
    decreases a.len(),
{
    if a.len() == 0 {
        assert(a + b =~= b);
        assert(Seq::<Seq<char>>::empty() + years_lines(b) =~= years_lines(b));
    } else {
        assert((a + b)[0] == a[0]);
        assert((a + b).drop_first() =~= a.drop_first() + b);
        lemma_years_lines_add(a.drop_first(), b);
        assert(year_lines(a[0]) + (years_lines(a.drop_first()) + years_lines(b))
            =~= (year_lines(a[0]) + years_lines(a.drop_first())) + years_lines(b));
    }
}

pub proof fn lemma_years_lines_take(years: Seq<YearGroup>, i: int)
    requires
        0 <= i < years.len(),
    ensures
        years_lines(years.take(i + 1)) == years_lines(years.take(i)) + year_lines(years[i]),
{
    assert(years.take(i + 1) =~= years.take(i) + seq![years[i]]);
    lemma_years_lines_add(years.take(i), seq![years[i]]);
    assert(seq![years[i]].drop_first() =~= Seq::<YearGroup>::empty());
    assert(years_lines(Seq::<YearGroup>::empty()) == Seq::<Seq<char>>::empty());
    assert(year_lines(years[i]) + Seq::<Seq<char>>::empty() =~= year_lines(years[i]));
    assert(years_lines(seq![years[i]]) == year_lines(years[i]));
}

/// The document decomposes around any year position: the block of the year
/// at `k` stands after the blocks of all earlier years and before those of
/// all later ones.
pub proof fn lemma_years_lines_split(years: Seq<YearGroup>, k: int)
    requires
        0 <= k < years.len(),
    ensures
        years_lines(years) == years_lines(years.take(k)) + year_lines(years[k])
            + years_lines(years.skip(k + 1)),
{
    assert(years =~= years.take(k) + seq![years[k]] + years.skip(k + 1));
    lemma_years_lines_add(years.take(k) + seq![years[k]], years.skip(k + 1));
    lemma_years_lines_add(years.take(k), seq![years[k]]);
    assert(seq![years[k]].drop_first() =~= Seq::<YearGroup>::empty());
    assert(years_lines(Seq::<YearGroup>::empty()) == Seq::<Seq<char>>::empty());
    assert(year_lines(years[k]) + Seq::<Seq<char>>::empty() =~= year_lines(years[k]));
    assert(years_lines(seq![years[k]]) == year_lines(years[k]));
}

/// Rendering preserves order and depth: in a well-formed book the year keys
/// ascend with the order of their blocks, the month keys ascend within each
/// year, the day keys ascend within each month, and every block begins with
/// its own level's heading line.
pub proof fn lemma_render_order(b: DayBook, i: int, j: int, mi: int, mj: int, di: int, dj: int)
    requires
        book_wf(b),
        0 <= i < j < b.years@.len(),
        0 <= mi < mj < b.years@[i].months@.len(),
        0 <= di < dj < b.years@[i].months@[mi].days@.len(),
    ensures
        b.years@[i].year < b.years@[j].year,
        b.years@[i].months@[mi].month < b.years@[i].months@[mj].month,
        b.years@[i].months@[mi].days@[di].day < b.years@[i].months@[mi].days@[dj].day,
        year_lines(b.years@[i])[0] == year_heading(b.years@[i].year),
        month_lines(b.years@[i].year, b.years@[i].months@[mi])[0]
            == month_heading(b.years@[i].year,
                month_name(b.years@[i].months@[mi].month as int)),
{
    assert(crate::book::year_wf(b.years@[i]));
    assert(crate::book::month_wf(b.years@[i].months@[mi], b.years@[i].year));
}

/// Resolves a month number in `1..=12` to its display name.
pub fn month_number_to_name(month: u32) -> (r: Option<&'static str>)
    ensures
        1 <= month <= 12 ==> (r matches Some(s) && s@ == month_name(month as int)),
        !(1 <= month <= 12) ==> r is None,
{
    match month {
        1 => Some("January"),
        2 => Some("February"),
        3 => Some("March"),
        4 => Some("April"),
        5 => Some("May"),
        6 => Some("June"),
        7 => Some("July"),
        8 => Some("August"),
        9 => Some("September"),
        10 => Some("October"),
        11 => Some("November"),
        12 => Some("December"),
        _ => None,
    }
}

/// Appends the document header block.
pub fn append_header(title: &str, adoc: &mut Vec<String>)
    ensures
        lines_of(final(adoc)@) == lines_of(old(adoc)@) + header_lines(title@),
{
    broadcast use lemma_lines_of_push;

    let mut line = String::from_str("= ");
    line.append(title);
    adoc.push(line);
    adoc.push(String::from_str(":toc: left"));
    adoc.push(String::from_str(":toclevels: 4"));
    adoc.push(String::new());
    proof {
        assert(lines_of(old(adoc)@).push("= "@ + title@).push(":toc: left"@).push(
            ":toclevels: 4"@).push(blank()) =~= lines_of(old(adoc)@) + header_lines(title@));
    }
}

/// Appends a year section heading and its blank separator line.
pub fn append_year(year: u32, adoc: &mut Vec<String>)
    ensures
        lines_of(final(adoc)@) == lines_of(old(adoc)@) + seq![year_heading(year), blank()],
{
    broadcast use lemma_lines_of_push;

    let mut line = String::from_str("== ");
    let num = u32_to_string(year);
    line.append(num.as_str());
    adoc.push(line);
    adoc.push(String::new());
    proof {
        assert(lines_of(old(adoc)@).push(year_heading(year)).push(blank())
            =~= lines_of(old(adoc)@) + seq![year_heading(year), blank()]);
    }
}

/// Appends a month subsection heading and its blank separator line, handing
/// back the month's display name; a month outside `1..=12` is the defensive
/// `InvalidMonth` error and leaves the document untouched.
pub fn append_month(month: u32, year: u32, adoc: &mut Vec<String>) -> (r: Result<String, BookError>)
    ensures
        1 <= month <= 12 ==> (r matches Ok(name) && name@ == month_name(month as int)
            && lines_of(final(adoc)@) == lines_of(old(adoc)@)
                + seq![month_heading(year, month_name(month as int)), blank()]),
        !(1 <= month <= 12) ==> (r matches Err(er) && er == BookError::InvalidMonth
            && *final(adoc) == *old(adoc)),
{
    broadcast use lemma_lines_of_push;

    match month_number_to_name(month) {
        None => Err(BookError::InvalidMonth),
        Some(name) => {
            let mut line = String::from_str("=== ");
            let num = u32_to_string(year);
            line.append(num.as_str());
            line.append(" ");
            line.append(name);
            adoc.push(line);
            adoc.push(String::new());
            proof {
                assert(lines_of(old(adoc)@).push(month_heading(year, month_name(month as int)))
                    .push(blank()) =~= lines_of(old(adoc)@)
                        + seq![month_heading(year, month_name(month as int)), blank()]);
            }
            Ok(String::from_str(name))
        }
    }
}

/// Appends a day subsubsection heading and its blank separator line.
pub fn append_day(month_name_text: &str, day: u32, adoc: &mut Vec<String>)
    ensures
        lines_of(final(adoc)@) == lines_of(old(adoc)@)
            + seq![day_heading(month_name_text@, day), blank()],
{
    broadcast use lemma_lines_of_push;

    let mut line = String::from_str("==== ");
    line.append(month_name_text);
    line.append(" ");
    let num = u32_to_string(day);
    line.append(num.as_str());
    adoc.push(line);
    adoc.push(String::new());
    proof {
        assert(lines_of(old(adoc)@).push(day_heading(month_name_text@, day)).push(blank())
            =~= lines_of(old(adoc)@) + seq![day_heading(month_name_text@, day), blank()]);
    }
}

/// Appends one entry block: heading, blank line, the line-continued body,
/// blank line.
pub fn append_entry(entry: &Entry, adoc: &mut Vec<String>)
    ensures
        lines_of(final(adoc)@) == lines_of(old(adoc)@) + entry_lines(*entry),
{
    broadcast use lemma_lines_of_push;

    let mut line = String::from_str("===== ");
    line.append(entry.name.as_str());
    adoc.push(line);
    adoc.push(String::new());
    let ghost base = lines_of(old(adoc)@) + seq![entry_heading(entry.name@), blank()];
    proof {
        assert(lines_of(adoc@) =~= base);
    }
    let trimmed = trim_str(entry.content.as_str());
    let pieces = split_str(trimmed.as_str(), '\n');
    let ghost bl = body_lines(entry.content@);
    proof {
        assert(bl.len() == pieces@.len());
        assert(bl.take(0) =~= Seq::<Seq<char>>::empty());
        assert(base + bl.take(0) =~= base);
    }
    let n = pieces.len();
    let mut i: usize = 0;
    while i < n
        invariant
            n == pieces@.len(),
            i <= n,
            bl == body_lines(entry.content@),
            bl.len() == n,
            lines_of(pieces@) == split_on(trim_spec(entry.content@), '\n'),
            lines_of(adoc@) == base + bl.take(i as int),
        decreases n - i,
    {
        let ghost pre = adoc@;
        proof {
            assert(lines_of(pieces@)[i as int] == pieces@[i as int]@);
        }
        if i + 1 < n {
            let mut l = pieces[i].clone();
            l.append(" +");
            adoc.push(l);
            proof {
                assert(bl[i as int] == pieces@[i as int]@ + " +"@);
                assert(lines_of(adoc@) =~= lines_of(pre).push(bl[i as int]));
            }
        } else {
            adoc.push(pieces[i].clone());
            proof {
                assert(bl[i as int] == pieces@[i as int]@);
                assert(lines_of(adoc@) =~= lines_of(pre).push(bl[i as int]));
            }
        }
        proof {
            assert(bl.take(i as int + 1) =~= bl.take(i as int).push(bl[i as int]));
            assert(lines_of(adoc@) =~= base + bl.take(i as int + 1));
        }
        i = i + 1;
    }
    adoc.push(String::new());
    proof {
        assert(bl.take(bl.len() as int) =~= bl);
        assert(lines_of(adoc@) =~= lines_of(old(adoc)@) + entry_lines(*entry));
    }
}

/// Walks a well-formed book in ascending key order and emits the whole
/// outline document.
pub fn adoc(title: &str, book: &DayBook) -> (r: Result<Vec<String>, BookError>)
    requires
        book_wf(*book),
    ensures
        r matches Ok(lines) && lines_of(lines@) == doc_lines(title@, *book),
{
    let mut out: Vec<String> = Vec::new();
    proof {
        assert(lines_of(Seq::<String>::empty()) =~= Seq::<Seq<char>>::empty());
    }
    append_header(title, &mut out);
    proof {
        assert(years_lines(book.years@.take(0)) == Seq::<Seq<char>>::empty()) by {
            assert(book.years@.take(0) =~= Seq::<YearGroup>::empty());
        }
        assert(lines_of(out@) =~= header_lines(title@) + years_lines(book.years@.take(0)));
    }
    let ny = book.years.len();
    let mut yi: usize = 0;
    while yi < ny
        invariant
            book_wf(*book),
            ny == book.years@.len(),
            yi <= ny,
            lines_of(out@) == header_lines(title@) + years_lines(book.years@.take(yi as int)),
        decreases ny - yi,
    {
        let yg = &book.years[yi];
        proof {
            assert(book.years@[yi as int] == *yg);
        }
        let ghost base_y = header_lines(title@) + years_lines(book.years@.take(yi as int));
        append_year(yg.year, &mut out);
        proof {
            assert(months_lines(yg.year, yg.months@.take(0)) == Seq::<Seq<char>>::empty()) by {
                assert(yg.months@.take(0) =~= Seq::<MonthGroup>::empty());
            }
            assert(lines_of(out@) =~= base_y + seq![year_heading(yg.year), blank()]
                + months_lines(yg.year, yg.months@.take(0)));
        }
        let nm = yg.months.len();
        let mut mi: usize = 0;
        while mi < nm
            invariant
                book_wf(*book),
                ny == book.years@.len(),
                yi < ny,
                *yg == book.years@[yi as int],
                base_y == header_lines(title@) + years_lines(book.years@.take(yi as int)),
                nm == yg.months@.len(),
                mi <= nm,
                lines_of(out@) == base_y + seq![year_heading(yg.year), blank()]
                    + months_lines(yg.year, yg.months@.take(mi as int)),
            decreases nm - mi,
        {
            let mg = &yg.months[mi];
            proof {
                assert(crate::book::year_wf(*yg));
                assert(crate::book::month_wf(yg.months@[mi as int], yg.year));
                assert(yg.months@[mi as int] == *mg);
            }
            let ghost base_m = base_y + seq![year_heading(yg.year), blank()]
                + months_lines(yg.year, yg.months@.take(mi as int));
            let name = match append_month(mg.month, yg.year, &mut out) {
                Ok(name) => name,
                Err(er) => {
                    proof {
                        assert(false);
                    }
                    return Err(er);
                }
            };
            proof {
                assert(days_lines(month_name(mg.month as int), mg.days@.take(0))
                    == Seq::<Seq<char>>::empty()) by {
                    assert(mg.days@.take(0) =~= Seq::<DayGroup>::empty());
                }
                assert(lines_of(out@) =~= base_m
                    + seq![month_heading(yg.year, month_name(mg.month as int)), blank()]
                    + days_lines(month_name(mg.month as int), mg.days@.take(0)));
            }
            let nd = mg.days.len();
            let mut di: usize = 0;
            while di < nd
                invariant
                    book_wf(*book),
                    ny == book.years@.len(),
                    yi < ny,
                    *yg == book.years@[yi as int],
                    mi < nm == yg.months@.len(),
                    *mg == yg.months@[mi as int],
                    crate::book::month_wf(*mg, yg.year),
                    name@ == month_name(mg.month as int),
                    nd == mg.days@.len(),
                    di <= nd,
                    lines_of(out@) == base_m
                        + seq![month_heading(yg.year, month_name(mg.month as int)), blank()]
                        + days_lines(month_name(mg.month as int), mg.days@.take(di as int)),
                decreases nd - di,
            {
                let dg = &mg.days[di];
                proof {
                    assert(mg.days@[di as int] == *dg);
                }
                let ghost base_d = base_m
                    + seq![month_heading(yg.year, month_name(mg.month as int)), blank()]
                    + days_lines(month_name(mg.month as int), mg.days@.take(di as int));
                append_day(name.as_str(), dg.day, &mut out);
                proof {
                    assert(entries_lines(dg.entries@.take(0)) == Seq::<Seq<char>>::empty()) by {
                        assert(dg.entries@.take(0) =~= Seq::<Entry>::empty());
                    }
                    assert(lines_of(out@) =~= base_d
                        + seq![day_heading(month_name(mg.month as int), dg.day), blank()]
                        + entries_lines(dg.entries@.take(0)));
                }
                let ne = dg.entries.len();
                let mut ei: usize = 0;
                while ei < ne
                    invariant
                        *dg == mg.days@[di as int],
                        name@ == month_name(mg.month as int),
                        ne == dg.entries@.len(),
                        ei <= ne,
                        lines_of(out@) == base_d
                            + seq![day_heading(month_name(mg.month as int), dg.day), blank()]
                            + entries_lines(dg.entries@.take(ei as int)),
                    decreases ne - ei,
                {
                    append_entry(&dg.entries[ei], &mut out);
                    proof {
                        lemma_entries_lines_take(dg.entries@, ei as int);
                        assert(lines_of(out@) =~= base_d
                            + seq![day_heading(month_name(mg.month as int), dg.day), blank()]
                            + entries_lines(dg.entries@.take(ei as int + 1)));
                    }
                    ei = ei + 1;
                }
                proof {
                    assert(dg.entries@.take(ne as int) =~= dg.entries@);
                    lemma_days_lines_take(month_name(mg.month as int), mg.days@, di as int);
                    assert(day_lines(month_name(mg.month as int), *dg)
                        =~= seq![day_heading(month_name(mg.month as int), dg.day), blank()]
                            + entries_lines(dg.entries@));
                    assert(lines_of(out@) =~= base_m
                        + seq![month_heading(yg.year, month_name(mg.month as int)), blank()]
                        + days_lines(month_name(mg.month as int), mg.days@.take(di as int + 1)));
                }
                di = di + 1;
            }
            proof {
                assert(mg.days@.take(nd as int) =~= mg.days@);
                lemma_months_lines_take(yg.year, yg.months@, mi as int);
                assert(month_lines(yg.year, *mg)
                    =~= seq![month_heading(yg.year, month_name(mg.month as int)), blank()]
                        + days_lines(month_name(mg.month as int), mg.days@));
                assert(lines_of(out@) =~= base_y + seq![year_heading(yg.year), blank()]
                    + months_lines(yg.year, yg.months@.take(mi as int + 1)));
            }
            mi = mi + 1;
        }
        proof {
            assert(yg.months@.take(nm as int) =~= yg.months@);
            lemma_years_lines_take(book.years@, yi as int);
            assert(year_lines(*yg) =~= seq![year_heading(yg.year), blank()]
                + months_lines(yg.year, yg.months@));
            assert(lines_of(out@) =~= header_lines(title@)
                + years_lines(book.years@.take(yi as int + 1)));
        }
        yi = yi + 1;
    }
    proof {
        assert(book.years@.take(ny as int) =~= book.years@);
    }
    Ok(out)
}

} // verus!
