//! Grouping parsed entries into the ordered year → month → day hierarchy.

use vstd::prelude::*;
use crate::dates::Date;
use crate::parse::Entry;

verus! {

/// The entries of one calendar day, in arrival order.
pub struct DayGroup {
    pub day: u32,
    pub entries: Vec<Entry>,
}

/// The days of one month that hold entries, ascending by day.
pub struct MonthGroup {
    pub month: u32,
    pub days: Vec<DayGroup>,
}

/// The months of one year that hold entries, ascending by month.
pub struct YearGroup {
    pub year: u32,
    pub months: Vec<MonthGroup>,
}

/// The whole hierarchy: the years that hold entries, ascending by year.
pub struct DayBook {
    pub years: Vec<YearGroup>,
}

/// A day group is non-empty, in calendar range, and holds only entries
/// dated to exactly this (year, month, day).
pub open spec fn day_wf(g: DayGroup, y: u32, m: u32) -> bool {
    &&& 1 <= g.day <= 31
    &&& g.entries@.len() > 0
    &&& forall|i: int| 0 <= i < g.entries@.len()
        ==> (#[trigger] g.entries@[i]).date == (Date { year: y, month: m, day: g.day })
}

pub open spec fn days_wf(days: Seq<DayGroup>, y: u32, m: u32) -> bool {
    &&& forall|i: int| 0 <= i < days.len() ==> day_wf(#[trigger] days[i], y, m)
    &&& forall|i: int, j: int| 0 <= i < j < days.len()
        ==> (#[trigger] days[i]).day < (#[trigger] days[j]).day
}

pub open spec fn month_wf(g: MonthGroup, y: u32) -> bool {
    &&& 1 <= g.month <= 12
    &&& g.days@.len() > 0
    &&& days_wf(g.days@, y, g.month)
}

pub open spec fn months_wf(months: Seq<MonthGroup>, y: u32) -> bool {
    &&& forall|i: int| 0 <= i < months.len() ==> month_wf(#[trigger] months[i], y)
    &&& forall|i: int, j: int| 0 <= i < j < months.len()
        ==> (#[trigger] months[i]).month < (#[trigger] months[j]).month
}

pub open spec fn year_wf(g: YearGroup) -> bool {
    &&& g.months@.len() > 0
    &&& months_wf(g.months@, g.year)
}

pub open spec fn years_wf(years: Seq<YearGroup>) -> bool {
    &&& forall|i: int| 0 <= i < years.len() ==> year_wf(#[trigger] years[i])
    &&& forall|i: int, j: int| 0 <= i < j < years.len()
        ==> (#[trigger] years[i]).year < (#[trigger] years[j]).year
}

pub open spec fn book_wf(b: DayBook) -> bool {
    years_wf(b.years@)
}

/// The entries stored under day `d`, over all groups carrying that key.
pub open spec fn day_bucket(days: Seq<DayGroup>, d: u32) -> Seq<Entry>
    decreases days.len(),
{
    if days.len() == 0 {
        Seq::<Entry>::empty()
    } else {
        (if days[0].day == d { days[0].entries@ } else { Seq::<Entry>::empty() })
            + day_bucket(days.drop_first(), d)
    }
}

/// The day groups stored under month `m`, over all groups carrying that key.
pub open spec fn month_days(months: Seq<MonthGroup>, m: u32) -> Seq<DayGroup>
    decreases months.len(),
{
    if months.len() == 0 {
        Seq::<DayGroup>::empty()
    } else {
        (if months[0].month == m { months[0].days@ } else { Seq::<DayGroup>::empty() })
            + month_days(months.drop_first(), m)
    }
}

/// The month groups stored under year `y`, over all groups carrying that key.
pub open spec fn year_months(years: Seq<YearGroup>, y: u32) -> Seq<MonthGroup>
    decreases years.len(),
{
    if years.len() == 0 {
        Seq::<MonthGroup>::empty()
    } else {
        (if years[0].year == y { years[0].months@ } else { Seq::<MonthGroup>::empty() })
            + year_months(years.drop_first(), y)
    }
}

/// The leaf list of entries stored under the date `dt`.
pub open spec fn years_bucket(years: Seq<YearGroup>, dt: Date) -> Seq<Entry> {
    day_bucket(month_days(year_months(years, dt.year), dt.month), dt.day)
}

/// The leaf list of entries stored under the date `dt`.
pub open spec fn book_bucket(b: DayBook, dt: Date) -> Seq<Entry> {
    years_bucket(b.years@, dt)
}

/// The entries dated `dt`.
pub open spec fn has_date(dt: Date) -> spec_fn(Entry) -> bool {
    |e: Entry| e.date == dt
}

proof fn lemma_day_bucket_add(a: Seq<DayGroup>, b: Seq<DayGroup>, d: u32)
    ensures
        day_bucket(a + b, d) == day_bucket(a, d) + day_bucket(b, d),
    decreases a.len(),
{
    if a.len() == 0 {
        assert(a + b =~= b);
        assert(Seq::<Entry>::empty() + day_bucket(b, d) =~= day_bucket(b, d));
    } else {
        assert((a + b).len() > 0);
        assert((a + b)[0] == a[0]);
        assert((a + b).drop_first() =~= a.drop_first() + b);
        lemma_day_bucket_add(a.drop_first(), b, d);
        let m0 = if a[0].day == d { a[0].entries@ } else { Seq::<Entry>::empty() };
        assert(m0 + (day_bucket(a.drop_first(), d) + day_bucket(b, d))
            =~= (m0 + day_bucket(a.drop_first(), d)) + day_bucket(b, d));
    }
}

proof fn lemma_month_days_add(a: Seq<MonthGroup>, b: Seq<MonthGroup>, m: u32)
    ensures
        month_days(a + b, m) == month_days(a, m) + month_days(b, m),
    decreases a.len(),
{
    if a.len() == 0 {
        assert(a + b =~= b);
        assert(Seq::<DayGroup>::empty() + month_days(b, m) =~= month_days(b, m));
    } else {
        assert((a + b)[0] == a[0]);
        assert((a + b).drop_first() =~= a.drop_first() + b);
        lemma_month_days_add(a.drop_first(), b, m);
        let m0 = if a[0].month == m { a[0].days@ } else { Seq::<DayGroup>::empty() };
        assert(m0 + (month_days(a.drop_first(), m) + month_days(b, m))
            =~= (m0 + month_days(a.drop_first(), m)) + month_days(b, m));
    }
}

proof fn lemma_year_months_add(a: Seq<YearGroup>, b: Seq<YearGroup>, y: u32)
    ensures
        year_months(a + b, y) == year_months(a, y) + year_months(b, y),
    decreases a.len(),
{
    if a.len() == 0 {
        assert(a + b =~= b);
        assert(Seq::<MonthGroup>::empty() + year_months(b, y) =~= year_months(b, y));
    } else {
        assert((a + b)[0] == a[0]);
        assert((a + b).drop_first() =~= a.drop_first() + b);
        lemma_year_months_add(a.drop_first(), b, y);
        let m0 = if a[0].year == y { a[0].months@ } else { Seq::<MonthGroup>::empty() };
        assert(m0 + (year_months(a.drop_first(), y) + year_months(b, y))
            =~= (m0 + year_months(a.drop_first(), y)) + year_months(b, y));
    }
}

proof fn lemma_day_bucket_three(prefix: Seq<DayGroup>, g: DayGroup, suffix: Seq<DayGroup>, d: u32)
    ensures
        day_bucket(prefix + seq![g] + suffix, d) == day_bucket(prefix, d)
            + (if g.day == d { g.entries@ } else { Seq::<Entry>::empty() })
            + day_bucket(suffix, d),
{
    lemma_day_bucket_add(prefix + seq![g], suffix, d);
    lemma_day_bucket_add(prefix, seq![g], d);
    let mid = if g.day == d { g.entries@ } else { Seq::<Entry>::empty() };
    assert(seq![g].drop_first() =~= Seq::<DayGroup>::empty());
    assert(day_bucket(Seq::<DayGroup>::empty(), d) == Seq::<Entry>::empty());
    assert(mid + Seq::<Entry>::empty() =~= mid);
    assert(day_bucket(seq![g], d) == mid);
}

proof fn lemma_month_days_three(prefix: Seq<MonthGroup>, g: MonthGroup, suffix: Seq<MonthGroup>, m: u32)
    ensures
        month_days(prefix + seq![g] + suffix, m) == month_days(prefix, m)
            + (if g.month == m { g.days@ } else { Seq::<DayGroup>::empty() })
            + month_days(suffix, m),
{
    lemma_month_days_add(prefix + seq![g], suffix, m);
    lemma_month_days_add(prefix, seq![g], m);
    let mid = if g.month == m { g.days@ } else { Seq::<DayGroup>::empty() };
    assert(seq![g].drop_first() =~= Seq::<MonthGroup>::empty());
    assert(month_days(Seq::<MonthGroup>::empty(), m) == Seq::<DayGroup>::empty());
    assert(mid + Seq::<DayGroup>::empty() =~= mid);
    assert(month_days(seq![g], m) == mid);
}

proof fn lemma_year_months_three(prefix: Seq<YearGroup>, g: YearGroup, suffix: Seq<YearGroup>, y: u32)
    ensures
        year_months(prefix + seq![g] + suffix, y) == year_months(prefix, y)
            + (if g.year == y { g.months@ } else { Seq::<MonthGroup>::empty() })
            + year_months(suffix, y),
{
    lemma_year_months_add(prefix + seq![g], suffix, y);
    lemma_year_months_add(prefix, seq![g], y);
    let mid = if g.year == y { g.months@ } else { Seq::<MonthGroup>::empty() };
    assert(seq![g].drop_first() =~= Seq::<YearGroup>::empty());
    assert(year_months(Seq::<YearGroup>::empty(), y) == Seq::<MonthGroup>::empty());
    assert(mid + Seq::<MonthGroup>::empty() =~= mid);
    assert(year_months(seq![g], y) == mid);
}

proof fn lemma_day_bucket_absent(s: Seq<DayGroup>, d: u32)
    requires
        forall|i: int| 0 <= i < s.len() ==> (#[trigger] s[i]).day != d,
    ensures
        day_bucket(s, d) == Seq::<Entry>::empty(),
    decreases s.len(),
{
    if s.len() > 0 {
        assert(forall|i: int| 0 <= i < s.drop_first().len()
            ==> (#[trigger] s.drop_first()[i]).day != d);
        lemma_day_bucket_absent(s.drop_first(), d);
        assert(Seq::<Entry>::empty() + Seq::<Entry>::empty() =~= Seq::<Entry>::empty());
    }
}

proof fn lemma_month_days_absent(s: Seq<MonthGroup>, m: u32)
    requires
        forall|i: int| 0 <= i < s.len() ==> (#[trigger] s[i]).month != m,
    ensures
        month_days(s, m) == Seq::<DayGroup>::empty(),
    decreases s.len(),
{
    if s.len() > 0 {
        assert(forall|i: int| 0 <= i < s.drop_first().len()
            ==> (#[trigger] s.drop_first()[i]).month != m);
        lemma_month_days_absent(s.drop_first(), m);
        assert(Seq::<DayGroup>::empty() + Seq::<DayGroup>::empty() =~= Seq::<DayGroup>::empty());
    }
}

proof fn lemma_year_months_absent(s: Seq<YearGroup>, y: u32)
    requires
        forall|i: int| 0 <= i < s.len() ==> (#[trigger] s[i]).year != y,
    ensures
        year_months(s, y) == Seq::<MonthGroup>::empty(),
    decreases s.len(),
{
    if s.len() > 0 {
        assert(forall|i: int| 0 <= i < s.drop_first().len()
            ==> (#[trigger] s.drop_first()[i]).year != y);
        lemma_year_months_absent(s.drop_first(), y);
        assert(Seq::<MonthGroup>::empty() + Seq::<MonthGroup>::empty()
            =~= Seq::<MonthGroup>::empty());
    }
}

/// Appends `e` to the group of its day, creating the group in key order on
/// first access; every other day's bucket is untouched.
fn insert_day(days: &mut Vec<DayGroup>, e: Entry)
    requires
        days_wf(old(days)@, e.date.year, e.date.month),
        e.date.wf(),
    ensures
        days_wf(final(days)@, e.date.year, e.date.month),
        day_bucket(final(days)@, e.date.day) == day_bucket(old(days)@, e.date.day).push(e),
        forall|d: u32| d != e.date.day
            ==> day_bucket(final(days)@, d) == day_bucket(old(days)@, d),
{
    let day = e.date.day;
    let ghost y = e.date.year;
    let ghost m = e.date.month;
    let ghost dv0 = days@;
    let mut i: usize = 0;
    while i < days.len() && days[i].day < day
        invariant
            days@ == dv0,
            i <= dv0.len(),
            forall|j: int| 0 <= j < i ==> (#[trigger] dv0[j]).day < day,
        decreases dv0.len() - i,
    {
        i = i + 1;
    }
    let ghost prefix = dv0.subrange(0, i as int);
    if i < days.len() && days[i].day == day {
        let ghost suffix = dv0.subrange(i as int + 1, dv0.len() as int);
        let mut g = days.remove(i);
        let ghost gold = g;
        g.entries.push(e);
        let ghost g2 = g;
        days.insert(i, g);
        proof {
            assert(dv0 =~= prefix + seq![gold] + suffix);
            assert(days@ =~= prefix + seq![g2] + suffix);
            assert forall|d: u32| day_bucket(days@, d)
                == (if d == day { day_bucket(dv0, d).push(e) } else { day_bucket(dv0, d) }) by {
                lemma_day_bucket_three(prefix, gold, suffix, d);
                lemma_day_bucket_three(prefix, g2, suffix, d);
                if d == day {
                    assert forall|j: int| 0 <= j < prefix.len()
                        implies (#[trigger] prefix[j]).day != d by {
                        assert(prefix[j] == dv0[j]);
                    }
                    lemma_day_bucket_absent(prefix, d);
                    assert forall|j: int| 0 <= j < suffix.len()
                        implies (#[trigger] suffix[j]).day != d by {
                        assert(suffix[j] == dv0[j + i + 1]);
                        assert(dv0[i as int].day < dv0[j + i + 1].day);
                    }
                    lemma_day_bucket_absent(suffix, d);
                    assert(Seq::<Entry>::empty() + gold.entries@ + Seq::<Entry>::empty()
                        =~= gold.entries@);
                    assert(Seq::<Entry>::empty() + g2.entries@ + Seq::<Entry>::empty()
                        =~= g2.entries@);
                    assert(g2.entries@ == gold.entries@.push(e));
                } else {
                    assert(day_bucket(days@, d) =~= day_bucket(dv0, d));
                }
            }
            assert(e.date == (Date { year: y, month: m, day: day }));
            assert(day_wf(g2, y, m));
            assert forall|a: int, b: int| 0 <= a < b < days@.len()
                implies (#[trigger] days@[a]).day < (#[trigger] days@[b]).day by {
                assert(days@[a].day == dv0[a].day);
                assert(days@[b].day == dv0[b].day);
            }
            assert(days_wf(days@, y, m));
        }
    } else {
        let ghost suffix = dv0.subrange(i as int, dv0.len() as int);
        let mut es: Vec<Entry> = Vec::new();
        es.push(e);
        let ng = DayGroup { day, entries: es };
        let ghost ngg = ng;
        days.insert(i, ng);
        proof {
            assert(dv0 =~= prefix + suffix);
            assert(days@ =~= prefix + seq![ngg] + suffix);
            lemma_day_bucket_add(prefix, suffix, day);
            assert forall|j: int| 0 <= j < prefix.len()
                implies (#[trigger] prefix[j]).day != day by {
                assert(prefix[j] == dv0[j]);
            }
            assert forall|j: int| 0 <= j < suffix.len()
                implies (#[trigger] suffix[j]).day != day by {
                assert(suffix[j] == dv0[j + i]);
                if j == 0 {
                    assert(dv0[i as int].day != day);
                } else {
                    assert(dv0[i as int].day < dv0[j + i].day);
                    assert(dv0[i as int].day >= day);
                }
            }
            assert forall|d: u32| day_bucket(days@, d)
                == (if d == day { day_bucket(dv0, d).push(e) } else { day_bucket(dv0, d) }) by {
                lemma_day_bucket_three(prefix, ngg, suffix, d);
                lemma_day_bucket_add(prefix, suffix, d);
                if d == day {
                    lemma_day_bucket_absent(prefix, d);
                    lemma_day_bucket_absent(suffix, d);
                    assert(Seq::<Entry>::empty() + ngg.entries@ + Seq::<Entry>::empty()
                        =~= ngg.entries@);
                    assert(ngg.entries@ =~= Seq::<Entry>::empty().push(e));
                    assert(day_bucket(dv0, d) =~= Seq::<Entry>::empty());
                } else {
                    assert(day_bucket(days@, d) =~= day_bucket(dv0, d));
                }
            }
            assert(e.date == (Date { year: y, month: m, day: day }));
            assert(day_wf(ngg, y, m));
            assert forall|a: int, b: int| 0 <= a < b < days@.len()
                implies (#[trigger] days@[a]).day < (#[trigger] days@[b]).day by {
                if b < i {
                    assert(days@[a] == dv0[a] && days@[b] == dv0[b]);
                } else if a > i {
                    assert(days@[a] == dv0[a - 1] && days@[b] == dv0[b - 1]);
                } else if a < i && b == i {
                    assert(days@[a] == dv0[a]);
                } else if a == i {
                    assert(days@[b] == dv0[b - 1]);
                    assert(dv0[i as int].day > day || i >= dv0.len());
                    if b - 1 == i {
                    } else {
                        assert(dv0[i as int].day < dv0[b - 1].day);
                    }
                } else {
                    assert(a < i && b > i);
                    assert(days@[a] == dv0[a] && days@[b] == dv0[b - 1]);
                    assert(dv0[a].day < day);
                    if b - 1 == i {
                        assert(days@[b].day > day || i >= dv0.len());
                    } else {
                        assert(dv0[i as int].day >= day);
                    }
                }
            }
            assert(days_wf(days@, y, m));
        }
    }
}

/// Appends `e` under its month and day, creating missing levels in key
/// order; every other (month, day) bucket is untouched.
fn insert_month(months: &mut Vec<MonthGroup>, e: Entry)
    requires
        months_wf(old(months)@, e.date.year),
        e.date.wf(),
    ensures
        months_wf(final(months)@, e.date.year),
        day_bucket(month_days(final(months)@, e.date.month), e.date.day)
            == day_bucket(month_days(old(months)@, e.date.month), e.date.day).push(e),
        forall|m: u32, d: u32| !(m == e.date.month && d == e.date.day)
            ==> day_bucket(month_days(final(months)@, m), d)
                == day_bucket(month_days(old(months)@, m), d),
{
    let mo = e.date.month;
    let ghost y = e.date.year;
    let ghost mv0 = months@;
    let mut i: usize = 0;
    while i < months.len() && months[i].month < mo
        invariant
            months@ == mv0,
            i <= mv0.len(),
            forall|j: int| 0 <= j < i ==> (#[trigger] mv0[j]).month < mo,
        decreases mv0.len() - i,
    {
        i = i + 1;
    }
    let ghost prefix = mv0.subrange(0, i as int);
    if i < months.len() && months[i].month == mo {
        let ghost suffix = mv0.subrange(i as int + 1, mv0.len() as int);
        let mut g = months.remove(i);
        let ghost gold = g;
        insert_day(&mut g.days, e);
        let ghost g2 = g;
        months.insert(i, g);
        proof {
            assert(mv0 =~= prefix + seq![gold] + suffix);
            assert(months@ =~= prefix + seq![g2] + suffix);
            assert forall|j: int| 0 <= j < prefix.len()
                implies (#[trigger] prefix[j]).month != mo by {
                assert(prefix[j] == mv0[j]);
            }
            lemma_month_days_absent(prefix, mo);
            assert forall|j: int| 0 <= j < suffix.len()
                implies (#[trigger] suffix[j]).month != mo by {
                assert(suffix[j] == mv0[j + i + 1]);
                assert(mv0[i as int].month < mv0[j + i + 1].month);
            }
            lemma_month_days_absent(suffix, mo);
            lemma_month_days_three(prefix, gold, suffix, mo);
            lemma_month_days_three(prefix, g2, suffix, mo);
            assert(Seq::<DayGroup>::empty() + gold.days@ + Seq::<DayGroup>::empty()
                =~= gold.days@);
            assert(Seq::<DayGroup>::empty() + g2.days@ + Seq::<DayGroup>::empty() =~= g2.days@);
            assert(month_days(mv0, mo) == gold.days@);
            assert(month_days(months@, mo) == g2.days@);
            assert forall|m: u32| m != mo
                implies month_days(months@, m) == month_days(mv0, m) by {
                lemma_month_days_three(prefix, gold, suffix, m);
                lemma_month_days_three(prefix, g2, suffix, m);
            }
            assert(g2.days@.len() > 0) by {
                if g2.days@.len() == 0 {
                    assert(day_bucket(g2.days@, e.date.day) == Seq::<Entry>::empty());
                }
            }
            assert(month_wf(g2, y));
            assert forall|a: int, b: int| 0 <= a < b < months@.len()
                implies (#[trigger] months@[a]).month < (#[trigger] months@[b]).month by {
                assert(months@[a].month == mv0[a].month);
                assert(months@[b].month == mv0[b].month);
            }
            assert(months_wf(months@, y));
        }
    } else {
        let ghost suffix = mv0.subrange(i as int, mv0.len() as int);
        let mut ds: Vec<DayGroup> = Vec::new();
        insert_day(&mut ds, e);
        let ng = MonthGroup { month: mo, days: ds };
        let ghost ngg = ng;
        months.insert(i, ng);
        proof {
            assert(mv0 =~= prefix + suffix);
            assert(months@ =~= prefix + seq![ngg] + suffix);
            assert forall|j: int| 0 <= j < prefix.len()
                implies (#[trigger] prefix[j]).month != mo by {
                assert(prefix[j] == mv0[j]);
            }
            assert forall|j: int| 0 <= j < suffix.len()
                implies (#[trigger] suffix[j]).month != mo by {
                assert(suffix[j] == mv0[j + i]);
                if j == 0 {
                    assert(mv0[i as int].month != mo);
                } else {
                    assert(mv0[i as int].month < mv0[j + i].month);
                    assert(mv0[i as int].month >= mo);
                }
            }
            lemma_month_days_absent(prefix, mo);
            lemma_month_days_absent(suffix, mo);
            lemma_month_days_three(prefix, ngg, suffix, mo);
            lemma_month_days_add(prefix, suffix, mo);
            assert(Seq::<DayGroup>::empty() + ngg.days@ + Seq::<DayGroup>::empty()
                =~= ngg.days@);
            assert(month_days(mv0, mo) == Seq::<DayGroup>::empty());
            assert(month_days(months@, mo) == ngg.days@);
            assert(day_bucket(Seq::<DayGroup>::empty(), e.date.day) == Seq::<Entry>::empty());
            assert forall|m: u32| m != mo
                implies month_days(months@, m) == month_days(mv0, m) by {
                lemma_month_days_three(prefix, ngg, suffix, m);
                lemma_month_days_add(prefix, suffix, m);
            }
            assert forall|d: u32| d != e.date.day
                implies day_bucket(month_days(months@, mo), d)
                    == day_bucket(month_days(mv0, mo), d) by {
                assert(day_bucket(ngg.days@, d) == day_bucket(Seq::<DayGroup>::empty(), d));
                assert(day_bucket(Seq::<DayGroup>::empty(), d) == Seq::<Entry>::empty());
            }
            assert(ngg.days@.len() > 0) by {
                if ngg.days@.len() == 0 {
                    assert(day_bucket(ngg.days@, e.date.day) == Seq::<Entry>::empty());
                }
            }
            assert(month_wf(ngg, y));
            assert forall|a: int, b: int| 0 <= a < b < months@.len()
                implies (#[trigger] months@[a]).month < (#[trigger] months@[b]).month by {
                if b < i {
                    assert(months@[a] == mv0[a] && months@[b] == mv0[b]);
                } else if a > i {
                    assert(months@[a] == mv0[a - 1] && months@[b] == mv0[b - 1]);
                } else if a < i && b == i {
                    assert(months@[a] == mv0[a]);
                } else if a == i {
                    assert(months@[b] == mv0[b - 1]);
                    if b - 1 > i {
                        assert(mv0[i as int].month < mv0[b - 1].month);
                    }
                } else {
                    assert(a < i && b > i);
                    assert(months@[a] == mv0[a] && months@[b] == mv0[b - 1]);
                    if b - 1 > i {
                        assert(mv0[i as int].month >= mo);
                        assert(mv0[i as int].month < mv0[b - 1].month);
                    }
                }
            }
            assert(months_wf(months@, y));
        }
    }
}

/// Appends `e` under its year, month and day, creating missing levels in
/// key order; every other date's bucket is untouched.
fn insert_year(years: &mut Vec<YearGroup>, e: Entry)
    requires
        years_wf(old(years)@),
        e.date.wf(),
    ensures
        years_wf(final(years)@),
        years_bucket(final(years)@, e.date) == years_bucket(old(years)@, e.date).push(e),
        forall|dt: Date| dt != e.date
            ==> years_bucket(final(years)@, dt) == years_bucket(old(years)@, dt),
{
    let yr = e.date.year;
    let ghost edate = e.date;
    let ghost yv0 = years@;
    let mut i: usize = 0;
    while i < years.len() && years[i].year < yr
        invariant
            years@ == yv0,
            i <= yv0.len(),
            forall|j: int| 0 <= j < i ==> (#[trigger] yv0[j]).year < yr,
        decreases yv0.len() - i,
    {
        i = i + 1;
    }
    let ghost prefix = yv0.subrange(0, i as int);
    if i < years.len() && years[i].year == yr {
        let ghost suffix = yv0.subrange(i as int + 1, yv0.len() as int);
        let mut g = years.remove(i);
        let ghost gold = g;
        insert_month(&mut g.months, e);
        let ghost g2 = g;
        years.insert(i, g);
        proof {
            assert(yv0 =~= prefix + seq![gold] + suffix);
            assert(years@ =~= prefix + seq![g2] + suffix);
            assert forall|j: int| 0 <= j < prefix.len()
                implies (#[trigger] prefix[j]).year != yr by {
                assert(prefix[j] == yv0[j]);
            }
            lemma_year_months_absent(prefix, yr);
            assert forall|j: int| 0 <= j < suffix.len()
                implies (#[trigger] suffix[j]).year != yr by {
                assert(suffix[j] == yv0[j + i + 1]);
                assert(yv0[i as int].year < yv0[j + i + 1].year);
            }
            lemma_year_months_absent(suffix, yr);
            lemma_year_months_three(prefix, gold, suffix, yr);
            lemma_year_months_three(prefix, g2, suffix, yr);
            assert(Seq::<MonthGroup>::empty() + gold.months@ + Seq::<MonthGroup>::empty()
                =~= gold.months@);
            assert(Seq::<MonthGroup>::empty() + g2.months@ + Seq::<MonthGroup>::empty()
                =~= g2.months@);
            assert(year_months(yv0, yr) == gold.months@);
            assert(year_months(years@, yr) == g2.months@);
            assert forall|yy: u32| yy != yr
                implies year_months(years@, yy) == year_months(yv0, yy) by {
                lemma_year_months_three(prefix, gold, suffix, yy);
                lemma_year_months_three(prefix, g2, suffix, yy);
            }
            assert(years_bucket(years@, edate) == years_bucket(yv0, edate).push(e));
            assert forall|dt: Date| dt != edate
                implies years_bucket(years@, dt) == years_bucket(yv0, dt) by {
                if dt.year == yr {
                    assert(!(dt.month == edate.month && dt.day == edate.day));
                }
            }
            assert(g2.months@.len() > 0) by {
                if g2.months@.len() == 0 {
                    assert(month_days(g2.months@, edate.month) == Seq::<DayGroup>::empty());
                    assert(day_bucket(Seq::<DayGroup>::empty(), edate.day)
                        == Seq::<Entry>::empty());
                }
            }
            assert(year_wf(g2));
            assert forall|a: int, b: int| 0 <= a < b < years@.len()
                implies (#[trigger] years@[a]).year < (#[trigger] years@[b]).year by {
                assert(years@[a].year == yv0[a].year);
                assert(years@[b].year == yv0[b].year);
            }
            assert(years_wf(years@));
        }
    } else {
        let ghost suffix = yv0.subrange(i as int, yv0.len() as int);
        let mut ms: Vec<MonthGroup> = Vec::new();
        insert_month(&mut ms, e);
        let ng = YearGroup { year: yr, months: ms };
        let ghost ngg = ng;
        years.insert(i, ng);
        proof {
            assert(yv0 =~= prefix + suffix);
            assert(years@ =~= prefix + seq![ngg] + suffix);
            assert forall|j: int| 0 <= j < prefix.len()
                implies (#[trigger] prefix[j]).year != yr by {
                assert(prefix[j] == yv0[j]);
            }
            assert forall|j: int| 0 <= j < suffix.len()
                implies (#[trigger] suffix[j]).year != yr by {
                assert(suffix[j] == yv0[j + i]);
                if j == 0 {
                    assert(yv0[i as int].year != yr);
                } else {
                    assert(yv0[i as int].year < yv0[j + i].year);
                    assert(yv0[i as int].year >= yr);
                }
            }
            lemma_year_months_absent(prefix, yr);
            lemma_year_months_absent(suffix, yr);
            lemma_year_months_three(prefix, ngg, suffix, yr);
            lemma_year_months_add(prefix, suffix, yr);
            assert(Seq::<MonthGroup>::empty() + ngg.months@ + Seq::<MonthGroup>::empty()
                =~= ngg.months@);
            assert(year_months(yv0, yr) == Seq::<MonthGroup>::empty());
            assert(year_months(years@, yr) == ngg.months@);
            assert(month_days(Seq::<MonthGroup>::empty(), edate.month)
                == Seq::<DayGroup>::empty());
            assert(day_bucket(Seq::<DayGroup>::empty(), edate.day) == Seq::<Entry>::empty());
            assert(years_bucket(years@, edate) == years_bucket(yv0, edate).push(e));
            assert forall|yy: u32| yy != yr
                implies year_months(years@, yy) == year_months(yv0, yy) by {
                lemma_year_months_three(prefix, ngg, suffix, yy);
                lemma_year_months_add(prefix, suffix, yy);
            }
            assert forall|dt: Date| dt != edate
                implies years_bucket(years@, dt) == years_bucket(yv0, dt) by {
                if dt.year == yr {
                    assert(!(dt.month == edate.month && dt.day == edate.day));
                    assert(day_bucket(month_days(ngg.months@, dt.month), dt.day)
                        == day_bucket(month_days(Seq::<MonthGroup>::empty(), dt.month), dt.day));
                    assert(month_days(Seq::<MonthGroup>::empty(), dt.month)
                        == Seq::<DayGroup>::empty());
                    assert(day_bucket(Seq::<DayGroup>::empty(), dt.day) == Seq::<Entry>::empty());
                }
            }
            assert(ngg.months@.len() > 0) by {
                if ngg.months@.len() == 0 {
                    assert(month_days(ngg.months@, edate.month) == Seq::<DayGroup>::empty());
                    assert(day_bucket(Seq::<DayGroup>::empty(), edate.day)
                        == Seq::<Entry>::empty());
                }
            }
            assert(year_wf(ngg));
            assert forall|a: int, b: int| 0 <= a < b < years@.len()
                implies (#[trigger] years@[a]).year < (#[trigger] years@[b]).year by {
                if b < i {
                    assert(years@[a] == yv0[a] && years@[b] == yv0[b]);
                } else if a > i {
                    assert(years@[a] == yv0[a - 1] && years@[b] == yv0[b - 1]);
                } else if a < i && b == i {
                    assert(years@[a] == yv0[a]);
                } else if a == i {
                    assert(years@[b] == yv0[b - 1]);
                    if b - 1 > i {
                        assert(yv0[i as int].year < yv0[b - 1].year);
                    }
                } else {
                    assert(a < i && b > i);
                    assert(years@[a] == yv0[a] && years@[b] == yv0[b - 1]);
                    if b - 1 > i {
                        assert(yv0[i as int].year >= yr);
                        assert(yv0[i as int].year < yv0[b - 1].year);
                    }
                }
            }
            assert(years_wf(years@));
        }
    }
}

/// Builds the whole hierarchy from the parsed entries in arrival order.
/// Every date's leaf list is exactly the entries of that date, in the order
/// they arrived; dates with no entries have no bucket anywhere.
pub fn construct_book(entries: Vec<Entry>) -> (b: DayBook)
    requires
        forall|i: int| 0 <= i < entries@.len() ==> (#[trigger] entries@[i]).date.wf(),
    ensures
        book_wf(b),
        forall|dt: Date| #[trigger] book_bucket(b, dt) == entries@.filter(has_date(dt)),
{
    let ghost orig = entries@;
    let mut rest = entries;
    let mut b = DayBook { years: Vec::new() };
    proof {
        assert forall|dt: Date| book_bucket(b, dt) == orig.take(0).filter(has_date(dt)) by {
            assert(year_months(b.years@, dt.year) == Seq::<MonthGroup>::empty());
            assert(month_days(Seq::<MonthGroup>::empty(), dt.month) == Seq::<DayGroup>::empty());
            assert(day_bucket(Seq::<DayGroup>::empty(), dt.day) == Seq::<Entry>::empty());
            assert(orig.take(0) =~= Seq::<Entry>::empty());
            Seq::<Entry>::empty().lemma_filter_len(has_date(dt));
            assert(orig.take(0).filter(has_date(dt)) =~= Seq::<Entry>::empty());
        }
    }
    while rest.len() > 0
        invariant
            orig == entries@,
            rest@.len() <= orig.len(),
            rest@ =~= orig.skip(orig.len() - rest@.len()),
            book_wf(b),
            forall|dt: Date| #[trigger] book_bucket(b, dt)
                == orig.take(orig.len() - rest@.len()).filter(has_date(dt)),
            forall|i: int| 0 <= i < rest@.len() ==> (#[trigger] rest@[i]).date.wf(),
        decreases rest@.len(),
    {
        let ghost k = orig.len() - rest@.len();
        let e = rest.remove(0);
        proof {
            assert(e == orig[k as int]);
            assert(rest@ =~= orig.skip(k as int + 1));
        }
        let ghost b0 = b;
        insert_year(&mut b.years, e);
        proof {
            let ghost tk = orig.take(k as int);
            let ghost tk1 = orig.take(k as int + 1);
            assert(tk1.drop_last() =~= tk);
            assert(tk1.last() == e);
            assert forall|dt: Date| #[trigger] book_bucket(b, dt)
                == tk1.filter(has_date(dt)) by {
                reveal_with_fuel(Seq::<_>::filter, 2);
                assert(book_bucket(b0, dt) == tk.filter(has_date(dt)));
                assert(tk1.filter(has_date(dt)) == if has_date(dt)(e) {
                    tk.filter(has_date(dt)).push(e)
                } else {
                    tk.filter(has_date(dt))
                });
                if dt == e.date {
                    assert(has_date(dt)(e));
                    assert(years_bucket(b.years@, dt) == years_bucket(b0.years@, dt).push(e));
                } else {
                    assert(!has_date(dt)(e));
                    assert(years_bucket(b.years@, dt) == years_bucket(b0.years@, dt));
                }
            }
        }
    }
    proof {
        assert(orig.take(orig.len() as int) =~= orig);
    }
    b
}

/// `x` stands before `y` somewhere in `bucket`.
pub open spec fn in_order(bucket: Seq<Entry>, x: Entry, y: Entry) -> bool {
    exists|i: int, j: int| 0 <= i < j < bucket.len() && bucket[i] == x && bucket[j] == y
}

proof fn lemma_filter_stable(es: Seq<Entry>, pred: spec_fn(Entry) -> bool, i: int, j: int)
    requires
        0 <= i < j < es.len(),
        pred(es[i]),
        pred(es[j]),
    ensures
        in_order(es.filter(pred), es[i], es[j]),
    decreases es.len(),
{
    reveal_with_fuel(Seq::<_>::filter, 2);
    let f = es.filter(pred);
    let prev = es.drop_last();
    if j == es.len() - 1 {
        assert(f == prev.filter(pred).push(es[j]));
        prev.lemma_filter_contains(pred, i);
        let i2 = choose|i2: int|
            0 <= i2 < prev.filter(pred).len() && prev.filter(pred)[i2] == prev[i];
        let j2 = prev.filter(pred).len() as int;
        assert(0 <= i2 < j2 < f.len() && f[i2] == es[i] && f[j2] == es[j]);
    } else {
        assert(prev[i] == es[i] && prev[j] == es[j]);
        lemma_filter_stable(prev, pred, i, j);
        let (i2, j2) = choose|i2: int, j2: int|
            0 <= i2 < j2 < prev.filter(pred).len() && prev.filter(pred)[i2] == prev[i]
                && prev.filter(pred)[j2] == prev[j];
        assert(0 <= i2 < j2 < f.len() && f[i2] == es[i] && f[j2] == es[j]);
    }
}

/// Entries of one calendar date keep their relative input order inside the
/// one leaf list that holds them: grouping is stable.
pub proof fn lemma_same_date_stable(b: DayBook, es: Seq<Entry>, dt: Date, i: int, j: int)
    requires
        book_wf(b),
        forall|d: Date| #[trigger] book_bucket(b, d) == es.filter(has_date(d)),
        0 <= i < j < es.len(),
        es[i].date == dt,
        es[j].date == dt,
    ensures
        in_order(book_bucket(b, dt), es[i], es[j]),
{
    assert(has_date(dt)(es[i]));
    assert(has_date(dt)(es[j]));
    lemma_filter_stable(es, has_date(dt), i, j);
}

/// Every entry stored under a date carries exactly that date, so an entry
/// can stand under no (year, month, day) triple but its own.
pub proof fn lemma_bucket_entries_dated(b: DayBook, es: Seq<Entry>, dt: Date, k: int)
    requires
        book_wf(b),
        forall|d: Date| #[trigger] book_bucket(b, d) == es.filter(has_date(d)),
        0 <= k < book_bucket(b, dt).len(),
    ensures
        book_bucket(b, dt)[k].date == dt,
{
    es.lemma_filter_pred(has_date(dt), k);
    assert(has_date(dt)(book_bucket(b, dt)[k]));
}

/// Every entry of the input stands in the bucket of its own date.
pub proof fn lemma_entry_in_own_bucket(b: DayBook, es: Seq<Entry>, k: int)
    requires
        book_wf(b),
        forall|d: Date| #[trigger] book_bucket(b, d) == es.filter(has_date(d)),
        0 <= k < es.len(),
    ensures
        book_bucket(b, es[k].date).contains(es[k]),
{
    assert(has_date(es[k].date)(es[k]));
    es.lemma_filter_contains(has_date(es[k].date), k);
}

} // verus!
