//! Calendar dates: reading `YYYY-MM-DD`, ordering, and sorted sets of dates.
use vstd::prelude::*;
use crate::text::chars_of;

verus! {

/// A calendar date. Dates are ordered by year, then month, then day.
#[derive(Clone, Copy, Debug, PartialEq, Eq, Structural, PartialOrd, Ord, Hash)]
pub struct Date {
    pub year: i32,
    pub month: u32,
    pub day: u32,
}

/// Year, month and day of the date that a text spells in the form
/// `%Y-%m-%d`, or `None` where it spells none.
pub uninterp spec fn calendar_date(text: Seq<char>) -> Option<(i32, u32, u32)>;

/// Calls `chrono::NaiveDate::parse_from_str` with the format `%Y-%m-%d`.
/// Trusted: whether the text is accepted, and the date read from it, depend on
/// the text alone.
#[verifier::external_body]
pub(crate) fn parse_ymd(text: &Vec<char>) -> (r: Option<(i32, u32, u32)>)
    ensures
        r == calendar_date(text@),
{
    let s: String = text.iter().collect();
    match chrono::NaiveDate::parse_from_str(&s, "%Y-%m-%d") {
        Ok(d) => Some(
            (chrono::Datelike::year(&d), chrono::Datelike::month(&d), chrono::Datelike::day(&d)),
        ),
        Err(_) => None,
    }
}

/// The date that a text spells, if it spells one.
pub open spec fn date_of(text: Seq<char>) -> Option<Date> {
    match calendar_date(text) {
        Some(ymd) => Some(Date { year: ymd.0, month: ymd.1, day: ymd.2 }),
        None => None,
    }
}

/// `a` is earlier than `b`.
pub open spec fn date_lt(a: Date, b: Date) -> bool {
    a.year < b.year || (a.year == b.year && (a.month < b.month || (a.month == b.month && a.day
        < b.day)))
}

/// `a` is `b` or earlier.
pub open spec fn date_le(a: Date, b: Date) -> bool {
    a == b || date_lt(a, b)
}

/// `d` lies within the bounds, each of them inclusive and optional.
pub open spec fn within_bounds(d: Date, after: Option<Date>, before: Option<Date>) -> bool {
    (after matches Some(a) ==> date_le(a, d)) && (before matches Some(b) ==> date_le(d, b))
}

/// Each date is earlier than the next: sorted, and none twice.
pub open spec fn strictly_increasing(s: Seq<Date>) -> bool {
    forall|i: int, j: int| 0 <= i < j < s.len() ==> date_lt(#[trigger] s[i], #[trigger] s[j])
}

impl Date {
    /// Reads a date written as `YYYY-MM-DD`.
    pub fn parse(text: &str) -> (r: Option<Date>)
        ensures
            r == date_of(text@),
    {
        let chars = chars_of(text);
        Date::parse_chars(&chars)
    }

    /// Reads a date written as `YYYY-MM-DD`.
    pub fn parse_chars(text: &Vec<char>) -> (r: Option<Date>)
        ensures
            r == date_of(text@),
    {
        match parse_ymd(text) {
            Some(ymd) => Some(Date { year: ymd.0, month: ymd.1, day: ymd.2 }),
            None => None,
        }
    }

    /// Whether this date is earlier than `other`.
    pub fn precedes(&self, other: &Date) -> (r: bool)
        ensures
            r == date_lt(*self, *other),
    {
        self.year < other.year || (self.year == other.year && (self.month < other.month || (
        self.month == other.month && self.day < other.day)))
    }

    /// Whether this date is `other` or earlier.
    pub fn on_or_before(&self, other: &Date) -> (r: bool)
        ensures
            r == date_le(*self, *other),
    {
        (self.year == other.year && self.month == other.month && self.day == other.day)
            || self.precedes(other)
    }

    /// Whether this date lies within the bounds, each inclusive and optional.
    pub fn is_within(&self, after: Option<Date>, before: Option<Date>) -> (r: bool)
        ensures
            r == within_bounds(*self, after, before),
    {
        let after_ok = match after {
            Some(a) => a.on_or_before(self),
            None => true,
        };
        let before_ok = match before {
            Some(b) => self.on_or_before(&b),
            None => true,
        };
        after_ok && before_ok
    }
}

/// Puts `d` into a sorted list of distinct dates, unless it is there already.
pub fn insert_date(dates: &mut Vec<Date>, d: Date)
    requires
        strictly_increasing(old(dates)@),
    ensures
        strictly_increasing(final(dates)@),
        forall|x: Date| #[trigger] final(dates)@.contains(x) <==> (old(dates)@.contains(x) || x == d),
{
    let n = dates.len();
    let mut i: usize = 0;
    while i < n && dates[i].precedes(&d)
        invariant
            i <= n,
            n == dates.len(),
            *dates == *old(dates),
            forall|k: int| 0 <= k < i ==> date_lt(#[trigger] dates@[k], d),
        decreases n - i,
    {
        i += 1;
    }
    let ghost before = dates@;
    assert(before == old(dates)@);
    if i < n && d.on_or_before(&dates[i]) && !d.precedes(&dates[i]) {
        assert(dates@[i as int] == d);
        assert forall|x: Date| #[trigger] dates@.contains(x) <==> (before.contains(x) || x == d) by {}
    } else {
        dates.insert(i, d);
        assert forall|p: int, q: int| 0 <= p < q < dates@.len() implies date_lt(
            #[trigger] dates@[p],
            #[trigger] dates@[q],
        ) by {
            if q < i {
                assert(dates@[p] == before[p] && dates@[q] == before[q]);
            } else if q == i {
                assert(dates@[p] == before[p]);
            } else if p < i {
                assert(dates@[p] == before[p] && dates@[q] == before[q - 1]);
                assert(date_lt(before[p], d));
                assert(!date_lt(before[i as int], d));
                if q - 1 > i {
                    assert(date_lt(before[i as int], before[q - 1]));
                }
            } else if p == i {
                assert(dates@[q] == before[q - 1]);
                assert(!date_lt(before[i as int], d));
                assert(before[i as int] != d);
                if q - 1 > i {
                    assert(date_lt(before[i as int], before[q - 1]));
                }
            } else {
                assert(dates@[p] == before[p - 1] && dates@[q] == before[q - 1]);
            }
        }
        assert forall|x: Date| #[trigger] dates@.contains(x) <==> (before.contains(x) || x == d) by {
            if dates@.contains(x) {
                let k = choose|k: int| 0 <= k < dates@.len() && dates@[k] == x;
                if k < i {
                    assert(before[k] == x);
                } else if k > i {
                    assert(before[k - 1] == x);
                }
            }
            if before.contains(x) {
                let k = choose|k: int| 0 <= k < before.len() && before[k] == x;
                if k < i {
                    assert(dates@[k] == x);
                } else {
                    assert(dates@[k + 1] == x);
                }
            }
            if x == d {
                assert(dates@[i as int] == x);
            }
        }
    }
}

/// Two sorted lists of distinct dates that hold the same dates are one list:
/// the dates that a document gives determine the list of them.
pub proof fn lemma_sorted_dates_unique(a: Seq<Date>, b: Seq<Date>)
    requires
        strictly_increasing(a),
        strictly_increasing(b),
        forall|x: Date| a.contains(x) <==> b.contains(x),
    ensures
        a == b,
    decreases a.len(),
{
    if a.len() == 0 {
        if b.len() > 0 {
            assert(b.contains(b[0]));
        }
        assert(a =~= b);
    } else {
        assert(a.contains(a[0]));
        assert(b.len() > 0);
        assert(b.contains(b[0]));
        let ka = choose|k: int| 0 <= k < a.len() && a[k] == b[0];
        let kb = choose|k: int| 0 <= k < b.len() && b[k] == a[0];
        if ka > 0 {
            assert(date_lt(a[0], a[ka]));
            if kb > 0 {
                assert(date_lt(b[0], b[kb]));
            }
        }
        assert(a[0] == b[0]);
        let ta = a.subrange(1, a.len() as int);
        let tb = b.subrange(1, b.len() as int);
        assert forall|x: Date| ta.contains(x) <==> tb.contains(x) by {
            if ta.contains(x) {
                let k = choose|k: int| 0 <= k < ta.len() && ta[k] == x;
                assert(a[k + 1] == x);
                assert(date_lt(a[0], a[k + 1]));
                assert(a.contains(x));
                let m = choose|m: int| 0 <= m < b.len() && b[m] == x;
                assert(m > 0);
                assert(tb[m - 1] == x);
            }
            if tb.contains(x) {
                let k = choose|k: int| 0 <= k < tb.len() && tb[k] == x;
                assert(b[k + 1] == x);
                assert(date_lt(b[0], b[k + 1]));
                assert(b.contains(x));
                let m = choose|m: int| 0 <= m < a.len() && a[m] == x;
                assert(m > 0);
                assert(ta[m - 1] == x);
            }
        }
        assert forall|i: int, j: int| 0 <= i < j < ta.len() implies date_lt(
            #[trigger] ta[i],
            #[trigger] ta[j],
        ) by {
            assert(date_lt(a[i + 1], a[j + 1]));
        }
        assert forall|i: int, j: int| 0 <= i < j < tb.len() implies date_lt(
            #[trigger] tb[i],
            #[trigger] tb[j],
        ) by {
            assert(date_lt(b[i + 1], b[j + 1]));
        }
        lemma_sorted_dates_unique(ta, tb);
        assert(a =~= seq![a[0]] + ta);
        assert(b =~= seq![b[0]] + tb);
    }
}

} // verus!
