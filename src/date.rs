//! Calendar dates as day numbers, weekdays, and the projection of a
//! (week, weekday) pair onto a date through the week-anchor table.
use vstd::prelude::*;
use crate::text::{
    all_digits, decimal_value, split, split_on, parse_number, tail,
};

verus! {

/// Day number of -9999-01-01, the first date the calendar library handles.
pub const MIN_JULIAN_DAY: i32 = -1930999;

/// Day number of 9999-12-31, the last date the calendar library handles.
pub const MAX_JULIAN_DAY: i32 = 5373484;

/// Julian day number of 1970-01-01.
pub const UNIX_EPOCH_JULIAN_DAY: i32 = 2440588;

#[derive(Clone, Copy, Debug, PartialEq, Eq, PartialOrd, Ord, Structural)]
pub enum Weekday {
    Monday,
    Tuesday,
    Wednesday,
    Thursday,
    Friday,
    Saturday,
    Sunday,
}

/// Days from Monday: 0 for Monday up to 6 for Sunday.
pub open spec fn weekday_index(w: Weekday) -> int {
    match w {
        Weekday::Monday => 0,
        Weekday::Tuesday => 1,
        Weekday::Wednesday => 2,
        Weekday::Thursday => 3,
        Weekday::Friday => 4,
        Weekday::Saturday => 5,
        Weekday::Sunday => 6,
    }
}

pub open spec fn weekday_from_index(i: int) -> Weekday {
    if i == 0 {
        Weekday::Monday
    } else if i == 1 {
        Weekday::Tuesday
    } else if i == 2 {
        Weekday::Wednesday
    } else if i == 3 {
        Weekday::Thursday
    } else if i == 4 {
        Weekday::Friday
    } else if i == 5 {
        Weekday::Saturday
    } else {
        Weekday::Sunday
    }
}

/// The weekday of a Julian day number: day 0 was a Monday.
pub open spec fn weekday_of(jd: int) -> Weekday {
    weekday_from_index(jd % 7)
}

/// Days from `jd` to the next strictly later day that falls on `w`: 1 to 7.
pub open spec fn days_until(jd: int, w: Weekday) -> int {
    let d = (weekday_index(w) - jd % 7) % 7;
    if d == 0 {
        7
    } else {
        d
    }
}

/// The first day strictly after `jd` that falls on `w`.
pub open spec fn next_occurrence(jd: int, w: Weekday) -> int {
    jd + days_until(jd, w)
}

/// One week before `jd`, but never before the first supported date.
pub open spec fn week_before(jd: int) -> int {
    if jd - 7 < MIN_JULIAN_DAY {
        MIN_JULIAN_DAY as int
    } else {
        jd - 7
    }
}

/// The date of weekday `w` in week `week` (1-based) of the anchor table:
/// the anchor moved back seven days, then forward to the next `w`.
pub open spec fn projected_day(anchors: Seq<int>, week: int, w: Weekday) -> int {
    next_occurrence(week_before(anchors[week - 1]), w)
}

/// A `w` always falls on a `w`.
pub proof fn lemma_next_occurrence(jd: int, w: Weekday)
    ensures
        weekday_of(next_occurrence(jd, w)) == w,
        jd < next_occurrence(jd, w) <= jd + 7,
{
    let d = days_until(jd, w);
    assert((jd + d) % 7 == weekday_index(w)) by {
        assert(((weekday_index(w) - jd % 7) % 7 + jd) % 7 == weekday_index(w) % 7) by (nonlinear_arith)
            requires
                0 <= weekday_index(w) < 7,
        {
        }
    }
}

/// Projection always lands on the requested weekday, within the seven days
/// that end on the anchor date.
pub proof fn lemma_projection_weekday(anchors: Seq<int>, week: int, w: Weekday)
    requires
        1 <= week <= anchors.len(),
    ensures
        weekday_of(projected_day(anchors, week, w)) == w,
        MIN_JULIAN_DAY + 7 <= anchors[week - 1] ==> anchors[week - 1] - 7 < projected_day(
            anchors,
            week,
            w,
        ) <= anchors[week - 1],
{
    lemma_next_occurrence(week_before(anchors[week - 1]), w);
}

/// A day or month field: one or two digits.
pub open spec fn short_field(t: Seq<char>) -> Option<int> {
    if 1 <= t.len() <= 2 && all_digits(t) {
        Some(decimal_value(t) as int)
    } else {
        None
    }
}

/// Year digits: exactly four without a sign, four to six after a sign.
pub open spec fn year_digits(t: Seq<char>, signed: bool) -> bool {
    &&& all_digits(t)
    &&& 4 <= t.len()
    &&& if signed { t.len() <= 6 } else { t.len() == 4 }
}

/// Year, month and day written `day-month-year`, each of day and month in one
/// or two digits, the year in four digits or signed.
pub open spec fn date_fields(s: Seq<char>) -> Option<(int, int, int)> {
    let p = split_on(s, '-');
    if p.len() == 3 && short_field(p[0]) is Some && short_field(p[1]) is Some {
        let y = p[2];
        if year_digits(y, false) {
            Some((decimal_value(y) as int, short_field(p[1])->0, short_field(p[0])->0))
        } else if y.len() > 0 && y[0] == '+' && year_digits(y.drop_first(), true) {
            Some((decimal_value(y.drop_first()) as int, short_field(p[1])->0, short_field(p[0])->0))
        } else {
            None
        }
    } else if p.len() == 4 && p[2].len() == 0 && short_field(p[0]) is Some && short_field(p[1]) is Some
        && year_digits(p[3], true) {
        Some((-decimal_value(p[3]), short_field(p[1])->0, short_field(p[0])->0))
    } else {
        None
    }
}

/// The day number of a `day-month-year` text, if it names an existing date.
pub open spec fn parsed_date(s: Seq<char>) -> Option<int> {
    match date_fields(s) {
        Some(f) => julian_day_of(f.0, f.1, f.2),
        None => None,
    }
}

fn parse_short_field(t: &[char]) -> (r: Option<u8>)
    ensures
        r matches Some(v) ==> short_field(t@) == Some(v as int),
        r is None ==> short_field(t@) is None,
{
    if t.len() < 1 || t.len() > 2 {
        return None;
    }
    match parse_number(t, 99) {
        Some(v) => {
            proof {
                assert(decimal_value(t@) <= 99);
            }
            Some(v as u8)
        },
        None => {
            proof {
                if all_digits(t@) {
                    lemma_decimal_bound(t@);
                    reveal_with_fuel(pow10, 3);
                }
            }
            None
        },
    }
}

fn parse_year_digits(t: &[char], signed: bool) -> (r: Option<i32>)
    ensures
        r matches Some(v) ==> year_digits(t@, signed) && v == decimal_value(t@),
        r is None ==> !year_digits(t@, signed),
{
    if t.len() < 4 || (signed && t.len() > 6) || (!signed && t.len() != 4) {
        return None;
    }
    match parse_number(t, 999999) {
        Some(v) => Some(v as i32),
        None => {
            proof {
                if all_digits(t@) {
                    lemma_decimal_bound(t@);
                    reveal_with_fuel(pow10, 7);
                }
            }
            None
        },
    }
}

proof fn lemma_decimal_bound(t: Seq<char>)
    requires
        all_digits(t),
    ensures
        decimal_value(t) < pow10(t.len()),
    decreases t.len(),
{
    if t.len() > 0 {
        assert(all_digits(t.drop_last())) by {
            assert forall|i: int| 0 <= i < t.drop_last().len() implies crate::text::is_digit(
                #[trigger] t.drop_last()[i],
            ) by {
                assert(t.drop_last()[i] == t[i]);
            }
        }
        lemma_decimal_bound(t.drop_last());
        assert(crate::text::is_digit(t[t.len() - 1]));
    }
}

spec fn pow10(n: nat) -> nat
    decreases n,
{
    if n == 0 {
        1
    } else {
        10 * pow10((n - 1) as nat)
    }
}

/// The date written as `day-month-year`, if it exists.
pub fn parse_date(s: &[char]) -> (r: Option<Date>)
    ensures
        r matches Some(d) ==> parsed_date(s@) == Some(d@),
        r is None ==> parsed_date(s@) is None,
{
    let p = split(s, '-');
    proof {
        assert(p@.len() == split_on(s@, '-').len());
    }
    let n = p.len();
    if n != 3 && n != 4 {
        return None;
    }
    proof {
        assert(p@[0]@ == split_on(s@, '-')[0]);
        assert(p@[1]@ == split_on(s@, '-')[1]);
        assert(p@[2]@ == split_on(s@, '-')[2]);
    }
    let day = match parse_short_field(p[0].as_slice()) {
        Some(d) => d,
        None => return None,
    };
    let month = match parse_short_field(p[1].as_slice()) {
        Some(m) => m,
        None => return None,
    };
    let year: i32 = if n == 3 {
        let y = &p[2];
        match parse_year_digits(y.as_slice(), false) {
            Some(v) => v,
            None => {
                if y.len() > 0 && y[0] == '+' {
                    let rest = tail(y.as_slice(), 1);
                    assert(rest@ =~= y@.drop_first());
                    match parse_year_digits(rest.as_slice(), true) {
                        Some(v) => v,
                        None => return None,
                    }
                } else {
                    return None;
                }
            },
        }
    } else {
        if p[2].len() != 0 {
            return None;
        }
        proof {
            assert(p@[3]@ == split_on(s@, '-')[3]);
        }
        match parse_year_digits(p[3].as_slice(), true) {
            Some(v) => -v,
            None => return None,
        }
    };
    Date::from_calendar_date(year, month, day)
}

/// A date the calendar library supports, as its Julian day number.
#[derive(Clone, Copy, Debug, PartialEq, Eq)]
pub struct Date {
    jd: i32,
}

impl View for Date {
    type V = int;

    closed spec fn view(&self) -> int {
        self.jd as int
    }
}

/// The Julian day number that the calendar library gives to a year, month
/// and day, or `None` when no such date exists.
pub uninterp spec fn julian_day_of(year: int, month: int, day: int) -> Option<int>;

/// The year, month and day that the calendar library gives to a Julian day.
pub uninterp spec fn calendar_date_of(jd: int) -> (int, int, int);

/// Relies on `time::Month::try_from`, `time::Date::from_calendar_date` and
/// `time::Date::to_julian_day`: an existing date and its day number, which
/// lies in the library's supported range.
#[verifier::external_body]
fn julian_day_from_calendar(year: i32, month: u8, day: u8) -> (r: Option<i32>)
    ensures
        r matches Some(j) ==> julian_day_of(year as int, month as int, day as int) == Some(j as int)
            && MIN_JULIAN_DAY <= j <= MAX_JULIAN_DAY,
        r is None ==> julian_day_of(year as int, month as int, day as int) is None,
{
    match time::Month::try_from(month) {
        Ok(m) => match time::Date::from_calendar_date(year, m, day) {
            Ok(d) => Some(d.to_julian_day()),
            Err(_) => None,
        },
        Err(_) => None,
    }
}

/// The ISO week number that the calendar library gives to a Julian day.
pub uninterp spec fn iso_week_of(jd: int) -> int;

/// Relies on `time::Date::from_julian_day` and `time::Date::iso_week`: the
/// ISO week number of a supported day, 1 to 53.
#[verifier::external_body]
fn iso_week_from_julian_day(jd: i32) -> (r: u8)
    requires
        MIN_JULIAN_DAY <= jd <= MAX_JULIAN_DAY,
    ensures
        r == iso_week_of(jd as int),
        1 <= r <= 53,
{
    time::Date::from_julian_day(jd).unwrap().iso_week()
}

/// Relies on `time::Date::from_julian_day` and `time::Date::to_calendar_date`:
/// the calendar date of a supported day number.
#[verifier::external_body]
fn calendar_from_julian_day(jd: i32) -> (r: (i32, u8, u8))
    requires
        MIN_JULIAN_DAY <= jd <= MAX_JULIAN_DAY,
    ensures
        (r.0 as int, r.1 as int, r.2 as int) == calendar_date_of(jd as int),
        1 <= r.1 <= 12,
        1 <= r.2 <= 31,
        -9999 <= r.0 <= 9999,
{
    let (y, m, d) = time::Date::from_julian_day(jd).unwrap().to_calendar_date();
    (y, m as u8, d)
}

impl Date {
    #[verifier::type_invariant]
    spec fn inv(self) -> bool {
        MIN_JULIAN_DAY <= self.jd <= MAX_JULIAN_DAY
    }

    /// The date with the given day number, if the calendar library supports it.
    pub fn from_julian_day(jd: i32) -> (r: Option<Date>)
        ensures
            r matches Some(d) ==> d@ == jd,
            r is Some <==> MIN_JULIAN_DAY <= jd <= MAX_JULIAN_DAY,
    {
        if MIN_JULIAN_DAY <= jd && jd <= MAX_JULIAN_DAY {
            Some(Date { jd })
        } else {
            None
        }
    }

    /// The date of a year, month (1 to 12) and day, if it exists.
    pub fn from_calendar_date(year: i32, month: u8, day: u8) -> (r: Option<Date>)
        ensures
            r matches Some(d) ==> julian_day_of(year as int, month as int, day as int) == Some(d@),
            r is None ==> julian_day_of(year as int, month as int, day as int) is None,
    {
        match julian_day_from_calendar(year, month, day) {
            Some(jd) => Some(Date { jd }),
            None => None,
        }
    }

    pub fn julian_day(&self) -> (r: i32)
        ensures
            r == self@,
            MIN_JULIAN_DAY <= r <= MAX_JULIAN_DAY,
    {
        proof {
            use_type_invariant(self);
        }
        self.jd
    }

    /// Year, month (1 to 12) and day of the month.
    pub fn to_calendar_date(&self) -> (r: (i32, u8, u8))
        ensures
            (r.0 as int, r.1 as int, r.2 as int) == calendar_date_of(self@),
            1 <= r.1 <= 12,
            1 <= r.2 <= 31,
            -9999 <= r.0 <= 9999,
    {
        calendar_from_julian_day(self.julian_day())
    }

    pub fn weekday(&self) -> (r: Weekday)
        ensures
            r == weekday_of(self@),
    {
        let jd = self.julian_day();
        let k: i32 = jd % 7;
        let k: i32 = if k < 0 { k + 7 } else { k };
        assert(k == jd as int % 7);
        if k == 0 {
            Weekday::Monday
        } else if k == 1 {
            Weekday::Tuesday
        } else if k == 2 {
            Weekday::Wednesday
        } else if k == 3 {
            Weekday::Thursday
        } else if k == 4 {
            Weekday::Friday
        } else if k == 5 {
            Weekday::Saturday
        } else {
            Weekday::Sunday
        }
    }

    /// The ISO week number of this date.
    pub fn iso_week(&self) -> (r: u8)
        ensures
            r == iso_week_of(self@),
            1 <= r <= 53,
    {
        iso_week_from_julian_day(self.julian_day())
    }

    /// Seconds since 1970-01-01T00:00:00Z of the given hour on this date.
    pub fn unix_seconds_at(&self, hour: u8) -> (r: i64)
        ensures
            r == (self@ - UNIX_EPOCH_JULIAN_DAY) * 86400 + hour * 3600,
    {
        let jd = self.julian_day() as i64;
        (jd - UNIX_EPOCH_JULIAN_DAY as i64) * 86400 + hour as i64 * 3600
    }

    /// The first date strictly after this one that falls on `w`.
    pub fn next_occurrence(&self, w: Weekday) -> (r: Date)
        requires
            self@ + 7 <= MAX_JULIAN_DAY,
        ensures
            r@ == next_occurrence(self@, w),
    {
        let jd = self.julian_day();
        let cur = self.weekday();
        let target: i32 = match w {
            Weekday::Monday => 0,
            Weekday::Tuesday => 1,
            Weekday::Wednesday => 2,
            Weekday::Thursday => 3,
            Weekday::Friday => 4,
            Weekday::Saturday => 5,
            Weekday::Sunday => 6,
        };
        let now: i32 = match cur {
            Weekday::Monday => 0,
            Weekday::Tuesday => 1,
            Weekday::Wednesday => 2,
            Weekday::Thursday => 3,
            Weekday::Friday => 4,
            Weekday::Saturday => 5,
            Weekday::Sunday => 6,
        };
        assert(now == jd as int % 7);
        let d: i32 = (target - now + 7) % 7;
        assert(d == (weekday_index(w) - jd as int % 7) % 7);
        let d: i32 = if d == 0 { 7 } else { d };
        Date { jd: jd + d }
    }

    /// Seven days earlier, or the first supported date when that is earlier.
    pub fn week_before(&self) -> (r: Date)
        ensures
            r@ == week_before(self@),
    {
        let jd = self.julian_day();
        if jd - 7 < MIN_JULIAN_DAY {
            Date { jd: MIN_JULIAN_DAY }
        } else {
            Date { jd: jd - 7 }
        }
    }
}

/// The day numbers of a sequence of dates.
pub open spec fn date_views(s: Seq<Date>) -> Seq<int> {
    s.map_values(|d: Date| d@)
}

/// The date of weekday `w` in week `week` (1-based) of the anchor table.
pub fn project(anchors: &[Date], week: usize, w: Weekday) -> (r: Date)
    requires
        1 <= week <= anchors@.len(),
    ensures
        r@ == projected_day(date_views(anchors@), week as int, w),
        weekday_of(r@) == w,
{
    let anchor = &anchors[week - 1];
    proof {
        use_type_invariant(anchor);
    }
    let start = anchor.week_before();
    assert(start@ + 7 <= MAX_JULIAN_DAY);
    let r = start.next_occurrence(w);
    proof {
        lemma_next_occurrence(start@, w);
    }
    r
}

} // verus!
