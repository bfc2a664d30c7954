//! Colle types, catalog entries and their one-line text form, and dated colle
//! instances.
use std::sync::Arc;
use vstd::prelude::*;
use crate::date::{calendar_date_of, weekday_of, Date, Weekday, UNIX_EPOCH_JULIAN_DAY};
use crate::error::ColleParsingError;
use crate::prof::{with_name, Prof, ProfRegistry};
use crate::text::{
    chars_of, copy_range, decimal_text, is_digit, join_spaced, join_tokens, number_at_most,
    padded_decimal, parse_number, push_decimal, push_padded, split, split_on, string_of, tokens,
    tokens_of, views_of,
};
use crate::utils::{day_name, month_short_name, month_to_short_fr, weekday_code, Jour};

verus! {

/// A colle type: a subject letter and a sequence number, as in `M4`.
#[derive(Debug, Clone, Copy, PartialEq, Eq, Structural)]
pub struct ColleId(pub char, pub u8);

/// The subject letters: `M` (Maths), `P` (Physique), `A` (Anglais).
pub open spec fn is_subject(c: char) -> bool {
    c == 'M' || c == 'P' || c == 'A'
}

/// Whether `c` is a subject letter.
pub fn is_subject_letter(c: char) -> (r: bool)
    ensures
        r == is_subject(c),
{
    c == 'M' || c == 'P' || c == 'A'
}

pub open spec fn subject_name(c: char) -> Seq<char> {
    if c == 'M' {
        "Maths"@
    } else if c == 'P' {
        "Physique"@
    } else {
        "Anglais"@
    }
}

/// Compact form, as in `M4`.
pub open spec fn compact_text(id: ColleId) -> Seq<char> {
    seq![id.0] + decimal_text(id.1 as nat)
}

/// Explicit form, as in `Maths 4`.
pub open spec fn explicit_text(id: ColleId) -> Seq<char> {
    subject_name(id.0) + seq![' '] + decimal_text(id.1 as nat)
}

/// The colle type a token names: a subject letter, then a number up to 255.
pub open spec fn id_of(t: Seq<char>) -> Option<ColleId> {
    if t.len() >= 1 && is_subject(t[0]) && number_at_most(t.drop_first(), 255) is Some {
        Some(ColleId(t[0], number_at_most(t.drop_first(), 255)->0 as u8))
    } else {
        None
    }
}

impl ColleId {
    /// The colle type written by `t`, if it is one.
    pub fn parse(t: &[char]) -> (r: Option<ColleId>)
        ensures
            r == id_of(t@),
    {
        if t.len() < 1 {
            return None;
        }
        let c = t[0];
        if !(c == 'M' || c == 'P' || c == 'A') {
            return None;
        }
        let rest = copy_range(t, 1, t.len());
        assert(rest@ =~= t@.drop_first());
        match parse_number(rest.as_slice(), 255) {
            Some(n) => Some(ColleId(c, n as u8)),
            None => None,
        }
    }

    /// The explicit form, as in `Maths 4`.
    pub fn explicit(&self) -> (r: String)
        requires
            is_subject(self.0),
        ensures
            r@ == explicit_text(*self),
    {
        let mut s = if self.0 == 'M' {
            "Maths".to_owned()
        } else if self.0 == 'P' {
            "Physique".to_owned()
        } else {
            "Anglais".to_owned()
        };
        s.push(' ');
        push_decimal(&mut s, self.1 as u64);
        s
    }

    /// The compact form, as in `M4`.
    pub fn to_string(&self) -> (r: String)
        ensures
            r@ == compact_text(*self),
    {
        let mut s = String::new();
        s.push(self.0);
        push_decimal(&mut s, self.1 as u64);
        assert(s@ =~= compact_text(*self));
        s
    }
}

impl std::str::FromStr for ColleId {
    type Err = ColleParsingError;

    fn from_str(s: &str) -> Result<ColleId, ColleParsingError> {
        let t = chars_of(s);
        match ColleId::parse(t.as_slice()) {
            Some(id) => Ok(id),
            None => Err(ColleParsingError::IdParsingFailed),
        }
    }
}

/// Which form of the colle type a message shows.
#[derive(Debug, Clone, Copy, PartialEq, Eq, Structural)]
pub enum ColleStringFormat {
    Implicit,
    Explicit,
}

/// A catalog entry as plain values.
pub struct ColleDataView {
    pub id: ColleId,
    pub start_hour: int,
    pub end_hour: int,
    pub jour: Weekday,
    pub room: Seq<char>,
    pub prof: Seq<char>,
}

/// A catalog entry: a colle type with its weekly slot, room and instructor,
/// not yet bound to a week.
#[derive(Debug)]
pub struct ColleData {
    pub id: ColleId,
    pub start_hour: u8,
    pub end_hour: u8,
    pub jour: Jour,
    pub room: String,
    pub prof: Arc<Prof>,
}

impl View for ColleData {
    type V = ColleDataView;

    open spec fn view(&self) -> ColleDataView {
        ColleDataView {
            id: self.id,
            start_hour: self.start_hour as int,
            end_hour: self.end_hour as int,
            jour: self.jour.0,
            room: self.room@,
            prof: self.prof@,
        }
    }
}

impl ColleData {
    /// A second entry equal to this one, sharing its instructor handle.
    pub fn duplicate(&self) -> (r: ColleData)
        ensures
            r@ == self@,
    {
        ColleData {
            id: self.id,
            start_hour: self.start_hour,
            end_hour: self.end_hour,
            jour: self.jour,
            room: self.room.clone(),
            prof: crate::prof::share(&self.prof),
        }
    }
}

/// Both hours of the entry are hours of a day.
pub open spec fn hours_valid(d: ColleDataView) -> bool {
    0 <= d.start_hour <= 23 && 0 <= d.end_hour <= 23
}

/// `p` without its trailing run of non-digit characters.
pub open spec fn strip_suffix(p: Seq<char>) -> Seq<char>
    decreases p.len(),
{
    if p.len() > 0 && !is_digit(p.last()) {
        strip_suffix(p.drop_last())
    } else {
        p
    }
}

/// An hour written as digits and a non-empty non-digit suffix, as in `8h`.
pub open spec fn hour_of(p: Seq<char>) -> Option<int> {
    let d = strip_suffix(p);
    if d.len() < p.len() && number_at_most(d, 23) is Some {
        Some(number_at_most(d, 23)->0 as int)
    } else {
        None
    }
}

/// An hour range, as in `8h-10h`.
pub open spec fn hours_of(t: Seq<char>) -> Option<(int, int)> {
    let p = split_on(t, '-');
    if p.len() == 2 && hour_of(p[0]) is Some && hour_of(p[1]) is Some {
        Some((hour_of(p[0])->0, hour_of(p[1])->0))
    } else {
        None
    }
}

/// Index of the last `c` in `s`, or -1.
pub open spec fn last_index_of(s: Seq<char>, c: char) -> int
    decreases s.len(),
{
    if s.len() == 0 {
        -1
    } else if s.last() == c {
        s.len() - 1
    } else {
        last_index_of(s.drop_last(), c)
    }
}

/// The entry of a catalog line's tokens (before the room) and room. Two
/// layouts are read: `<type> <weekday> <hours> <instructor words...>`, taken
/// when the second and third tokens are a weekday code and an hour range, and
/// otherwise `<type> <instructor words...> <weekday> <hours>`.
pub open spec fn line_fields(toks: Seq<Seq<char>>, room: Seq<char>) -> Result<
    ColleDataView,
    ColleParsingError,
> {
    let k = toks.len();
    if k == 0 {
        Err(ColleParsingError::MissingToken)
    } else if id_of(toks[0]) is None {
        Err(ColleParsingError::IdParsingFailed)
    } else if k >= 3 && weekday_code(toks[1]) is Some && hours_of(toks[2]) is Some {
        let hours = hours_of(toks[2])->0;
        Ok(
            ColleDataView {
                id: id_of(toks[0])->0,
                start_hour: hours.0,
                end_hour: hours.1,
                jour: weekday_code(toks[1])->0,
                room,
                prof: join_spaced(toks.subrange(3, k as int)),
            },
        )
    } else if k < 2 {
        Err(ColleParsingError::MissingToken)
    } else if hours_of(toks[k - 1]) is None {
        Err(ColleParsingError::BadHours)
    } else if k < 3 {
        Err(ColleParsingError::MissingToken)
    } else if weekday_code(toks[k - 2]) is None {
        Err(ColleParsingError::BadWeekday)
    } else {
        let hours = hours_of(toks[k - 1])->0;
        Ok(
            ColleDataView {
                id: id_of(toks[0])->0,
                start_hour: hours.0,
                end_hour: hours.1,
                jour: weekday_code(toks[k - 2])->0,
                room,
                prof: join_spaced(toks.subrange(1, k - 2)),
            },
        )
    }
}

/// The entry a catalog line describes: its tokens as `line_fields` reads
/// them, then `(<room>)`, the room being the text between the last `(` and the
/// final `)`, with a space before the `(`.
pub open spec fn catalog_line(l: Seq<char>) -> Result<ColleDataView, ColleParsingError> {
    if l.len() == 0 || l.last() != ')' {
        Err(ColleParsingError::MissingRoom)
    } else {
        let open = last_index_of(l.drop_last(), '(');
        if open < 1 || l[open - 1] != ' ' {
            Err(ColleParsingError::MissingRoom)
        } else {
            line_fields(
                tokens_of(l.subrange(0, open - 1)),
                l.subrange(open + 1, l.len() - 1),
            )
        }
    }
}

fn find_last(v: &[char], end: usize, c: char) -> (r: Option<usize>)
    requires
        end <= v@.len(),
    ensures
        r matches Some(i) ==> i == last_index_of(v@.subrange(0, end as int), c) && i < end,
        r is None ==> last_index_of(v@.subrange(0, end as int), c) == -1,
{
    let mut e: usize = end;
    while e > 0
        invariant
            e <= end <= v@.len(),
            last_index_of(v@.subrange(0, end as int), c) == last_index_of(
                v@.subrange(0, e as int),
                c,
            ),
        decreases e,
    {
        assert(v@.subrange(0, e as int).drop_last() =~= v@.subrange(0, e - 1));
        if v[e - 1] == c {
            return Some(e - 1);
        }
        e = e - 1;
    }
    None
}

fn parse_hour(p: &[char]) -> (r: Option<u8>)
    ensures
        r matches Some(h) ==> hour_of(p@) == Some(h as int),
        r is None ==> hour_of(p@) is None,
{
    let mut e: usize = p.len();
    assert(p@.subrange(0, p@.len() as int) =~= p@);
    while e > 0 && !('0' <= p[e - 1] && p[e - 1] <= '9')
        invariant
            e <= p@.len(),
            strip_suffix(p@.subrange(0, e as int)) == strip_suffix(p@),
        decreases e,
    {
        assert(p@.subrange(0, e as int).drop_last() =~= p@.subrange(0, e - 1));
        e = e - 1;
    }
    assert(p@.subrange(0, p@.len() as int) =~= p@);
    assert(strip_suffix(p@.subrange(0, e as int)) == p@.subrange(0, e as int));
    if e == p.len() {
        return None;
    }
    let d = copy_range(p, 0, e);
    match parse_number(d.as_slice(), 23) {
        Some(h) => Some(h as u8),
        None => None,
    }
}

fn parse_hours(t: &[char]) -> (r: Option<(u8, u8)>)
    ensures
        r matches Some(h) ==> hours_of(t@) == Some((h.0 as int, h.1 as int)),
        r is None ==> hours_of(t@) is None,
{
    let p = split(t, '-');
    assert(views_of(p@).len() == p@.len());
    if p.len() != 2 {
        return None;
    }
    assert(p@[0]@ == split_on(t@, '-')[0]);
    assert(p@[1]@ == split_on(t@, '-')[1]);
    let a = match parse_hour(p[0].as_slice()) {
        Some(a) => a,
        None => return None,
    };
    let b = match parse_hour(p[1].as_slice()) {
        Some(b) => b,
        None => return None,
    };
    Some((a, b))
}

/// A colle type bound to a date: one concrete session.
#[derive(Debug, Clone)]
pub struct Colle {
    pub id: ColleId,
    pub prof: Arc<Prof>,
    pub room: String,
    pub date: Date,
    pub start_hour: u8,
    pub end_hour: u8,
}

/// A colle as plain values; `day` is the Julian day number of its date.
pub struct ColleView {
    pub id: ColleId,
    pub prof: Seq<char>,
    pub room: Seq<char>,
    pub day: int,
    pub start_hour: int,
    pub end_hour: int,
}

impl View for Colle {
    type V = ColleView;

    open spec fn view(&self) -> ColleView {
        ColleView {
            id: self.id,
            prof: self.prof@,
            room: self.room@,
            day: self.date@,
            start_hour: self.start_hour as int,
            end_hour: self.end_hour as int,
        }
    }
}

/// Hours since the start of Julian day 0 at which the colle starts.
pub open spec fn start_key(c: ColleView) -> int {
    c.day * 24 + c.start_hour
}

/// Seconds since 1970-01-01T00:00:00Z of an hour of a day.
pub open spec fn unix_seconds(day: int, hour: int) -> int {
    (day - UNIX_EPOCH_JULIAN_DAY) * 86400 + hour * 3600
}

/// The session of catalog entry `d` on the day `day`.
pub open spec fn instance_of(d: ColleDataView, day: int) -> ColleView {
    ColleView {
        id: d.id,
        prof: d.prof,
        room: d.room,
        day,
        start_hour: d.start_hour,
        end_hour: d.end_hour,
    }
}

/// `08h-10h`: both hours on two digits.
pub open spec fn hour_range_text(start: int, end: int) -> Seq<char> {
    padded_decimal(start as nat, 2) + "h-"@ + padded_decimal(end as nat, 2) + "h"@
}

pub open spec fn id_text(id: ColleId, f: ColleStringFormat) -> Seq<char> {
    match f {
        ColleStringFormat::Explicit => explicit_text(id),
        ColleStringFormat::Implicit => compact_text(id),
    }
}

/// `M4: Lundi 2 Sep 08h-10h avec Dupont en 207`.
pub open spec fn colle_text(c: ColleView, f: ColleStringFormat) -> Seq<char> {
    let cal = calendar_date_of(c.day);
    id_text(c.id, f) + ": "@ + day_name(weekday_of(c.day)) + " "@ + decimal_text(cal.2 as nat)
        + " "@ + month_short_name(cal.1) + " "@ + hour_range_text(c.start_hour, c.end_hour)
        + " avec "@ + c.prof + " en "@ + c.room
}

impl Colle {
    /// The catalog entry described by one line, its instructor looked up in
    /// (or added to) the registry.
    pub fn parse_string(s: &str, profs: &mut ProfRegistry) -> (r: Result<ColleData, ColleParsingError>)
        ensures
            catalog_line(s@) matches Ok(v) ==> r matches Ok(d) && d@ == v && final(profs)@
                == with_name(old(profs)@, v.prof) && hours_valid(v),
            catalog_line(s@) matches Err(e) ==> r == Err::<ColleData, ColleParsingError>(e)
                && final(profs)@ == old(profs)@,
    {
        let l = chars_of(s);
        let n = l.len();
        if n == 0 || l[n - 1] != ')' {
            return Err(ColleParsingError::MissingRoom);
        }
        assert(l@.drop_last() =~= l@.subrange(0, n - 1));
        let open = match find_last(l.as_slice(), n - 1, '(') {
            Some(o) => o,
            None => return Err(ColleParsingError::MissingRoom),
        };
        if open < 1 || l[open - 1] != ' ' {
            return Err(ColleParsingError::MissingRoom);
        }
        let room = copy_range(l.as_slice(), open + 1, n - 1);
        let rest = copy_range(l.as_slice(), 0, open - 1);
        let toks = tokens(rest.as_slice());
        let ghost tv = tokens_of(l@.subrange(0, open - 1));
        assert(views_of(toks@) == tv);
        let k = toks.len();
        if k == 0 {
            return Err(ColleParsingError::MissingToken);
        }
        assert(toks@[0]@ == tv[0]);
        let id = match ColleId::parse(toks[0].as_slice()) {
            Some(id) => id,
            None => return Err(ColleParsingError::IdParsingFailed),
        };
        if k >= 3 {
            assert(toks@[1]@ == tv[1]);
            assert(toks@[2]@ == tv[2]);
            if let Some(jour) = Jour::from_code(toks[1].as_slice()) {
                if let Some((start_hour, end_hour)) = parse_hours(toks[2].as_slice()) {
                    let name = join_tokens(&toks, 3, k);
                    assert(views_of(toks@).subrange(3, k as int) =~= tv.subrange(3, k as int));
                    let prof = profs.intern(string_of(name.as_slice()));
                    return Ok(
                        ColleData {
                            id,
                            start_hour,
                            end_hour,
                            jour,
                            room: string_of(room.as_slice()),
                            prof,
                        },
                    );
                }
            }
        }
        if k < 2 {
            return Err(ColleParsingError::MissingToken);
        }
        assert(toks@[k - 1]@ == tv[k - 1]);
        let (start_hour, end_hour) = match parse_hours(toks[k - 1].as_slice()) {
            Some(h) => h,
            None => return Err(ColleParsingError::BadHours),
        };
        if k < 3 {
            return Err(ColleParsingError::MissingToken);
        }
        assert(toks@[k - 2]@ == tv[k - 2]);
        let jour = match Jour::from_code(toks[k - 2].as_slice()) {
            Some(j) => j,
            None => return Err(ColleParsingError::BadWeekday),
        };
        let name = join_tokens(&toks, 1, k - 2);
        assert(views_of(toks@).subrange(1, k - 2) =~= tv.subrange(1, k - 2));
        let prof = profs.intern(string_of(name.as_slice()));
        Ok(ColleData { id, start_hour, end_hour, jour, room: string_of(room.as_slice()), prof })
    }

    /// The session of catalog entry `data` on `date`, when both its hours
    /// are hours of a day.
    pub fn from_data_and_date(date: Date, data: ColleData) -> (r: Option<Colle>)
        ensures
            r is Some <==> data.start_hour <= 23 && data.end_hour <= 23,
            r matches Some(c) ==> c@ == instance_of(data@, date@),
    {
        if data.start_hour > 23 || data.end_hour > 23 {
            return None;
        }
        Some(
            Colle {
                id: data.id,
                prof: data.prof,
                room: data.room,
                date,
                start_hour: data.start_hour,
                end_hour: data.end_hour,
            },
        )
    }

    /// The position of the start in time, in hours.
    pub fn start_key(&self) -> (r: i64)
        ensures
            r == start_key(self@),
    {
        self.date.julian_day() as i64 * 24 + self.start_hour as i64
    }

    /// The start, in seconds since 1970-01-01T00:00:00Z.
    pub fn start_unix(&self) -> (r: i64)
        ensures
            r == unix_seconds(self@.day, self@.start_hour),
    {
        self.date.unix_seconds_at(self.start_hour)
    }

    /// The end, in seconds since 1970-01-01T00:00:00Z.
    pub fn end_unix(&self) -> (r: i64)
        ensures
            r == unix_seconds(self@.day, self@.end_hour),
    {
        self.date.unix_seconds_at(self.end_hour)
    }

    /// The hours of the session, as in `08h-10h`.
    pub fn horaire(&self) -> (r: String)
        ensures
            r@ == hour_range_text(self@.start_hour, self@.end_hour),
    {
        let mut s = String::new();
        push_padded(&mut s, self.start_hour as u64, 2);
        s.append("h-");
        push_padded(&mut s, self.end_hour as u64, 2);
        s.append("h");
        s
    }

    /// The session described with its explicit colle type.
    pub fn to_string(&self) -> (r: String)
        requires
            is_subject(self.id.0),
        ensures
            r@ == colle_text(self@, ColleStringFormat::Explicit),
    {
        self.format(ColleStringFormat::Explicit)
    }

    /// One line describing the session, as in
    /// `M4: Lundi 2 Sep 08h-10h avec Dupont en 207`.
    pub fn format(&self, format: ColleStringFormat) -> (r: String)
        requires
            format is Explicit ==> is_subject(self.id.0),
        ensures
            r@ == colle_text(self@, format),
    {
        let mut s = match format {
            ColleStringFormat::Explicit => self.id.explicit(),
            ColleStringFormat::Implicit => self.id.to_string(),
        };
        let (_, month, day) = self.date.to_calendar_date();
        s.append(": ");
        s.append(Jour(self.date.weekday()).to_string().as_str());
        s.append(" ");
        push_decimal(&mut s, day as u64);
        s.append(" ");
        s.append(month_to_short_fr(month).as_str());
        s.append(" ");
        s.append(self.horaire().as_str());
        s.append(" avec ");
        s.append(self.prof.name());
        s.append(" en ");
        s.append(self.room.as_str());
        s
    }
}

} // verus!
