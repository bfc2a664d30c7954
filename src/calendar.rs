//! Export of a group's colles as an iCalendar document, built with the `ics`
//! crate.
use vstd::prelude::*;
use crate::colle::{explicit_text, hour_range_text, is_subject, Colle, ColleView};
use crate::date::calendar_date_of;
use crate::group::Group;
use crate::text::{decimal_text, padded_decimal, push_decimal, push_padded};

verus! {

#[verifier::external_type_specification]
#[verifier::external_body]
pub struct ExEvent<'a>(ics::Event<'a>);

#[verifier::external_type_specification]
#[verifier::external_body]
pub struct ExICalendar<'a>(ics::ICalendar<'a>);

/// A property of a calendar component: its name and value.
pub type PropertyView = (Seq<char>, Seq<char>);

/// The properties of an event, in the order they were added.
pub uninterp spec fn event_properties(e: ics::Event<'static>) -> Seq<PropertyView>;

/// The properties of a calendar object, in the order they were added.
pub uninterp spec fn calendar_properties(c: ics::ICalendar<'static>) -> Seq<PropertyView>;

/// The properties of each event of a calendar object, in the order the
/// events were added.
pub uninterp spec fn calendar_events(c: ics::ICalendar<'static>) -> Seq<Seq<PropertyView>>;

/// The iCalendar text of a calendar object with these properties and events.
pub uninterp spec fn ics_text(properties: Seq<PropertyView>, events: Seq<Seq<PropertyView>>) -> Seq<
    char,
>;

pub open spec fn is_lower_hex(c: char) -> bool {
    ('0' <= c && c <= '9') || ('a' <= c && c <= 'f')
}

/// A version-4 UUID in hyphenated lower-case form, as in
/// `67e55044-10b1-426f-9247-bb680e5fe0c8`.
pub open spec fn is_uuid_v4_text(s: Seq<char>) -> bool {
    &&& s.len() == 36
    &&& forall|i: int|
        0 <= i < 36 ==> if i == 8 || i == 13 || i == 18 || i == 23 {
            s[i] == '-'
        } else {
            is_lower_hex(#[trigger] s[i])
        }
    &&& s[14] == '4'
}

/// Relies on `ics::Event::new`: an event holding the `UID` and `DTSTAMP`
/// properties.
#[verifier::external_body]
fn new_event(uid: String, dtstamp: String) -> (r: ics::Event<'static>)
    ensures
        event_properties(r) == seq![("UID"@, uid@), ("DTSTAMP"@, dtstamp@)],
{
    ics::Event::new(uid, dtstamp)
}

/// Relies on `ics::Event::push` (with `ics::components::Property::new` to
/// build the property): appends one property.
#[verifier::external_body]
fn push_property(e: &mut ics::Event<'static>, key: &'static str, value: String)
    ensures
        event_properties(*final(e)) == event_properties(*old(e)).push((key@, value@)),
{
    e.push(ics::components::Property::new(key, value))
}

/// Relies on `ics::ICalendar::new`: a calendar object with the `VERSION` and
/// `PRODID` properties and no event.
#[verifier::external_body]
fn new_calendar(version: &'static str, prodid: String) -> (r: ics::ICalendar<'static>)
    ensures
        calendar_properties(r) == seq![("VERSION"@, version@), ("PRODID"@, prodid@)],
        calendar_events(r) == Seq::<Seq<PropertyView>>::empty(),
{
    ics::ICalendar::new(version, prodid)
}

/// Relies on `ics::ICalendar::add_event`: appends one event.
#[verifier::external_body]
fn add_event(c: &mut ics::ICalendar<'static>, e: ics::Event<'static>)
    ensures
        calendar_properties(*final(c)) == calendar_properties(*old(c)),
        calendar_events(*final(c)) == calendar_events(*old(c)).push(event_properties(e)),
{
    c.add_event(e)
}

/// Relies on the `Display` impl of `ics::ICalendar`: the iCalendar text.
#[verifier::external_body]
fn calendar_text(c: &ics::ICalendar<'static>) -> (r: String)
    ensures
        r@ == ics_text(calendar_properties(*c), calendar_events(*c)),
{
    c.to_string()
}

/// Relies on `uuid::Uuid::new_v4` and its `Display` impl: a random
/// version-4 UUID, hyphenated, in lower case.
#[verifier::external_body]
fn fresh_uid() -> (r: String)
    ensures
        is_uuid_v4_text(r@),
{
    uuid::Uuid::new_v4().to_string()
}

/// A year on four digits, with a `-` before it when negative.
pub open spec fn year_text(y: int) -> Seq<char> {
    if y < 0 {
        seq!['-'] + padded_decimal((-y) as nat, 4)
    } else {
        padded_decimal(y as nat, 4)
    }
}

/// A UTC timestamp in basic form, as in `20240902T080000Z`.
pub open spec fn utc_stamp(day: int, hour: int) -> Seq<char> {
    let cal = calendar_date_of(day);
    year_text(cal.0) + padded_decimal(cal.1 as nat, 2) + padded_decimal(cal.2 as nat, 2) + "T"@
        + padded_decimal(hour as nat, 2) + "0000Z"@
}

pub open spec fn summary_text(c: ColleView) -> Seq<char> {
    "Colle "@ + explicit_text(c.id) + " avec "@ + c.prof
}

pub open spec fn description_text(c: ColleView) -> Seq<char> {
    summary_text(c) + " en salle "@ + c.room + " de "@ + hour_range_text(c.start_hour, c.end_hour)
}

/// The properties of the event exported for colle `c` under identifier `uid`.
pub open spec fn colle_event(c: ColleView, uid: Seq<char>) -> Seq<PropertyView> {
    seq![
        ("UID"@, uid),
        ("DTSTAMP"@, utc_stamp(c.day, c.start_hour)),
        ("ORGANIZER"@, c.prof),
        ("DTSTART"@, utc_stamp(c.day, c.start_hour)),
        ("DTEND"@, utc_stamp(c.day, c.end_hour)),
        ("CATEGORIES"@, "Colles"@),
        ("SUMMARY"@, summary_text(c)),
        ("DESCRIPTION"@, description_text(c)),
    ]
}

/// The product identifier of a group's calendar.
pub open spec fn prodid_text(group_id: nat) -> Seq<char> {
    "-//Wattou//Calendrier de colle groupe "@ + decimal_text(group_id) + "//FR"@
}

/// The events of `colles`, the `i`-th under identifier `uids[i]`.
pub open spec fn colle_events(colles: Seq<Colle>, uids: Seq<Seq<char>>) -> Seq<Seq<PropertyView>> {
    Seq::new(colles.len(), |i: int| colle_event(colles[i]@, uids[i]))
}

/// All colle types have a known subject, so their explicit form exists.
pub open spec fn subjects_known(colles: Seq<Colle>) -> bool {
    forall|i: int| 0 <= i < colles.len() ==> is_subject(#[trigger] colles[i].id.0)
}

fn push_stamp(s: &mut String, c: &Colle, hour: u8)
    ensures
        final(s)@ == old(s)@ + utc_stamp(c@.day, hour as int),
{
    let (y, m, d) = c.date.to_calendar_date();
    if y < 0 {
        s.push('-');
        push_padded(s, (-y) as u64, 4);
    } else {
        push_padded(s, y as u64, 4);
    }
    push_padded(s, m as u64, 2);
    push_padded(s, d as u64, 2);
    s.append("T");
    push_padded(s, hour as u64, 2);
    s.append("0000Z");
    assert(s@ =~= old(s)@ + utc_stamp(c@.day, hour as int));
}

impl Colle {
    fn stamp(&self, hour: u8) -> (r: String)
        ensures
            r@ == utc_stamp(self@.day, hour as int),
    {
        let mut s = String::new();
        push_stamp(&mut s, self, hour);
        assert(s@ =~= utc_stamp(self@.day, hour as int));
        s
    }

    /// The calendar event of this colle, identified by `uid`.
    pub fn ics_event_with_uid(&self, uid: String) -> (r: ics::Event<'static>)
        requires
            is_subject(self.id.0),
        ensures
            event_properties(r) == colle_event(self@, uid@),
    {
        let start = self.stamp(self.start_hour);
        let mut event = new_event(uid, self.stamp(self.start_hour));
        push_property(&mut event, "ORGANIZER", self.prof.to_string());
        push_property(&mut event, "DTSTART", start);
        push_property(&mut event, "DTEND", self.stamp(self.end_hour));
        push_property(&mut event, "CATEGORIES", "Colles".to_owned());
        let mut summary = "Colle ".to_owned();
        summary.append(self.id.explicit().as_str());
        summary.append(" avec ");
        summary.append(self.prof.name());
        let mut description = summary.clone();
        push_property(&mut event, "SUMMARY", summary);
        description.append(" en salle ");
        description.append(self.room.as_str());
        description.append(" de ");
        description.append(self.horaire().as_str());
        push_property(&mut event, "DESCRIPTION", description);
        assert(event_properties(event) =~= colle_event(self@, uid@));
        event
    }

    /// The calendar event of this colle, under a fresh random identifier.
    pub fn to_ics_event(&self) -> (r: ics::Event<'static>)
        requires
            is_subject(self.id.0),
        ensures
            exists|uid: Seq<char>|
                is_uuid_v4_text(uid) && event_properties(r) == #[trigger] colle_event(self@, uid),
    {
        let uid = fresh_uid();
        let ghost u = uid@;
        let r = self.ics_event_with_uid(uid);
        assert(event_properties(r) == colle_event(self@, u));
        r
    }
}

impl Group {
    /// Whether every colle of the group has a known subject.
    pub fn subjects_known(&self) -> (r: bool)
        ensures
            r == subjects_known(self.colles@),
    {
        let mut i: usize = 0;
        while i < self.colles.len()
            invariant
                i <= self.colles@.len(),
                forall|k: int| 0 <= k < i ==> is_subject(#[trigger] self.colles@[k].id.0),
            decreases self.colles@.len() - i,
        {
            let c = self.colles[i].id.0;
            if !(c == 'M' || c == 'P' || c == 'A') {
                return false;
            }
            i = i + 1;
        }
        true
    }

    /// The group's calendar document, the `i`-th colle's event identified by
    /// `uids[i]`.
    pub fn ics_calendar_with_uids(&self, uids: Vec<String>) -> (r: String)
        requires
            uids@.len() == self.colles@.len(),
            subjects_known(self.colles@),
        ensures
            r@ == ics_text(
                seq![("VERSION"@, "2.0"@), ("PRODID"@, prodid_text(self.id as nat))],
                colle_events(self.colles@, uids@.map_values(|u: String| u@)),
            ),
    {
        let ghost uv = uids@.map_values(|u: String| u@);
        let mut prodid = "-//Wattou//Calendrier de colle groupe ".to_owned();
        push_decimal(&mut prodid, self.id as u64);
        prodid.append("//FR");
        let mut calendar = new_calendar("2.0", prodid);
        let mut rest = uids;
        let mut i: usize = 0;
        assert(calendar_events(calendar) =~= colle_events(
            self.colles@.subrange(0, 0),
            uv.subrange(0, 0),
        ));
        while i < self.colles.len()
            invariant
                i <= self.colles@.len(),
                uv.len() == self.colles@.len(),
                rest@.map_values(|u: String| u@) == uv.subrange(i as int, uv.len() as int),
                rest@.len() == uv.len() - i,
                subjects_known(self.colles@),
                calendar_properties(calendar) == seq![
                    ("VERSION"@, "2.0"@),
                    ("PRODID"@, prodid_text(self.id as nat)),
                ],
                calendar_events(calendar) == colle_events(
                    self.colles@.subrange(0, i as int),
                    uv.subrange(0, i as int),
                ),
            decreases self.colles@.len() - i,
        {
            let ghost before = rest@.map_values(|u: String| u@);
            let ghost old_rest = rest@;
            let uid = rest.remove(0);
            assert(uid == old_rest[0]);
            assert(uid@ == before[0]);
            assert(uid@ == uv[i as int]);
            let ghost rv = rest@.map_values(|u: String| u@);
            assert forall|k: int| 0 <= k < rest@.len() implies #[trigger] rv[k] == uv.subrange(
                i + 1,
                uv.len() as int,
            )[k] by {
                assert(rest@[k] == old_rest[k + 1]);
                assert(before[k + 1] == old_rest[k + 1]@);
            }
            assert(rest@.map_values(|u: String| u@) =~= uv.subrange(i + 1, uv.len() as int));
            assert(is_subject(self.colles@[i as int].id.0));
            let event = self.colles[i].ics_event_with_uid(uid);
            add_event(&mut calendar, event);
            assert(calendar_events(calendar) =~= colle_events(
                self.colles@.subrange(0, i + 1),
                uv.subrange(0, i + 1),
            ));
            i = i + 1;
        }
        assert(self.colles@.subrange(0, self.colles@.len() as int) =~= self.colles@);
        assert(uv.subrange(0, uv.len() as int) =~= uv);
        calendar_text(&calendar)
    }

    /// The group's calendar document, each event under a fresh random
    /// identifier.
    pub fn ics_calendar(&self) -> (r: String)
        requires
            subjects_known(self.colles@),
        ensures
            exists|uids: Seq<Seq<char>>|
                uids.len() == self.colles@.len() && (forall|i: int|
                    0 <= i < uids.len() ==> is_uuid_v4_text(#[trigger] uids[i])) && r@ == ics_text(
                    seq![("VERSION"@, "2.0"@), ("PRODID"@, prodid_text(self.id as nat))],
                    #[trigger] colle_events(self.colles@, uids),
                ),
    {
        let mut uids: Vec<String> = Vec::new();
        let mut i: usize = 0;
        while i < self.colles.len()
            invariant
                i <= self.colles@.len(),
                uids@.len() == i,
                forall|k: int| 0 <= k < i ==> is_uuid_v4_text(#[trigger] uids@[k]@),
            decreases self.colles@.len() - i,
        {
            uids.push(fresh_uid());
            i = i + 1;
        }
        let ghost uv = uids@.map_values(|u: String| u@);
        let r = self.ics_calendar_with_uids(uids);
        assert(forall|k: int| 0 <= k < uv.len() ==> is_uuid_v4_text(#[trigger] uv[k]));
        r
    }
}

} // verus!
